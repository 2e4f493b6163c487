//! The library's general guarantees, stated and proved over the
//! document model and the render function.

use vstd::prelude::*;

use crate::document::{
    body_text, concat_fragments, css_link_markup, doctype_text, head_close, head_open,
    icon_link_markup, spec_render, title_close, DocView,
};
use crate::markup::{
    count_occ, escape_html, lemma_count_occ_single, lemma_count_occ_zero, lemma_escape_no_breakers,
    lemma_opens_no_body_concat, lemma_unescape_escape, no_markup_breakers, occurs_at,
    opens_no_body, unescape_html,
};

verus! {

/// A freshly created document renders to the fixed skeleton around its
/// escaped title and nothing else. The escaped title carries no raw
/// `<`, `>` or `"`, so it opens no element of its own, and un-escaping
/// it gives the title back: the output holds exactly the one title
/// element of the skeleton, with the given title as its text.
pub proof fn lemma_render_new(t: Seq<char>)
    ensures
        spec_render(DocView { title: t, links: Seq::empty(), body: None }) == doctype_text()
            + head_open() + escape_html(t) + title_close() + head_close(),
        unescape_html(escape_html(t)) == t,
        no_markup_breakers(escape_html(t)),
{
    lemma_unescape_escape(t);
    lemma_escape_no_breakers(t);
    let d = DocView { title: t, links: Seq::empty(), body: None };
    assert(spec_render(d) =~= doctype_text() + head_open() + escape_html(t) + title_close()
        + head_close());
}

/// Escaping is safe and lossless for every string: the escaped text
/// carries no raw `<`, `>` or `"`, so it introduces no tag or
/// attribute boundary wherever it is spliced in, and un-escaping it
/// gives the original string back.
pub proof fn lemma_escape_safe(s: Seq<char>)
    ensures
        no_markup_breakers(escape_html(s)),
        unescape_html(escape_html(s)) == s,
{
    lemma_escape_no_breakers(s);
    lemma_unescape_escape(s);
}

/// Head fragments render in insertion order: one more fragment added
/// at the end renders right after everything added before it, and the
/// rest of the document is unchanged.
pub proof fn lemma_link_order(d: DocView, l: Seq<char>)
    ensures
        concat_fragments(d.links.push(l)) == concat_fragments(d.links) + l,
        spec_render(DocView { title: d.title, links: d.links.push(l), body: d.body })
            == doctype_text() + head_open() + escape_html(d.title) + title_close()
            + concat_fragments(d.links) + l + head_close() + body_text(d.body),
{
    let pushed = d.links.push(l);
    assert(pushed.drop_last() =~= d.links);
    assert(pushed.last() == l);
    let d2 = DocView { title: d.title, links: pushed, body: d.body };
    assert(spec_render(d2) =~= doctype_text() + head_open() + escape_html(d.title) + title_close()
        + concat_fragments(d.links) + l + head_close() + body_text(d.body));
}

/// Rendering is a pure function of the document's state: two documents
/// in the same state render to the same string, whatever the history
/// that brought each of them there. In particular a document whose
/// body was never set renders byte-identically to any other bodiless
/// document with the same title and head fragments, and its output is
/// exactly the skeleton, title and head fragments, with no body part
/// at all.
pub proof fn lemma_render_pure(d1: DocView, d2: DocView)
    requires
        d1.title == d2.title,
        d1.links == d2.links,
        d1.body == d2.body,
    ensures
        spec_render(d1) == spec_render(d2),
        d1.body is None ==> spec_render(d1) == doctype_text() + head_open() + escape_html(d1.title)
            + title_close() + concat_fragments(d1.links) + head_close(),
{
    if d1.body is None {
        assert(spec_render(d1) =~= doctype_text() + head_open() + escape_html(d1.title)
            + title_close() + concat_fragments(d1.links) + head_close());
    }
}

/// A document whose body was never set renders no body element at
/// all: provided no head fragment opens one of its own, the pattern
/// `<body` stands nowhere in the output.
pub proof fn lemma_no_body_rendered(d: DocView)
    requires
        d.body is None,
        opens_no_body(concat_fragments(d.links)),
    ensures
        count_occ(spec_render(d), "<body"@) == 0,
{
    reveal_strlit("<!DOCTYPE html>");
    reveal_strlit("<html lang=\"en\"><head><meta charset=\"UTF-8\"><meta name=\"viewport\" content=\"width=device-width, initial-scale=1.0\"><meta http-equiv=\"X-UA-Compatible\" content=\"IE=edge\"><title>");
    reveal_strlit("</title>");
    reveal_strlit("</head></html>");
    reveal_strlit("<body");
    let a = doctype_text() + head_open();
    let e = escape_html(d.title);
    let t2 = title_close();
    let c = concat_fragments(d.links);
    let b2 = head_close();
    let out = spec_render(d);
    lemma_escape_no_breakers(d.title);
    assert(a.len() == 189);
    assert(t2.len() == 8);
    assert(b2.len() == 14);
    assert(out =~= a + e + t2 + c + b2);
    let pat = "<body"@;
    assert(pat.len() == 5);
    assert forall|j: int| !occurs_at(out, pat, j) by {
        if occurs_at(out, pat, j) {
            assert(out.subrange(j, j + 5)[0] == out[j]);
            assert(out.subrange(j, j + 5)[1] == out[j + 1]);
            assert(out[j] == '<');
            assert(out[j + 1] == 'b');
            let le = e.len() as int;
            let lc = c.len() as int;
            if j < 189 {
                assert(out[j] == a[j]);
                if j + 1 < 189 {
                    assert(out[j + 1] == a[j + 1]);
                } else {
                    assert(a[188] == '>');
                }
            } else if j < 189 + le {
                assert(out[j] == e[j - 189]);
                assert(no_markup_breakers(e));
            } else if j < 197 + le {
                assert(out[j] == t2[j - 189 - le]);
                if j - 189 - le + 1 < 8 {
                    assert(out[j + 1] == t2[j - 189 - le + 1]);
                } else {
                    assert(t2[7] == '>');
                }
            } else if j < 197 + le + lc {
                let k = j - 197 - le;
                assert(out[j] == c[k]);
                if k + 1 < lc {
                    assert(out[j + 1] == c[k + 1]);
                } else {
                    assert(k == lc - 1);
                    assert(c[lc - 1] != '<');
                }
            } else {
                let k = j - 197 - le - lc;
                assert(out[j] == b2[k]);
                assert(k + 5 <= 14);
                assert(out[j + 1] == b2[k + 1]);
            }
        }
    }
    lemma_count_occ_zero(out, pat);
}

/// The markup of a stylesheet or icon link opens no body element: its
/// only `<` is the one that opens the link element itself, and the
/// escaped href carries none.
pub proof fn lemma_link_markup_opens_no_body(href: Seq<char>)
    ensures
        opens_no_body(css_link_markup(href)),
        opens_no_body(icon_link_markup(href)),
{
    reveal_strlit("<link rel=\"stylesheet\" type=\"text/css\" href=\"");
    reveal_strlit("<link rel=\"icon\" type=\"text/x-icon\" href=\"");
    reveal_strlit("\">");
    lemma_escape_no_breakers(href);
    let e = escape_html(href);
    let le = e.len() as int;
    let css_open = "<link rel=\"stylesheet\" type=\"text/css\" href=\""@;
    let icon_open = "<link rel=\"icon\" type=\"text/x-icon\" href=\""@;
    let close = "\">"@;
    assert(css_open.len() == 45);
    assert(icon_open.len() == 42);
    let css = css_link_markup(href);
    let icon = icon_link_markup(href);
    assert(css =~= css_open + e + close);
    assert(icon =~= icon_open + e + close);
    assert forall|i: int| 0 <= i && i + 1 < css.len() && #[trigger] css[i] == '<' implies css[i
        + 1] != 'b' by {
        if i < 45 {
            assert(css[i] == css_open[i]);
            assert(css[i + 1] == css_open[i + 1]);
        } else if i < 45 + le {
            assert(css[i] == e[i - 45]);
            assert(no_markup_breakers(e));
        } else {
            assert(css[i] == close[i - 45 - le]);
        }
    }
    assert(css[css.len() - 1] == close[1]);
    assert forall|i: int| 0 <= i && i + 1 < icon.len() && #[trigger] icon[i] == '<' implies icon[i
        + 1] != 'b' by {
        if i < 42 {
            assert(icon[i] == icon_open[i]);
            assert(icon[i + 1] == icon_open[i + 1]);
        } else if i < 42 + le {
            assert(icon[i] == e[i - 42]);
            assert(no_markup_breakers(e));
        } else {
            assert(icon[i] == close[i - 42 - le]);
        }
    }
    assert(icon[icon.len() - 1] == close[1]);
}

/// Head fragments that each open no body element still open none once
/// spliced together in order.
pub proof fn lemma_concat_opens_no_body(links: Seq<Seq<char>>)
    requires
        forall|k: int| 0 <= k < links.len() ==> opens_no_body(#[trigger] links[k]),
    ensures
        opens_no_body(concat_fragments(links)),
    decreases links.len(),
{
    if links.len() == 0 {
        assert(opens_no_body(concat_fragments(links)));
    } else {
        lemma_concat_opens_no_body(links.drop_last());
        lemma_opens_no_body_concat(concat_fragments(links.drop_last()), links.last());
    }
}


/// The rendered output of a freshly created document holds exactly one
/// title element: whatever the title, the pattern `<title>` stands at
/// exactly one position of the output, the one the skeleton emits.
pub proof fn lemma_single_title(t: Seq<char>)
    ensures
        count_occ(
            spec_render(DocView { title: t, links: Seq::empty(), body: None }),
            "<title>"@,
        ) == 1,
{
    reveal_strlit("<!DOCTYPE html>");
    reveal_strlit("<html lang=\"en\"><head><meta charset=\"UTF-8\"><meta name=\"viewport\" content=\"width=device-width, initial-scale=1.0\"><meta http-equiv=\"X-UA-Compatible\" content=\"IE=edge\"><title>");
    reveal_strlit("</title>");
    reveal_strlit("</head></html>");
    reveal_strlit("<title>");
    let a = doctype_text() + head_open();
    let e = escape_html(t);
    let t2 = title_close();
    let b2 = head_close();
    let d = DocView { title: t, links: Seq::empty(), body: None };
    let out = spec_render(d);
    lemma_escape_no_breakers(t);
    assert(a.len() == 189);
    assert(t2.len() == 8);
    assert(b2.len() == 14);
    assert(out =~= a + e + t2 + b2);
    let pat = "<title>"@;
    assert(pat.len() == 7);
    let le = e.len() as int;
    assert(occurs_at(out, pat, 182)) by {
        assert(out.subrange(182, 189) =~= a.subrange(182, 189));
        assert(a.subrange(182, 189) =~= pat);
    }
    assert forall|j: int| occurs_at(out, pat, j) implies j == 182 by {
        assert(out.subrange(j, j + 7)[0] == out[j]);
        assert(out.subrange(j, j + 7)[1] == out[j + 1]);
        assert(out[j] == '<');
        assert(out[j + 1] == 't');
        if j < 189 {
            assert(out[j] == a[j]);
            if j + 1 < 189 {
                assert(out[j + 1] == a[j + 1]);
            } else {
                assert(a[188] == '>');
            }
        } else if j < 189 + le {
            assert(out[j] == e[j - 189]);
            assert(no_markup_breakers(e));
        } else if j < 197 + le {
            let k = j - 189 - le;
            assert(out[j] == t2[k]);
            if k + 1 < 8 {
                assert(out[j + 1] == t2[k + 1]);
            } else {
                assert(t2[7] == '>');
            }
        } else {
            let k = j - 197 - le;
            assert(out[j] == b2[k]);
            assert(k + 7 <= 14);
            assert(out[j + 1] == b2[k + 1]);
        }
    }
    lemma_count_occ_single(out, pat, 182);
}


/// A body fragment, once set, is the verbatim tail of the output: the
/// document renders as its bodiless rendering followed by exactly the
/// fragment's markup, appended after the closing html tag with nothing
/// re-escaped.
pub proof fn lemma_body_verbatim(d: DocView, b: Seq<char>)
    requires
        d.body == Some(b),
    ensures
        spec_render(d) == spec_render(DocView { title: d.title, links: d.links, body: None }) + b,
{
    assert(spec_render(d) =~= spec_render(DocView { title: d.title, links: d.links, body: None })
        + b);
}

} // verus!
