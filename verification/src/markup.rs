//! Markup fragments: pre-escaped chunks of HTML, and the escaping of
//! caller-supplied text into such chunks.

use vstd::prelude::*;

verus! {

/// The entity that stands for `&` in escaped HTML.
pub open spec fn amp_entity() -> Seq<char> {
    seq!['&', 'a', 'm', 'p', ';']
}

/// The entity that stands for `<` in escaped HTML.
pub open spec fn lt_entity() -> Seq<char> {
    seq!['&', 'l', 't', ';']
}

/// The entity that stands for `>` in escaped HTML.
pub open spec fn gt_entity() -> Seq<char> {
    seq!['&', 'g', 't', ';']
}

/// The entity that stands for `"` in escaped HTML.
pub open spec fn quot_entity() -> Seq<char> {
    seq!['&', 'q', 'u', 'o', 't', ';']
}

/// How a single character renders inside escaped text or an escaped
/// attribute value: the four markup-significant characters become
/// entities, everything else stands as itself.
pub open spec fn escape_char(c: char) -> Seq<char> {
    if c == '&' {
        amp_entity()
    } else if c == '<' {
        lt_entity()
    } else if c == '>' {
        gt_entity()
    } else if c == '"' {
        quot_entity()
    } else {
        seq![c]
    }
}

/// HTML entity escaping of a whole string, character by character.
pub open spec fn escape_html(s: Seq<char>) -> Seq<char>
    decreases s.len(),
{
    if s.len() == 0 {
        Seq::empty()
    } else {
        escape_char(s[0]) + escape_html(s.skip(1))
    }
}

/// The inverse reading of escaped text: the four entities turn back
/// into their characters, every other character stands as itself.
pub open spec fn unescape_html(s: Seq<char>) -> Seq<char>
    decreases s.len(),
{
    if s.len() == 0 {
        Seq::empty()
    } else if s.len() >= 5 && s.take(5) == amp_entity() {
        seq!['&'] + unescape_html(s.skip(5))
    } else if s.len() >= 4 && s.take(4) == lt_entity() {
        seq!['<'] + unescape_html(s.skip(4))
    } else if s.len() >= 4 && s.take(4) == gt_entity() {
        seq!['>'] + unescape_html(s.skip(4))
    } else if s.len() >= 6 && s.take(6) == quot_entity() {
        seq!['"'] + unescape_html(s.skip(6))
    } else {
        seq![s[0]] + unescape_html(s.skip(1))
    }
}

/// Holds when a string can stand inside text content or a quoted
/// attribute value without opening or closing any tag or attribute:
/// it carries no raw `<`, `>`, or `"`.
pub open spec fn no_markup_breakers(s: Seq<char>) -> bool {
    forall|i: int| 0 <= i < s.len() ==> s[i] != '<' && s[i] != '>' && s[i] != '"'
}

/// Escaping introduces no tag or attribute boundary: the escaped text
/// carries no raw `<`, `>`, or `"`.
pub proof fn lemma_escape_no_breakers(s: Seq<char>)
    ensures
        no_markup_breakers(escape_html(s)),
    decreases s.len(),
{
    if s.len() == 0 {
    } else {
        let e = escape_char(s[0]);
        let rest = escape_html(s.skip(1));
        lemma_escape_no_breakers(s.skip(1));
        assert(no_markup_breakers(e));
        assert forall|i: int| 0 <= i < (e + rest).len() implies (e + rest)[i] != '<' && (e
            + rest)[i] != '>' && (e + rest)[i] != '"' by {
            if i < e.len() {
                assert((e + rest)[i] == e[i]);
            } else {
                assert((e + rest)[i] == rest[i - e.len()]);
            }
        }
    }
}

/// Escaping loses nothing: reading the entities back gives the
/// original string, for every string.
pub proof fn lemma_unescape_escape(s: Seq<char>)
    ensures
        unescape_html(escape_html(s)) == s,
    decreases s.len(),
{
    if s.len() == 0 {
        assert(unescape_html(escape_html(s)) =~= s);
    } else {
        let c = s[0];
        let e = escape_char(c);
        let rest = escape_html(s.skip(1));
        let es = e + rest;
        lemma_unescape_escape(s.skip(1));
        assert(escape_html(s) == es);
        if c == '&' {
            assert(es.take(5) =~= amp_entity());
            assert(es.skip(5) =~= rest);
            assert(unescape_html(es) == seq!['&'] + s.skip(1));
            assert(seq!['&'] + s.skip(1) =~= s);
        } else if c == '<' {
            assert(es.len() >= 5 ==> es.take(5)[1] == 'l');
            assert(es.len() >= 5 ==> es.take(5) != amp_entity());
            assert(es.take(4) =~= lt_entity());
            assert(es.skip(4) =~= rest);
            assert(unescape_html(es) == seq!['<'] + s.skip(1));
            assert(seq!['<'] + s.skip(1) =~= s);
        } else if c == '>' {
            assert(es.len() >= 5 ==> es.take(5)[1] == 'g');
            assert(es.len() >= 5 ==> es.take(5) != amp_entity());
            assert(es.take(4)[1] == 'g');
            assert(es.take(4) != lt_entity());
            assert(es.take(4) =~= gt_entity());
            assert(es.skip(4) =~= rest);
            assert(unescape_html(es) == seq!['>'] + s.skip(1));
            assert(seq!['>'] + s.skip(1) =~= s);
        } else if c == '"' {
            assert(es.take(5)[1] == 'q');
            assert(es.take(5) != amp_entity());
            assert(es.take(4)[1] == 'q');
            assert(es.take(4) != lt_entity());
            assert(es.take(4) != gt_entity());
            assert(es.take(6) =~= quot_entity());
            assert(es.skip(6) =~= rest);
            assert(unescape_html(es) == seq!['"'] + s.skip(1));
            assert(seq!['"'] + s.skip(1) =~= s);
        } else {
            assert(es[0] == c);
            assert(es.len() >= 5 ==> es.take(5)[0] == c);
            assert(es.len() >= 5 ==> es.take(5) != amp_entity());
            assert(es.len() >= 4 ==> es.take(4)[0] == c);
            assert(es.len() >= 4 ==> es.take(4) != lt_entity());
            assert(es.len() >= 4 ==> es.take(4) != gt_entity());
            assert(es.len() >= 6 ==> es.take(6)[0] == c);
            assert(es.len() >= 6 ==> es.take(6) != quot_entity());
            assert(es.skip(1) =~= rest);
            assert(unescape_html(es) == seq![c] + s.skip(1));
            assert(seq![c] + s.skip(1) =~= s);
        }
    }
}

/// The pattern stands in `s` at position `i`.
pub open spec fn occurs_at(s: Seq<char>, pat: Seq<char>, i: int) -> bool {
    0 <= i && i + pat.len() <= s.len() && s.subrange(i, i + pat.len()) == pat
}

/// How many positions of `s` the pattern stands at.
pub open spec fn count_occ(s: Seq<char>, pat: Seq<char>) -> nat
    decreases s.len(),
{
    if pat.len() == 0 || s.len() < pat.len() {
        0
    } else {
        (if s.take(pat.len() as int) == pat {
            1nat
        } else {
            0nat
        }) + count_occ(s.skip(1), pat)
    }
}

/// A pattern that stands at no position of `s` stands in `s` zero
/// times.
pub proof fn lemma_count_occ_zero(s: Seq<char>, pat: Seq<char>)
    requires
        pat.len() >= 1,
        forall|j: int| !occurs_at(s, pat, j),
    ensures
        count_occ(s, pat) == 0,
    decreases s.len(),
{
    if s.len() < pat.len() {
    } else {
        if s.take(pat.len() as int) == pat {
            assert(s.subrange(0, pat.len() as int) =~= s.take(pat.len() as int));
            assert(occurs_at(s, pat, 0));
        }
        assert forall|j: int| !occurs_at(s.skip(1), pat, j) by {
            if occurs_at(s.skip(1), pat, j) {
                assert(s.subrange(j + 1, j + 1 + pat.len()) =~= s.skip(1).subrange(
                    j,
                    j + pat.len(),
                ));
                assert(occurs_at(s, pat, j + 1));
            }
        }
        lemma_count_occ_zero(s.skip(1), pat);
    }
}

/// A pattern that stands at one position of `s` and at no other stands
/// in `s` exactly once.
pub proof fn lemma_count_occ_single(s: Seq<char>, pat: Seq<char>, p: int)
    requires
        pat.len() >= 1,
        occurs_at(s, pat, p),
        forall|j: int| occurs_at(s, pat, j) ==> j == p,
    ensures
        count_occ(s, pat) == 1,
    decreases s.len(),
{
    if p == 0 {
        assert(s.take(pat.len() as int) =~= s.subrange(0, pat.len() as int));
        assert(s.take(pat.len() as int) == pat);
        assert forall|j: int| !occurs_at(s.skip(1), pat, j) by {
            if occurs_at(s.skip(1), pat, j) {
                assert(s.subrange(j + 1, j + 1 + pat.len()) =~= s.skip(1).subrange(
                    j,
                    j + pat.len(),
                ));
                assert(occurs_at(s, pat, j + 1));
            }
        }
        lemma_count_occ_zero(s.skip(1), pat);
    } else {
        if s.take(pat.len() as int) == pat {
            assert(s.subrange(0, pat.len() as int) =~= s.take(pat.len() as int));
            assert(occurs_at(s, pat, 0));
        }
        assert(occurs_at(s.skip(1), pat, p - 1)) by {
            assert(s.skip(1).subrange(p - 1, p - 1 + pat.len()) =~= s.subrange(p, p + pat.len()));
        }
        assert forall|j: int| occurs_at(s.skip(1), pat, j) implies j == p - 1 by {
            assert(s.subrange(j + 1, j + 1 + pat.len()) =~= s.skip(1).subrange(j, j + pat.len()));
            assert(occurs_at(s, pat, j + 1));
        }
        lemma_count_occ_single(s.skip(1), pat, p - 1);
    }
}

/// Holds when no body element opens inside this markup: wherever `<`
/// stands, it is not the last character, and the character after it is
/// not `b`.
pub open spec fn opens_no_body(s: Seq<char>) -> bool {
    &&& forall|i: int| 0 <= i && i + 1 < s.len() && #[trigger] s[i] == '<' ==> s[i + 1] != 'b'
    &&& s.len() > 0 ==> s[s.len() - 1] != '<'
}

/// Markup pieces that open no body element still open none when
/// spliced together.
pub proof fn lemma_opens_no_body_concat(a: Seq<char>, b: Seq<char>)
    requires
        opens_no_body(a),
        opens_no_body(b),
    ensures
        opens_no_body(a + b),
{
    let ab = a + b;
    assert forall|i: int| 0 <= i && i + 1 < ab.len() && #[trigger] ab[i] == '<' implies ab[i
        + 1] != 'b' by {
        if i + 1 < a.len() {
            assert(ab[i] == a[i]);
            assert(ab[i + 1] == a[i + 1]);
        } else if i < a.len() {
            assert(ab[i] == a[i]);
            assert(i == a.len() - 1);
        } else {
            assert(ab[i] == b[i - a.len()]);
            assert(ab[i + 1] == b[i + 1 - a.len()]);
        }
    }
    if ab.len() > 0 {
        if b.len() > 0 {
            assert(ab[ab.len() - 1] == b[b.len() - 1]);
        } else {
            assert(ab[ab.len() - 1] == a[a.len() - 1]);
        }
    }
}

/// Relies on maud's `Render` impl for `str`, whose `render_to` runs
/// maud's `escape_to_string`: it appends the input to the buffer with
/// `&`, `<`, `>`, `"` replaced by `&amp;`, `&lt;`, `&gt;`, `&quot;`
/// and every other character kept as it is.
#[verifier::external_body]
pub(crate) fn escape_str(s: &str) -> (r: String)
    ensures
        r@ == escape_html(s@),
{
    let mut out = String::new();
    maud::Render::render_to(s, &mut out);
    out
}

/// A self-contained piece of already-safe HTML markup. Its view is the
/// exact character sequence that rendering splices in verbatim.
pub struct Fragment {
    html: String,
}

impl View for Fragment {
    type V = Seq<char>;

    closed spec fn view(&self) -> Seq<char> {
        self.html@
    }
}

impl Fragment {
    /// Wraps markup that is already safe. The caller answers for the
    /// text having been built through escaping primitives; it is
    /// spliced into documents verbatim.
    pub fn from_raw(html: String) -> (r: Fragment)
        ensures
            r@ == html@,
    {
        Fragment { html }
    }

    /// Builds a text fragment from an arbitrary string by escaping it,
    /// so that it can stand inside element content.
    pub fn from_text(text: &str) -> (r: Fragment)
        ensures
            r@ == escape_html(text@),
    {
        Fragment { html: escape_str(text) }
    }

    /// The fragment's markup text.
    pub fn as_str(&self) -> (r: &str)
        ensures
            r@ == self@,
    {
        self.html.as_str()
    }
}

} // verus!
