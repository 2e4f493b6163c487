//! The document builder: a fixed title, an ordered sequence of head
//! fragments, and an optional body fragment, rendered into one string.

use vstd::prelude::*;
use vstd::string::StringExecFns;

use crate::markup::{escape_html, escape_str, Fragment};

verus! {

/// The mathematical state of a document: its title text, the markup of
/// its head fragments in insertion order, and the markup of its body
/// fragment if one was set.
pub ghost struct DocView {
    pub title: Seq<char>,
    pub links: Seq<Seq<char>>,
    pub body: Option<Seq<char>>,
}

/// The doctype declaration that every rendered document starts with.
pub open spec fn doctype_text() -> Seq<char> {
    "<!DOCTYPE html>"@
}

/// The fixed skeleton between the doctype and the title text: the html
/// element, the opened head, and the three boilerplate meta tags.
pub open spec fn head_open() -> Seq<char> {
    "<html lang=\"en\"><head><meta charset=\"UTF-8\"><meta name=\"viewport\" content=\"width=device-width, initial-scale=1.0\"><meta http-equiv=\"X-UA-Compatible\" content=\"IE=edge\"><title>"@
}

/// What closes the title element.
pub open spec fn title_close() -> Seq<char> {
    "</title>"@
}

/// What closes the head and the html element, after the head fragments.
pub open spec fn head_close() -> Seq<char> {
    "</head></html>"@
}

/// The head fragments spliced together in order, first to last.
pub open spec fn concat_fragments(links: Seq<Seq<char>>) -> Seq<char>
    decreases links.len(),
{
    if links.len() == 0 {
        Seq::empty()
    } else {
        concat_fragments(links.drop_last()) + links.last()
    }
}

/// The body part of the output: the body fragment verbatim, or nothing
/// at all when no body was set.
pub open spec fn body_text(body: Option<Seq<char>>) -> Seq<char> {
    match body {
        Some(b) => b,
        None => Seq::empty(),
    }
}

/// The full rendered document: doctype, skeleton, escaped title, the
/// head fragments in order, the closed head and html element, and then
/// the body fragment (if any) verbatim after the closing html tag.
pub open spec fn spec_render(d: DocView) -> Seq<char> {
    doctype_text() + head_open() + escape_html(d.title) + title_close() + concat_fragments(
        d.links,
    ) + head_close() + body_text(d.body)
}

/// The markup of a stylesheet link with the given (escaped) href.
pub open spec fn css_link_markup(href: Seq<char>) -> Seq<char> {
    "<link rel=\"stylesheet\" type=\"text/css\" href=\""@ + escape_html(href) + "\">"@
}

/// The markup of an icon link with the given (escaped) href.
pub open spec fn icon_link_markup(href: Seq<char>) -> Seq<char> {
    "<link rel=\"icon\" type=\"text/x-icon\" href=\""@ + escape_html(href) + "\">"@
}

/// Relies on maud::DOCTYPE: the literal `<!DOCTYPE html>`.
#[verifier::external_body]
fn doctype() -> (r: String)
    ensures
        r@ == doctype_text(),
{
    maud::DOCTYPE.into_string()
}

/// An HTML document under construction: a fixed title, head fragments
/// in insertion order, and at most one body fragment. Every
/// configuring operation consumes the document and returns it back, so
/// calls chain; `render` reads it without consuming it.
pub struct Boilerplate {
    title: &'static str,
    links: Vec<Fragment>,
    body: Option<Fragment>,
}

impl View for Boilerplate {
    type V = DocView;

    closed spec fn view(&self) -> DocView {
        DocView {
            title: self.title@,
            links: self.links@.map_values(|f: Fragment| f@),
            body: match self.body {
                Some(f) => Some(f@),
                None => None,
            },
        }
    }
}

impl Boilerplate {
    /// A new document with the given title, no head fragments, and no
    /// body. The title is kept for escaping at render time; nothing
    /// validates it.
    pub fn new(title: &'static str) -> (r: Self)
        ensures
            r@ == (DocView { title: title@, links: Seq::empty(), body: None }),
    {
        let r = Boilerplate { title, links: Vec::new(), body: None };
        proof {
            assert(r@.links =~= Seq::<Seq<char>>::empty());
        }
        r
    }

    /// Sets the body fragment, replacing any earlier one. The fragment
    /// must carry its own `<body>` wrapper; rendering adds none.
    pub fn body(self, body: Fragment) -> (r: Self)
        ensures
            r@.title == self@.title,
            r@.links == self@.links,
            r@.body == Some(body@),
    {
        Boilerplate { title: self.title, links: self.links, body: Some(body) }
    }

    /// Appends an arbitrary pre-built fragment to the head, after all
    /// fragments added so far. Use this where the stylesheet and icon
    /// helpers do not fit; the fragment is spliced in verbatim.
    pub fn link(self, link: Fragment) -> (r: Self)
        ensures
            r@.title == self@.title,
            r@.body == self@.body,
            r@.links == self@.links.push(link@),
    {
        let ghost old_view = self@;
        let Boilerplate { title, mut links, body } = self;
        links.push(link);
        let r = Boilerplate { title, links, body };
        proof {
            assert(r@.links =~= old_view.links.push(link@));
        }
        r
    }

    /// Appends a stylesheet link to the head:
    /// `<link rel="stylesheet" type="text/css" href="...">` with the
    /// given href as an escaped attribute value.
    pub fn link_css(self, href: &'static str) -> (r: Self)
        ensures
            r@.title == self@.title,
            r@.body == self@.body,
            r@.links == self@.links.push(css_link_markup(href@)),
    {
        let mut s = String::from_str("<link rel=\"stylesheet\" type=\"text/css\" href=\"");
        let esc = escape_str(href);
        s.append(esc.as_str());
        s.append("\">");
        let frag = Fragment::from_raw(s);
        self.link(frag)
    }

    /// Appends an icon link to the head:
    /// `<link rel="icon" type="text/x-icon" href="...">` with the
    /// given href as an escaped attribute value.
    pub fn link_icon(self, href: &'static str) -> (r: Self)
        ensures
            r@.title == self@.title,
            r@.body == self@.body,
            r@.links == self@.links.push(icon_link_markup(href@)),
    {
        let mut s = String::from_str("<link rel=\"icon\" type=\"text/x-icon\" href=\"");
        let esc = escape_str(href);
        s.append(esc.as_str());
        s.append("\">");
        let frag = Fragment::from_raw(s);
        self.link(frag)
    }

    /// Appends the rendered document to the buffer: the doctype, the
    /// fixed skeleton, the escaped title, every head fragment in
    /// insertion order, the closing tags, and the body fragment (if
    /// any) verbatim after the closing html tag.
    pub fn render_to(&self, buffer: &mut String)
        ensures
            final(buffer)@ == old(buffer)@ + spec_render(self@),
    {
        let d = doctype();
        buffer.append(d.as_str());
        buffer.append(
            "<html lang=\"en\"><head><meta charset=\"UTF-8\"><meta name=\"viewport\" content=\"width=device-width, initial-scale=1.0\"><meta http-equiv=\"X-UA-Compatible\" content=\"IE=edge\"><title>",
        );
        let esc = escape_str(self.title);
        buffer.append(esc.as_str());
        buffer.append("</title>");
        let ghost prefix = buffer@;
        let mut i: usize = 0;
        while i < self.links.len()
            invariant
                i <= self.links.len(),
                buffer@ == prefix + concat_fragments(self@.links.take(i as int)),
                self@.links == self.links@.map_values(|f: Fragment| f@),
                self@.links.len() == self.links@.len(),
            decreases self.links.len() - i,
        {
            buffer.append(self.links[i].as_str());
            proof {
                let taken = self@.links.take(i + 1 as int);
                assert(taken.drop_last() =~= self@.links.take(i as int));
                assert(taken.last() == self@.links[i as int]);
            }
            i = i + 1;
        }
        proof {
            assert(self@.links.take(self.links@.len() as int) =~= self@.links);
        }
        buffer.append("</head></html>");
        match &self.body {
            Some(b) => {
                buffer.append(b.as_str());
            },
            None => {},
        }
        proof {
            assert(final(buffer)@ =~= old(buffer)@ + spec_render(self@));
        }
    }

    /// Renders the document to a fresh string. Rendering reads the
    /// document without changing it, so the result is a pure function
    /// of the document's state: two renders of the same unmodified
    /// document are byte-identical.
    pub fn render(&self) -> (r: String)
        ensures
            r@ == spec_render(self@),
    {
        let mut buffer = String::new();
        self.render_to(&mut buffer);
        buffer
    }
}

} // verus!
