use boilerplate::{Boilerplate, Fragment};

const SKELETON_HEAD: &str = "<!DOCTYPE html><html lang=\"en\"><head><meta charset=\"UTF-8\"><meta name=\"viewport\" content=\"width=device-width, initial-scale=1.0\"><meta http-equiv=\"X-UA-Compatible\" content=\"IE=edge\"><title>";

#[test]
fn empty_document_exact() {
    let page = Boilerplate::new("My Page").render();
    let expected = format!("{}My Page</title></head></html>", SKELETON_HEAD);
    assert_eq!(page, expected);
}

#[test]
fn doctype_prefix() {
    let page = Boilerplate::new("t").render();
    assert!(page.starts_with("<!DOCTYPE html>"));
}

#[test]
fn end_to_end_links_in_order() {
    let page = Boilerplate::new("My Page")
        .link_css("/style.css")
        .link_icon("/favicon.ico")
        .render();
    let expected = format!(
        "{}My Page</title>\
         <link rel=\"stylesheet\" type=\"text/css\" href=\"/style.css\">\
         <link rel=\"icon\" type=\"text/x-icon\" href=\"/favicon.ico\">\
         </head></html>",
        SKELETON_HEAD
    );
    assert_eq!(page, expected);
    assert!(!page.contains("<body"));
}

#[test]
fn links_keep_insertion_order() {
    let page = Boilerplate::new("t")
        .link_css("/a.css")
        .link(Fragment::from_raw("<script src=\"/a.js\"></script>".to_string()))
        .link_css("/b.css")
        .render();
    let a = page.find("/a.css").unwrap();
    let s = page.find("/a.js").unwrap();
    let b = page.find("/b.css").unwrap();
    assert!(a < s && s < b);
    assert!(page.contains("<script src=\"/a.js\"></script>"));
}

#[test]
fn duplicate_links_kept() {
    let page = Boilerplate::new("t").link_css("/a.css").link_css("/a.css").render();
    assert_eq!(page.matches("/a.css").count(), 2);
}

#[test]
fn render_is_idempotent() {
    let page = Boilerplate::new("My Page").link_css("/style.css");
    let first = page.render();
    let second = page.render();
    assert_eq!(first, second);
}

#[test]
fn render_does_not_consume() {
    let page = Boilerplate::new("t");
    let before = page.render();
    let after = page.link_css("/late.css").render();
    assert!(before.contains("</head>"));
    assert!(after.contains("/late.css"));
}

#[test]
fn title_is_escaped() {
    let page = Boilerplate::new("a<b>&\"c").render();
    assert!(page.contains("<title>a&lt;b&gt;&amp;&quot;c</title>"));
    assert!(!page.contains("<title>a<b>"));
}

#[test]
fn href_is_escaped() {
    let page = Boilerplate::new("t").link_css("/x?a=1&b=\"<y>\"").render();
    assert!(page.contains("href=\"/x?a=1&amp;b=&quot;&lt;y&gt;&quot;\""));
    assert!(!page.contains("href=\"/x?a=1&b"));
}

#[test]
fn icon_href_is_escaped() {
    let page = Boilerplate::new("t").link_icon("/i&co.ico").render();
    assert!(page.contains("<link rel=\"icon\" type=\"text/x-icon\" href=\"/i&amp;co.ico\">"));
}

#[test]
fn from_text_escapes() {
    let frag = Fragment::from_text("<i>not markup</i>");
    assert_eq!(frag.as_str(), "&lt;i&gt;not markup&lt;/i&gt;");
}

#[test]
fn from_raw_is_verbatim() {
    let frag = Fragment::from_raw("<meta name=\"x\">".to_string());
    assert_eq!(frag.as_str(), "<meta name=\"x\">");
}

#[test]
fn escaping_matches_maud() {
    let raw = "he said \"hi\" & <ok>";
    let by_maud = maud::Render::render(raw).into_string();
    let page = Boilerplate::new("t").link_css(Box::leak(raw.to_string().into_boxed_str())).render();
    assert!(page.contains(&format!("href=\"{}\"", by_maud)));
    let titled = Boilerplate::new(Box::leak(raw.to_string().into_boxed_str())).render();
    assert!(titled.contains(&format!("<title>{}</title>", by_maud)));
}

#[test]
fn no_body_renders_no_body_element() {
    let page = Boilerplate::new("t").link_css("/a.css").render();
    assert!(!page.contains("<body"));
    assert!(page.ends_with("</head></html>"));
}

#[test]
fn unset_body_matches_untouched_document() {
    let configured = Boilerplate::new("t").link_css("/a.css").render();
    let again = Boilerplate::new("t").link_css("/a.css").render();
    assert_eq!(configured, again);
}

#[test]
fn body_appended_verbatim_after_html() {
    let page = Boilerplate::new("t")
        .body(Fragment::from_raw("<body><p>hi</p></body>".to_string()))
        .render();
    assert!(page.ends_with("</head></html><body><p>hi</p></body>"));
    assert_eq!(page.matches("<body>").count(), 1);
}

#[test]
fn body_inner_content_not_reescaped() {
    let page = Boilerplate::new("t")
        .body(Fragment::from_raw("<body><p>a &amp; b</p></body>".to_string()))
        .render();
    assert!(page.contains("<body><p>a &amp; b</p></body>"));
    assert!(!page.contains("&amp;amp;"));
}

#[test]
fn setting_body_twice_replaces() {
    let page = Boilerplate::new("t")
        .body(Fragment::from_raw("<body>first</body>".to_string()))
        .body(Fragment::from_raw("<body>second</body>".to_string()))
        .render();
    assert!(page.contains("<body>second</body>"));
    assert!(!page.contains("first"));
}

#[test]
fn exactly_one_title_element() {
    let page = Boilerplate::new("one <title> two").render();
    assert_eq!(page.matches("<title>").count(), 1);
    assert_eq!(page.matches("</title>").count(), 1);
}
