use md2x_core::metadata::Metadata;
use md2x_core::template::{
    generate_toc, render_html_template, render_html_template_with_metadata,
    render_skill_metadata_html, toc_is_defined, HtmlTemplate,
};

fn page() -> HtmlTemplate {
    HtmlTemplate {
        page: "<title>{{TITLE}}</title>[{{TOC}}][{{SKILL_METADATA}}]<main>{{BODY}}</main><style>{{GITHUB_MD_CSS}}{{ATOM_ONE_DARK_CSS}}</style><script>{{HIGHLIGHT_JS}}</script>".to_string(),
        github_css: "g".to_string(),
        atom_css: "a".to_string(),
        highlight_js: "h".to_string(),
    }
}

const BODY: &str = "<h1>Hello World</h1><h2 id=\"x\">Sub &amp; more</h2><h3>  </h3><p>x</p>";

#[test]
fn toc_lists_headings_and_adds_anchors() {
    assert!(toc_is_defined(BODY));
    let (toc, body) = generate_toc(BODY);
    assert_eq!(
        toc,
        "<ul class=\"toc\" id=\"toc\"><li><a href=\"#hello-world\" class=\"toc-h1\">Hello World</a></li><li><a href=\"#x\" class=\"toc-h2\">Sub &amp;amp; more</a></li></ul>"
    );
    assert_eq!(
        body,
        "<h1 id=\"hello-world\">Hello World</h1><h2 id=\"x\">Sub &amp; more</h2><h3>  </h3><p>x</p>"
    );
}

#[test]
fn heading_without_text_gets_counter_id() {
    let (toc, body) = generate_toc("<h2><img src=\"a\"> ! </h2>");
    assert_eq!(body, "<h2 id=\"heading-1\"><img src=\"a\"> ! </h2>");
    assert_eq!(toc, "<ul class=\"toc\" id=\"toc\"><li><a href=\"#heading-1\" class=\"toc-h2\">!</a></li></ul>");
}

#[test]
fn no_headings_no_toc() {
    let (toc, body) = generate_toc("<p>plain</p>");
    assert_eq!(toc, "");
    assert_eq!(body, "<p>plain</p>");
    assert!(!toc_is_defined("<h1 unterminated"));
}

#[test]
fn template_placeholders_are_filled() {
    let out = render_html_template(&page(), "<p>b</p>", "My Doc");
    assert_eq!(
        out,
        "<title>My Doc</title>[][]<main><p>b</p></main><style>ga</style><script>h</script>"
    );
}

#[test]
fn metadata_card_is_rendered() {
    let mut m = Metadata::new();
    m.insert("name".to_string(), "my-skill".to_string());
    m.insert("description".to_string(), "A <test> & more".to_string());
    m.insert("scope".to_string(), "global".to_string());
    m.insert("other".to_string(), "ignored".to_string());
    let card = render_skill_metadata_html(&m);
    assert!(card.starts_with("<div class=\"skill-metadata\">\n  <div class=\"skill-metadata-header\">\n    <h1>my-skill</h1>"));
    assert!(card.contains("<p class=\"skill-description\">A &lt;test&gt; &amp; more</p>"));
    assert!(card.contains("<span class=\"skill-meta-item\"><span class=\"skill-meta-label\">scope</span><span class=\"skill-meta-value\">global</span></span>"));
    assert!(!card.contains("ignored"));
    let out = render_html_template_with_metadata(&page(), "<p>b</p>", "T", Some(&m));
    assert!(out.contains(&format!("[{}]", card)));
}

#[test]
fn toc_links_to_existing_heading_ids() {
    let (toc, out) = generate_toc(r#"<h2 id="intro">Intro Text</h2>"#);
    assert_eq!(out, r#"<h2 id="intro">Intro Text</h2>"#);
    assert!(toc.contains("href=\"#intro\""));
    let (toc2, _) = generate_toc("<h3 class=\"x\" id='s1'>A</h3><h1 id=bare data-x=1>B</h1><h2>C d</h2>");
    assert!(toc2.contains("href=\"#s1\""));
    assert!(toc2.contains("href=\"#bare\""));
    assert!(toc2.contains("href=\"#c-d\""));
}
