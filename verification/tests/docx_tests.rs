use md2x_core::docx::image::resolve_image_bytes;
use md2x_core::images::{FetchedImage, ImageSource};
use md2x_core::docx::image::{ext_from_mime, image_dimensions};
use md2x_core::docx::package::{
    content_types_xml, document_rels_xml, document_wrapper, numbering_xml, styles_xml,
};
use md2x_core::docx::render::{escape_xml, render_body_xml};
use md2x_core::mermaid::unescape_html;
use md2x_core::docx::markdown_to_docx_content_with_images;
use md2x_core::docx::image::{image_extent, image_name};
use md2x_core::docx::{
    convert_markdown_to_docx, docx_parts, markdown_to_docx_content, media_part_name, write_docx,
    DocxContent,
};
use std::io::Read;

fn part<'a>(parts: &'a [(String, String)], name: &str) -> &'a str {
    parts.iter().find(|(n, _)| n == name).map(|(_, x)| x.as_str()).unwrap()
}

fn zip_package(content: &DocxContent) -> Vec<u8> {
    write_docx(content).unwrap()
}

#[test]
fn empty_docx_is_valid_zip_with_required_parts() {
    let content = markdown_to_docx_content("# 标题", "test.md").unwrap();
    let bytes = zip_package(&content);
    let mut zip = zip::ZipArchive::new(std::io::Cursor::new(bytes)).unwrap();
    let names: Vec<String> = zip.file_names().map(|s| s.to_string()).collect();
    for required in [
        "[Content_Types].xml",
        "_rels/.rels",
        "word/document.xml",
        "word/styles.xml",
    ] {
        assert!(names.iter().any(|n| n == required), "missing part {required}: {names:?}");
    }
    let mut doc = zip.by_name("word/document.xml").unwrap();
    let mut xml = String::new();
    doc.read_to_string(&mut xml).unwrap();
    assert!(xml.contains("Heading1"), "the heading uses the Heading1 style");
}

#[test]
fn paragraph_renders_runs_and_inline_styles() {
    let content = markdown_to_docx_content(
        "普通 **粗体** *斜体* ~~删除~~ `code` [链接](https://example.com)\n第二行",
        "test.md",
    )
    .unwrap();
    assert!(content.document_xml.contains("<w:b/>"), "bold");
    assert!(content.document_xml.contains("<w:i/>"), "italic");
    assert!(content.document_xml.contains("<w:strike/>"), "strikethrough");
    assert!(content.document_xml.contains("d63384"), "inline code colour");
    assert!(content.document_xml.contains("w:hyperlink"), "hyperlink");
    assert!(content.document_xml.contains("0366d6"), "link colour");
    assert!(content.document_xml.contains("eastAsia"), "east Asian font");
    assert!(content.document_xml.contains("w:line=\"350\""), "line spacing 1.75");
    assert!(content.document_xml.contains("<w:br/>"), "line break");
}

#[test]
fn headings_use_heading_styles_and_outline() {
    let content = markdown_to_docx_content("# H1\n\n## H2\n\n### H3", "t.md").unwrap();
    for lvl in ["Heading1", "Heading2", "Heading3"] {
        assert!(content.document_xml.contains(&format!("w:val=\"{lvl}\"")), "missing {lvl}");
    }
    assert!(content.document_xml.contains("w:before=\"450\""));
    assert!(content.document_xml.contains("w:before=\"420\""));

    let bytes = zip_package(&content);
    let mut zip = zip::ZipArchive::new(std::io::Cursor::new(bytes)).unwrap();
    let mut styles = String::new();
    zip.by_name("word/styles.xml").unwrap().read_to_string(&mut styles).unwrap();
    assert!(styles.contains("Heading1"), "styles.xml has Heading1");
    assert!(styles.contains("outlineLvl"), "styles.xml has outlineLvl");
}

#[test]
fn links_get_relationships() {
    let content = markdown_to_docx_content("[a](https://a.example/?x=1&y=2) [b](http://b)", "t.md").unwrap();
    assert_eq!(
        content.links,
        vec![(3, "https://a.example/?x=1&y=2".to_string()), (4, "http://b".to_string())]
    );
    assert!(content.document_xml.contains("<w:hyperlink r:id=\"rId3\" w:history=\"1\">"));
    assert!(content.document_xml.contains("<w:hyperlink r:id=\"rId4\" w:history=\"1\">"));
    assert!(content.media.is_empty());
    let parts = docx_parts(&content);
    let rels = part(&parts, "word/_rels/document.xml.rels");
    assert!(rels.contains("<Relationship Id=\"rId3\" Type=\"http://schemas.openxmlformats.org/officeDocument/2006/relationships/hyperlink\" Target=\"https://a.example/?x=1&amp;y=2\" TargetMode=\"External\"/>"));
    assert!(rels.ends_with("</Relationships>"));
}

#[test]
fn lists_are_numbered_by_kind_and_level() {
    let content = markdown_to_docx_content("- a\n  - b\n\n1. x\n", "t.md").unwrap();
    let xml = &content.document_xml;
    assert!(xml.contains("<w:numPr><w:ilvl w:val=\"0\"/><w:numId w:val=\"1\"/></w:numPr>"));
    assert!(xml.contains("<w:numPr><w:ilvl w:val=\"1\"/><w:numId w:val=\"1\"/></w:numPr>"));
    assert!(xml.contains("<w:numPr><w:ilvl w:val=\"0\"/><w:numId w:val=\"2\"/></w:numPr>"));
    assert!(xml.contains(">a</w:t>") && xml.contains(">b</w:t>") && xml.contains(">x</w:t>"));
}

#[test]
fn task_items_get_check_boxes() {
    let content = markdown_to_docx_content("- [x] done\n- [ ] todo\n", "t.md").unwrap();
    let xml = &content.document_xml;
    assert!(xml.contains("\u{2611} </w:t>"));
    assert!(xml.contains("\u{2610} </w:t>"));
    assert!(xml.contains(">done</w:t>") && xml.contains(">todo</w:t>"));
}

#[test]
fn quotes_rules_and_code_blocks() {
    let content = markdown_to_docx_content("> q\n\n---\n\n```rust\nfn a() {}\nlet b = 1 < 2;\n```\n", "t.md").unwrap();
    let xml = &content.document_xml;
    assert!(xml.contains("<w:pBdr><w:left w:val=\"single\" w:sz=\"24\" w:space=\"8\" w:color=\"dfe2e5\"/></w:pBdr><w:shd w:val=\"clear\" w:color=\"auto\" w:fill=\"fafbfc\"/><w:spacing w:line=\"350\" w:lineRule=\"auto\" w:after=\"240\"/><w:ind w:left=\"240\"/>"));
    assert!(xml.contains("<w:color w:val=\"6a737d\"/><w:sz w:val=\"22\"/><w:szCs w:val=\"22\"/></w:rPr><w:t xml:space=\"preserve\">q</w:t>"));
    assert!(xml.contains("<w:pBdr><w:bottom w:val=\"single\" w:sz=\"4\" w:space=\"1\" w:color=\"eaecef\"/>"));
    assert!(xml.contains("<w:shd w:val=\"clear\" w:color=\"auto\" w:fill=\"282C34\"/>"));
    assert!(xml.contains("<w:color w:val=\"C678DD\"/><w:sz w:val=\"20\"/><w:szCs w:val=\"20\"/></w:rPr><w:t xml:space=\"preserve\">fn</w:t>"));
    assert!(xml.contains("&lt;"));
    assert!(xml.contains("<w:br/>"));
}

#[test]
fn tables_become_word_tables() {
    let content = markdown_to_docx_content("| a | b |\n|---|---|\n| 1 | 2 |\n", "t.md").unwrap();
    let xml = &content.document_xml;
    assert_eq!(xml.matches("<w:tbl>").count(), 1);
    assert_eq!(xml.matches("</w:tbl>").count(), 1);
    assert_eq!(xml.matches("<w:tr>").count(), 2);
    assert_eq!(xml.matches("<w:tc>").count(), 4);
    assert_eq!(xml.matches("</w:tc>").count(), 4);
    assert!(xml.contains(">2</w:t>"));
    assert!(xml.contains("<w:b/><w:sz w:val=\"22\"/><w:szCs w:val=\"22\"/></w:rPr><w:t xml:space=\"preserve\">a</w:t>"));
    assert!(xml.contains("Segoe UI\"/><w:sz w:val=\"22\"/><w:szCs w:val=\"22\"/></w:rPr><w:t xml:space=\"preserve\">1</w:t>"));
}

#[test]
fn render_blocks_from_xml() {
    let xml = "<document>\n  <list type=\"ordered\" start=\"1\" delim=\"period\" tight=\"true\">\n    <item>\n      <paragraph>\n        <text xml:space=\"preserve\">a</text>\n      </paragraph>\n      <paragraph>\n        <text xml:space=\"preserve\">b</text>\n      </paragraph>\n    </item>\n  </list>\n  <code_block xml:space=\"preserve\">x\n</code_block>\n  <thematic_break />\n</document>\n";
    let (body, _) = render_body_xml(xml);
    assert_eq!(
        body,
        "<w:p><w:pPr><w:numPr><w:ilvl w:val=\"0\"/><w:numId w:val=\"2\"/></w:numPr><w:spacing w:line=\"350\" w:lineRule=\"auto\" w:after=\"240\"/></w:pPr><w:r><w:rPr><w:rFonts w:ascii=\"Segoe UI\" w:eastAsia=\"Microsoft YaHei\" w:hAnsi=\"Segoe UI\" w:cs=\"Segoe UI\"/><w:sz w:val=\"22\"/><w:szCs w:val=\"22\"/></w:rPr><w:t xml:space=\"preserve\">a</w:t></w:r></w:p>\
<w:p><w:pPr><w:spacing w:line=\"350\" w:lineRule=\"auto\" w:after=\"240\"/><w:ind w:left=\"720\"/></w:pPr><w:r><w:rPr><w:rFonts w:ascii=\"Segoe UI\" w:eastAsia=\"Microsoft YaHei\" w:hAnsi=\"Segoe UI\" w:cs=\"Segoe UI\"/><w:sz w:val=\"22\"/><w:szCs w:val=\"22\"/></w:rPr><w:t xml:space=\"preserve\">b</w:t></w:r></w:p>\
<w:p><w:pPr><w:shd w:val=\"clear\" w:color=\"auto\" w:fill=\"282C34\"/><w:spacing w:line=\"320\" w:lineRule=\"auto\" w:after=\"240\"/><w:ind w:left=\"240\" w:right=\"240\"/><w:rPr><w:color w:val=\"abb2bf\"/></w:rPr></w:pPr><w:r><w:rPr><w:rFonts w:ascii=\"Consolas\" w:eastAsia=\"Microsoft YaHei\" w:hAnsi=\"Consolas\" w:cs=\"Consolas\"/><w:color w:val=\"ABB2BF\"/><w:sz w:val=\"20\"/><w:szCs w:val=\"20\"/></w:rPr><w:t xml:space=\"preserve\">x</w:t></w:r></w:p>\
<w:p><w:pPr><w:pBdr><w:bottom w:val=\"single\" w:sz=\"4\" w:space=\"1\" w:color=\"eaecef\"/></w:pBdr></w:pPr></w:p>"
    );
}

#[test]
fn heading_text_is_escaped_and_flattened() {
    let content = markdown_to_docx_content("## a <b> & `c`", "t.md").unwrap();
    assert!(content.document_xml.contains(
        "<w:p><w:pPr><w:pStyle w:val=\"Heading2\"/><w:spacing w:before=\"450\" w:after=\"150\"/></w:pPr><w:r><w:t xml:space=\"preserve\">a  &amp; c</w:t></w:r></w:p>"
    ));
}

#[test]
fn render_body_from_xml() {
    let xml = "<?xml version=\"1.0\"?>\n<document>\n  <paragraph>\n    <strong>\n      <text xml:space=\"preserve\">x&lt;y</text>\n    </strong>\n  </paragraph>\n  <heading level=\"9\">\n    <text xml:space=\"preserve\">T</text>\n  </heading>\n  <paragraph>\n  </paragraph>\n</document>\n";
    let (body, links) = render_body_xml(xml);
    assert!(links.is_empty());
    assert_eq!(
        body,
        "<w:p><w:pPr><w:spacing w:line=\"350\" w:lineRule=\"auto\" w:after=\"240\"/></w:pPr><w:r><w:rPr><w:rFonts w:ascii=\"Segoe UI\" w:eastAsia=\"Microsoft YaHei\" w:hAnsi=\"Segoe UI\" w:cs=\"Segoe UI\"/><w:b/><w:sz w:val=\"22\"/><w:szCs w:val=\"22\"/></w:rPr><w:t xml:space=\"preserve\">x&lt;y</w:t></w:r></w:p><w:p><w:pPr><w:pStyle w:val=\"Heading6\"/><w:spacing w:before=\"360\" w:after=\"90\"/></w:pPr><w:r><w:t xml:space=\"preserve\">T</w:t></w:r></w:p>"
    );
}

#[test]
fn escape_xml_escapes_markup() {
    assert_eq!(escape_xml("<a href=\"x\">&'"), "&lt;a href=&quot;x&quot;&gt;&amp;'");
    assert_eq!(escape_xml("普通"), "普通");
}

#[test]
fn document_wrapper_wraps_body() {
    let d = document_wrapper("<w:p/>");
    assert!(d.starts_with("<?xml version=\"1.0\" encoding=\"UTF-8\" standalone=\"yes\"?>\n<w:document "));
    assert!(d.contains("<w:body><w:p/><w:sectPr><w:pgSz w:w=\"11906\" w:h=\"16838\"/>"));
    assert!(d.ends_with("</w:sectPr></w:body></w:document>"));
}

#[test]
fn styles_and_numbering_parts() {
    let s = styles_xml();
    assert!(s.contains("<w:style w:type=\"paragraph\" w:styleId=\"Heading6\"><w:name w:val=\"heading 6\"/>"));
    assert!(s.contains("<w:outlineLvl w:val=\"5\"/><w:spacing w:before=\"360\" w:after=\"90\"/>"));
    let n = numbering_xml();
    assert!(n.contains("<w:lvl w:ilvl=\"2\"><w:start w:val=\"1\"/><w:numFmt w:val=\"decimal\"/><w:lvlText w:val=\"%3.\"/>"));
    assert!(n.contains("<w:lvlText w:val=\"•\"/>"));
}

#[test]
fn content_types_list_each_extension_once() {
    let media = vec![
        ("a.PNG".to_string(), vec![1u8], "image/png".to_string(), 3usize),
        ("b.png".to_string(), vec![2u8], "image/x-png".to_string(), 4usize),
        ("c".to_string(), vec![3u8], "image/gif".to_string(), 5usize),
    ];
    let ct = content_types_xml(&media);
    assert!(ct.contains("<Default Extension=\"png\" ContentType=\"image/png\"/><Default Extension=\"c\" ContentType=\"image/gif\"/><Override"));
    assert!(!ct.contains("image/x-png"));
    let rels = document_rels_xml(&media, &vec![(9, "u".to_string())]);
    assert!(rels.contains("<Relationship Id=\"rId3\" Type=\"http://schemas.openxmlformats.org/officeDocument/2006/relationships/image\" Target=\"media/a.PNG\"/>"));
    assert!(rels.contains("<Relationship Id=\"rId5\" Type=\"http://schemas.openxmlformats.org/officeDocument/2006/relationships/image\" Target=\"media/c\"/>"));
    assert!(rels.contains("Id=\"rId9\""));
    assert_eq!(media_part_name("a.png"), "word/media/a.png");
}

#[test]
fn image_dimensions_of_each_format() {
    let mut png = vec![0x89, b'P', b'N', b'G', 0x0D, 0x0A, 0x1A, 0x0A, 0, 0, 0, 13, b'I', b'H', b'D', b'R'];
    png.extend_from_slice(&[0, 0, 1, 0, 0, 0, 0, 200]);
    assert_eq!(image_dimensions(&png, "image/png"), Some((256, 200)));
    assert_eq!(image_dimensions(&png[..20], "image/png"), None);

    let jpeg = vec![0xFF, 0xD8, 0xFF, 0xE0, 0x00, 0x04, 0x00, 0x00, 0xFF, 0xC0, 0x00, 0x11, 0x08, 0x00, 0x30, 0x00, 0x40, 0x03, 0x00];
    assert_eq!(image_dimensions(&jpeg, "image/jpeg"), Some((64, 48)));

    let gif = b"GIF89a\x0a\x00\x05\x00".to_vec();
    assert_eq!(image_dimensions(&gif, "image/gif"), Some((10, 5)));

    let mut bmp = vec![0u8; 26];
    bmp[0] = b'B';
    bmp[1] = b'M';
    bmp[18] = 7;
    bmp[22..26].copy_from_slice(&(-3i32).to_le_bytes());
    assert_eq!(image_dimensions(&bmp, "image/bmp"), Some((7, 3)));

    let mut webp = vec![0u8; 30];
    webp[0..4].copy_from_slice(b"RIFF");
    webp[8..12].copy_from_slice(b"WEBP");
    webp[12..16].copy_from_slice(b"VP8 ");
    webp[26] = 0x20;
    webp[27] = 0xC0;
    webp[28] = 0x10;
    assert_eq!(image_dimensions(&webp, "image/webp"), Some((32, 16)));

    assert_eq!(image_dimensions(&png, "text/plain"), None);
}

#[test]
fn ext_from_mime_picks_known_types() {
    assert_eq!(ext_from_mime("image/jpeg"), "jpeg");
    assert_eq!(ext_from_mime("image/gif"), "gif");
    assert_eq!(ext_from_mime("image/bmp"), "bmp");
    assert_eq!(ext_from_mime("image/webp"), "webp");
    assert_eq!(ext_from_mime("image/svg+xml"), "png");
}

#[test]
fn media_and_parts_are_zipped_in_order() {
    let content = DocxContent {
        document_xml: "<w:document/>".to_string(),
        media: vec![("image1.png".to_string(), vec![1u8, 2, 3], "image/png".to_string(), 3)],
        links: vec![],
    };
    let bytes = write_docx(&content).unwrap();
    let mut zip = zip::ZipArchive::new(std::io::Cursor::new(bytes)).unwrap();
    let names: Vec<String> = zip.file_names().map(|s| s.to_string()).collect();
    assert_eq!(names.len(), 9);
    let mut media = Vec::new();
    zip.by_name("word/media/image1.png").unwrap().read_to_end(&mut media).unwrap();
    assert_eq!(media, vec![1u8, 2, 3]);
    let mut doc = String::new();
    zip.by_name("word/document.xml").unwrap().read_to_string(&mut doc).unwrap();
    assert_eq!(doc, "<w:document/>");
    let mut ct = String::new();
    zip.by_name("[Content_Types].xml").unwrap().read_to_string(&mut ct).unwrap();
    assert!(ct.contains("<Default Extension=\"png\" ContentType=\"image/png\"/>"));
}

#[test]
fn markdown_to_docx_file_bytes() {
    let bytes = convert_markdown_to_docx("# T\n\npara", "t.md").unwrap();
    let same = convert_markdown_to_docx("# T\n\npara", "t.md").unwrap();
    assert_eq!(bytes, same, "the archive depends on the text alone");
    let mut zip = zip::ZipArchive::new(std::io::Cursor::new(bytes)).unwrap();
    let mut doc = String::new();
    zip.by_name("word/document.xml").unwrap().read_to_string(&mut doc).unwrap();
    assert!(doc.contains("Heading1") && doc.contains(">para</w:t>"));
}

const THEME: &str = r#"<?xml version="1.0" encoding="UTF-8"?>
<!DOCTYPE plist PUBLIC "-//Apple//DTD PLIST 1.0//EN" "http://www.apple.com/DTDs/PropertyList-1.0.dtd">
<plist version="1.0">
<dict>
  <key>name</key><string>Test</string>
  <key>settings</key>
  <array>
    <dict><key>settings</key><dict><key>foreground</key><string>#ABB2BF</string></dict></dict>
    <dict><key>scope</key><string>storage, keyword</string><key>settings</key><dict><key>foreground</key><string>#C678DD</string></dict></dict>
  </array>
</dict>
</plist>"#;

#[test]
fn highlight_code_colours_tokens() {
    let code = "fn main() {}\nlet x = 1;\n";
    let toks = md2x_core::docx::highlight::highlight_with_theme(THEME, Some("rs"), code);
    let joined: String = toks.iter().map(|(t, _)| t.as_str()).collect();
    assert_eq!(joined, code);
    assert!(toks.iter().all(|(t, c)| !t.is_empty() && c.len() == 6 && c.chars().all(|ch| ch.is_ascii_digit() || ('A'..='F').contains(&ch))));
    assert!(toks.iter().any(|(_, c)| c == "C678DD"));
    let plain = md2x_core::docx::highlight::highlight_with_theme(THEME, None, "abc");
    assert_eq!(plain, vec![("abc".to_string(), "ABB2BF".to_string())]);
    let empty_lang = md2x_core::docx::highlight::highlight_with_theme(THEME, Some(""), "abc");
    assert_eq!(empty_lang, plain);
}

#[test]
fn highlight_code_falls_back_without_theme() {
    let toks = md2x_core::docx::highlight::highlight_with_theme("not a theme", Some("rs"), "fn x() {}");
    assert_eq!(toks, vec![("fn x() {}".to_string(), "abb2bf".to_string())]);
}

#[test]
fn resolve_image_bytes_reads_paths_downloads_and_hugo_files() {
    let fetch = |s: &ImageSource| match s {
        ImageSource::Local(p) if p == "a/b.gif" || p == "/abs/c.jpg" => {
            Some(FetchedImage { bytes: vec![1, 2], content_type: None })
        }
        ImageSource::HugoStatic(p) if p == "images/h.png" => Some(FetchedImage { bytes: vec![3], content_type: None }),
        ImageSource::Remote(u) if u == "https://x/y.png" => {
            Some(FetchedImage { bytes: vec![4], content_type: Some("image/webp".to_string()) })
        }
        ImageSource::Remote(u) if u == "http://x/z" => Some(FetchedImage { bytes: vec![5], content_type: None }),
        _ => None,
    };
    assert_eq!(resolve_image_bytes("a/b.gif", "doc.md", &fetch), Some((vec![1, 2], "image/gif".to_string())));
    assert_eq!(resolve_image_bytes("/abs/c.jpg", "doc.md", &fetch), Some((vec![1, 2], "image/jpeg".to_string())));
    assert_eq!(resolve_image_bytes("/images/h.png", "doc.md", &fetch), Some((vec![3], "image/png".to_string())));
    assert_eq!(resolve_image_bytes("/images/none.png", "doc.md", &fetch), None);
    assert_eq!(resolve_image_bytes("missing.png", "doc.md", &fetch), None);
    assert_eq!(resolve_image_bytes("https://x/y.png", "doc.md", &fetch), Some((vec![4], "image/webp".to_string())));
    assert_eq!(resolve_image_bytes("http://x/z", "doc.md", &fetch), Some((vec![5], "application/octet-stream".to_string())));
    assert_eq!(resolve_image_bytes("data:image/png;base64,AA", "doc.md", &|_s: &ImageSource| -> Option<FetchedImage> { panic!("not fetched") }), None);
    assert_eq!(resolve_image_bytes("#frag", "doc.md", &|_s: &ImageSource| -> Option<FetchedImage> { panic!("not fetched") }), None);
}

#[test]
fn duplicate_media_names_fail_distinct_succeed() {
    let mut content = markdown_to_docx_content("x", "t.md").unwrap();
    content.media = vec![
        ("a.png".to_string(), vec![1], "image/png".to_string(), 3),
        ("a.png".to_string(), vec![2], "image/png".to_string(), 4),
    ];
    assert!(write_docx(&content).is_err());
    content.media[1].0 = "b.png".to_string();
    assert!(write_docx(&content).is_ok());
}

#[test]
fn unescape_reverses_escape() {
    for s in ["a<&\"'>b", "&amp;lt;", "", "普通 <x> & \"y\"", "&&lt;;"] {
        assert_eq!(unescape_html(&escape_xml(s)), s);
    }
}

#[test]
fn highlight_code_uses_one_dark() {
    let toks = md2x_core::docx::highlight::highlight_code(Some("rust"), "fn main() {\n    // hi\n}\n");
    let joined: String = toks.iter().map(|(t, _)| t.as_str()).collect();
    assert_eq!(joined, "fn main() {\n    // hi\n}\n");
    assert!(toks.iter().any(|(t, c)| t == "fn" && c == "C678DD"));
    assert!(toks.iter().any(|(_, c)| c == "5C6370"));
    let plain = md2x_core::docx::highlight::highlight_code(None, "abc");
    assert_eq!(plain, vec![("abc".to_string(), "ABB2BF".to_string())]);
}

fn png_of(w: u32, h: u32) -> Vec<u8> {
    let mut b = vec![0x89u8, 0x50, 0x4E, 0x47, 0x0D, 0x0A, 0x1A, 0x0A, 0, 0, 0, 13, b'I', b'H', b'D', b'R'];
    b.extend_from_slice(&w.to_be_bytes());
    b.extend_from_slice(&h.to_be_bytes());
    b.extend_from_slice(&[8, 6, 0, 0, 0]);
    b
}

fn fetch_pngs(s: &ImageSource) -> Option<FetchedImage> {
    match s {
        ImageSource::Local(p) if p == "a.png" => Some(FetchedImage { bytes: png_of(2, 3), content_type: None }),
        ImageSource::Local(p) if p == "wide.png" => Some(FetchedImage { bytes: png_of(1152, 10), content_type: None }),
        _ => None,
    }
}

#[test]
fn images_are_embedded_with_media_and_relationships() {
    let md = "![alt text](a.png) [l](http://x)\n\n![none](missing.png)\n\n![w](wide.png)\n\n![r](https://example.com/r.png)";
    let content = markdown_to_docx_content_with_images(md, "doc/t.md", &fetch_pngs).unwrap();
    assert_eq!(content.media.len(), 2);
    assert_eq!(content.media[0].0, "image1.png");
    assert_eq!(content.media[0].1, png_of(2, 3));
    assert_eq!(content.media[0].2, "image/png");
    assert_eq!(content.media[0].3, 3);
    assert_eq!(content.media[1].0, "image2.png");
    assert_eq!(content.media[1].3, 4);
    assert_eq!(content.links, vec![(5usize, "http://x".to_string())]);
    let xml = &content.document_xml;
    assert!(xml.contains("<wp:extent cx=\"19050\" cy=\"28575\"/>"));
    assert!(xml.contains("<a:blip r:embed=\"rId3\"/>"));
    assert!(xml.contains("<wp:extent cx=\"5781600\" cy=\"50187\"/>"));
    assert!(xml.contains("<w:jc w:val=\"center\"/></w:pPr><w:r><w:drawing>"));
    assert!(xml.contains("<a:blip r:embed=\"rId4\"/>"));
    assert!(xml.contains("w:hyperlink r:id=\"rId5\""));
    assert!(!xml.contains("alt text"));
    let bytes = write_docx(&content).unwrap();
    let mut zip = zip::ZipArchive::new(std::io::Cursor::new(bytes)).unwrap();
    let mut rels = String::new();
    zip.by_name("word/_rels/document.xml.rels").unwrap().read_to_string(&mut rels).unwrap();
    assert!(rels.contains("Id=\"rId3\" Type=\"http://schemas.openxmlformats.org/officeDocument/2006/relationships/image\" Target=\"media/image1.png\""));
    assert!(rels.contains("Id=\"rId5\""));
    let mut media = Vec::new();
    zip.by_name("word/media/image2.png").unwrap().read_to_end(&mut media).unwrap();
    assert_eq!(media, png_of(1152, 10));
}

#[test]
fn image_extent_and_names() {
    assert_eq!(image_extent(2, 3), (19050, 28575));
    assert_eq!(image_extent(576, 100), (5486400, 952500));
    assert_eq!(image_extent(1152, 10), (5781600, 50187));
    assert_eq!(image_extent(607, 1), (5781600, 9524));
    assert_eq!(image_extent(608, 2), (5781600, 19018));
    assert_eq!(image_name(12, "jpeg"), "image12.jpeg");
}

#[test]
fn lists_render_bullets_numbers_and_tasks() {
    let content = markdown_to_docx_content("- 甲\n- 乙\n\n1. 一\n2. 二\n\n- [x] 完成\n- [ ] 未完成", "t.md").unwrap();
    assert!(content.document_xml.contains("w:numId"));
    assert!(content.document_xml.contains("\u{2611}"));
    assert!(content.document_xml.contains("\u{2610}"));
}

#[test]
fn code_block_has_dark_shading_and_highlight_colors() {
    let content = markdown_to_docx_content("```rust\nfn main() {}\n```", "t.md").unwrap();
    assert!(content.document_xml.contains("282C34"));
    assert!(content.document_xml.contains("abb2bf"));
    assert!(content.document_xml.contains("C678DD"));
}

#[test]
fn blockquote_and_hr_render() {
    let content = markdown_to_docx_content("> 引用\n\n---", "t.md").unwrap();
    assert!(content.document_xml.contains("6a737d"));
    assert!(content.document_xml.contains("w:left"));
    assert!(content.document_xml.contains("fafbfc"));
    assert!(content.document_xml.contains("eaecef"));
}

#[test]
fn table_renders_with_borders_and_header_shading() {
    let content = markdown_to_docx_content("| 名称 | 数量 |\n| --- | ---: |\n| 苹果 | 3 |", "t.md").unwrap();
    let xml = &content.document_xml;
    assert!(xml.contains("<w:tbl>"));
    assert!(xml.contains("dfe2e5"));
    assert!(xml.contains("f6f8fa"));
    assert!(xml.contains("w:jc w:val=\"right\""));
    assert_eq!(xml.matches("w:jc w:val=\"right\"").count(), 2);
}

#[test]
fn image_embeds_into_media_and_drawing() {
    let pixel = png_of(1, 1);
    let fetch = |s: &ImageSource| match s {
        ImageSource::Local(p) if p == "/tmp/md2x-docx-img/pixel.png" => Some(FetchedImage { bytes: pixel.clone(), content_type: None }),
        _ => None,
    };
    let content = markdown_to_docx_content_with_images("![像素](/tmp/md2x-docx-img/pixel.png)", "/tmp/md2x-docx-img/pixel.png", &fetch).unwrap();
    assert_eq!(content.media.len(), 1);
    let bytes = write_docx(&content).unwrap();
    let zip = zip::ZipArchive::new(std::io::Cursor::new(bytes)).unwrap();
    let names: Vec<String> = zip.file_names().map(|s| s.to_string()).collect();
    assert!(names.iter().any(|n| n.starts_with("word/media/")), "{names:?}");
}

#[test]
fn frontmatter_stripped_and_mixed_doc_renders() {
    let content = markdown_to_docx_content("---\ntitle: 演示\n---\n\n# 标题\n\n- 项一\n- 项二\n\n```rust\nlet x = 1;\n```", "t.md").unwrap();
    assert!(!content.document_xml.contains("title: 演示"));
    assert!(content.document_xml.contains("项一"));
}
