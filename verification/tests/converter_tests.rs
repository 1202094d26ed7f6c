use md2x_core::converter::{
    base64_encode, convert_markdown_to_html, fix_spaced_link_destinations, is_resolvable_path,
    mime_from_ext, parse_front_matter, strip_front_matter, strip_p_in_task_lists,
};
use md2x_core::error::MpeError;
use md2x_core::images::{embed_images, image_requests, resolve_image_srcs, FetchedImage, ImageSource};

fn fetch_nothing(_s: &ImageSource) -> Option<FetchedImage> {
    None
}

#[test]
fn test_strip_p_in_task_list() {
    let input =
        "<li><input type=\"checkbox\" disabled=\"\" />\n<p><strong>步骤 1</strong></p>\n</li>";
    let result = strip_p_in_task_lists(input);
    assert!(!result.contains("<p>"));
    assert!(result.contains("<strong>步骤 1</strong>"));
}

#[test]
fn test_strip_front_matter() {
    let md = "---\ntitle: test\n---\n\n# Hello";
    assert_eq!(strip_front_matter(md), "# Hello");
}

#[test]
fn test_no_front_matter() {
    assert_eq!(strip_front_matter("# Hello"), "# Hello");
}

#[test]
fn test_parse_front_matter_returns_metadata() {
    let md = "---\nname: my-skill\ndescription: A test skill\n---\n\n# Hello";
    let (meta, body) = parse_front_matter(md);
    assert_eq!(body, "# Hello");
    assert!(meta.is_some());
    let m = meta.unwrap();
    assert_eq!(m.get("name").unwrap(), "my-skill");
    assert_eq!(m.get("description").unwrap(), "A test skill");
}

#[test]
fn test_parse_front_matter_no_metadata() {
    let (meta, body) = parse_front_matter("# Just content");
    assert!(meta.is_none());
    assert_eq!(body, "# Just content");
}

#[test]
fn test_parse_front_matter_empty_returns_none() {
    let md = "---\n---\n\n# Content";
    let (meta, body) = parse_front_matter(md);
    assert!(meta.is_none());
    assert_eq!(body, "# Content");
}

#[test]
fn test_parse_front_matter_extra_fields() {
    let md = "---\nname: my-skill\ndescription: Test\nrunAs: subagent\nscope: global\nmodel: large\n---\n\nBody";
    let (meta, body) = parse_front_matter(md);
    assert_eq!(body, "Body");
    let m = meta.unwrap();
    assert_eq!(m.get("runAs").unwrap(), "subagent");
    assert_eq!(m.get("scope").unwrap(), "global");
    assert_eq!(m.get("model").unwrap(), "large");
}

#[test]
fn test_regular_p_untouched() {
    let input = "<p>普通段落</p>";
    let result = strip_p_in_task_lists(input);
    assert_eq!(result, input);
}

#[test]
fn test_is_resolvable_path() {
    assert!(!is_resolvable_path("https://example.com/img.png"));
    assert!(!is_resolvable_path("http://example.com/img.png"));
    assert!(!is_resolvable_path("data:image/png;base64,abc"));
    assert!(!is_resolvable_path("file:///tmp/img.png"));
    assert!(is_resolvable_path("/absolute/path.png"));
    assert!(is_resolvable_path("images/foo.png"));
    assert!(is_resolvable_path("./img.png"));
    assert!(is_resolvable_path("../img.png"));
    assert!(is_resolvable_path("sub/nested/img.jpg"));
}

#[test]
fn test_mime_from_ext() {
    assert_eq!(mime_from_ext("img.png"), "image/png");
    assert_eq!(mime_from_ext("img.jpg"), "image/jpeg");
    assert_eq!(mime_from_ext("img.jpeg"), "image/jpeg");
    assert_eq!(mime_from_ext("img.gif"), "image/gif");
    assert_eq!(mime_from_ext("img.svg"), "image/svg+xml");
    assert_eq!(mime_from_ext("img.webp"), "image/webp");
    assert_eq!(mime_from_ext("img.unknown"), "application/octet-stream");
}

#[test]
fn test_base64_encode() {
    assert_eq!(base64_encode(b"hello"), "aGVsbG8=");
    assert_eq!(base64_encode(b"f"), "Zg==");
    assert_eq!(base64_encode(b"fo"), "Zm8=");
    assert_eq!(base64_encode(b"foo"), "Zm9v");
}

#[test]
fn test_fix_spaced_link_destinations() {
    assert_eq!(
        fix_spaced_link_destinations("[a](file with space.md)"),
        "[a](<file with space.md>)"
    );
    let plain = "[b](normal.md)";
    assert_eq!(fix_spaced_link_destinations(plain), plain);
    let wrapped = "[c](<already wrapped.md>)";
    assert_eq!(fix_spaced_link_destinations(wrapped), wrapped);
    assert_eq!(
        fix_spaced_link_destinations("![img](path with space.png)"),
        "![img](<path with space.png>)"
    );
    assert_eq!(
        fix_spaced_link_destinations("[d](url with space \"标题\")"),
        "[d](<url with space> \"标题\")"
    );
    let table = "| [08-x.md](08-x.md) | [09-y z.md](09-y z.md) |";
    let out = fix_spaced_link_destinations(table);
    assert!(out.contains("[08-x.md](08-x.md)"), "无空格链接不变");
    assert!(out.contains("[09-y z.md](<09-y z.md>)"), "表格中含空格链接应被包裹");
}

#[test]
fn test_fix_spaced_link_skips_code() {
    let md = "```\n[code](a b.md)\n```\n[real](a b.md)";
    let out = fix_spaced_link_destinations(md);
    assert!(out.contains("```\n[code](a b.md)\n```"), "代码块内容不变");
    assert!(out.contains("[real](<a b.md>)"), "代码块外链接应修复");

    let inline = "见 `[x](a b)` 与 [y](a b.md)";
    let out = fix_spaced_link_destinations(inline);
    assert!(out.contains("`[x](a b)`"), "行内代码不变");
    assert!(out.contains("[y](<a b.md>)"), "行内代码外链接应修复");
}

#[test]
fn test_remote_image_download_fails_keeps_original() {
    let html = r#"<img src="https://example.com/img.png">"#;
    let result = resolve_image_srcs(html, &fetch_nothing);
    assert_eq!(result, html);
}

#[test]
fn test_resolve_image_hugo_path_when_no_root_keeps_original() {
    let html = r#"<img src="/images/hero.png">"#;
    let result = resolve_image_srcs(html, &fetch_nothing);
    assert_eq!(result, html);
}

#[test]
fn test_resolve_image_no_img_tag() {
    let html = "<p>hello</p>";
    let result = resolve_image_srcs(html, &fetch_nothing);
    assert_eq!(result, html);
}

#[test]
fn test_resolve_image_file_not_found_keeps_original() {
    let html = r#"<img src="nonexistent.png">"#;
    let result = resolve_image_srcs(html, &fetch_nothing);
    assert_eq!(result, html);
}

#[test]
fn test_hugo_image_path_resolved_correctly() {
    let red_png: Vec<u8> = vec![
        0x89, 0x50, 0x4E, 0x47, 0x0D, 0x0A, 0x1A, 0x0A, 0x00, 0x00, 0x00, 0x0D, 0x49, 0x48, 0x44,
        0x52, 0x00, 0x00, 0x00, 0x01, 0x00, 0x00, 0x00, 0x01, 0x08, 0x02, 0x00, 0x00, 0x00, 0x90,
        0x77, 0x53, 0xDE, 0x00, 0x00, 0x00, 0x0C, 0x49, 0x44, 0x41, 0x54, 0x08, 0xD7, 0x63, 0xF8,
        0xCF, 0xC0, 0x00, 0x00, 0x00, 0x03, 0x00, 0x01, 0x36, 0x28, 0x19, 0x00, 0x00, 0x00, 0x00,
        0x49, 0x45, 0x4E, 0x44, 0xAE, 0x42, 0x60, 0x82,
    ];
    let html = r#"<img src="/images/hero.png">"#;
    let result = resolve_image_srcs(html, &|s: &ImageSource| match s {
        ImageSource::HugoStatic(p) if p == "images/hero.png" => {
            Some(FetchedImage { bytes: red_png.clone(), content_type: None })
        }
        _ => None,
    });
    assert!(result.starts_with(r#"<img src="data:image/png;base64,"#), "the Hugo image becomes a base64 data URI");
    assert!(!result.contains("/images/hero.png"), "the original path is replaced");
}

#[test]
fn test_spaced_link_renders_as_anchor() {
    let md = "| [08-新仓库重建与追溯规范.md](08-新仓库重建与追溯规范.md) | \
              [09-Kotlin 重构决策与风险.md](09-Kotlin 重构决策与风险.md) |";
    let html = convert_markdown_to_html(md).unwrap();
    assert!(html.contains("<a "), "a link with spaces renders as an <a> tag");
    assert!(html.contains("09-Kotlin"), "the Kotlin file name stays in the link");
    let anchor_count = html.matches("<a ").count();
    assert!(anchor_count >= 2, "at least two links, got {anchor_count}");
}

#[test]
fn image_requests_classify_sources() {
    let html = r#"<img src="https://a/x.png"><img src='/s/y.gif'><img src="z.jpg"><img src="data:x"><img alt="n">"#;
    let reqs = image_requests(html);
    assert_eq!(reqs.len(), 3);
    assert!(matches!(&reqs[0], ImageSource::Remote(u) if u == "https://a/x.png"));
    assert!(matches!(&reqs[1], ImageSource::HugoStatic(p) if p == "s/y.gif"));
    assert!(matches!(&reqs[2], ImageSource::Local(p) if p == "z.jpg"));
}

#[test]
fn embed_uses_reported_or_extension_type() {
    let html = r#"<p><img src="https://a/x"> <img src='b.gif'></p>"#;
    let results = vec![
        Some(FetchedImage { bytes: b"hi".to_vec(), content_type: Some("image/webp".to_string()) }),
        Some(FetchedImage { bytes: b"foo".to_vec(), content_type: None }),
    ];
    let out = embed_images(html, &results);
    assert_eq!(
        out,
        r#"<p><img src="data:image/webp;base64,aGk="> <img src="data:image/gif;base64,Zm9v"></p>"#
    );
    let remote_untyped = embed_images(r#"<img src="https://a/x">"#, &vec![Some(FetchedImage { bytes: vec![], content_type: None })]);
    assert_eq!(remote_untyped, r#"<img src="data:application/octet-stream;base64,">"#);
}

#[test]
fn convert_strips_front_matter_and_task_paragraphs() {
    let html = convert_markdown_to_html("---\ntitle: x\n---\n\n# Title\n\n- [x] done\n\n- [ ] todo\n").unwrap();
    assert!(html.contains("<h1>Title</h1>"));
    assert!(!html.contains("title: x"));
    assert!(html.contains("type=\"checkbox\""));
    assert!(!html.contains("<li class=\"task-list-item\"><p>") && !html.contains("<p>done</p>"));
}

#[test]
fn base64_length_is_four_per_started_triple() {
    for n in 0..10usize {
        let data = vec![7u8; n];
        assert_eq!(base64_encode(&data).len(), 4 * ((n + 2) / 3));
    }
    assert_eq!(base64_encode(&[0xff, 0xfe, 0xfd]), "//79");
}

#[test]
fn front_matter_without_closing_marker_is_kept() {
    let md = "---\ntitle: x\n# no end";
    assert_eq!(strip_front_matter(md), md);
    let (meta, body) = parse_front_matter(md);
    assert!(meta.is_none());
    assert_eq!(body, md);
}

#[test]
fn error_messages() {
    assert_eq!(MpeError::FileNotFound("a.md".to_string()).message(), "File not found: a.md");
    assert_eq!(MpeError::ChromeNotFound.message(), "Chrome not found. Please install Google Chrome");
    assert_eq!(MpeError::PdfGenerationFailed("x".to_string()).message(), "PDF generation failed: x");
    let e: MpeError = std::io::Error::new(std::io::ErrorKind::Other, "disk").into();
    assert_eq!(e.message(), "IO error: disk");
}

#[test]
fn skill_files_have_their_front_matter_parsed() {
    let md = "---\nname: s\n---\n\nBody";
    let (meta, body) = md2x_core::converter::split_document(md, "SKILL.md");
    assert_eq!(body, "Body");
    assert_eq!(meta.unwrap().get("name").unwrap(), "s");
    let (meta, body) = md2x_core::converter::split_document(md, "README.md");
    assert!(meta.is_none());
    assert_eq!(body, md);
}

#[test]
fn diagrams_are_rendered_during_conversion() {
    let md = "# T\n\n```mermaid\ngraph LR\nA-->B\n```\n\n```rust\nfn x() {}\n```\n";
    let out = md2x_core::converter::convert_markdown_to_html_with_mermaid(md, &|s: &Vec<String>| {
        assert_eq!(s, &vec!["graph LR\nA-->B\n".to_string()]);
        Some(vec![Some("<svg>d</svg>".to_string())])
    })
    .unwrap();
    assert!(out.contains("<div class=\"mermaid-diagram\"><svg>d</svg></div>"));
    assert!(out.contains("language-rust"));
    let kept = md2x_core::converter::convert_markdown_to_html_with_mermaid(md, &|_s: &Vec<String>| None).unwrap();
    assert_eq!(kept, convert_markdown_to_html(md).unwrap());
}

#[test]
fn base64_alphabet_and_padding() {
    for n in 0..12usize {
        let data: Vec<u8> = (0..n).map(|i| (i * 37 + 200) as u8).collect();
        let r = base64_encode(&data);
        let pad = (3 - n % 3) % 3;
        let (body, tail) = r.split_at(r.len() - pad);
        assert!(tail.chars().all(|c| c == '='));
        assert!(body.chars().all(|c| c.is_ascii_alphanumeric() || c == '+' || c == '/'));
    }
}

fn decode_base64(s: &str) -> Vec<u8> {
    let value = |c: u8| -> u32 {
        match c {
            b'A'..=b'Z' => (c - b'A') as u32,
            b'a'..=b'z' => (c - b'a') as u32 + 26,
            b'0'..=b'9' => (c - b'0') as u32 + 52,
            b'+' => 62,
            _ => 63,
        }
    };
    let mut out = Vec::new();
    for q in s.as_bytes().chunks(4) {
        let n = (value(q[0]) << 18) | (value(q[1]) << 12) | (value(q[2]) << 6) | value(q[3]);
        out.push((n >> 16) as u8);
        if q[2] != b'=' {
            out.push((n >> 8) as u8);
        }
        if q[3] != b'=' {
            out.push(n as u8);
        }
    }
    out
}

#[test]
fn base64_decodes_back() {
    for n in 0..40usize {
        let data: Vec<u8> = (0..n).map(|i| (i * 97 + 13) as u8).collect();
        assert_eq!(decode_base64(&base64_encode(&data)), data);
    }
    assert_eq!(decode_base64(&base64_encode(&[0xff, 0x00, 0xfe])), vec![0xff, 0x00, 0xfe]);
}

#[test]
fn link_repair_keeps_lines_and_fences() {
    let md = "```\n[a](b c)\n```\n[x](y z)\n\n  ```rust\n[p](q r)\n  ```";
    let out = fix_spaced_link_destinations(md);
    assert_eq!(out, "```\n[a](b c)\n```\n[x](<y z>)\n\n  ```rust\n[p](q r)\n  ```");
    assert_eq!(out.matches('\n').count(), md.matches('\n').count());
}
