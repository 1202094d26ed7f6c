use md2x_core::mermaid::{
    after_dump, build_harness, extract_mermaid_blocks, is_mermaid_source,
    mermaid_data_json, mermaid_harness, order_results, reconstruct_source, render_done,
    render_mermaid_blocks, render_mermaid_svg, render_mermaid_svg_from, splice_svgs,
    unescape_html, RenderStep,
};

#[test]
fn detects_alias_languages() {
    assert!(is_mermaid_source("mermaid", "flowchart TD; A-->B"));
    assert!(is_mermaid_source("sequenceDiagram", "Alice->>Bob: hi"));
    assert!(is_mermaid_source("classDiagram", "A <|-- B"));
    assert!(is_mermaid_source("flowchart", "TD; A-->B"));
}

#[test]
fn rejects_plain_code() {
    assert!(!is_mermaid_source("rust", "fn main() {}"));
    assert!(!is_mermaid_source("python", "print('hi')"));
}

#[test]
fn sniffs_bare_fence_by_first_line() {
    assert!(is_mermaid_source("", "graph LR\n A --- B"));
    assert!(is_mermaid_source("", "sequenceDiagram\n A->>B: x"));
    assert!(!is_mermaid_source("", "just some text\n no keyword"));
}

#[test]
fn reconstruct_prepends_missing_keyword() {
    let out = reconstruct_source("sequenceDiagram", "    Alice->>Bob: hi\n    Bob-->>Alice: ok");
    assert!(out.starts_with("sequenceDiagram\n"));
    assert!(out.contains("Alice->>Bob"));

    let out = reconstruct_source("flowchart", "TD\n A-->B");
    assert!(out.starts_with("flowchart\n"));
}

#[test]
fn reconstruct_keeps_body_keyword() {
    let out = reconstruct_source("flowchart", "flowchart TD\n A-->B");
    assert_eq!(out, "flowchart TD\n A-->B");

    let out = reconstruct_source("mermaid", "sequenceDiagram\n A->>B: x");
    assert_eq!(out, "sequenceDiagram\n A->>B: x");
}

#[test]
fn unescape_html_reverts_comrak() {
    assert_eq!(unescape_html("&lt;tag&gt;"), "<tag>");
    assert_eq!(unescape_html("a &amp;&amp; b"), "a && b");
}

#[test]
fn language_is_trimmed_and_lowercased() {
    assert!(is_mermaid_source("  MERMAID ", "x"));
    assert!(is_mermaid_source("Gantt", "title x"));
    assert!(!is_mermaid_source("text", "graph LR"));
}

#[test]
fn keyword_prefix_is_case_insensitive() {
    assert!(is_mermaid_source("", "\n\n  FlowChart-v2 LR"));
    assert!(is_mermaid_source("", "C4Dynamic\n"));
    assert!(!is_mermaid_source("", "   \n  "));
}

#[test]
fn reconstruct_trims_language() {
    assert_eq!(reconstruct_source("  pie ", "\"a\" : 1"), "pie\n\"a\" : 1");
    assert_eq!(reconstruct_source("", "body"), "body");
    assert_eq!(reconstruct_source("MerMaid", "body"), "body");
}

#[test]
fn unescape_html_all_entities() {
    assert_eq!(unescape_html("&quot;x&quot; &#39;y&#39;"), "\"x\" 'y'");
    assert_eq!(unescape_html("&amp;lt;"), "&lt;");
}

const PAGE: &str = "<p>a</p>\n<pre><code class=\"language-mermaid\">graph LR\nA --&gt; B\n</code></pre>\n<pre><code class=\"language-rust\">fn x() {}\n</code></pre>\n<pre><code class=\"language-sequenceDiagram\">A-&gt;&gt;B: hi\n</code></pre>\n<p>z</p>";

#[test]
fn extract_finds_diagram_blocks_in_order() {
    let blocks = extract_mermaid_blocks(PAGE);
    assert_eq!(blocks.len(), 2);
    assert_eq!(blocks[0].source, "graph LR\nA --> B\n");
    assert_eq!(blocks[1].source, "sequenceDiagram\nA->>B: hi\n");
    let chars: Vec<char> = PAGE.chars().collect();
    let first: String = chars[blocks[0].start..blocks[0].end].iter().collect();
    assert!(first.starts_with("<pre><code class=\"language-mermaid\">"));
    assert!(first.ends_with("</code></pre>"));
}

#[test]
fn bare_code_block_is_sniffed() {
    let html = "<pre><code>graph TD\nA\n</code></pre>";
    let blocks = extract_mermaid_blocks(html);
    assert_eq!(blocks.len(), 1);
    assert_eq!(blocks[0].source, "graph TD\nA\n");
    let plain = "<pre><code>let x = 1;\n</code></pre>";
    assert_eq!(extract_mermaid_blocks(plain).len(), 0);
}

#[test]
fn splice_replaces_rendered_blocks_only() {
    let svgs = vec![Some("<svg>1</svg>".to_string()), None];
    let out = splice_svgs(PAGE, &svgs);
    assert!(out.contains("<div class=\"mermaid-diagram\"><svg>1</svg></div>"));
    assert!(out.contains("language-sequenceDiagram"));
    assert!(out.contains("language-rust"));
    assert!(!out.contains("language-mermaid"));
    assert!(out.starts_with("<p>a</p>\n<div"));
    assert!(out.ends_with("<p>z</p>"));
}

#[test]
fn failed_rendering_keeps_page() {
    let out = render_mermaid_blocks(PAGE, &|_s: &Vec<String>| None);
    assert_eq!(out, PAGE);
    let out = render_mermaid_blocks(PAGE, &|s: &Vec<String>| Some(vec![None; s.len()]));
    assert_eq!(out, PAGE);
}

#[test]
fn render_blocks_hands_sources_in_order() {
    let out = render_mermaid_blocks(PAGE, &|s: &Vec<String>| {
        Some(s.iter().map(|x| Some(format!("<svg>{}</svg>", x.len()))).collect())
    });
    assert!(out.contains("<div class=\"mermaid-diagram\"><svg>17</svg></div>"));
    assert!(out.contains("<div class=\"mermaid-diagram\"><svg>26</svg></div>"));
    assert!(out.contains("language-rust"));
}

#[test]
fn page_without_diagrams_is_unchanged() {
    let html = "<p>no diagrams</p>";
    let out = render_mermaid_blocks(html, &|_s: &Vec<String>| -> Option<Vec<Option<String>>> {
        panic!("renderer must not be called")
    });
    assert_eq!(out, html);
}

#[test]
fn single_svg_is_first_result() {
    let r = render_mermaid_svg("graph LR", &|s: &Vec<String>| {
        assert_eq!(s, &vec!["graph LR".to_string()]);
        Some(vec![Some("<svg/>".to_string()), Some("<other/>".to_string())])
    });
    assert_eq!(r, Some("<svg/>".to_string()));
    assert_eq!(render_mermaid_svg("x", &|_s: &Vec<String>| Some(vec![])), None);
    assert_eq!(render_mermaid_svg("x", &|_s: &Vec<String>| None), None);
}

#[test]
fn svg_from_fence_restores_keyword() {
    let r = render_mermaid_svg_from("sequenceDiagram", "A->>B: x", &|s: &Vec<String>| {
        Some(vec![Some(s[0].clone())])
    });
    assert_eq!(r, Some("sequenceDiagram\nA->>B: x".to_string()));
}

#[test]
fn harness_embeds_json_list() {
    let h = mermaid_harness(&vec!["a\"b\nc\u{1}\\".to_string(), "z".to_string()]).unwrap();
    assert!(h.contains("const diagrams = [\"a\\\"b\\nc\\u0001\\\\\",\"z\"];\n"));
    assert!(h.starts_with("<!DOCTYPE html>\n<html lang=\"zh-CN\">"));
    assert!(h.ends_with("</html>"));
    assert!(h.contains("s.id = '__mermaid_data';"));
    let empty = mermaid_harness(&vec![]).unwrap();
    assert!(empty.contains("const diagrams = [];"));
    assert_eq!(build_harness("X"), build_harness("X"));
    assert!(build_harness("[1]").contains("const diagrams = [1];"));
}

#[test]
fn data_json_is_read_from_dumped_page() {
    let dom = "<body data-status=\"done\"><script type=\"application/json\" id=\"__mermaid_data\">[{\"i\":0,\"svg\":null}]</script></body>";
    assert_eq!(mermaid_data_json(dom), Some("[{\"i\":0,\"svg\":null}]".to_string()));
    assert!(render_done(dom));
    assert!(render_done("<body data-status='done'>"));
    assert!(!render_done("<body data-status=\"error\">"));
    assert_eq!(mermaid_data_json("<body></body>"), None);
    assert_eq!(mermaid_data_json("<script id=\"__mermaid_data\">[]"), None);
}

#[test]
fn results_are_ordered_by_index() {
    let pairs = vec![
        (2usize, Some("c".to_string())),
        (0usize, None),
        (1usize, Some("b".to_string())),
        (0usize, Some("a2".to_string())),
    ];
    assert_eq!(
        order_results(&pairs),
        vec![None, Some("a2".to_string()), Some("b".to_string()), Some("c".to_string())]
    );
    assert_eq!(order_results(&vec![]), Vec::<Option<String>>::new());
}

#[test]
fn browser_run_decisions() {
    let done = "<body data-status=\"done\">";
    match after_dump(0, 20000, false, done, Some(vec![])) {
        RenderStep::Finish(None) => {}
        _ => panic!("a failed run ends in failure"),
    }
    match after_dump(0, 20000, true, done, Some(vec![(1, None), (0, Some("s".to_string()))])) {
        RenderStep::Finish(Some(v)) => assert_eq!(v, vec![Some("s".to_string()), None]),
        _ => panic!("finished results are the outcome"),
    }
    match after_dump(0, 20000, true, "<body>", Some(vec![])) {
        RenderStep::Retry(b) => assert_eq!(b, 40000),
        _ => panic!("an unfinished page is retried with twice the budget"),
    }
    match after_dump(1, 40000, true, done, None) {
        RenderStep::Finish(None) => {}
        _ => panic!("the second run is the last"),
    }
}

#[test]
fn non_ascii_first_word_is_no_diagram() {
    assert!(!is_mermaid_source("", "流程图\nA-->B"));
    assert!(!is_mermaid_source("", "é"));
    assert_eq!(reconstruct_source("flow", "流程图"), "flow\n流程图");
    let html = "<pre><code>流程图\n</code></pre><pre><code class=\"language-mermaid\">graph LR\n</code></pre>";
    let blocks = extract_mermaid_blocks(html);
    assert_eq!(blocks.len(), 1);
    assert_eq!(blocks[0].source, "graph LR\n");
    let out = render_mermaid_blocks(html, &|s: &Vec<String>| Some(vec![Some(format!("<svg>{}</svg>", s.len()))]));
    assert_eq!(out, "<pre><code>流程图\n</code></pre><div class=\"mermaid-diagram\"><svg>1</svg></div>");
}
