use md2x_core::preview::{cache_after_html, CachedPreview};
use md2x_core::preview::{b64, file_change_step};

#[test]
fn later_modification_time_is_a_change() {
    assert_eq!(file_change_step(Some(5), Some(7)), (true, Some(7)));
    assert_eq!(file_change_step(Some(7), Some(7)), (false, Some(7)));
    assert_eq!(file_change_step(Some(9), Some(7)), (false, Some(9)));
}

#[test]
fn first_time_is_remembered_without_change() {
    assert_eq!(file_change_step(None, Some(3)), (false, Some(3)));
    assert_eq!(file_change_step(None, None), (false, None));
    assert_eq!(file_change_step(Some(4), None), (false, Some(4)));
}

#[test]
fn pdf_bytes_as_base64() {
    assert_eq!(b64(b"%PDF"), "JVBERg==");
    assert_eq!(b64(b""), "");
}

#[test]
fn cached_preview_is_reused_only_when_unchanged() {
    use_cache_cases();
}

fn use_cache_cases() {
    assert!(md2x_core::preview::cache_reusable(Some(5), Some(5), true));
    assert!(!md2x_core::preview::cache_reusable(Some(5), Some(5), false));
    assert!(!md2x_core::preview::cache_reusable(Some(5), Some(6), true));
    assert!(!md2x_core::preview::cache_reusable(None, Some(6), true));
    assert!(!md2x_core::preview::cache_reusable(Some(6), None, true));
}

#[test]
fn cache_after_html_clears_pdf_and_keeps_without_time() {
    let old = CachedPreview { file_mtime: 5, pdf_path: "a.pdf".to_string(), html_path: "a.html".to_string() };
    let c = cache_after_html(Some(old), Some(9), "b.html".to_string()).unwrap();
    assert_eq!((c.file_mtime, c.pdf_path.as_str(), c.html_path.as_str()), (9, "", "b.html"));
    let fresh = cache_after_html(None, Some(3), "c.html".to_string()).unwrap();
    assert_eq!((fresh.file_mtime, fresh.pdf_path.as_str(), fresh.html_path.as_str()), (3, "", "c.html"));
    let kept = cache_after_html(Some(CachedPreview { file_mtime: 1, pdf_path: "p".to_string(), html_path: "h".to_string() }), None, "x".to_string()).unwrap();
    assert_eq!((kept.file_mtime, kept.pdf_path.as_str(), kept.html_path.as_str()), (1, "p", "h"));
    assert!(cache_after_html(None, None, "x".to_string()).is_none());
}
