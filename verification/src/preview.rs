//! The desktop preview's decisions: when a watched file counts as changed,
//! when a cached preview can be reused, how the cache changes after a new
//! HTML preview, and the PDF data it hands to the page.
use vstd::prelude::*;
use crate::converter::{base64_encode, base64_spec};

verus! {

/// One poll of the watched file: given the modification time remembered
/// from the last poll and the current one (none when it cannot be read),
/// whether the file changed and the time to remember. A later time is a
/// change; the first time seen is remembered without counting as one;
/// otherwise nothing changes.
pub fn file_change_step(last: Option<u128>, current: Option<u128>) -> (r: (bool, Option<u128>))
    ensures
        (last matches Some(l) && current matches Some(c) && c > l) ==> r == (true, current),
        (last is None && current is Some) ==> r == (false, current),
        !((last matches Some(l) && current matches Some(c) && c > l) || (last is None && current is Some))
            ==> r == (false, last),
{
    match (last, current) {
        (Some(l), Some(c)) => {
            if c > l {
                (true, current)
            } else {
                (false, last)
            }
        },
        (None, Some(_)) => (false, current),
        _ => (false, last),
    }
}

/// The base64 text of PDF bytes handed to the preview page.
pub fn b64(data: &[u8]) -> (r: String)
    ensures
        r@ == base64_spec(data@),
{
    base64_encode(data)
}

/// Whether a cached preview file (HTML or PDF) can be reused: the watched
/// file's modification time is known and equals the one the cache was made
/// at, and the cached file still exists.
pub fn cache_reusable(cached_mtime: Option<u128>, current: Option<u128>, cached_file_exists: bool) -> (r: bool)
    ensures
        r == (cached_mtime is Some && current is Some && cached_mtime == current && cached_file_exists),
{
    match (cached_mtime, current) {
        (Some(c), Some(m)) => c == m && cached_file_exists,
        _ => false,
    }
}

/// A cached preview: the watched file's modification time it was made at
/// and its HTML and PDF files (an empty path when there is none).
pub struct CachedPreview {
    pub file_mtime: u128,
    pub pdf_path: String,
    pub html_path: String,
}

/// The cache after an HTML preview was made afresh at `html_path` for a
/// file whose modification time is `mtime`: without a known time it stays
/// as it was; otherwise it holds that time and the new HTML, and no PDF
/// (the PDF must be made again).
pub fn cache_after_html(cache: Option<CachedPreview>, mtime: Option<u128>, html_path: String) -> (r: Option<
    CachedPreview,
>)
    ensures
        mtime is None ==> r == cache,
        mtime matches Some(m) ==> r matches Some(c) && c.file_mtime == m && c.html_path@ == html_path@
            && c.pdf_path@.len() == 0,
{
    match mtime {
        None => cache,
        Some(m) => Some(CachedPreview { file_mtime: m, pdf_path: String::new(), html_path: html_path }),
    }
}

} // verus!
