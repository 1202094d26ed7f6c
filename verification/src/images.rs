//! Image embedding: every `<img>` whose source can be fetched gets its `src`
//! replaced by a base64 `data:` URI, so that the page is self-contained.
//! Fetching (reading files, downloading) is done by the caller's fetcher.
use vstd::prelude::*;
use crate::converter::{base64_encode, base64_spec, is_resolvable_spec, mime_from_ext, mime_from_ext_spec, starts_with};
use crate::front_matter::subvec;
use crate::text::{
    chars_of, contains, find, find_from, find_from_exec, find_in, has_prefix,
    lemma_find_from_bounds, lemma_find_skip, push_all, push_range, push_str, replace_all,
    replace_all_exec, string_of,
};

verus! {

/// Where an image is fetched from.
pub enum ImageSource {
    /// An `http://` or `https://` URL.
    Remote(String),
    /// A site-absolute path (`/images/a.png` as `images/a.png`), looked up in
    /// the `static/` directory of the enclosing Hugo site.
    HugoStatic(String),
    /// A path relative to the Markdown file's directory.
    Local(String),
}

/// The spec view of an `ImageSource`.
pub enum SourceView {
    Remote(Seq<char>),
    HugoStatic(Seq<char>),
    Local(Seq<char>),
}

impl View for ImageSource {
    type V = SourceView;

    open spec fn view(&self) -> SourceView {
        match self {
            ImageSource::Remote(s) => SourceView::Remote(s@),
            ImageSource::HugoStatic(s) => SourceView::HugoStatic(s@),
            ImageSource::Local(s) => SourceView::Local(s@),
        }
    }
}

/// Fetched image data.
pub struct FetchedImage {
    /// The image bytes.
    pub bytes: Vec<u8>,
    /// The content type that the source reported (a download), if any.
    pub content_type: Option<String>,
}

/// The spec view of a fetch result.
pub open spec fn fetched_view(r: Option<FetchedImage>) -> Option<(Seq<u8>, Option<Seq<char>>)> {
    match r {
        Some(f) => Some(
            (
                f.bytes@,
                match f.content_type {
                    Some(c) => Some(c@),
                    None => None,
                },
            ),
        ),
        None => None,
    }
}

/// The value of the quoted attribute that starts with `prefix` (`src="` or
/// `src='`) in `tag`, up to the closing `quote`.
pub open spec fn quoted_attr(tag: Seq<char>, prefix: Seq<char>, quote: Seq<char>) -> Option<Seq<char>> {
    match find(tag, prefix) {
        Some(i) => match find(tag.skip(i + prefix.len()), quote) {
            Some(e) => Some(tag.subrange(i + prefix.len(), i + prefix.len() + e)),
            None => None,
        },
        None => None,
    }
}

/// The `src` value of an `<img>` tag: the double-quoted one, else the
/// single-quoted one.
pub open spec fn src_value(tag: Seq<char>) -> Option<Seq<char>> {
    match quoted_attr(tag, "src=\""@, "\""@) {
        Some(v) => Some(v),
        None => quoted_attr(tag, "src='"@, "'"@),
    }
}

/// What an `<img>` tag asks to fetch: remote URLs, site-absolute paths
/// (without their `/`) and relative paths; nothing for `data:`, `file://`
/// and `#` sources or a tag without `src`.
pub open spec fn tag_request(tag: Seq<char>) -> Option<SourceView> {
    match src_value(tag) {
        None => None,
        Some(s) => if has_prefix(s, "http://"@) || has_prefix(s, "https://"@) {
            Some(SourceView::Remote(s))
        } else if is_resolvable_spec(s) {
            if has_prefix(s, "/"@) {
                Some(SourceView::HugoStatic(s.drop_first()))
            } else {
                Some(SourceView::Local(s))
            }
        } else {
            None
        },
    }
}

/// The content type written into the data URI.
pub open spec fn data_mime(req: SourceView, src: Seq<char>, reported: Option<Seq<char>>) -> Seq<char> {
    match req {
        SourceView::Remote(_) => match reported {
            Some(c) => c,
            None => "application/octet-stream"@,
        },
        _ => mime_from_ext_spec(src),
    }
}

/// An `<img>` tag once its fetch came back: unchanged when nothing was
/// fetched, otherwise every `src=<q>value<q>` (with the tag's quote) becomes
/// `src="data:<mime>;base64,<data>"`.
pub open spec fn rewrite_tag(
    tag: Seq<char>,
    req: SourceView,
    res: Option<(Seq<u8>, Option<Seq<char>>)>,
) -> Seq<char> {
    match res {
        None => tag,
        Some((bytes, reported)) => {
            let s = src_value(tag).unwrap();
            let q = if contains(tag, "src=\""@) {
                '"'
            } else {
                '\''
            };
            let attr = "src="@ + seq![q] + s + seq![q];
            let uri = "src=\"data:"@ + data_mime(req, s, reported) + ";base64,"@ + base64_spec(
                bytes,
            ) + "\""@;
            replace_all(tag, attr, uri)
        },
    }
}

/// The next `<img ...>` tag at or after `p`: `(start, end)`.
pub open spec fn next_img(h: Seq<char>, p: int) -> Option<(int, int)> {
    match find_from(h, "<img"@, p) {
        Some(t) => match find_from(h, ">"@, t) {
            Some(g) => Some((t, g + 1)),
            None => None,
        },
        None => None,
    }
}

pub proof fn lemma_next_img(h: Seq<char>, p: int)
    requires
        0 <= p,
    ensures
        next_img(h, p) matches Some((t, e)) ==> p <= t < e <= h.len(),
{
    reveal_strlit("<img");
    reveal_strlit(">");
    lemma_find_from_bounds(h, "<img"@, p);
    if let Some(t) = find_from(h, "<img"@, p) {
        lemma_find_from_bounds(h, ">"@, t);
    }
}

/// The fetches that the `<img>` tags of `h` from `p` on ask for, in order.
pub open spec fn requests_from(h: Seq<char>, p: int) -> Seq<SourceView>
    decreases h.len() - p,
{
    if p < 0 {
        Seq::empty()
    } else {
        match next_img(h, p) {
            None => Seq::empty(),
            Some((t, e)) => {
                proof {
                    lemma_next_img(h, p);
                }
                match tag_request(h.subrange(t, e)) {
                    Some(r) => seq![r] + requests_from(h, e),
                    None => requests_from(h, e),
                }
            },
        }
    }
}

/// The fetch result that comes first, if there is one.
pub open spec fn head_result(rs: Seq<Option<(Seq<u8>, Option<Seq<char>>)>>) -> Option<
    (Seq<u8>, Option<Seq<char>>),
> {
    if rs.len() > 0 {
        rs[0]
    } else {
        None
    }
}

/// The fetch results after the first.
pub open spec fn tail_results(rs: Seq<Option<(Seq<u8>, Option<Seq<char>>)>>) -> Seq<
    Option<(Seq<u8>, Option<Seq<char>>)>,
> {
    if rs.len() > 0 {
        rs.drop_first()
    } else {
        rs
    }
}

/// `h` from `p` on with the fetch results `rs` (one per request, in order)
/// written into the `<img>` tags; a tag that lacks its `>` ends the scan.
pub open spec fn embed_from(h: Seq<char>, p: int, rs: Seq<Option<(Seq<u8>, Option<Seq<char>>)>>) -> Seq<char>
    decreases h.len() - p,
{
    if p < 0 || p > h.len() {
        Seq::empty()
    } else {
        match next_img(h, p) {
            None => h.skip(p),
            Some((t, e)) => {
                proof {
                    lemma_next_img(h, p);
                }
                let tag = h.subrange(t, e);
                match tag_request(tag) {
                    Some(req) => h.subrange(p, t) + rewrite_tag(tag, req, head_result(rs))
                        + embed_from(h, e, tail_results(rs)),
                    None => h.subrange(p, t) + tag + embed_from(h, e, rs),
                }
            },
        }
    }
}

/// The value of the attribute starting with `prefix`, as a range of `tag`.
fn quoted_attr_exec(tag: &Vec<char>, prefix: &str, quote: &str) -> (r: Option<(usize, usize)>)
    ensures
        r matches Some((a, b)) ==> a <= b <= tag@.len() && quoted_attr(tag@, prefix@, quote@)
            == Some(tag@.subrange(a as int, b as int)),
        r is None ==> quoted_attr(tag@, prefix@, quote@) is None,
{
    let pv = chars_of(prefix);
    let qv = chars_of(quote);
    let _n = tag.len();
    proof {
        lemma_find_from_bounds(tag@, pv@, 0);
    }
    match find_from_exec(tag, &pv, 0) {
        Some(i) => {
            let vs = i + pv.len();
            proof {
                lemma_find_skip(tag@, qv@, vs as int);
                lemma_find_from_bounds(tag@, qv@, vs as int);
            }
            match find_from_exec(tag, &qv, vs) {
                Some(e) => Some((vs, e)),
                None => None,
            }
        },
        None => None,
    }
}

/// The `src` value of a tag, as a range.
fn src_value_exec(tag: &Vec<char>) -> (r: Option<(usize, usize)>)
    ensures
        r matches Some((a, b)) ==> a <= b <= tag@.len() && src_value(tag@) == Some(
            tag@.subrange(a as int, b as int),
        ),
        r is None ==> src_value(tag@) is None,
{
    match quoted_attr_exec(tag, "src=\"", "\"") {
        Some(r) => Some(r),
        None => quoted_attr_exec(tag, "src='", "'"),
    }
}

/// What an `<img>` tag asks to fetch.
pub fn tag_request_exec(tag: &Vec<char>) -> (r: Option<ImageSource>)
    ensures
        r matches Some(s) ==> tag_request(tag@) == Some(s@),
        r is None ==> tag_request(tag@) is None,
{
    let (a, b) = match src_value_exec(tag) {
        Some(r) => r,
        None => {
            return None;
        },
    };
    let s = subvec(tag, a, b);
    if starts_with(&s, "http://") || starts_with(&s, "https://") {
        return Some(ImageSource::Remote(string_of(&s)));
    }
    let resolvable = !(starts_with(&s, "data:") || starts_with(&s, "file://") || starts_with(
        &s,
        "#",
    ));
    if !resolvable {
        return None;
    }
    proof {
        reveal_strlit("/");
    }
    if starts_with(&s, "/") {
        let rel = subvec(&s, 1, s.len());
        assert(rel@ =~= s@.drop_first());
        Some(ImageSource::HugoStatic(string_of(&rel)))
    } else {
        Some(ImageSource::Local(string_of(&s)))
    }
}

/// The `<img>` tag once its fetch came back (see `rewrite_tag`).
fn rewrite_tag_exec(tag: &Vec<char>, req: &ImageSource, res: &Option<FetchedImage>) -> (r: Vec<char>)
    requires
        tag_request(tag@) == Some(req@),
    ensures
        r@ == rewrite_tag(tag@, req@, fetched_view(*res)),
{
    match res {
        None => {
            let r = subvec(tag, 0, tag.len());
            assert(r@ =~= tag@);
            r
        },
        Some(f) => {
            let (a, b) = src_value_exec(tag).unwrap();
            let s = subvec(tag, a, b);
            let dq = chars_of("src=\"");
            let n = tag.len();
            assert(tag@.subrange(0, n as int) =~= tag@);
            let has_dq = find_in(tag, &dq, 0, n).is_some();
            let q = if has_dq {
                '"'
            } else {
                '\''
            };
            let mut attr: Vec<char> = Vec::new();
            push_str(&mut attr, "src=");
            attr.push(q);
            push_all(&mut attr, &s);
            attr.push(q);
            let mut uri: Vec<char> = Vec::new();
            push_str(&mut uri, "src=\"data:");
            let ss = string_of(&s);
            match req {
                ImageSource::Remote(_) => match &f.content_type {
                    Some(c) => push_str(&mut uri, c.as_str()),
                    None => push_str(&mut uri, "application/octet-stream"),
                },
                _ => push_str(&mut uri, mime_from_ext(ss.as_str())),
            }
            push_str(&mut uri, ";base64,");
            let b64 = base64_encode(f.bytes.as_slice());
            push_str(&mut uri, b64.as_str());
            push_str(&mut uri, "\"");
            assert(src_value(tag@).unwrap() == s@);
            assert(has_dq == contains(tag@, "src=\""@));
            assert(attr@ =~= "src="@ + seq![q] + s@ + seq![q]);
            let ghost fv = fetched_view(*res).unwrap();
            assert(fv.0 == f.bytes@);
            assert(uri@ =~= "src=\"data:"@ + data_mime(req@, s@, fv.1) + ";base64,"@ + base64_spec(
                fv.0,
            ) + "\""@);
            replace_all_exec(tag, &attr, &uri)
        },
    }
}

/// The fetches that the `<img>` tags of `html` ask for, in order.
pub fn image_requests(html: &str) -> (r: Vec<ImageSource>)
    ensures
        r@.map_values(|s: ImageSource| s@) == requests_from(html@, 0),
{
    let h = chars_of(html);
    let n = h.len();
    let imgp = chars_of("<img");
    let gtp = chars_of(">");
    let mut out: Vec<ImageSource> = Vec::new();
    let mut p: usize = 0;
    loop
        invariant
            p <= n == h@.len(),
            h@ == html@,
            imgp@ == "<img"@,
            gtp@ == ">"@,
            out@.map_values(|s: ImageSource| s@) + requests_from(h@, p as int) == requests_from(
                h@,
                0,
            ),
        decreases n - p,
    {
        proof {
            lemma_next_img(h@, p as int);
            reveal_strlit("<img");
            reveal_strlit(">");
            lemma_find_from_bounds(h@, imgp@, p as int);
        }
        let t = match find_from_exec(&h, &imgp, p) {
            Some(t) => t,
            None => {
                assert(out@.map_values(|s: ImageSource| s@) + Seq::<SourceView>::empty()
                    =~= out@.map_values(|s: ImageSource| s@));
                return out;
            },
        };
        proof {
            lemma_find_from_bounds(h@, gtp@, t as int);
        }
        let g = match find_from_exec(&h, &gtp, t) {
            Some(g) => g,
            None => {
                assert(out@.map_values(|s: ImageSource| s@) + Seq::<SourceView>::empty()
                    =~= out@.map_values(|s: ImageSource| s@));
                return out;
            },
        };
        let tag = subvec(&h, t, g + 1);
        let ghost before = out@.map_values(|s: ImageSource| s@);
        match tag_request_exec(&tag) {
            Some(req) => {
                out.push(req);
                assert(out@.map_values(|s: ImageSource| s@) =~= before.push(
                    tag_request(tag@).unwrap(),
                ));
                assert(out@.map_values(|s: ImageSource| s@) + requests_from(h@, g + 1) =~= before
                    + requests_from(h@, p as int));
            },
            None => {},
        }
        p = g + 1;
    }
}

/// Writes fetch results into the `<img>` tags of `html`: `results` holds one
/// result per request of `image_requests(html)`, in order (a missing one
/// counts as nothing fetched).
pub fn embed_images(html: &str, results: &Vec<Option<FetchedImage>>) -> (r: String)
    ensures
        r@ == embed_from(html@, 0, results@.map_values(|f: Option<FetchedImage>| fetched_view(f))),
{
    let h = chars_of(html);
    let n = h.len();
    let imgp = chars_of("<img");
    let gtp = chars_of(">");
    let ghost rs = results@.map_values(|f: Option<FetchedImage>| fetched_view(f));
    let mut out: Vec<char> = Vec::new();
    let mut p: usize = 0;
    let mut k: usize = 0;
    assert(rs.skip(0) =~= rs);
    assert(out@ + embed_from(h@, 0, rs) =~= embed_from(h@, 0, rs));
    loop
        invariant
            p <= n == h@.len(),
            h@ == html@,
            imgp@ == "<img"@,
            gtp@ == ">"@,
            rs == results@.map_values(|f: Option<FetchedImage>| fetched_view(f)),
            k <= p,
            out@ + embed_from(h@, p as int, if k <= rs.len() { rs.skip(k as int) } else { Seq::empty() }) == embed_from(h@, 0, rs),
        decreases n - p,
    {
        let ghost rest = if k <= rs.len() { rs.skip(k as int) } else { Seq::empty() };
        proof {
            lemma_next_img(h@, p as int);
            reveal_strlit("<img");
            reveal_strlit(">");
            lemma_find_from_bounds(h@, imgp@, p as int);
        }
        let t = match find_from_exec(&h, &imgp, p) {
            Some(t) => t,
            None => {
                push_range(&mut out, &h, p, n);
                assert(h@.skip(p as int) =~= h@.subrange(p as int, n as int));
                return string_of(&out);
            },
        };
        proof {
            lemma_find_from_bounds(h@, gtp@, t as int);
        }
        let g = match find_from_exec(&h, &gtp, t) {
            Some(g) => g,
            None => {
                push_range(&mut out, &h, p, n);
                assert(h@.skip(p as int) =~= h@.subrange(p as int, n as int));
                return string_of(&out);
            },
        };
        let tag = subvec(&h, t, g + 1);
        let ghost before = out@;
        push_range(&mut out, &h, p, t);
        match tag_request_exec(&tag) {
            Some(req) => {
                let none: Option<FetchedImage> = None;
                let res = if k < results.len() {
                    &results[k]
                } else {
                    &none
                };
                let rewritten = rewrite_tag_exec(&tag, &req, res);
                push_all(&mut out, &rewritten);
                proof {
                    if k < rs.len() {
                        assert(head_result(rest) == fetched_view(results@[k as int]));
                        assert(tail_results(rest) =~= rs.skip(k + 1));
                    } else {
                        assert(head_result(rest) == fetched_view(None));
                        assert(tail_results(rest) =~= Seq::<Option<(Seq<u8>, Option<Seq<char>>)>>::empty());
                        assert(k + 1 > rs.len());
                    }
                    assert(out@ + embed_from(h@, g + 1, if k + 1 <= rs.len() { rs.skip(k + 1) } else { Seq::empty() }) =~= before + embed_from(h@, p as int, rest));
                }
                k = k + 1;
            },
            None => {
                push_all(&mut out, &tag);
                assert(out@ + embed_from(h@, g + 1, rest) =~= before + embed_from(h@, p as int, rest));
            },
        }
        p = g + 1;
    }
}

/// The fetch results line up with the requests: each came from calling
/// `fetch` on its request.
pub open spec fn fetched_by<F: Fn(&ImageSource) -> Option<FetchedImage>>(
    fetch: F,
    reqs: Seq<ImageSource>,
    results: Seq<Option<FetchedImage>>,
) -> bool {
    &&& results.len() == reqs.len()
    &&& forall|i: int| 0 <= i < reqs.len() ==> call_ensures(fetch, (&reqs[i],), #[trigger] results[i])
}

/// Embeds images as base64 `data:` URIs: every `<img>` tag whose `src` is a
/// remote URL, a site-absolute path or a relative path is handed to `fetch`,
/// and when that returns data the `src` is replaced by a data URI (content
/// type: the reported one for downloads, else from the file extension).
/// Tags whose fetch returns nothing, and all other text, are kept.
pub fn resolve_image_srcs<F: Fn(&ImageSource) -> Option<FetchedImage>>(html: &str, fetch: &F) -> (r: String)
    requires
        forall|s: &ImageSource| fetch.requires((s,)),
    ensures
        exists|reqs: Seq<ImageSource>, results: Seq<Option<FetchedImage>>|
            #![trigger fetched_by(*fetch, reqs, results)]
            reqs.map_values(|s: ImageSource| s@) == requests_from(html@, 0)
            && fetched_by(*fetch, reqs, results)
            && r@ == embed_from(html@, 0, results.map_values(|f: Option<FetchedImage>| fetched_view(f))),
{
    let reqs = image_requests(html);
    let mut results: Vec<Option<FetchedImage>> = Vec::new();
    let mut i: usize = 0;
    while i < reqs.len()
        invariant
            i <= reqs@.len(),
            results@.len() == i,
            forall|s: &ImageSource| fetch.requires((s,)),
            forall|j: int| 0 <= j < i ==> call_ensures(*fetch, (&reqs@[j],), #[trigger] results@[j]),
        decreases reqs@.len() - i,
    {
        let res = fetch(&reqs[i]);
        results.push(res);
        i = i + 1;
    }
    let r = embed_images(html, &results);
    assert(fetched_by(*fetch, reqs@, results@));
    r
}

/// When no fetch brings anything back, the HTML is unchanged.
pub proof fn lemma_embed_nothing(h: Seq<char>, p: int, rs: Seq<Option<(Seq<u8>, Option<Seq<char>>)>>)
    requires
        0 <= p <= h.len(),
        forall|i: int| 0 <= i < rs.len() ==> (#[trigger] rs[i]) is None,
    ensures
        embed_from(h, p, rs) == h.skip(p),
    decreases h.len() - p,
{
    lemma_next_img(h, p);
    match next_img(h, p) {
        None => {},
        Some((t, e)) => {
            let tag = h.subrange(t, e);
            let tl = tail_results(rs);
            assert forall|i: int| 0 <= i < tl.len() implies (#[trigger] tl[i]) is None by {
                assert(tl[i] == rs[i + 1]);
            }
            lemma_embed_nothing(h, e, tl);
            lemma_embed_nothing(h, e, rs);
            assert(h.subrange(p, t) + tag + h.skip(e) =~= h.skip(p));
        },
    }
}

} // verus!
