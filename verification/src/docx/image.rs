//! Images of a Word document: reading one for a source, pixel dimensions
//! of PNG, JPEG, GIF, BMP and WebP data, the file extension for a content
//! type, and the media and embeddings of a document's images.
use vstd::prelude::*;
use crate::text::{chars_of, contains, decimal, find, find_in, has_prefix, push_decimal, push_str, string_of};
use crate::converter::{is_resolvable_path, is_resolvable_spec, mime_from_ext, mime_from_ext_spec, starts_with};
use crate::images::{FetchedImage, ImageSource, SourceView};

verus! {

/// Big-endian 16-bit value at `i`.
pub open spec fn be16(b: Seq<u8>, i: int) -> int {
    b[i] * 256 + b[i + 1]
}

/// Big-endian 32-bit value at `i`.
pub open spec fn be32(b: Seq<u8>, i: int) -> int {
    b[i] * 16777216 + b[i + 1] * 65536 + b[i + 2] * 256 + b[i + 3]
}

/// Little-endian 16-bit value at `i`.
pub open spec fn le16(b: Seq<u8>, i: int) -> int {
    b[i] + b[i + 1] * 256
}

/// Little-endian 32-bit value at `i`.
pub open spec fn le32(b: Seq<u8>, i: int) -> int {
    b[i] + b[i + 1] * 256 + b[i + 2] * 65536 + b[i + 3] * 16777216
}

/// Little-endian two's-complement 32-bit value at `i`.
pub open spec fn le32_signed(b: Seq<u8>, i: int) -> int {
    if le32(b, i) >= 0x8000_0000 {
        le32(b, i) - 0x1_0000_0000
    } else {
        le32(b, i)
    }
}

/// PNG: signature, then width and height in the IHDR chunk.
pub open spec fn png_dims(b: Seq<u8>) -> Option<(int, int)> {
    if b.len() < 24 || b.take(8) != seq![0x89u8, 0x50, 0x4E, 0x47, 0x0D, 0x0A, 0x1A, 0x0A] {
        None
    } else {
        Some((be32(b, 16), be32(b, 20)))
    }
}

/// A JPEG start-of-frame marker (SOF0 to SOF15 without DHT, JPG and DAC).
pub open spec fn is_sof_marker(m: u8) -> bool {
    0xC0 <= m <= 0xCF && m != 0xC4 && m != 0xC8 && m != 0xCC
}

/// The JPEG segment walk from `i`: bytes other than `0xFF` are skipped, a
/// start-of-frame segment gives (width, height), other segments are skipped
/// by their length; a length under 2 ends the walk.
pub open spec fn jpeg_scan(b: Seq<u8>, i: int) -> Option<(int, int)>
    decreases b.len() - i,
{
    if i < 0 || i + 9 >= b.len() {
        None
    } else if b[i] != 0xFF {
        jpeg_scan(b, i + 1)
    } else if is_sof_marker(b[i + 1]) {
        Some((be16(b, i + 7), be16(b, i + 5)))
    } else if be16(b, i + 2) < 2 || i + 2 + be16(b, i + 2) >= b.len() {
        None
    } else {
        jpeg_scan(b, i + 2 + be16(b, i + 2))
    }
}

/// JPEG: SOI marker, then the segment walk.
pub open spec fn jpeg_dims(b: Seq<u8>) -> Option<(int, int)> {
    if b.len() < 4 || b[0] != 0xFF || b[1] != 0xD8 {
        None
    } else {
        jpeg_scan(b, 2)
    }
}

/// GIF: `GIF` signature, then the logical screen size.
pub open spec fn gif_dims(b: Seq<u8>) -> Option<(int, int)> {
    if b.len() < 10 || b[0] != 0x47 || b[1] != 0x49 || b[2] != 0x46 {
        None
    } else {
        Some((le16(b, 6), le16(b, 8)))
    }
}

/// BMP: `BM` signature, then the signed width and height; a height below
/// zero (a top-down bitmap) counts by its magnitude.
pub open spec fn bmp_dims(b: Seq<u8>) -> Option<(int, int)> {
    if b.len() < 26 || b[0] != 0x42 || b[1] != 0x4D {
        None
    } else {
        let w = le32_signed(b, 18);
        let h = le32_signed(b, 22);
        if w <= 0 || h == 0 {
            None
        } else {
            Some((w, if h < 0 { -h } else { h }))
        }
    }
}

/// WebP: RIFF/WEBP header, then the size of a lossy (`VP8 `) or lossless
/// (`VP8L`) image.
pub open spec fn webp_dims(b: Seq<u8>) -> Option<(int, int)> {
    if b.len() < 30 || b.subrange(0, 4) != seq![0x52u8, 0x49, 0x46, 0x46] || b.subrange(8, 12)
        != seq![0x57u8, 0x45, 0x42, 0x50] {
        None
    } else if b.subrange(12, 16) == seq![0x56u8, 0x50, 0x38, 0x20] {
        Some((le16(b, 26) % 16384, le16(b, 28) % 16384))
    } else if b.subrange(12, 16) == seq![0x56u8, 0x50, 0x38, 0x4C] {
        let bits = le32(b, 21);
        Some((bits % 16384 + 1, (bits / 16384) % 16384 + 1))
    } else {
        None
    }
}

/// The pixel size of an image, by the format its content type names.
pub open spec fn image_dimensions_spec(b: Seq<u8>, mime: Seq<char>) -> Option<(int, int)> {
    if contains(mime, "png"@) {
        png_dims(b)
    } else if contains(mime, "jpeg"@) {
        jpeg_dims(b)
    } else if contains(mime, "gif"@) {
        gif_dims(b)
    } else if contains(mime, "bmp"@) {
        bmp_dims(b)
    } else if contains(mime, "webp"@) {
        webp_dims(b)
    } else {
        None
    }
}

fn u16_be(b: &[u8], i: usize) -> (r: u16)
    requires
        i + 2 <= b@.len(),
    ensures
        r == be16(b@, i as int),
{
    (b[i] as u16) * 256 + (b[i + 1] as u16)
}

fn u32_be(b: &[u8], i: usize) -> (r: u32)
    requires
        i + 4 <= b@.len(),
    ensures
        r == be32(b@, i as int),
{
    (b[i] as u32) * 16777216 + (b[i + 1] as u32) * 65536 + (b[i + 2] as u32) * 256 + (b[i
        + 3] as u32)
}

fn u16_le(b: &[u8], i: usize) -> (r: u16)
    requires
        i + 2 <= b@.len(),
    ensures
        r == le16(b@, i as int),
{
    (b[i] as u16) + (b[i + 1] as u16) * 256
}

fn u32_le(b: &[u8], i: usize) -> (r: u32)
    requires
        i + 4 <= b@.len(),
    ensures
        r == le32(b@, i as int),
{
    (b[i] as u32) + (b[i + 1] as u32) * 256 + (b[i + 2] as u32) * 65536 + (b[i + 3] as u32)
        * 16777216
}

fn i32_le(b: &[u8], i: usize) -> (r: i64)
    requires
        i + 4 <= b@.len(),
    ensures
        r == le32_signed(b@, i as int),
{
    let u = u32_le(b, i) as i64;
    if u >= 0x8000_0000 {
        u - 0x1_0000_0000
    } else {
        u
    }
}

fn png_dimensions(b: &[u8]) -> (r: Option<(u32, u32)>)
    ensures
        r matches Some((w, h)) ==> png_dims(b@) == Some((w as int, h as int)),
        r is None ==> png_dims(b@) is None,
{
    if b.len() < 24 || b[0] != 0x89 || b[1] != 0x50 || b[2] != 0x4E || b[3] != 0x47 || b[4]
        != 0x0D || b[5] != 0x0A || b[6] != 0x1A || b[7] != 0x0A {
        proof {
            if b@.len() >= 24 {
                let t = seq![0x89u8, 0x50, 0x4E, 0x47, 0x0D, 0x0A, 0x1A, 0x0A];
                assert(b@.take(8) == t ==> b@.take(8)[0] == t[0] && b@.take(8)[1] == t[1]
                    && b@.take(8)[2] == t[2] && b@.take(8)[3] == t[3] && b@.take(8)[4] == t[4]
                    && b@.take(8)[5] == t[5] && b@.take(8)[6] == t[6] && b@.take(8)[7] == t[7]);
            }
        }
        return None;
    }
    assert(b@.take(8) =~= seq![0x89u8, 0x50, 0x4E, 0x47, 0x0D, 0x0A, 0x1A, 0x0A]);
    Some((u32_be(b, 16), u32_be(b, 20)))
}

fn jpeg_dimensions(b: &[u8]) -> (r: Option<(u32, u32)>)
    ensures
        r matches Some((w, h)) ==> jpeg_dims(b@) == Some((w as int, h as int)),
        r is None ==> jpeg_dims(b@) is None,
{
    if b.len() < 4 || b[0] != 0xFF || b[1] != 0xD8 {
        return None;
    }
    let n = b.len();
    let mut i: usize = 2;
    while n >= 10 && i < n - 9
        invariant
            n == b@.len(),
            2 <= i,
            jpeg_dims(b@) == jpeg_scan(b@, i as int),
        decreases n - i,
    {
        if b[i] != 0xFF {
            i = i + 1;
        } else {
            let marker = b[i + 1];
            if 0xC0 <= marker && marker <= 0xCF && marker != 0xC4 && marker != 0xC8 && marker
                != 0xCC {
                let h = u16_be(b, i + 5);
                let w = u16_be(b, i + 7);
                return Some((w as u32, h as u32));
            }
            let len = u16_be(b, i + 2) as usize;
            if len < 2 {
                return None;
            }
            if len + 2 >= n - i {
                return None;
            }
            i = i + 2 + len;
        }
    }
    None
}

fn gif_dimensions(b: &[u8]) -> (r: Option<(u32, u32)>)
    ensures
        r matches Some((w, h)) ==> gif_dims(b@) == Some((w as int, h as int)),
        r is None ==> gif_dims(b@) is None,
{
    if b.len() < 10 || b[0] != 0x47 || b[1] != 0x49 || b[2] != 0x46 {
        return None;
    }
    Some((u16_le(b, 6) as u32, u16_le(b, 8) as u32))
}

fn bmp_dimensions(b: &[u8]) -> (r: Option<(u32, u32)>)
    ensures
        r matches Some((w, h)) ==> bmp_dims(b@) == Some((w as int, h as int)),
        r is None ==> bmp_dims(b@) is None,
{
    if b.len() < 26 || b[0] != 0x42 || b[1] != 0x4D {
        return None;
    }
    let w = i32_le(b, 18);
    let h = i32_le(b, 22);
    if w <= 0 || h == 0 {
        return None;
    }
    let ha: i64 = if h < 0 {
        -h
    } else {
        h
    };
    Some((w as u32, ha as u32))
}

fn webp_dimensions(b: &[u8]) -> (r: Option<(u32, u32)>)
    ensures
        r matches Some((w, h)) ==> webp_dims(b@) == Some((w as int, h as int)),
        r is None ==> webp_dims(b@) is None,
{
    if b.len() < 30 || !bytes_at(b, 0, 0x52, 0x49, 0x46, 0x46) || !bytes_at(
        b,
        8,
        0x57,
        0x45,
        0x42,
        0x50,
    ) {
        return None;
    }
    if bytes_at(b, 12, 0x56, 0x50, 0x38, 0x20) {
        let w = u16_le(b, 26) % 16384;
        let h = u16_le(b, 28) % 16384;
        Some((w as u32, h as u32))
    } else if bytes_at(b, 12, 0x56, 0x50, 0x38, 0x4C) {
        let bits = u32_le(b, 21);
        let w = bits % 16384 + 1;
        let h = (bits / 16384) % 16384 + 1;
        Some((w, h))
    } else {
        None
    }
}

/// Whether `b[i..i + 4]` holds the four given bytes.
fn bytes_at(b: &[u8], i: usize, c0: u8, c1: u8, c2: u8, c3: u8) -> (r: bool)
    requires
        i + 4 <= b@.len(),
    ensures
        r == (b@.subrange(i as int, i + 4) == seq![c0, c1, c2, c3]),
{
    let r = b[i] == c0 && b[i + 1] == c1 && b[i + 2] == c2 && b[i + 3] == c3;
    proof {
        let s = b@.subrange(i as int, i + 4);
        if r {
            assert(s =~= seq![c0, c1, c2, c3]);
        } else {
            if s == seq![c0, c1, c2, c3] {
                assert(s[0] == c0 && s[1] == c1 && s[2] == c2 && s[3] == c3);
            }
        }
    }
    r
}

/// Whether `mime` contains `p`.
fn mime_has(mime: &Vec<char>, p: &str) -> (r: bool)
    ensures
        r == contains(mime@, p@),
{
    let pv = chars_of(p);
    let n = mime.len();
    assert(mime@.subrange(0, n as int) =~= mime@);
    find_in(mime, &pv, 0, n).is_some()
}

/// The pixel size (width, height) of PNG, JPEG, GIF, BMP or WebP data, by
/// the format that `mime` names; `None` for other formats or broken headers.
pub fn image_dimensions(bytes: &[u8], mime: &str) -> (r: Option<(u32, u32)>)
    ensures
        r matches Some((w, h)) ==> image_dimensions_spec(bytes@, mime@) == Some(
            (w as int, h as int),
        ),
        r is None ==> image_dimensions_spec(bytes@, mime@) is None,
{
    let m = chars_of(mime);
    if mime_has(&m, "png") {
        png_dimensions(bytes)
    } else if mime_has(&m, "jpeg") {
        jpeg_dimensions(bytes)
    } else if mime_has(&m, "gif") {
        gif_dimensions(bytes)
    } else if mime_has(&m, "bmp") {
        bmp_dimensions(bytes)
    } else if mime_has(&m, "webp") {
        webp_dimensions(bytes)
    } else {
        None
    }
}

/// The file extension for a content type.
pub open spec fn ext_from_mime_spec(mime: Seq<char>) -> Seq<char> {
    if contains(mime, "jpeg"@) {
        "jpeg"@
    } else if contains(mime, "gif"@) {
        "gif"@
    } else if contains(mime, "bmp"@) {
        "bmp"@
    } else if contains(mime, "webp"@) {
        "webp"@
    } else {
        "png"@
    }
}

/// The file extension for a content type (`png` when none matches).
pub fn ext_from_mime(mime: &str) -> (r: &'static str)
    ensures
        r@ == ext_from_mime_spec(mime@),
{
    let m = chars_of(mime);
    if mime_has(&m, "jpeg") {
        "jpeg"
    } else if mime_has(&m, "gif") {
        "gif"
    } else if mime_has(&m, "bmp") {
        "bmp"
    } else if mime_has(&m, "webp") {
        "webp"
    } else {
        "png"
    }
}

/// What a fetch result gives for an image path: its bytes and the content
/// type of the path's extension.
pub open spec fn image_bytes_view(res: Option<FetchedImage>, src: Seq<char>) -> Option<(Seq<u8>, Seq<char>)> {
    match res {
        Some(f) => Some((f.bytes@, mime_from_ext_spec(src))),
        None => None,
    }
}

/// The view of an image read.
pub open spec fn bytes_view(r: Option<(Vec<u8>, String)>) -> Option<(Seq<u8>, Seq<char>)> {
    match r {
        Some((b, m)) => Some((b@, m@)),
        None => None,
    }
}

/// `fetch` called on `req` returns `res`.
pub open spec fn fetched_path<F: Fn(&ImageSource) -> Option<FetchedImage>>(
    fetch: F,
    req: ImageSource,
    res: Option<FetchedImage>,
) -> bool {
    call_ensures(fetch, (&req,), res)
}

/// What a download gives: its bytes and the content type it reported
/// (`application/octet-stream` when none).
pub open spec fn remote_bytes_view(res: Option<FetchedImage>) -> Option<(Seq<u8>, Seq<char>)> {
    match res {
        Some(f) => Some(
            (
                f.bytes@,
                match f.content_type {
                    Some(c) => c@,
                    None => "application/octet-stream"@,
                },
            ),
        ),
        None => None,
    }
}

/// `got` is what reading image `src` gives, when each call of `fetch` may
/// return anything it can: a remote URL is downloaded; `data:`, `file://`
/// and `#` sources give nothing; a path that starts with `/` is read as it
/// is and, when that gives nothing, from the Hugo `static/` directory (the
/// path without its `/`); any other path is read relative to the Markdown
/// file. A path's content type comes from its extension.
pub open spec fn resolved<F: Fn(&ImageSource) -> Option<FetchedImage>>(
    fetch: F,
    src: Seq<char>,
    got: Option<(Seq<u8>, Seq<char>)>,
) -> bool {
    if has_prefix(src, "http://"@) || has_prefix(src, "https://"@) {
        exists|req: ImageSource, res: Option<FetchedImage>|
            #![trigger fetched_path(fetch, req, res)]
            fetched_path(fetch, req, res) && req@ == SourceView::Remote(src) && got == remote_bytes_view(res)
    } else if !is_resolvable_spec(src) {
        got is None
    } else if has_prefix(src, "/"@) {
        exists|req: ImageSource, res: Option<FetchedImage>|
            #![trigger fetched_path(fetch, req, res)]
            fetched_path(fetch, req, res) && req@ == SourceView::Local(src) && {
                ||| res is Some && got == image_bytes_view(res, src)
                ||| res is None && exists|req2: ImageSource, res2: Option<FetchedImage>|
                    #![trigger fetched_path(fetch, req2, res2)]
                    fetched_path(fetch, req2, res2) && req2@ == SourceView::HugoStatic(src.drop_first())
                        && got == image_bytes_view(res2, src)
            }
    } else {
        exists|req: ImageSource, res: Option<FetchedImage>|
            #![trigger fetched_path(fetch, req, res)]
            fetched_path(fetch, req, res) && req@ == SourceView::Local(src) && got == image_bytes_view(res, src)
    }
}

/// The bytes and content type of an image of a Word document (see
/// `resolved`): `fetch`, which the caller ties to the Markdown file
/// `md_file`, reads or downloads it.
pub fn resolve_image_bytes<F: Fn(&ImageSource) -> Option<FetchedImage>>(
    src: &str,
    md_file: &str,
    fetch: &F,
) -> (r: Option<(Vec<u8>, String)>)
    requires
        forall|s: &ImageSource| fetch.requires((s,)),
    ensures
        resolved(*fetch, src@, bytes_view(r)),
{
    let v = chars_of(src);
    if starts_with(&v, "http://") || starts_with(&v, "https://") {
        let req = ImageSource::Remote(String::from_str(src));
        let res = fetch(&req);
        assert(fetched_path(*fetch, req, res));
        return match res {
            Some(f) => {
                let m = match f.content_type {
                    Some(c) => c,
                    None => String::from_str("application/octet-stream"),
                };
                Some((f.bytes, m))
            },
            None => None,
        };
    }
    if !is_resolvable_path(src) {
        return None;
    }
    let req = ImageSource::Local(String::from_str(src));
    let res = fetch(&req);
    assert(fetched_path(*fetch, req, res));
    match res {
        Some(f) => {
            return Some((f.bytes, String::from_str(mime_from_ext(src))));
        },
        None => {},
    }
    if !starts_with(&v, "/") {
        return None;
    }
    proof {
        reveal_strlit("/");
    }
    let n = src.unicode_len();
    let rest = src.substring_char(1, n);
    assert(rest@ =~= src@.drop_first());
    let req2 = ImageSource::HugoStatic(String::from_str(rest));
    let res2 = fetch(&req2);
    assert(fetched_path(*fetch, req2, res2));
    match res2 {
        Some(f) => Some((f.bytes, String::from_str(mime_from_ext(src)))),
        None => None,
    }
}

/// The extent in EMU of a `w` by `h` pixel image (9525 EMU a pixel),
/// scaled down in proportion to the text width of 6.3 inches (5781600 EMU)
/// when it is wider.
pub open spec fn image_extent_spec(w: int, h: int) -> (int, int) {
    if w * 9525 > 5781600 {
        (5781600int, h * 5781600 / w)
    } else {
        (w * 9525, h * 9525)
    }
}

/// The extent of an image (see `image_extent_spec`).
pub fn image_extent(w: u32, h: u32) -> (r: (u64, u64))
    requires
        w > 0,
    ensures
        (r.0 as int, r.1 as int) == image_extent_spec(w as int, h as int),
{
    assert(w * 9525 <= 0xFFFF_FFFF * 9525) by (nonlinear_arith)
        requires
            w <= 0xFFFF_FFFF,
    ;
    assert(h * 9525 <= 0xFFFF_FFFF * 9525) by (nonlinear_arith)
        requires
            h <= 0xFFFF_FFFF,
    ;
    assert(h * 5781600 <= 0xFFFF_FFFF * 5781600) by (nonlinear_arith)
        requires
            h <= 0xFFFF_FFFF,
    ;
    let cx = (w as u64) * 9525;
    if cx > 5781600 {
        (5781600, (h as u64) * 5781600 / (w as u64))
    } else {
        (cx, (h as u64) * 9525)
    }
}

/// The file name of the `n`-th embedded image.
pub open spec fn image_name_spec(n: int, ext: Seq<char>) -> Seq<char> {
    "image"@ + decimal(n as nat) + "."@ + ext
}

/// The file name of the `n`-th embedded image (see `image_name_spec`).
pub fn image_name(n: u64, ext: &str) -> (r: String)
    ensures
        r@ == image_name_spec(n as int, ext@),
{
    let mut out: Vec<char> = Vec::new();
    push_str(&mut out, "image");
    push_decimal(&mut out, n);
    push_str(&mut out, ".");
    push_str(&mut out, ext);
    string_of(&out)
}

/// A media item as plain values: (file name, bytes, content type,
/// relationship id).
pub open spec fn media_view(m: Seq<(String, Vec<u8>, String, usize)>) -> Seq<(Seq<char>, Seq<u8>, Seq<char>, int)> {
    m.map_values(|x: (String, Vec<u8>, String, usize)| (x.0@, x.1@, x.2@, x.3 as int))
}

/// The media and embeddings of images read as `gots`: an image whose
/// dimensions are known and not zero becomes the next media item
/// (`image<n>.<ext>`, relationship id `n + 2`) and is embedded at its
/// extent; any other image is not embedded.
pub open spec fn embed_all(gots: Seq<Option<(Seq<u8>, Seq<char>)>>) -> (
    Seq<(Seq<char>, Seq<u8>, Seq<char>, int)>,
    Seq<Option<(u64, u64, u64)>>,
)
    decreases gots.len(),
{
    if gots.len() == 0 {
        (Seq::empty(), Seq::empty())
    } else {
        let (m, i) = embed_all(gots.drop_last());
        let n = m.len() as int;
        match gots.last() {
            Some((b, mime)) => match image_dimensions_spec(b, mime) {
                Some((w, h)) => if w > 0 && h > 0 {
                    let e = image_extent_spec(w, h);
                    (
                        m.push((image_name_spec(n + 1, ext_from_mime_spec(mime)), b, mime, n + 3)),
                        i.push(Some(((n + 3) as u64, e.0 as u64, e.1 as u64))),
                    )
                } else {
                    (m, i.push(None))
                },
                None => (m, i.push(None)),
            },
            None => (m, i.push(None)),
        }
    }
}

/// Reads the images `srcs` of a Word document with `fetch` (see
/// `resolve_image_bytes`) and makes their media and embeddings (see
/// `embed_all`).
pub fn embed_docx_images<F: Fn(&ImageSource) -> Option<FetchedImage>>(
    srcs: &Vec<String>,
    md_file: &str,
    fetch: &F,
) -> (r: (Vec<(String, Vec<u8>, String, usize)>, Vec<Option<(u64, u64, u64)>>))
    requires
        forall|s: &ImageSource| fetch.requires((s,)),
        srcs@.len() * 6 <= usize::MAX,
    ensures
        exists|gots: Seq<Option<(Seq<u8>, Seq<char>)>>|
            gots.len() == srcs@.len() && (forall|k: int|
                0 <= k < gots.len() ==> resolved(*fetch, srcs@[k]@, #[trigger] gots[k]))
                && media_view(r.0@) == embed_all(gots).0 && r.1@ == embed_all(gots).1,
        r.0@.len() <= srcs@.len(),
{
    let mut media: Vec<(String, Vec<u8>, String, usize)> = Vec::new();
    let mut infos: Vec<Option<(u64, u64, u64)>> = Vec::new();
    let ghost mut gots: Seq<Option<(Seq<u8>, Seq<char>)>> = Seq::empty();
    let mut k: usize = 0;
    assert(media_view(media@) =~= Seq::<(Seq<char>, Seq<u8>, Seq<char>, int)>::empty());
    assert(infos@ =~= Seq::<Option<(u64, u64, u64)>>::empty());
    while k < srcs.len()
        invariant
            k <= srcs@.len(),
            srcs@.len() * 6 <= usize::MAX,
            forall|s: &ImageSource| fetch.requires((s,)),
            gots.len() == k,
            forall|j: int| 0 <= j < k ==> resolved(*fetch, srcs@[j]@, #[trigger] gots[j]),
            media_view(media@) == embed_all(gots).0,
            infos@ == embed_all(gots).1,
            media@.len() <= k,
        decreases srcs@.len() - k,
    {
        let got = resolve_image_bytes(srcs[k].as_str(), md_file, fetch);
        let ghost g = bytes_view(got);
        let ghost prev = gots;
        proof {
            gots = gots.push(g);
            assert(gots.drop_last() =~= prev);
            assert forall|j: int| 0 <= j < k + 1 implies resolved(*fetch, srcs@[j]@, #[trigger] gots[j]) by {
                if j < k {
                    assert(gots[j] == prev[j]);
                }
            }
        }
        let n = media.len();
        let mut added = false;
        match got {
            Some((bytes, mime)) => {
                match image_dimensions(bytes.as_slice(), mime.as_str()) {
                    Some((w, h)) => {
                        if w > 0 && h > 0 {
                            let (cx, cy) = image_extent(w, h);
                            let name = image_name((n + 1) as u64, ext_from_mime(mime.as_str()));
                            let rid = n + 3;
                            let ghost mv = media_view(media@);
                            media.push((name, bytes, mime, rid));
                            infos.push(Some((rid as u64, cx, cy)));
                            assert(media_view(media@) =~= mv.push((name@, bytes@, mime@, rid as int)));
                            added = true;
                        }
                    },
                    None => {},
                }
            },
            None => {},
        }
        if !added {
            infos.push(None);
        }
        assert(media_view(media@) =~= embed_all(gots).0);
        assert(infos@ =~= embed_all(gots).1);
        k = k + 1;
    }
    (media, infos)
}

/// The size of a JPEG whose first segment is a frame header: for every
/// start-of-frame marker (0xC0 to 0xCF but 0xC4, 0xC8 and 0xCC; baseline,
/// progressive, lossless and the rest alike) the size is (the big-endian
/// width at byte 9, the big-endian height at byte 7).
pub proof fn lemma_jpeg_frame_size(b: Seq<u8>)
    requires
        b.len() >= 12,
        b[0] == 0xFF && b[1] == 0xD8 && b[2] == 0xFF,
        0xC0 <= b[3] <= 0xCF,
        b[3] != 0xC4 && b[3] != 0xC8 && b[3] != 0xCC,
    ensures
        image_dimensions_spec(b, "image/jpeg"@) == Some(
            (b[9] as int * 256 + b[10] as int, b[7] as int * 256 + b[8] as int),
        ),
{
    reveal_strlit("image/jpeg");
    reveal_strlit("png");
    reveal_strlit("jpeg");
    assert(!contains("image/jpeg"@, "png"@)) by {
        let t = "image/jpeg"@;
        crate::text::lemma_find_from_bounds(t, "png"@, 0);
        if find(t, "png"@) is Some {
            let j = find(t, "png"@).unwrap();
            assert(t.subrange(j, j + 3)[0] == t[j]);
            assert(t.subrange(j, j + 3)[1] == t[j + 1]);
            assert(t[j] == 'p' && t[j + 1] == 'n');
            if j == 0 {} else if j == 1 {} else if j == 2 {} else if j == 3 {} else if j == 4 {} else if j == 5 {} else if j == 6 {} else if j == 7 {} else {}
        }
    }
    assert(contains("image/jpeg"@, "jpeg"@)) by {
        assert("image/jpeg"@.subrange(6, 10) =~= "jpeg"@);
        assert(crate::text::matches_at("image/jpeg"@, "jpeg"@, 6));
        crate::text::lemma_find_from_bounds("image/jpeg"@, "jpeg"@, 0);
    }
}

} // verus!
