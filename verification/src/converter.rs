//! Markdown to HTML conversion helpers: image sources, task lists and the
//! small encoders the converters share.
use vstd::prelude::*;
pub use crate::front_matter::{parse_front_matter, strip_front_matter};
pub use crate::links::fix_spaced_link_destinations;
pub use crate::images::resolve_image_srcs;
use crate::front_matter::{front_matter_meta, strip_front_matter_spec, subvec};
use crate::metadata::Metadata;
use crate::mermaid::{
    block_sources, blocks_from, page_after,
    render_mermaid_blocks, rendered_with, string_views,
};
use crate::links::fix_spaced_link_destinations_spec;
use crate::markdown::{comrak_html, markdown_to_html};
use crate::error::MpeError;
use crate::text::{
    chars_of, find, find_from, find_in, has_prefix, lemma_find_from_bounds, matches_at, push_all, push_range,
    replace_all, replace_str, rfind, rfind_before, rfind_in, string_of,
};

verus! {

/// An image `src` that needs local resolution: not a remote URL, not a
/// `data:` or `file://` URI and not an anchor.
pub open spec fn is_resolvable_spec(src: Seq<char>) -> bool {
    !(has_prefix(src, "http://"@) || has_prefix(src, "https://"@) || has_prefix(src, "data:"@)
        || has_prefix(src, "file://"@) || has_prefix(src, "#"@))
}

/// Whether `src` needs local resolution (see `is_resolvable_spec`).
pub fn is_resolvable_path(src: &str) -> (r: bool)
    ensures
        r == is_resolvable_spec(src@),
{
    let v = chars_of(src);
    let remote = starts_with(&v, "http://") || starts_with(&v, "https://");
    !(remote || starts_with(&v, "data:") || starts_with(&v, "file://") || starts_with(&v, "#"))
}

/// Whether `v` starts with the characters of `p`.
pub fn starts_with(v: &Vec<char>, p: &str) -> (r: bool)
    ensures
        r == has_prefix(v@, p@),
{
    let pv = chars_of(p);
    crate::text::matches_at_exec(v, &pv, 0)
}

/// `p` without trailing `/` separators and trailing `.` components.
pub open spec fn strip_path_tail(p: Seq<char>) -> Seq<char>
    decreases p.len(),
{
    if p.len() > 0 && p.last() == '/' {
        strip_path_tail(p.drop_last())
    } else if p.len() >= 2 && p.last() == '.' && p[p.len() - 2] == '/' {
        strip_path_tail(p.drop_last().drop_last())
    } else {
        p
    }
}

/// The file name of a `/`-separated path (`Path::file_name`): its last
/// component, unless that is empty, `.` or `..`.
pub open spec fn path_file_name(p: Seq<char>) -> Option<Seq<char>> {
    let q = strip_path_tail(p);
    let name = match rfind(q, seq!['/']) {
        Some(i) => q.skip(i + 1),
        None => q,
    };
    if name.len() == 0 || name == seq!['.'] || name == seq!['.', '.'] {
        None
    } else {
        Some(name)
    }
}

/// The extension of a path (`Path::extension`): the text after the last `.`
/// of the file name, unless that `.` starts the name.
pub open spec fn path_extension(p: Seq<char>) -> Option<Seq<char>> {
    match path_file_name(p) {
        Some(name) => match rfind(name, seq!['.']) {
            Some(i) => if i == 0 {
                None
            } else {
                Some(name.skip(i + 1))
            },
            None => None,
        },
        None => None,
    }
}

/// The content type for an image file extension.
pub open spec fn mime_for_ext(ext: Seq<char>) -> Seq<char> {
    if ext == "png"@ {
        "image/png"@
    } else if ext == "jpg"@ || ext == "jpeg"@ {
        "image/jpeg"@
    } else if ext == "gif"@ {
        "image/gif"@
    } else if ext == "svg"@ {
        "image/svg+xml"@
    } else if ext == "webp"@ {
        "image/webp"@
    } else if ext == "ico"@ {
        "image/x-icon"@
    } else if ext == "bmp"@ {
        "image/bmp"@
    } else {
        "application/octet-stream"@
    }
}

/// The content type of a path, from its extension (none counts as `""`).
pub open spec fn mime_from_ext_spec(path: Seq<char>) -> Seq<char> {
    match path_extension(path) {
        Some(e) => mime_for_ext(e),
        None => mime_for_ext(Seq::empty()),
    }
}

/// The end of `p` once `strip_path_tail` has removed its tail.
fn strip_path_tail_exec(p: &Vec<char>) -> (e: usize)
    ensures
        e <= p@.len(),
        strip_path_tail(p@) == p@.take(e as int),
{
    let mut e = p.len();
    assert(p@.take(e as int) =~= p@);
    while e > 0
        invariant
            e <= p@.len(),
            strip_path_tail(p@) == strip_path_tail(p@.take(e as int)),
        decreases e,
    {
        let ghost q = p@.take(e as int);
        if p[e - 1] == '/' {
            assert(q.drop_last() =~= p@.take(e - 1));
            e = e - 1;
        } else if e >= 2 && p[e - 1] == '.' && p[e - 2] == '/' {
            assert(q.drop_last().drop_last() =~= p@.take(e - 2));
            e = e - 2;
        } else {
            return e;
        }
    }
    e
}

/// The extension of `p` as a range of `p`, if it has one.
fn path_extension_exec(p: &Vec<char>) -> (r: Option<(usize, usize)>)
    ensures
        r matches Some((a, b)) ==> a <= b <= p@.len() && path_extension(p@) == Some(
            p@.subrange(a as int, b as int),
        ),
        r is None ==> path_extension(p@) is None,
{
    let e = strip_path_tail_exec(p);
    let slash = chars_of("/");
    let dot = chars_of(".");
    proof {
        reveal_strlit("/");
        reveal_strlit(".");
        assert(slash@ =~= seq!['/']);
        assert(dot@ =~= seq!['.']);
        assert(p@.take(e as int) =~= p@.subrange(0, e as int));
    }
    proof {
        lemma_rfind_bounds(p@.subrange(0, e as int), seq!['/']);
    }
    let start = match rfind_in(p, &slash, 0, e) {
        Some(i) => i + 1,
        None => 0,
    };
    let ghost q = p@.take(e as int);
    proof {
        lemma_rfind_bounds(q, seq!['/']);
        assert(q.skip(start as int) =~= p@.subrange(start as int, e as int));
        if start == 0 {
            assert(q =~= p@.subrange(0, e as int));
        }
    }
    let ghost name = p@.subrange(start as int, e as int);
    if e - start == 0 || (e - start == 1 && p[start] == '.') || (e - start == 2 && p[start] == '.'
        && p[start + 1] == '.') {
        proof {
            if e - start == 1 {
                assert(name =~= seq!['.']);
            }
            if e - start == 2 {
                assert(name =~= seq!['.', '.']);
            }
        }
        return None;
    }
    proof {
        if e - start == 1 {
            assert(name[0] == p@[start as int]);
        }
        if e - start == 2 {
            assert(name[0] == p@[start as int]);
            assert(name[1] == p@[start + 1]);
        }
    }
    match rfind_in(p, &dot, start, e) {
        Some(i) => {
            proof {
                lemma_rfind_bounds(name, seq!['.']);
                assert(name.skip(i - start + 1) =~= p@.subrange(i + 1, e as int));
            }
            if i == start {
                None
            } else {
                Some((i + 1, e))
            }
        },
        None => None,
    }
}

pub proof fn lemma_rfind_before_bounds(s: Seq<char>, p: Seq<char>, end: int)
    ensures
        rfind_before(s, p, end) matches Some(j) ==> 0 <= j && j + p.len() <= end && matches_at(
            s,
            p,
            j,
        ),
    decreases end + 1,
{
    if end < p.len() || end > s.len() {
    } else if matches_at(s, p, end - p.len()) {
    } else {
        lemma_rfind_before_bounds(s, p, end - 1);
    }
}

pub proof fn lemma_rfind_bounds(s: Seq<char>, p: Seq<char>)
    ensures
        rfind(s, p) matches Some(j) ==> 0 <= j && j + p.len() <= s.len() && matches_at(s, p, j),
{
    lemma_rfind_before_bounds(s, p, s.len() as int);
}

/// The content type of an image file, from the extension of its path.
pub fn mime_from_ext(path: &str) -> (r: &'static str)
    ensures
        r@ == mime_from_ext_spec(path@),
{
    let p = chars_of(path);
    let (a, b) = match path_extension_exec(&p) {
        Some(r) => r,
        None => (0, 0),
    };
    if crate::text::range_eq_str(&p, a, b, "png") {
        "image/png"
    } else if crate::text::range_eq_str(&p, a, b, "jpg") || crate::text::range_eq_str(
        &p,
        a,
        b,
        "jpeg",
    ) {
        "image/jpeg"
    } else if crate::text::range_eq_str(&p, a, b, "gif") {
        "image/gif"
    } else if crate::text::range_eq_str(&p, a, b, "svg") {
        "image/svg+xml"
    } else if crate::text::range_eq_str(&p, a, b, "webp") {
        "image/webp"
    } else if crate::text::range_eq_str(&p, a, b, "ico") {
        "image/x-icon"
    } else if crate::text::range_eq_str(&p, a, b, "bmp") {
        "image/bmp"
    } else {
        proof {
            assert(p@.subrange(0, 0) =~= Seq::<char>::empty());
        }
        "application/octet-stream"
    }
}

/// The base64 alphabet (RFC 4648, standard).
pub open spec fn base64_alphabet() -> Seq<char> {
    "ABCDEFGHIJKLMNOPQRSTUVWXYZabcdefghijklmnopqrstuvwxyz0123456789+/"@
}

/// Standard base64 (RFC 4648) of `d`, with `=` padding.
pub open spec fn base64_spec(d: Seq<u8>) -> Seq<char>
    decreases d.len(),
{
    let a = base64_alphabet();
    if d.len() == 0 {
        Seq::empty()
    } else if d.len() == 1 {
        seq![a[d[0] as int / 4], a[(d[0] as int % 4) * 16], '=', '=']
    } else if d.len() == 2 {
        seq![a[d[0] as int / 4], a[(d[0] % 4) * 16 + d[1] / 16], a[(d[1] % 16) * 4], '=']
    } else {
        seq![
            a[d[0] as int / 4],
            a[(d[0] % 4) * 16 + d[1] / 16],
            a[(d[1] % 16) * 4 + d[2] / 64],
            a[d[2] as int % 64],
        ] + base64_spec(d.skip(3))
    }
}

/// The number of characters that base64 makes of `n` bytes.
pub open spec fn base64_len(n: nat) -> nat {
    4 * ((n + 2) / 3)
}

/// Base64 output has four characters for every started group of three bytes.
pub proof fn lemma_base64_len(d: Seq<u8>)
    ensures
        base64_spec(d).len() == base64_len(d.len()),
    decreases d.len(),
{
    if d.len() > 2 {
        lemma_base64_len(d.skip(3));
    }
}

/// Standard base64 encoding with padding.
pub fn base64_encode(data: &[u8]) -> (r: String)
    ensures
        r@ == base64_spec(data@),
{
    let alpha = chars_of("ABCDEFGHIJKLMNOPQRSTUVWXYZabcdefghijklmnopqrstuvwxyz0123456789+/");
    proof {
        reveal_strlit("ABCDEFGHIJKLMNOPQRSTUVWXYZabcdefghijklmnopqrstuvwxyz0123456789+/");
    }
    let n = data.len();
    let mut out: Vec<char> = Vec::new();
    let mut i: usize = 0;
    assert(data@.skip(0) =~= data@);
    while i < n
        invariant
            i <= n == data@.len(),
            alpha@ == base64_alphabet(),
            alpha@.len() == 64,
            out@ + base64_spec(data@.skip(i as int)) == base64_spec(data@),
        decreases n - i,
    {
        let ghost rest = data@.skip(i as int);
        let b0 = data[i];
        let b1: u8 = if n - i > 1 { data[i + 1] } else { 0 };
        let b2: u8 = if n - i > 2 { data[i + 2] } else { 0 };
        let c0 = alpha[(b0 / 4) as usize];
        let c1 = alpha[((b0 % 4) * 16 + b1 / 16) as usize];
        let c2 = if n - i > 1 { alpha[((b1 % 16) * 4 + b2 / 64) as usize] } else { '=' };
        let c3 = if n - i > 2 { alpha[(b2 % 64) as usize] } else { '=' };
        let ghost before = out@;
        out.push(c0);
        out.push(c1);
        out.push(c2);
        out.push(c3);
        proof {
            assert(rest[0] == b0);
            if n - i > 1 {
                assert(rest[1] == b1);
            }
            if n - i > 2 {
                assert(rest[2] == b2);
            }
        }
        if n - i <= 3 {
            proof {
                if n - i == 3 {
                    assert(rest.skip(3) =~= Seq::<u8>::empty());
                    assert(base64_spec(rest.skip(3)) =~= Seq::<char>::empty());
                    assert(out@ =~= before + base64_spec(rest));
                } else if n - i == 2 {
                    assert(out@ =~= before + base64_spec(rest));
                } else {
                    assert(out@ =~= before + base64_spec(rest));
                }
                assert(data@.skip(n as int) =~= Seq::<u8>::empty());
            }
            i = n;
        } else {
            proof {
                assert(rest.skip(3) =~= data@.skip(i + 3));
                assert(out@ + base64_spec(data@.skip(i + 3)) =~= before + base64_spec(rest));
            }
            i = i + 3;
        }
    }
    assert(data@.skip(n as int) =~= Seq::<u8>::empty());
    assert(out@ =~= out@ + Seq::<char>::empty());
    string_of(&out)
}

/// `item` without `<p>` and `</p>` tags.
pub open spec fn drop_p_tags(item: Seq<char>) -> Seq<char> {
    replace_all(replace_all(item, "<p>"@, ""@), "</p>"@, ""@)
}

/// How much of `rem` the next task-list item takes: `Some((li, boundary))`
/// when `rem` holds a checkbox, where the item starts at the last `<li`
/// before the checkbox (or at the start of `rem`) and ends before the next
/// `<li` or `</li>` after that `<li`'s opening tag (or at the end).
pub open spec fn next_task_item(rem: Seq<char>) -> Option<(int, int)> {
    match find(rem, "type=\"checkbox\""@) {
        None => None,
        Some(cb) => {
            let li = match rfind(rem.take(cb), "<li"@) {
                Some(x) => x,
                None => 0,
            };
            let part = rem.skip(li);
            let open_end = match find(part, ">"@) {
                Some(g) => g + 1,
                None => 1,
            };
            let after = part.skip(open_end);
            let boundary = match find(after, "<li"@) {
                Some(q) => open_end + q,
                None => match find(after, "</li>"@) {
                    Some(q) => open_end + q,
                    None => part.len() as int,
                },
            };
            Some((li, boundary))
        },
    }
}

pub proof fn lemma_next_task_item_bounds(rem: Seq<char>)
    ensures
        next_task_item(rem) matches Some((li, b)) ==> 0 <= li && 1 <= b && li + b <= rem.len(),
{
    reveal_strlit("type=\"checkbox\"");
    reveal_strlit("<li");
    reveal_strlit(">");
    reveal_strlit("</li>");
    lemma_find_from_bounds(rem, "type=\"checkbox\""@, 0);
    if let Some(cb) = find(rem, "type=\"checkbox\""@) {
        lemma_rfind_bounds(rem.take(cb), "<li"@);
        let li = match rfind(rem.take(cb), "<li"@) {
            Some(x) => x,
            None => 0,
        };
        let part = rem.skip(li);
        lemma_find_from_bounds(part, ">"@, 0);
        let open_end = match find(part, ">"@) {
            Some(g) => g + 1,
            None => 1,
        };
        let after = part.skip(open_end);
        lemma_find_from_bounds(after, "<li"@, 0);
        lemma_find_from_bounds(after, "</li>"@, 0);
    }
}

/// The task-list cleanup from position `k` of `h` on.
pub open spec fn strip_p_from(h: Seq<char>, k: int) -> Seq<char>
    decreases h.len() - k,
{
    if k < 0 || k > h.len() {
        Seq::empty()
    } else {
        let rem = h.skip(k);
        match next_task_item(rem) {
            None => rem,
            Some((li, b)) => {
                proof {
                    lemma_next_task_item_bounds(rem);
                }
                rem.take(li) + drop_p_tags(rem.subrange(li, li + b)) + strip_p_from(h, k + li + b)
            },
        }
    }
}

/// `html` with the `<p>`/`</p>` tags removed inside every task-list item, so
/// that a checkbox and its text stay on one line.
pub open spec fn strip_p_in_task_lists_spec(html: Seq<char>) -> Seq<char> {
    strip_p_from(html, 0)
}

/// Finds the next task-list item in `v[k..]`, as positions in `v`.
fn next_task_item_exec(v: &Vec<char>, k: usize) -> (r: Option<(usize, usize)>)
    requires
        k <= v@.len(),
    ensures
        r matches Some((li, b)) ==> next_task_item(v@.skip(k as int)) == Some(
            ((li - k) as int, b as int),
        ) && k <= li,
        r is None ==> next_task_item(v@.skip(k as int)) is None,
{
    let n = v.len();
    let cbp = chars_of("type=\"checkbox\"");
    let lip = chars_of("<li");
    let gtp = chars_of(">");
    let endp = chars_of("</li>");
    let ghost rem = v@.skip(k as int);
    proof {
        reveal_strlit("type=\"checkbox\"");
        reveal_strlit("<li");
        reveal_strlit(">");
        reveal_strlit("</li>");
        assert(rem =~= v@.subrange(k as int, n as int));
        lemma_find_from_bounds(rem, cbp@, 0);
    }
    let cb = match find_in(v, &cbp, k, n) {
        Some(c) => c,
        None => {
            return None;
        },
    };
    assert(rem.take(cb - k) =~= v@.subrange(k as int, cb as int));
    proof {
        lemma_rfind_bounds(rem.take(cb - k), lip@);
    }
    let li = match rfind_in(v, &lip, k, cb) {
        Some(x) => x,
        None => k,
    };
    let ghost part = rem.skip(li - k);
    assert(part =~= v@.subrange(li as int, n as int));
    proof {
        lemma_find_from_bounds(part, gtp@, 0);
    }
    let open_end = match find_in(v, &gtp, li, n) {
        Some(g) => g - li + 1,
        None => 1,
    };
    let ghost after = part.skip(open_end as int);
    assert(after =~= v@.subrange(li + open_end, n as int));
    proof {
        lemma_find_from_bounds(after, lip@, 0);
        lemma_find_from_bounds(after, endp@, 0);
    }
    let boundary = match find_in(v, &lip, li + open_end, n) {
        Some(q) => q - li,
        None => match find_in(v, &endp, li + open_end, n) {
            Some(q) => q - li,
            None => n - li,
        },
    };
    Some((li, boundary))
}

/// Removes `<p>` and `</p>` inside task-list items (the `<li>` holding a
/// `type="checkbox"` input, up to the next `<li` or `</li>`).
pub fn strip_p_in_task_lists(html: &str) -> (r: String)
    ensures
        r@ == strip_p_in_task_lists_spec(html@),
{
    let v = chars_of(html);
    let n = v.len();
    let mut out: Vec<char> = Vec::new();
    let mut k: usize = 0;
    while k <= n
        invariant
            k <= n == v@.len(),
            v@ == html@,
            out@ + strip_p_from(v@, k as int) == strip_p_from(v@, 0),
        decreases n - k,
    {
        let ghost rem = v@.skip(k as int);
        proof {
            lemma_next_task_item_bounds(rem);
        }
        match next_task_item_exec(&v, k) {
            None => {
                let ghost before = out@;
                push_range(&mut out, &v, k, n);
                assert(rem =~= v@.subrange(k as int, n as int));
                assert(strip_p_from(v@, k as int) == rem);
                assert(out@ + Seq::<char>::empty() =~= out@);
                return string_of(&out);
            },
            Some((li, b)) => {
                let ghost before = out@;
                push_range(&mut out, &v, k, li);
                let item = subvec(&v, li, li + b);
                let c1 = replace_str(&item, "<p>", "");
                let c2 = replace_str(&c1, "</p>", "");
                push_all(&mut out, &c2);
                proof {
                    assert(rem.take(li - k) =~= v@.subrange(k as int, li as int));
                    assert(rem.subrange(li - k, li - k + b) =~= v@.subrange(
                        li as int,
                        li + b,
                    ));
                    assert(out@ + strip_p_from(v@, li + b) =~= before + strip_p_from(
                        v@,
                        k as int,
                    ));
                }
                k = li + b;
            },
        }
    }
    string_of(&out)
}

/// The HTML of a Markdown document: front matter dropped, link targets
/// with spaces wrapped in `<...>`, rendered by comrak, and `<p>` tags
/// dropped inside task list items.
pub open spec fn markdown_html_spec(md: Seq<char>) -> Seq<char> {
    strip_p_in_task_lists_spec(comrak_html(fix_spaced_link_destinations_spec(strip_front_matter_spec(md))))
}

/// Converts Markdown to HTML (see `markdown_html_spec`). It never fails.
pub fn convert_markdown_to_html(markdown: &str) -> (r: Result<String, MpeError>)
    ensures
        r matches Ok(html) && html@ == markdown_html_spec(markdown@),
{
    let body = strip_front_matter(markdown);
    let fixed = fix_spaced_link_destinations(body);
    let html = markdown_to_html(fixed.as_str());
    Ok(strip_p_in_task_lists(html.as_str()))
}

/// HTML without a task-list checkbox is left as it is.
pub proof fn lemma_strip_p_without_tasks(html: Seq<char>)
    requires
        !crate::text::contains(html, "type=\"checkbox\""@),
    ensures
        strip_p_in_task_lists_spec(html) == html,
{
    assert(html.skip(0) =~= html);
}

/// The metadata and body of a document: a file named `SKILL.md` has its
/// front matter parsed off (see `parse_front_matter`); any other document
/// is all body.
pub fn split_document<'a>(md: &'a str, file_name: &str) -> (r: (Option<Metadata>, &'a str))
    ensures
        file_name@ == "SKILL.md"@ ==> r.1@ == strip_front_matter_spec(md@) && match (
            r.0,
            front_matter_meta(md@),
        ) {
            (Some(m), Some(spec_m)) => m@ == spec_m,
            (None, None) => true,
            _ => false,
        },
        file_name@ != "SKILL.md"@ ==> r.0 is None && r.1@ == md@,
{
    let n = chars_of(file_name);
    if crate::text::range_eq_str(&n, 0, n.len(), "SKILL.md") {
        assert(n@.subrange(0, n@.len() as int) =~= n@);
        parse_front_matter(md)
    } else {
        assert(n@.subrange(0, n@.len() as int) =~= n@);
        (None, md)
    }
}

/// Converts Markdown to HTML and renders its diagram blocks to inline SVG
/// with `render` (see `render_mermaid_blocks`). It never fails.
pub fn convert_markdown_to_html_with_mermaid<F: Fn(&Vec<String>) -> Option<Vec<Option<String>>>>(
    markdown: &str,
    render: &F,
) -> (r: Result<String, MpeError>)
    requires
        forall|v: &Vec<String>| render.requires((v,)),
    ensures
        r is Ok,
        r matches Ok(out) && {
            let html = markdown_html_spec(markdown@);
            &&& blocks_from(html, 0).len() == 0 ==> out@ == html
            &&& blocks_from(html, 0).len() > 0 ==> exists|
                srcs: Vec<String>,
                res: Option<Vec<Option<String>>>,
            |
                #![trigger rendered_with(*render, srcs, res)]
                rendered_with(*render, srcs, res) && string_views(srcs@) == block_sources(html)
                    && out@ == page_after(html, res)
        },
{
    let html = match convert_markdown_to_html(markdown) {
        Ok(h) => h,
        Err(e) => return Err(e),
    };
    Ok(render_mermaid_blocks(html.as_str(), render))
}

/// The number of `=` that base64 pads `n` bytes with.
pub open spec fn base64_padding(n: nat) -> int {
    (3 - n % 3) % 3
}

/// Base64 output is characters of the alphabet followed by exactly
/// `(3 - n % 3) % 3` padding characters `=`.
pub proof fn lemma_base64_shape(d: Seq<u8>)
    ensures
        base64_spec(d).len() >= base64_padding(d.len()),
        forall|i: int|
            0 <= i < base64_spec(d).len() - base64_padding(d.len()) ==> base64_alphabet().contains(
                #[trigger] base64_spec(d)[i],
            ),
        forall|i: int|
            base64_spec(d).len() - base64_padding(d.len()) <= i < base64_spec(d).len() ==> #[trigger] base64_spec(d)[i]
                == '=',
    decreases d.len(),
{
    reveal_strlit("ABCDEFGHIJKLMNOPQRSTUVWXYZabcdefghijklmnopqrstuvwxyz0123456789+/");
    let a = base64_alphabet();
    assert(a.len() == 64);
    let r = base64_spec(d);
    if d.len() == 1 {
        assert(a.contains(a[d[0] as int / 4]));
        assert(a.contains(a[(d[0] as int % 4) * 16]));
    } else if d.len() == 2 {
        assert(a.contains(a[d[0] as int / 4]));
        assert(a.contains(a[(d[0] % 4) * 16 + d[1] / 16]));
        assert(a.contains(a[(d[1] % 16) * 4]));
    } else if d.len() > 2 {
        lemma_base64_shape(d.skip(3));
        let head = seq![
            a[d[0] as int / 4],
            a[(d[0] % 4) * 16 + d[1] / 16],
            a[(d[1] % 16) * 4 + d[2] / 64],
            a[d[2] as int % 64],
        ];
        let rest = base64_spec(d.skip(3));
        assert(r == head + rest);
        assert(base64_padding(d.skip(3).len()) == base64_padding(d.len()));
        assert forall|i: int| 0 <= i < 4 implies a.contains(#[trigger] head[i]) by {
            assert(a.contains(a[d[0] as int / 4]));
            assert(a.contains(a[(d[0] % 4) * 16 + d[1] / 16]));
            assert(a.contains(a[(d[1] % 16) * 4 + d[2] / 64]));
            assert(a.contains(a[d[2] as int % 64]));
        }
        assert forall|i: int| 0 <= i < r.len() - base64_padding(d.len()) implies a.contains(#[trigger] r[i]) by {
            if i < 4 {
                assert(r[i] == head[i]);
            } else {
                assert(r[i] == rest[i - 4]);
            }
        }
        assert forall|i: int| r.len() - base64_padding(d.len()) <= i < r.len() implies #[trigger] r[i] == '=' by {
            assert(r[i] == rest[i - 4]);
        }
    }
}

/// The value (0 to 63) of a base64 alphabet character.
pub open spec fn base64_value(c: char) -> int {
    if 'A' <= c && c <= 'Z' {
        c as int - 'A' as int
    } else if 'a' <= c && c <= 'z' {
        c as int - 'a' as int + 26
    } else if '0' <= c && c <= '9' {
        c as int - '0' as int + 52
    } else if c == '+' {
        62
    } else {
        63
    }
}

/// Standard base64 (RFC 4648) decoding of a padded text: each group of
/// four characters gives three bytes, less one for each `=`.
pub open spec fn base64_decode_spec(s: Seq<char>) -> Seq<u8>
    decreases s.len(),
{
    if s.len() < 4 {
        Seq::empty()
    } else {
        let v0 = base64_value(s[0]);
        let v1 = base64_value(s[1]);
        let v2 = base64_value(s[2]);
        let v3 = base64_value(s[3]);
        let b0 = (v0 * 4 + v1 / 16) as u8;
        let b1 = ((v1 % 16) * 16 + v2 / 4) as u8;
        let b2 = ((v2 % 4) * 64 + v3) as u8;
        if s[2] == '=' {
            seq![b0]
        } else if s[3] == '=' {
            seq![b0, b1]
        } else {
            seq![b0, b1, b2] + base64_decode_spec(s.skip(4))
        }
    }
}

proof fn lemma_base64_value(i: int)
    requires
        0 <= i < 64,
    ensures
        base64_value(base64_alphabet()[i]) == i,
        base64_alphabet()[i] != '=',
{
    reveal_strlit("ABCDEFGHIJKLMNOPQRSTUVWXYZabcdefghijklmnopqrstuvwxyz0123456789+/");
}

proof fn lemma_base64_group(b0: u8, b1: u8, b2: u8)
    ensures
        (b0 / 4) * 4 + ((b0 % 4) * 16 + b1 / 16) / 16 == b0,
        (((b0 % 4) * 16 + b1 / 16) % 16) * 16 + ((b1 % 16) * 4 + b2 / 64) / 4 == b1,
        (((b1 % 16) * 4 + b2 / 64) % 4) * 64 + b2 % 64 == b2,
        ((b0 % 4) * 16) / 16 == b0 % 4,
        (((b0 % 4) * 16 + b1 / 16) % 16) * 16 + ((b1 % 16) * 4) / 4 == b1,
{
    assert((b0 / 4) * 4 + ((b0 % 4) * 16 + b1 / 16) / 16 == b0) by (bit_vector);
    assert((((b0 % 4) * 16 + b1 / 16) % 16) * 16 + ((b1 % 16) * 4 + b2 / 64) / 4 == b1) by (bit_vector);
    assert((((b1 % 16) * 4 + b2 / 64) % 4) * 64 + b2 % 64 == b2) by (bit_vector);
    assert(((b0 % 4) * 16) / 16 == b0 % 4) by (bit_vector);
    assert((((b0 % 4) * 16 + b1 / 16) % 16) * 16 + ((b1 % 16) * 4) / 4 == b1) by (bit_vector);
}

/// Decoding what `base64_encode` writes gives back the bytes.
pub proof fn lemma_base64_roundtrip(d: Seq<u8>)
    ensures
        base64_decode_spec(base64_spec(d)) == d,
    decreases d.len(),
{
    let a = base64_alphabet();
    let r = base64_spec(d);
    if d.len() == 0 {
        assert(base64_decode_spec(r) =~= d);
    } else if d.len() == 1 {
        lemma_base64_group(d[0], 0, 0);
        lemma_base64_value(d[0] as int / 4);
        lemma_base64_value((d[0] as int % 4) * 16);
        assert(base64_decode_spec(r) =~= d);
    } else if d.len() == 2 {
        lemma_base64_group(d[0], d[1], 0);
        lemma_base64_value(d[0] as int / 4);
        lemma_base64_value((d[0] % 4) * 16 + d[1] / 16);
        lemma_base64_value((d[1] % 16) * 4);
        assert(base64_decode_spec(r) =~= d);
    } else {
        lemma_base64_group(d[0], d[1], d[2]);
        lemma_base64_value(d[0] as int / 4);
        lemma_base64_value((d[0] % 4) * 16 + d[1] / 16);
        lemma_base64_value((d[1] % 16) * 4 + d[2] / 64);
        lemma_base64_value(d[2] as int % 64);
        lemma_base64_roundtrip(d.skip(3));
        assert(r.skip(4) =~= base64_spec(d.skip(3)));
        assert(base64_decode_spec(r) =~= seq![d[0], d[1], d[2]] + d.skip(3));
        assert(seq![d[0], d[1], d[2]] + d.skip(3) =~= d);
    }
}

/// `find_from` gives the first occurrence at or after `i`.
proof fn lemma_find_min(s: Seq<char>, p: Seq<char>, i: int)
    requires
        0 <= i,
    ensures
        find_from(s, p, i) matches Some(j) ==> forall|t: int| i <= t < j ==> !matches_at(s, p, t),
    decreases s.len() + 1 - i,
{
    if i + p.len() > s.len() {
    } else if matches_at(s, p, i) {
    } else {
        lemma_find_min(s, p, i + 1);
    }
}

/// A match with none before it is what `find_from` gives.
proof fn lemma_find_at(s: Seq<char>, p: Seq<char>, i: int, m: int)
    requires
        0 <= i <= m,
        matches_at(s, p, m),
        forall|t: int| i <= t < m ==> !matches_at(s, p, t),
    ensures
        find_from(s, p, i) == Some(m),
    decreases m - i,
{
    if i < m {
        lemma_find_at(s, p, i + 1, m);
    }
}

/// `find` gives an occurrence no later than any match.
proof fn lemma_find_le(s: Seq<char>, p: Seq<char>, m: int)
    requires
        matches_at(s, p, m),
    ensures
        find(s, p) matches Some(g) && g <= m,
{
    lemma_find_from_bounds(s, p, 0);
    lemma_find_min(s, p, 0);
}

/// A match inside `x` is a match in `x + y` and back.
proof fn lemma_match_concat(x: Seq<char>, y: Seq<char>, p: Seq<char>, t: int)
    requires
        0 <= t,
        t + p.len() <= x.len(),
    ensures
        matches_at(x + y, p, t) == matches_at(x, p, t),
{
    assert((x + y).subrange(t, t + p.len()) =~= x.subrange(t, t + p.len()));
}

/// A first occurrence inside `x` stays the first in `x + y`.
proof fn lemma_find_concat(x: Seq<char>, y: Seq<char>, p: Seq<char>)
    requires
        find(x, p) is Some,
    ensures
        find(x + y, p) == find(x, p),
{
    lemma_find_from_bounds(x, p, 0);
    lemma_find_min(x, p, 0);
    let j = find(x, p).unwrap();
    lemma_match_concat(x, y, p, j);
    assert forall|t: int| 0 <= t < j implies !matches_at(x + y, p, t) by {
        lemma_match_concat(x, y, p, t);
    }
    lemma_find_at(x + y, p, 0, j);
}

/// No occurrence in `x` and none of `x + y` reaching past `x`: none at all.
proof fn lemma_find_concat_none(x: Seq<char>, y: Seq<char>, p: Seq<char>)
    requires
        find(x, p) is None,
        forall|t: int| matches_at(x + y, p, t) ==> t + p.len() <= x.len(),
    ensures
        find(x + y, p) is None,
{
    lemma_find_from_bounds(x, p, 0);
    lemma_find_from_bounds(x + y, p, 0);
    if find(x + y, p) is Some {
        let t = find(x + y, p).unwrap();
        lemma_match_concat(x, y, p, t);
    }
}

/// A match in a suffix is a match in the whole text, shifted.
proof fn lemma_match_skip(s: Seq<char>, p: Seq<char>, k: int, t: int)
    requires
        0 <= k <= s.len(),
        0 <= t,
    ensures
        matches_at(s.skip(k), p, t) == matches_at(s, p, k + t),
{
    if t + p.len() <= s.len() - k {
        assert(s.skip(k).subrange(t, t + p.len()) =~= s.subrange(k + t, k + t + p.len()));
    }
}

/// The task item that `x + y` starts with is the one `x` starts with, when
/// no checkbox or `<li` of `x + y` reaches past `x`, `x` ends with
/// `</li>`, and each checkbox is followed by a `>` before that `</li>`.
proof fn lemma_task_item_concat(x: Seq<char>, y: Seq<char>)
    requires
        forall|t: int| matches_at(x + y, "type=\"checkbox\""@, t) ==> t + 15 <= x.len(),
        forall|t: int| matches_at(x + y, "<li"@, t) ==> t + 3 <= x.len(),
        x.len() >= 5,
        matches_at(x, "</li>"@, x.len() - 5),
        forall|t: int| #![trigger matches_at(x + y, "type=\"checkbox\""@, t)]
            matches_at(x + y, "type=\"checkbox\""@, t) ==> exists|q: int| t <= q < x.len() - 5 && x[q] == '>',
    ensures
        next_task_item(x + y) == next_task_item(x),
{
    reveal_strlit("type=\"checkbox\"");
    reveal_strlit("<li");
    reveal_strlit(">");
    reveal_strlit("</li>");
    let cbs = "type=\"checkbox\""@;
    let z = x + y;
    lemma_find_from_bounds(x, cbs, 0);
    if find(x, cbs) is None {
        lemma_find_concat_none(x, y, cbs);
    } else {
        lemma_find_concat(x, y, cbs);
        let cb = find(x, cbs).unwrap();
        lemma_match_concat(x, y, cbs, cb);
        assert(matches_at(z, cbs, cb));
        assert(z.take(cb) =~= x.take(cb));
        lemma_rfind_bounds(x.take(cb), "<li"@);
        let li = match rfind(x.take(cb), "<li"@) {
            Some(w) => w,
            None => 0,
        };
        let px = x.skip(li);
        let pz = z.skip(li);
        assert(pz =~= px + y);
        let q = choose|q: int| cb <= q < x.len() - 5 && x[q] == '>';
        assert(px.subrange(q - li, q - li + 1) =~= ">"@);
        lemma_find_le(px, ">"@, q - li);
        lemma_find_concat(px, y, ">"@);
        lemma_find_from_bounds(px, ">"@, 0);
        let g = find(px, ">"@).unwrap();
        assert(0 <= li <= cb);
        assert(0 <= g <= q - li);
        let oe = g + 1;
        assert(oe <= px.len() - 5);
        let ax = px.skip(oe);
        let az = pz.skip(oe);
        assert(az =~= ax + y);
        // The closing `</li>` of `x` lies in `ax`.
        assert(ax.len() >= 5);
        assert(ax.subrange(ax.len() - 5, ax.len() as int) =~= x.subrange(x.len() - 5, x.len() as int));
        assert(matches_at(ax, "</li>"@, ax.len() - 5));
        lemma_find_le(ax, "</li>"@, ax.len() - 5);
        lemma_find_concat(ax, y, "</li>"@);
        lemma_find_from_bounds(ax, "<li"@, 0);
        if find(ax, "<li"@) is Some {
            lemma_find_concat(ax, y, "<li"@);
        } else {
            assert forall|t: int| matches_at(az, "<li"@, t) implies t + 3 <= ax.len() by {
                lemma_match_skip(z, "<li"@, li + oe, t);
                assert(z.skip(li + oe) =~= az);
            }
            lemma_find_concat_none(ax, y, "<li"@);
        }
    }
}

/// The task-list cleanup leaves alone what follows the last task item:
/// when `html` is `a + b`, every checkbox and every `<li` lies in `a`, `a`
/// ends with `</li>`, and each checkbox is followed by a `>` before that
/// `</li>`, the cleanup of `html` is the cleanup of `a` followed by `b`
/// unchanged (its `<p>` tags kept). A task item ends at the next `<li` or
/// `</li>`, never at the end of the text when one follows.
pub proof fn lemma_strip_p_keeps_tail(a: Seq<char>, b: Seq<char>, k: int)
    requires
        0 <= k <= a.len(),
        forall|t: int| matches_at(a + b, "type=\"checkbox\""@, t) ==> t + 15 <= a.len(),
        forall|t: int| matches_at(a + b, "<li"@, t) ==> t + 3 <= a.len(),
        a.len() >= 5,
        matches_at(a, "</li>"@, a.len() - 5),
        forall|t: int| #![trigger matches_at(a + b, "type=\"checkbox\""@, t)]
            matches_at(a + b, "type=\"checkbox\""@, t) ==> exists|q: int| t <= q < a.len() - 5 && a[q] == '>',
    ensures
        strip_p_from(a + b, k) == strip_p_from(a, k) + b,
    decreases a.len() - k,
{
    reveal_strlit("type=\"checkbox\"");
    reveal_strlit("<li");
    reveal_strlit("</li>");
    let cbs = "type=\"checkbox\""@;
    let h = a + b;
    let x = a.skip(k);
    assert(h.skip(k) =~= x + b);
    assert forall|t: int| matches_at(x + b, cbs, t) implies t + 15 <= x.len() by {
        lemma_match_skip(h, cbs, k, t);
    }
    assert forall|t: int| matches_at(x + b, "<li"@, t) implies t + 3 <= x.len() by {
        lemma_match_skip(h, "<li"@, k, t);
    }
    lemma_find_from_bounds(x, cbs, 0);
    if find(x, cbs) is None {
        lemma_find_concat_none(x, b, cbs);
        assert(next_task_item(x + b) is None);
    } else {
        let cb = find(x, cbs).unwrap();
        lemma_match_concat(x, b, cbs, cb);
        lemma_match_skip(h, cbs, k, cb);
        assert(k + 15 <= a.len());
        assert(matches_at(x, "</li>"@, x.len() - 5)) by {
            assert(x.subrange(x.len() - 5, x.len() as int) =~= a.subrange(a.len() - 5, a.len() as int));
        }
        assert forall|t: int| #![trigger matches_at(x + b, cbs, t)]
            matches_at(x + b, cbs, t) implies exists|q: int| t <= q < x.len() - 5 && x[q] == '>' by {
            lemma_match_skip(h, cbs, k, t);
            let q = choose|q: int| k + t <= q < a.len() - 5 && a[q] == '>';
            assert(x[q - k] == a[q]);
        }
        lemma_task_item_concat(x, b);
        lemma_next_task_item_bounds(x);
        let (li, bb) = next_task_item(x).unwrap();
        lemma_strip_p_keeps_tail(a, b, k + li + bb);
        assert((x + b).take(li) =~= x.take(li));
        assert((x + b).subrange(li, li + bb) =~= x.subrange(li, li + bb));
        assert(strip_p_from(h, k) =~= strip_p_from(a, k) + b);
    }
}

} // verus!
