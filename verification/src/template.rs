//! The HTML page: template placeholders, a table of contents built from the
//! headings (with anchors added to them) and the metadata card of a skill
//! document.
use vstd::prelude::*;
use crate::front_matter::subvec;
use crate::metadata::Metadata;
use crate::text::{
    chars_of, contains, decimal, find, find_from, find_from_exec, find_in, is_whitespace, is_ws,
    lemma_find_from_bounds, push_all, push_decimal, push_range, push_str, replace_all, replace_str,
    skip_ws, skip_ws_back, string_of, trim, trim_end, trim_start,
};
use crate::unicode::{is_alphanumeric, to_lowercase, unicode_alphanumeric, unicode_lowercase};

verus! {

/// `<hN`, the start of a heading tag of level `n`.
pub open spec fn heading_open(n: int) -> Seq<char> {
    seq!['<', 'h', crate::text::digit_char(n)]
}

/// `</hN>`, the end tag of a heading of level `n`.
pub open spec fn heading_close(n: int) -> Seq<char> {
    seq!['<', '/', 'h', crate::text::digit_char(n), '>']
}

/// The earliest heading tag at or after `p` among levels `l..=6`:
/// `(level, start)`; at equal starts the lower level wins.
pub open spec fn first_heading_from_level(s: Seq<char>, p: int, l: int) -> Option<(int, int)>
    decreases 7 - l,
{
    if l < 1 || l > 6 {
        None
    } else {
        let rest = first_heading_from_level(s, p, l + 1);
        match find_from(s, heading_open(l), p) {
            None => rest,
            Some(st) => match rest {
                Some((l2, st2)) => if st2 < st {
                    Some((l2, st2))
                } else {
                    Some((l, st))
                },
                None => Some((l, st)),
            },
        }
    }
}

/// The earliest heading tag (`<h1` to `<h6`) at or after `p`.
pub open spec fn first_heading(s: Seq<char>, p: int) -> Option<(int, int)> {
    first_heading_from_level(s, p, 1)
}

/// `s` without markup: every character from a `<` up to the next `>` is dropped.
pub open spec fn strip_tags_from(s: Seq<char>, in_tag: bool) -> Seq<char>
    decreases s.len(),
{
    if s.len() == 0 {
        Seq::empty()
    } else if s[0] == '<' {
        strip_tags_from(s.drop_first(), true)
    } else if s[0] == '>' {
        strip_tags_from(s.drop_first(), false)
    } else if in_tag {
        strip_tags_from(s.drop_first(), in_tag)
    } else {
        seq![s[0]] + strip_tags_from(s.drop_first(), in_tag)
    }
}

/// The text of a piece of HTML.
pub open spec fn strip_tags_spec(s: Seq<char>) -> Seq<char> {
    strip_tags_from(s, false)
}

/// An ASCII letter or digit (all of them alphanumeric in Unicode).
pub open spec fn ascii_alnum(c: char) -> bool {
    ('0' <= c && c <= '9') || ('a' <= c && c <= 'z') || ('A' <= c && c <= 'Z')
}

/// A character kept in an anchor id: alphanumeric (ASCII letters and digits
/// among them), whitespace, `-` or `_`.
pub open spec fn id_char(c: char) -> bool {
    ascii_alnum(c) || unicode_alphanumeric(c) || is_ws(c) || c == '-' || c == '_'
}

/// The characters of `s` that may stand in an anchor id.
pub open spec fn id_chars(s: Seq<char>) -> Seq<char>
    decreases s.len(),
{
    if s.len() == 0 {
        Seq::empty()
    } else if id_char(s[0]) {
        seq![s[0]] + id_chars(s.drop_first())
    } else {
        id_chars(s.drop_first())
    }
}

/// The length of the leading run of non-whitespace characters of `s`.
pub open spec fn word_len(s: Seq<char>) -> int
    decreases s.len(),
{
    if s.len() == 0 || is_ws(s[0]) {
        0
    } else {
        1 + word_len(s.drop_first())
    }
}

/// The words of `s` (runs of non-whitespace) joined by `-`.
pub open spec fn dash_join(s: Seq<char>) -> Seq<char>
    decreases s.len(),
{
    let t = trim_start(s);
    if t.len() == 0 {
        Seq::empty()
    } else {
        proof {
            lemma_trim_start_len(s);
            lemma_word_len(t);
        }
        let w = word_len(t);
        let rest = t.skip(w);
        if trim_start(rest).len() > 0 {
            t.take(w) + seq!['-'] + dash_join(rest)
        } else {
            t.take(w)
        }
    }
}

/// The anchor id built from lower-cased id text: its words joined by `-`,
/// or `heading-N` when it has none.
pub open spec fn anchor_id(lowered: Seq<char>, counter: nat) -> Seq<char> {
    let joined = dash_join(lowered);
    if joined.len() == 0 {
        "heading-"@ + decimal(counter)
    } else {
        joined
    }
}

/// The anchor id of a heading with text `text`, the `counter`-th non-empty heading.
pub open spec fn make_id_spec(text: Seq<char>, counter: nat) -> Seq<char> {
    anchor_id(unicode_lowercase(trim(id_chars(text))), counter)
}

/// `&`, `<` and `>` escaped, in that order.
pub open spec fn escape_text(s: Seq<char>) -> Seq<char> {
    replace_all(replace_all(replace_all(s, "&"@, "&amp;"@), "<"@, "&lt;"@), ">"@, "&gt;"@)
}

/// The value of a heading tag's `id` attribute (what follows ` id=`): up
/// to the closing quote when it is quoted, else up to the next whitespace.
pub open spec fn existing_id(tag: Seq<char>) -> Seq<char> {
    match find(tag, " id="@) {
        None => Seq::empty(),
        Some(k) => {
            let v = tag.skip(k + 4);
            if v.len() > 0 && (v[0] == '"' || v[0] == '\'') {
                let rest = v.drop_first();
                match find(rest, seq![v[0]]) {
                    Some(e) => rest.take(e),
                    None => rest,
                }
            } else {
                v.take(word_len(v))
            }
        }
    }
}

/// The heading scan from `p`: the body with anchor ids added to headings
/// that have text and no `id`, and the entries `(level, id, text)` of the
/// table of contents, each linking to its heading's id (the one it had or
/// the one added). `None` when a heading tag has no `>` after it.
pub open spec fn toc_scan(s: Seq<char>, p: int, counter: nat) -> Option<
    (Seq<char>, Seq<(int, Seq<char>, Seq<char>)>),
>
    decreases s.len() - p,
{
    if p < 0 || p >= s.len() {
        Some((Seq::empty(), Seq::empty()))
    } else {
        match first_heading(s, p) {
            None => Some((s.skip(p), Seq::empty())),
            Some((l, st)) => {
                proof {
                    lemma_first_heading_bounds(s, p);
                    lemma_find_from_bounds(s, seq!['>'], st);
                }
                match find_from(s, seq!['>'], st) {
                    None => None,
                    Some(g) => {
                        let cs = g + 1;
                        proof {
                            lemma_find_from_bounds(s, heading_close(l), cs);
                        }
                        match find_from(s, heading_close(l), cs) {
                            None => match toc_scan(s, cs, counter) {
                                Some((o, items)) => Some((s.subrange(p, cs) + o, items)),
                                None => None,
                            },
                            Some(ce) => {
                                let text = trim(strip_tags_spec(s.subrange(cs, ce)));
                                let after = ce + 5;
                                if text.len() > 0 {
                                    let id = make_id_spec(text, counter + 1);
                                    let has_id = contains(s.subrange(st, g), " id="@);
                                    let head = if has_id {
                                        s.subrange(p, after)
                                    } else {
                                        s.subrange(p, g) + " id=\""@ + id + "\""@ + s.subrange(
                                            g,
                                            after,
                                        )
                                    };
                                    let link = if has_id {
                                        existing_id(s.subrange(st, g))
                                    } else {
                                        id
                                    };
                                    match toc_scan(s, after, counter + 1) {
                                        Some((o, items)) => Some(
                                            (head + o, seq![(l, link, text)] + items),
                                        ),
                                        None => None,
                                    }
                                } else {
                                    match toc_scan(s, after, counter) {
                                        Some((o, items)) => Some((s.subrange(p, after) + o, items)),
                                        None => None,
                                    }
                                }
                            },
                        }
                    },
                }
            },
        }
    }
}

/// One entry of the table of contents.
pub open spec fn toc_item_html(item: (int, Seq<char>, Seq<char>)) -> Seq<char> {
    "<li><a href=\"#"@ + item.1 + "\" class=\"toc-h"@ + seq![crate::text::digit_char(item.0)]
        + "\">"@ + escape_text(item.2) + "</a></li>"@
}

/// The entries of the table of contents, in order.
pub open spec fn toc_items_html(items: Seq<(int, Seq<char>, Seq<char>)>) -> Seq<char>
    decreases items.len(),
{
    if items.len() == 0 {
        Seq::empty()
    } else {
        toc_items_html(items.drop_last()) + toc_item_html(items.last())
    }
}

/// The table of contents: empty without headings, otherwise a `toc` list.
pub open spec fn toc_html(items: Seq<(int, Seq<char>, Seq<char>)>) -> Seq<char> {
    if items.len() == 0 {
        Seq::empty()
    } else {
        "<ul class=\"toc\" id=\"toc\">"@ + toc_items_html(items) + "</ul>"@
    }
}

/// `generate_toc` is defined: no heading tag lacks its `>`.
pub open spec fn toc_defined(body: Seq<char>) -> bool {
    toc_scan(body, 0, 0) is Some
}

/// The table of contents and the body with heading anchors.
pub open spec fn generate_toc_spec(body: Seq<char>) -> (Seq<char>, Seq<char>) {
    match toc_scan(body, 0, 0) {
        Some((o, items)) => (toc_html(items), o),
        None => (Seq::empty(), Seq::empty()),
    }
}

pub proof fn lemma_trim_start_len(s: Seq<char>)
    ensures
        trim_start(s).len() <= s.len(),
        trim_start(s).len() > 0 ==> !is_ws(trim_start(s)[0]),
    decreases s.len(),
{
    if s.len() > 0 && is_ws(s[0]) {
        lemma_trim_start_len(s.drop_first());
    }
}

pub proof fn lemma_word_len(s: Seq<char>)
    ensures
        0 <= word_len(s) <= s.len(),
        s.len() > 0 && !is_ws(s[0]) ==> word_len(s) >= 1,
        forall|i: int| 0 <= i < word_len(s) ==> !is_ws(#[trigger] s[i]),
        word_len(s) < s.len() ==> is_ws(s[word_len(s)]),
    decreases s.len(),
{
    if s.len() == 0 || is_ws(s[0]) {
    } else {
        lemma_word_len(s.drop_first());
        assert forall|i: int| 0 <= i < word_len(s) implies !is_ws(#[trigger] s[i]) by {
            if i > 0 {
                assert(s[i] == s.drop_first()[i - 1]);
            }
        }
    }
}

pub proof fn lemma_first_heading_from_level_bounds(s: Seq<char>, p: int, l: int)
    requires
        0 <= p,
    ensures
        first_heading_from_level(s, p, l) matches Some((lv, st)) ==> 1 <= lv <= 6 && l <= lv
            && p <= st && find_from(s, heading_open(lv), p) == Some(st),
    decreases 7 - l,
{
    if 1 <= l <= 6 {
        lemma_first_heading_from_level_bounds(s, p, l + 1);
        lemma_find_from_bounds(s, heading_open(l), p);
    }
}

pub proof fn lemma_first_heading_bounds(s: Seq<char>, p: int)
    requires
        0 <= p,
    ensures
        first_heading(s, p) matches Some((lv, st)) ==> 1 <= lv <= 6 && p <= st && st + 3 <= s.len(),
{
    lemma_first_heading_from_level_bounds(s, p, 1);
    if let Some((lv, st)) = first_heading(s, p) {
        lemma_find_from_bounds(s, heading_open(lv), p);
    }
}

/// `<hN` for level `n`.
fn heading_open_exec(n: usize) -> (r: Vec<char>)
    requires
        1 <= n <= 6,
    ensures
        r@ == heading_open(n as int),
{
    let mut r: Vec<char> = Vec::new();
    r.push('<');
    r.push('h');
    r.push((48u8 + n as u8) as char);
    assert(r@ =~= heading_open(n as int));
    r
}

/// `</hN>` for level `n`.
fn heading_close_exec(n: usize) -> (r: Vec<char>)
    requires
        1 <= n <= 6,
    ensures
        r@ == heading_close(n as int),
{
    let mut r: Vec<char> = Vec::new();
    r.push('<');
    r.push('/');
    r.push('h');
    r.push((48u8 + n as u8) as char);
    r.push('>');
    assert(r@ =~= heading_close(n as int));
    r
}

/// Executable `first_heading`.
fn first_heading_exec(s: &Vec<char>, p: usize) -> (r: Option<(usize, usize)>)
    ensures
        r matches Some((l, st)) ==> first_heading(s@, p as int) == Some((l as int, st as int)),
        r is None ==> first_heading(s@, p as int) is None,
{
    let mut best: Option<(usize, usize)> = None;
    let mut l: usize = 6;
    while l >= 1
        invariant
            0 <= l <= 6,
            best matches Some((bl, bs)) ==> first_heading_from_level(s@, p as int, l + 1) == Some(
                (bl as int, bs as int),
            ),
            best is None ==> first_heading_from_level(s@, p as int, l + 1) is None,
        decreases l,
    {
        let open = heading_open_exec(l);
        match find_from_exec(s, &open, p) {
            None => {},
            Some(st) => {
                best = match best {
                    Some((bl, bs)) => if bs < st {
                        Some((bl, bs))
                    } else {
                        Some((l, st))
                    },
                    None => Some((l, st)),
                };
            },
        }
        l = l - 1;
    }
    best
}

/// The text of a piece of HTML, without its tags.
pub fn strip_tags(s: &Vec<char>) -> (r: Vec<char>)
    ensures
        r@ == strip_tags_spec(s@),
{
    let mut out: Vec<char> = Vec::new();
    let mut in_tag = false;
    let n = s.len();
    let mut i: usize = 0;
    assert(s@.skip(0) =~= s@);
    while i < n
        invariant
            i <= n == s@.len(),
            out@ + strip_tags_from(s@.skip(i as int), in_tag) == strip_tags_from(s@, false),
        decreases n - i,
    {
        let ghost rest = s@.skip(i as int);
        assert(rest.drop_first() =~= s@.skip(i + 1));
        let c = s[i];
        let ghost before = out@;
        if c == '<' {
            in_tag = true;
        } else if c == '>' {
            in_tag = false;
        } else if !in_tag {
            out.push(c);
            assert(out@ + strip_tags_from(s@.skip(i + 1), in_tag) =~= before + strip_tags_from(
                rest,
                in_tag,
            ));
        }
        i = i + 1;
    }
    assert(s@.skip(n as int) =~= Seq::<char>::empty());
    assert(out@ + Seq::<char>::empty() =~= out@);
    out
}

/// The characters of `s` that may stand in an anchor id.
fn id_chars_exec(s: &Vec<char>) -> (r: Vec<char>)
    ensures
        r@ == id_chars(s@),
{
    let mut out: Vec<char> = Vec::new();
    let n = s.len();
    let mut i: usize = 0;
    assert(s@.skip(0) =~= s@);
    while i < n
        invariant
            i <= n == s@.len(),
            out@ + id_chars(s@.skip(i as int)) == id_chars(s@),
        decreases n - i,
    {
        let ghost rest = s@.skip(i as int);
        assert(rest.drop_first() =~= s@.skip(i + 1));
        let c = s[i];
        let ghost before = out@;
        let ascii = ('0' <= c && c <= '9') || ('a' <= c && c <= 'z') || ('A' <= c && c <= 'Z');
        if ascii || is_alphanumeric(c) || is_whitespace(c) || c == '-' || c == '_' {
            out.push(c);
            assert(out@ + id_chars(s@.skip(i + 1)) =~= before + id_chars(rest));
        }
        i = i + 1;
    }
    assert(s@.skip(n as int) =~= Seq::<char>::empty());
    assert(out@ + Seq::<char>::empty() =~= out@);
    out
}

/// The words of `s` joined by `-`.
fn dash_join_exec(s: &Vec<char>) -> (r: Vec<char>)
    ensures
        r@ == dash_join(s@),
{
    let n = s.len();
    let mut out: Vec<char> = Vec::new();
    let mut k: usize = 0;
    assert(s@.skip(0) =~= s@);
    while k < n
        invariant
            k <= n == s@.len(),
            out@ + dash_join(s@.skip(k as int)) == dash_join(s@),
        decreases n - k,
    {
        let ghost rest = s@.skip(k as int);
        let a = skip_ws(s, k, n);
        assert(rest =~= s@.subrange(k as int, n as int));
        let ghost t = s@.subrange(a as int, n as int);
        if a == n {
            assert(t =~= Seq::<char>::empty());
            assert(s@.skip(n as int) =~= Seq::<char>::empty());
            k = n;
        } else {
            let mut e = a;
            while e < n && !is_whitespace(s[e])
                invariant
                    a <= e <= n == s@.len(),
                    t == s@.subrange(a as int, n as int),
                    word_len(t) == (e - a) + word_len(s@.subrange(e as int, n as int)),
                decreases n - e,
            {
                assert(s@.subrange(e as int, n as int).drop_first() =~= s@.subrange(
                    e + 1,
                    n as int,
                ));
                e = e + 1;
            }
            proof {
                lemma_word_len(t);
                assert(t.take(e - a) =~= s@.subrange(a as int, e as int));
                assert(t.skip(e - a) =~= s@.skip(e as int));
            }
            let ghost before = out@;
            push_range(&mut out, s, a, e);
            let b = skip_ws(s, e, n);
            assert(trim_start(s@.skip(e as int)) =~= s@.subrange(b as int, n as int)) by {
                assert(s@.skip(e as int) =~= s@.subrange(e as int, n as int));
            }
            if b < n {
                out.push('-');
                assert(out@ + dash_join(s@.skip(e as int)) =~= before + dash_join(rest));
                k = e;
            } else {
                assert(s@.skip(n as int) =~= Seq::<char>::empty());
                assert(out@ + dash_join(s@.skip(n as int)) =~= before + dash_join(rest));
                k = n;
            }
        }
    }
    assert(s@.skip(n as int) =~= Seq::<char>::empty());
    assert(out@ + Seq::<char>::empty() =~= out@);
    out
}

/// The anchor id for lower-cased id text: its words joined by `-`, or
/// `heading-N` when it has none.
pub fn anchor_id_exec(lowered: &str, counter: u64) -> (r: Vec<char>)
    ensures
        r@ == anchor_id(lowered@, counter as nat),
{
    let v = chars_of(lowered);
    let joined = dash_join_exec(&v);
    if joined.len() == 0 {
        let mut r: Vec<char> = Vec::new();
        push_str(&mut r, "heading-");
        push_decimal(&mut r, counter);
        r
    } else {
        joined
    }
}

/// The anchor id of a heading with text `text` (the `counter`-th heading
/// with text): the alphanumeric, whitespace, `-` and `_` characters,
/// trimmed and lower-cased, their words joined by `-`; `heading-N` when none remain.
pub fn make_id(text: &Vec<char>, counter: u64) -> (r: Vec<char>)
    ensures
        r@ == make_id_spec(text@, counter as nat),
{
    let kept = id_chars_exec(text);
    let a = skip_ws(&kept, 0, kept.len());
    let b = skip_ws_back(&kept, a, kept.len());
    assert(kept@.subrange(0, kept@.len() as int) =~= kept@);
    let trimmed = string_of(&subvec(&kept, a, b));
    let lowered = to_lowercase(trimmed.as_str());
    anchor_id_exec(lowered.as_str(), counter)
}

/// `&`, `<` and `>` escaped.
fn escape_text_exec(s: &Vec<char>) -> (r: Vec<char>)
    ensures
        r@ == escape_text(s@),
{
    let a = replace_str(s, "&", "&amp;");
    let b = replace_str(&a, "<", "&lt;");
    replace_str(&b, ">", "&gt;")
}

#[verifier::rlimit(40)]
/// The value of a heading tag's `id` attribute (see `existing_id`).
fn existing_id_exec(tag: &Vec<char>) -> (r: Vec<char>)
    ensures
        r@ == existing_id(tag@),
{
    let key = chars_of(" id=");
    let n = tag.len();
    proof {
        reveal_strlit(" id=");
        assert(tag@.subrange(0, n as int) =~= tag@);
        lemma_find_from_bounds(tag@, key@, 0);
    }
    match find_in(tag, &key, 0, n) {
        None => Vec::new(),
        Some(k) => {
            assert(key@.len() == 4);
            let v = subvec(tag, k + 4, n);
            assert(v@ =~= tag@.skip(k + 4));
            let m = v.len();
            if m > 0 && (v[0] == '"' || v[0] == '\'') {
                let rest = subvec(&v, 1, m);
                assert(rest@ =~= v@.drop_first());
                let mut q: Vec<char> = Vec::new();
                q.push(v[0]);
                assert(q@ =~= seq![v@[0]]);
                let rn = rest.len();
                proof {
                    assert(rest@.subrange(0, rn as int) =~= rest@);
                    lemma_find_from_bounds(rest@, q@, 0);
                }
                match find_in(&rest, &q, 0, rn) {
                    Some(e) => {
                        let r = subvec(&rest, 0, e);
                        assert(r@ =~= rest@.take(e as int));
                        r
                    },
                    None => rest,
                }
            } else {
                let mut e: usize = 0;
                assert(v@.skip(0) =~= v@);
                while e < m && !is_whitespace(v[e])
                    invariant
                        e <= m == v@.len(),
                        word_len(v@) == e + word_len(v@.skip(e as int)),
                    decreases m - e,
                {
                    assert(v@.skip(e as int).drop_first() =~= v@.skip(e + 1));
                    e = e + 1;
                }
                let r = subvec(&v, 0, e);
                assert(r@ =~= v@.take(word_len(v@)));
                r
            }
        },
    }
}

/// The id a table-of-contents entry links to: the heading's own when it
/// has one, else the one added.
fn toc_link(s: &Vec<char>, st: usize, g: usize, has_id: bool, id: &Vec<char>) -> (r: Vec<char>)
    requires
        st <= g <= s@.len(),
    ensures
        r@ == (if has_id { existing_id(s@.subrange(st as int, g as int)) } else { id@ }),
{
    if has_id {
        existing_id_exec(&subvec(s, st, g))
    } else {
        let c = subvec(id, 0, id.len());
        assert(c@ =~= id@);
        c
    }
}

/// Builds the table of contents of `body` from its `<h1>`..`<h6>` headings
/// and adds an `id` anchor to each heading with text that has none; each
/// entry links to its heading's id. Returns (table of contents, body).
#[verifier::spinoff_prover]
#[verifier::rlimit(60)]
pub fn generate_toc(body: &str) -> (r: (String, String))
    requires
        toc_defined(body@),
    ensures
        (r.0@, r.1@) == generate_toc_spec(body@),
{
    let s = chars_of(body);
    let n = s.len();
    let gt = chars_of(">");
    let id_attr = chars_of(" id=");
    proof {
        reveal_strlit(">");
        assert(gt@ =~= seq!['>']);
    }
    let mut out: Vec<char> = Vec::new();
    let mut items: Vec<(usize, Vec<char>, Vec<char>)> = Vec::new();
    let ghost mut spec_items: Seq<(int, Seq<char>, Seq<char>)> = Seq::empty();
    let mut counter: u64 = 0;
    let mut p: usize = 0;
    while p < n
        invariant
            p <= n == s@.len(),
            s@ == body@,
            gt@ == seq!['>'],
            id_attr@ == " id="@,
            counter <= p,
            items@.len() == spec_items.len(),
            forall|i: int|
                0 <= i < items@.len() ==> (#[trigger] items@[i]).0 as int == spec_items[i].0
                    && items@[i].1@ == spec_items[i].1 && items@[i].2@ == spec_items[i].2 && 1
                    <= items@[i].0 <= 6,
            toc_scan(s@, p as int, counter as nat) matches Some((o, its)) && toc_scan(s@, 0, 0)
                == Some((out@ + o, spec_items + its)),
        decreases n - p,
    {
        proof {
            lemma_first_heading_bounds(s@, p as int);
        }
        let (l, st) = match first_heading_exec(&s, p) {
            Some(h) => h,
            None => {
                let ghost before = out@;
                push_range(&mut out, &s, p, n);
                assert(s@.skip(p as int) =~= s@.subrange(p as int, n as int));
                assert(spec_items + Seq::<(int, Seq<char>, Seq<char>)>::empty() =~= spec_items);
                assert(out@ + Seq::<char>::empty() =~= out@);
                p = n;
                continue;
            },
        };
        proof {
            lemma_find_from_bounds(s@, gt@, st as int);
        }
        let g = match find_from_exec(&s, &gt, st) {
            Some(g) => g,
            None => {
                return (String::new(), String::new());
            },
        };
        let cs = g + 1;
        let close = heading_close_exec(l);
        proof {
            lemma_find_from_bounds(s@, close@, cs as int);
        }
        match find_from_exec(&s, &close, cs) {
            None => {
                push_range(&mut out, &s, p, cs);
                p = cs;
            },
            Some(ce) => {
                let raw = subvec(&s, cs, ce);
                let stripped = strip_tags(&raw);
                let ta = skip_ws(&stripped, 0, stripped.len());
                let tb = skip_ws_back(&stripped, ta, stripped.len());
                assert(stripped@.subrange(0, stripped@.len() as int) =~= stripped@);
                let text = subvec(&stripped, ta, tb);
                let after = ce + 5;
                if tb > ta {
                    counter = counter + 1;
                    let id = make_id(&text, counter);
                    let has_id = find_in(&s, &id_attr, st, g).is_some();
                    let ghost before = out@;
                    let link = toc_link(&s, st, g, has_id, &id);
                    if has_id {
                        push_range(&mut out, &s, p, after);
                    } else {
                        push_range(&mut out, &s, p, g);
                        push_str(&mut out, " id=\"");
                        push_all(&mut out, &id);
                        push_str(&mut out, "\"");
                        push_range(&mut out, &s, g, after);
                    }
                    proof {
                        let item = (l as int, link@, text@);
                        let ghost_items = spec_items.push(item);
                        assert(spec_items + (seq![item] + toc_scan(s@, after as int, counter as nat).unwrap().1) =~= ghost_items + toc_scan(s@, after as int, counter as nat).unwrap().1);
                        assert(before + (out@.subrange(before.len() as int, out@.len() as int)
                            + toc_scan(s@, after as int, counter as nat).unwrap().0) =~= out@
                            + toc_scan(s@, after as int, counter as nat).unwrap().0);
                        spec_items = ghost_items;
                    }
                    items.push((l, link, text));
                } else {
                    push_range(&mut out, &s, p, after);
                }
                p = after;
            },
        }
    }
    assert(toc_scan(s@, p as int, counter as nat) == Some(
        (Seq::<char>::empty(), Seq::<(int, Seq<char>, Seq<char>)>::empty()),
    ));
    assert(out@ + Seq::<char>::empty() =~= out@);
    assert(spec_items + Seq::<(int, Seq<char>, Seq<char>)>::empty() =~= spec_items);
    let mut toc: Vec<char> = Vec::new();
    if items.len() > 0 {
        push_str(&mut toc, "<ul class=\"toc\" id=\"toc\">");
        let ghost head = toc@;
        let mut i: usize = 0;
        while i < items.len()
            invariant
                i <= items@.len() == spec_items.len(),
                head == "<ul class=\"toc\" id=\"toc\">"@,
                toc@ == head + toc_items_html(spec_items.take(i as int)),
                forall|j: int|
                    0 <= j < items@.len() ==> (#[trigger] items@[j]).0 as int == spec_items[j].0
                        && items@[j].1@ == spec_items[j].1 && items@[j].2@ == spec_items[j].2
                        && 1 <= items@[j].0 <= 6,
            decreases items@.len() - i,
        {
            let (lvl, ref id, ref text) = items[i];
            push_str(&mut toc, "<li><a href=\"#");
            push_all(&mut toc, id);
            push_str(&mut toc, "\" class=\"toc-h");
            toc.push((48u8 + lvl as u8) as char);
            push_str(&mut toc, "\">");
            let safe = escape_text_exec(text);
            push_all(&mut toc, &safe);
            push_str(&mut toc, "</a></li>");
            proof {
                assert(spec_items.take(i + 1).drop_last() =~= spec_items.take(i as int));
                assert(toc@ =~= head + toc_items_html(spec_items.take(i + 1)));
            }
            i = i + 1;
        }
        push_str(&mut toc, "</ul>");
        assert(spec_items.take(items@.len() as int) =~= spec_items);
    }
    (string_of(&toc), string_of(&out))
}

/// The metadata values shown in the card besides name and description.
pub open spec fn extra_keys() -> Seq<Seq<char>> {
    seq!["runAs"@, "scope"@, "model"@, "effort"@, "allowedTools"@]
}

/// One optional metadata field of the card.
pub open spec fn meta_item_html(key: Seq<char>, meta: Map<Seq<char>, Seq<char>>) -> Seq<char> {
    if meta.contains_key(key) {
        "<span class=\"skill-meta-item\"><span class=\"skill-meta-label\">"@ + key
            + "</span><span class=\"skill-meta-value\">"@ + escape_text(meta[key])
            + "</span></span>"@
    } else {
        Seq::empty()
    }
}

/// The optional metadata fields of the card, for the first `n` extra keys.
pub open spec fn meta_items_html(meta: Map<Seq<char>, Seq<char>>, n: int) -> Seq<char>
    decreases n,
{
    if n <= 0 {
        Seq::empty()
    } else {
        meta_items_html(meta, n - 1) + meta_item_html(extra_keys()[n - 1], meta)
    }
}

/// The value of `key`, or empty.
pub open spec fn meta_value(meta: Map<Seq<char>, Seq<char>>, key: Seq<char>) -> Seq<char> {
    if meta.contains_key(key) {
        meta[key]
    } else {
        Seq::empty()
    }
}

/// The metadata card of a skill document.
pub open spec fn skill_metadata_html_spec(meta: Map<Seq<char>, Seq<char>>) -> Seq<char> {
    "<div class=\"skill-metadata\">\n  <div class=\"skill-metadata-header\">\n    <h1>"@
        + escape_text(meta_value(meta, "name"@))
        + "</h1>\n    <span class=\"skill-badge\">Skill</span>\n  </div>\n  <p class=\"skill-description\">"@
        + escape_text(meta_value(meta, "description"@))
        + "</p>\n  <div class=\"skill-meta-grid\">"@ + meta_items_html(meta, 5)
        + "</div>\n</div>"@
}

/// The value stored under `key`, or empty.
fn meta_value_exec(meta: &Metadata, key: &str) -> (r: Vec<char>)
    ensures
        r@ == meta_value(meta@, key@),
{
    match meta.get(key) {
        Some(v) => chars_of(v.as_str()),
        None => Vec::new(),
    }
}

/// Renders a skill document's metadata as an HTML card: name, description
/// and the optional `runAs`, `scope`, `model`, `effort` and `allowedTools`
/// fields, with `&`, `<` and `>` escaped in the values.
pub fn render_skill_metadata_html(meta: &Metadata) -> (r: String)
    ensures
        r@ == skill_metadata_html_spec(meta@),
{
    let keys: [&str; 5] = ["runAs", "scope", "model", "effort", "allowedTools"];
    proof {
        assert(keys@ =~= seq!["runAs", "scope", "model", "effort", "allowedTools"]);
    }
    let mut extra: Vec<char> = Vec::new();
    let mut i: usize = 0;
    while i < 5
        invariant
            i <= 5,
            keys@ == seq!["runAs", "scope", "model", "effort", "allowedTools"],
            extra@ == meta_items_html(meta@, i as int),
        decreases 5 - i,
    {
        let key = keys[i];
        assert(key@ == extra_keys()[i as int]);
        match meta.get(key) {
            Some(val) => {
                push_str(&mut extra, "<span class=\"skill-meta-item\"><span class=\"skill-meta-label\">");
                push_str(&mut extra, key);
                push_str(&mut extra, "</span><span class=\"skill-meta-value\">");
                let vv = chars_of(val.as_str());
                let safe = escape_text_exec(&vv);
                push_all(&mut extra, &safe);
                push_str(&mut extra, "</span></span>");
            },
            None => {},
        }
        i = i + 1;
    }
    let name = escape_text_exec(&meta_value_exec(meta, "name"));
    let description = escape_text_exec(&meta_value_exec(meta, "description"));
    let mut out: Vec<char> = Vec::new();
    push_str(
        &mut out,
        "<div class=\"skill-metadata\">\n  <div class=\"skill-metadata-header\">\n    <h1>",
    );
    push_all(&mut out, &name);
    push_str(
        &mut out,
        "</h1>\n    <span class=\"skill-badge\">Skill</span>\n  </div>\n  <p class=\"skill-description\">",
    );
    push_all(&mut out, &description);
    push_str(&mut out, "</p>\n  <div class=\"skill-meta-grid\">");
    push_all(&mut out, &extra);
    push_str(&mut out, "</div>\n</div>");
    string_of(&out)
}

/// The page template and the style and script assets it embeds.
pub struct HtmlTemplate {
    /// The page, with the `{{...}}` placeholders.
    pub page: String,
    /// The GitHub Markdown style sheet.
    pub github_css: String,
    /// The code highlighting style sheet.
    pub atom_css: String,
    /// The code highlighting script.
    pub highlight_js: String,
}

/// The filled-in page: each placeholder replaced, in turn, by its value.
pub open spec fn fill_template(
    t: HtmlTemplate,
    title: Seq<char>,
    toc: Seq<char>,
    meta_html: Seq<char>,
    body: Seq<char>,
) -> Seq<char> {
    let a = replace_all(t.page@, "{{TITLE}}"@, title);
    let b = replace_all(a, "{{GITHUB_MD_CSS}}"@, t.github_css@);
    let c = replace_all(b, "{{ATOM_ONE_DARK_CSS}}"@, t.atom_css@);
    let d = replace_all(c, "{{HIGHLIGHT_JS}}"@, t.highlight_js@);
    let e = replace_all(d, "{{TOC}}"@, toc);
    let f = replace_all(e, "{{SKILL_METADATA}}"@, meta_html);
    replace_all(f, "{{BODY}}"@, body)
}

/// The full page for `html_body`.
pub open spec fn render_page_spec(
    t: HtmlTemplate,
    html_body: Seq<char>,
    title: Seq<char>,
    meta: Option<Map<Seq<char>, Seq<char>>>,
) -> Seq<char> {
    let (toc, body) = generate_toc_spec(html_body);
    let meta_html = match meta {
        Some(m) => skill_metadata_html_spec(m),
        None => Seq::empty(),
    };
    fill_template(t, title, toc, meta_html, body)
}

/// Renders the full HTML page for `html_body` without metadata.
pub fn render_html_template(template: &HtmlTemplate, html_body: &str, title: &str) -> (r: String)
    requires
        toc_defined(html_body@),
    ensures
        r@ == render_page_spec(*template, html_body@, title@, None),
{
    render_html_template_with_metadata(template, html_body, title, None)
}

/// Renders the full HTML page: the title, the assets, the table of contents,
/// the metadata card (if any) and the body with heading anchors take the
/// places of `{{TITLE}}`, `{{GITHUB_MD_CSS}}`, `{{ATOM_ONE_DARK_CSS}}`,
/// `{{HIGHLIGHT_JS}}`, `{{TOC}}`, `{{SKILL_METADATA}}` and `{{BODY}}`, in
/// that order.
pub fn render_html_template_with_metadata(
    template: &HtmlTemplate,
    html_body: &str,
    title: &str,
    metadata: Option<&Metadata>,
) -> (r: String)
    requires
        toc_defined(html_body@),
    ensures
        r@ == render_page_spec(
            *template,
            html_body@,
            title@,
            match metadata {
                Some(m) => Some(m@),
                None => None,
            },
        ),
{
    let (toc, body) = generate_toc(html_body);
    let meta_html = match metadata {
        Some(m) => render_skill_metadata_html(m),
        None => String::new(),
    };
    let page = chars_of(template.page.as_str());
    let a = replace_with(&page, "{{TITLE}}", title);
    let b = replace_with(&a, "{{GITHUB_MD_CSS}}", template.github_css.as_str());
    let c = replace_with(&b, "{{ATOM_ONE_DARK_CSS}}", template.atom_css.as_str());
    let d = replace_with(&c, "{{HIGHLIGHT_JS}}", template.highlight_js.as_str());
    let e = replace_with(&d, "{{TOC}}", toc.as_str());
    let f = replace_with(&e, "{{SKILL_METADATA}}", meta_html.as_str());
    let g = replace_with(&f, "{{BODY}}", body.as_str());
    string_of(&g)
}

/// `str::replace` of a literal placeholder by a value.
fn replace_with(s: &Vec<char>, f: &str, t: &str) -> (r: Vec<char>)
    ensures
        r@ == replace_all(s@, f@, t@),
{
    replace_str(s, f, t)
}

/// Whether the heading scan from `p` on reaches no heading tag without its
/// `>` (see `toc_scan`).
pub open spec fn toc_ok(s: Seq<char>, p: int) -> bool
    decreases s.len() - p,
{
    if p < 0 || p >= s.len() {
        true
    } else {
        match first_heading(s, p) {
            None => true,
            Some((l, st)) => {
                proof {
                    lemma_first_heading_bounds(s, p);
                    lemma_find_from_bounds(s, seq!['>'], st);
                }
                match find_from(s, seq!['>'], st) {
                    None => false,
                    Some(g) => {
                        proof {
                            lemma_find_from_bounds(s, heading_close(l), g + 1);
                        }
                        match find_from(s, heading_close(l), g + 1) {
                            None => toc_ok(s, g + 1),
                            Some(ce) => toc_ok(s, ce + 5),
                        }
                    },
                }
            },
        }
    }
}

/// The heading scan is defined exactly when no heading tag lacks its `>`,
/// whatever the anchor counter.
pub proof fn lemma_toc_ok(s: Seq<char>, p: int, counter: nat)
    ensures
        toc_scan(s, p, counter) is Some <==> toc_ok(s, p),
    decreases s.len() - p,
{
    if 0 <= p < s.len() {
        lemma_first_heading_bounds(s, p);
        if let Some((l, st)) = first_heading(s, p) {
            lemma_find_from_bounds(s, seq!['>'], st);
            if let Some(g) = find_from(s, seq!['>'], st) {
                lemma_find_from_bounds(s, heading_close(l), g + 1);
                match find_from(s, heading_close(l), g + 1) {
                    None => {
                        lemma_toc_ok(s, g + 1, counter);
                    },
                    Some(ce) => {
                        lemma_toc_ok(s, ce + 5, counter);
                        lemma_toc_ok(s, ce + 5, counter + 1);
                    },
                }
            }
        }
    }
}

/// Whether `generate_toc` can run on `body` (see `toc_defined`).
pub fn toc_is_defined(body: &str) -> (r: bool)
    ensures
        r == toc_defined(body@),
{
    let s = chars_of(body);
    let n = s.len();
    let gt = chars_of(">");
    proof {
        reveal_strlit(">");
        assert(gt@ =~= seq!['>']);
        lemma_toc_ok(s@, 0, 0);
    }
    let mut p: usize = 0;
    while p < n
        invariant
            p <= n == s@.len(),
            gt@ == seq!['>'],
            s@ == body@,
            toc_defined(body@) == toc_ok(s@, 0),
            toc_ok(s@, 0) == toc_ok(s@, p as int),
        decreases n - p,
    {
        proof {
            lemma_first_heading_bounds(s@, p as int);
        }
        let (l, st) = match first_heading_exec(&s, p) {
            Some(h) => h,
            None => return true,
        };
        proof {
            lemma_find_from_bounds(s@, gt@, st as int);
        }
        let g = match find_from_exec(&s, &gt, st) {
            Some(g) => g,
            None => return false,
        };
        let close = heading_close_exec(l);
        proof {
            lemma_find_from_bounds(s@, close@, g + 1);
        }
        p = match find_from_exec(&s, &close, g + 1) {
            None => g + 1,
            Some(ce) => ce + 5,
        };
    }
    true
}

/// A body without heading tags gets no table of contents and is left as
/// it is.
pub proof fn lemma_toc_without_headings(body: Seq<char>)
    requires
        first_heading(body, 0) is None,
    ensures
        generate_toc_spec(body) == (Seq::<char>::empty(), body),
{
    assert(body.skip(0) =~= body);
}

/// The ASCII digits of `s`, in order.
pub open spec fn ascii_digits(s: Seq<char>) -> Seq<char>
    decreases s.len(),
{
    if s.len() == 0 {
        Seq::empty()
    } else if '0' <= s[0] && s[0] <= '9' {
        seq![s[0]] + ascii_digits(s.drop_first())
    } else {
        ascii_digits(s.drop_first())
    }
}

proof fn lemma_ascii_digits_add(a: Seq<char>, b: Seq<char>)
    ensures
        ascii_digits(a + b) == ascii_digits(a) + ascii_digits(b),
    decreases a.len(),
{
    if a.len() == 0 {
        assert(a + b =~= b);
    } else {
        lemma_ascii_digits_add(a.drop_first(), b);
        assert((a + b).drop_first() =~= a.drop_first() + b);
    }
}

proof fn lemma_ascii_digits_one(c: char)
    ensures
        ascii_digits(seq![c]) == (if '0' <= c && c <= '9' { seq![c] } else { Seq::<char>::empty() }),
{
    assert(seq![c].drop_first() =~= Seq::<char>::empty());
    assert(ascii_digits(seq![c].drop_first()) == Seq::<char>::empty());
    assert(seq![c][0] == c);
    assert(seq![c] + Seq::<char>::empty() =~= seq![c]);
}

/// Whitespace holds no digit.
proof fn lemma_ws_no_digit(c: char)
    ensures
        is_ws(c) ==> !('0' <= c && c <= '9'),
{
}

proof fn lemma_trim_start_digits(s: Seq<char>)
    ensures
        ascii_digits(trim_start(s)) == ascii_digits(s),
    decreases s.len(),
{
    if s.len() > 0 && is_ws(s[0]) {
        lemma_ws_no_digit(s[0]);
        lemma_trim_start_digits(s.drop_first());
    }
}

proof fn lemma_trim_end_digits(s: Seq<char>)
    ensures
        ascii_digits(trim_end(s)) == ascii_digits(s),
    decreases s.len(),
{
    if s.len() > 0 && is_ws(s.last()) {
        lemma_ws_no_digit(s.last());
        lemma_trim_end_digits(s.drop_last());
        lemma_ascii_digits_add(s.drop_last(), seq![s.last()]);
        assert(s.drop_last() + seq![s.last()] =~= s);
        lemma_ascii_digits_one(s.last());
        assert(ascii_digits(s.drop_last()) + Seq::<char>::empty() =~= ascii_digits(s.drop_last()));
    }
}

/// The text kept for an anchor id holds every ASCII digit of the heading
/// text, in order: no digit is dropped.
pub proof fn lemma_id_chars_keep_digits(s: Seq<char>)
    ensures
        ascii_digits(id_chars(s)) == ascii_digits(s),
    decreases s.len(),
{
    if s.len() > 0 {
        lemma_id_chars_keep_digits(s.drop_first());
        lemma_ascii_digits_one(s[0]);
        lemma_ascii_digits_add(seq![s[0]], s.drop_first());
        assert(seq![s[0]] + s.drop_first() =~= s);
        if id_char(s[0]) {
            lemma_ascii_digits_add(seq![s[0]], id_chars(s.drop_first()));
        }
    }
}

/// Joining the words with `-` keeps every ASCII digit, in order.
pub proof fn lemma_dash_join_keeps_digits(s: Seq<char>)
    ensures
        ascii_digits(dash_join(s)) == ascii_digits(s),
    decreases s.len(),
{
    let t = trim_start(s);
    lemma_trim_start_digits(s);
    lemma_trim_start_len(s);
    if t.len() > 0 {
        lemma_word_len(t);
        let w = word_len(t);
        let rest = t.skip(w);
        assert(t =~= t.take(w) + rest);
        lemma_ascii_digits_add(t.take(w), rest);
        if trim_start(rest).len() > 0 {
            lemma_dash_join_keeps_digits(rest);
            lemma_ascii_digits_add(t.take(w), seq!['-']);
            lemma_ascii_digits_add(t.take(w) + seq!['-'], dash_join(rest));
            lemma_ascii_digits_one('-');
            assert(ascii_digits(t.take(w)) + Seq::<char>::empty() =~= ascii_digits(t.take(w)));
        } else {
            lemma_trim_start_digits(rest);
            assert(ascii_digits(trim_start(rest)) == Seq::<char>::empty());
            assert(ascii_digits(t.take(w)) + Seq::<char>::empty() =~= ascii_digits(t.take(w)));
        }
    }
}

/// The anchor id of a heading whose kept text, once lower-cased, has a
/// word, holds the digits of that lower-cased text in order; when
/// lower-casing keeps the digits (ASCII digits have no case), those are
/// every digit of the heading text. So headings whose texts differ only in
/// a digit get different ids.
pub proof fn lemma_id_keeps_digits(text: Seq<char>, counter: nat)
    requires
        dash_join(unicode_lowercase(trim(id_chars(text)))).len() > 0,
    ensures
        ascii_digits(make_id_spec(text, counter)) == ascii_digits(unicode_lowercase(trim(id_chars(text)))),
        ascii_digits(trim(id_chars(text))) == ascii_digits(text),
{
    lemma_dash_join_keeps_digits(unicode_lowercase(trim(id_chars(text))));
    lemma_trim_start_digits(id_chars(text));
    lemma_trim_end_digits(trim_start(id_chars(text)));
    lemma_id_chars_keep_digits(text);
}

} // verus!
