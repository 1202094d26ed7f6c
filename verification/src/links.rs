//! Link-destination repair: CommonMark does not accept a bare link
//! destination with whitespace in it, so `[text](a b.md)` is rewritten to
//! `[text](<a b.md>)`. Fenced code blocks and inline code spans are left as
//! they are.
use vstd::prelude::*;
use crate::front_matter::subvec;
use crate::text::{
    chars_of, find_from, find_from_exec, has_prefix, matches_at, is_whitespace, is_ws, lemma_find_from_bounds,
    push_all, push_range, push_str, skip_ws, string_of, trim_start,
};

verus! {

/// The end of the run of whitespace that starts at `x`.
pub open spec fn ws_end(s: Seq<char>, x: int) -> int
    decreases s.len() - x,
{
    if 0 <= x < s.len() && is_ws(s[x]) {
        ws_end(s, x + 1)
    } else {
        x
    }
}

/// A title part `\s+ open [^close]* close` at `x`: where it ends.
pub open spec fn quoted_group(s: Seq<char>, x: int, open: char, close: char) -> Option<int> {
    let y = ws_end(s, x);
    if y > x && 0 <= y < s.len() && s[y] == open {
        match find_from(s, seq![close], y + 1) {
            Some(z) => Some(z + 1),
            None => None,
        }
    } else {
        None
    }
}

/// `s[x]` is the `)` that closes a link.
pub open spec fn close_at(s: Seq<char>, x: int) -> bool {
    0 <= x < s.len() && s[x] == ')'
}

/// An optional `(title)` part at `x` followed by `)`: where that `)` is.
pub open spec fn title_paren(s: Seq<char>, x: int) -> Option<int> {
    match quoted_group(s, x, '(', ')') {
        Some(e) => if close_at(s, e) {
            Some(e)
        } else if close_at(s, x) {
            Some(x)
        } else {
            None
        },
        None => if close_at(s, x) {
            Some(x)
        } else {
            None
        },
    }
}

/// An optional `'title'` part at `x`, then the rest of the title.
pub open spec fn title_single(s: Seq<char>, x: int) -> Option<int> {
    match quoted_group(s, x, '\'', '\'') {
        Some(e) => match title_paren(s, e) {
            Some(c) => Some(c),
            None => title_paren(s, x),
        },
        None => title_paren(s, x),
    }
}

/// An optional link title (`"..."`, `'...'`, `(...)`, each after whitespace)
/// at `x` followed by the closing `)`: where that `)` is. Earlier parts are
/// tried present before absent, as a backtracking matcher does.
pub open spec fn title_end(s: Seq<char>, x: int) -> Option<int> {
    match quoted_group(s, x, '"', '"') {
        Some(e) => match title_single(s, e) {
            Some(c) => Some(c),
            None => title_single(s, x),
        },
        None => title_single(s, x),
    }
}

/// The shortest destination starting at `d` (no `)` in it) after which a
/// title and `)` follow: `(dest_end, close)`.
pub open spec fn dest_from(s: Seq<char>, d: int) -> Option<(int, int)>
    decreases s.len() + 1 - d,
{
    if d < 0 || d > s.len() {
        None
    } else {
        match title_end(s, d) {
            Some(c) => Some((d, c)),
            None => if d < s.len() && s[d] != ')' {
                dest_from(s, d + 1)
            } else {
                None
            },
        }
    }
}

/// An inline link or image `!?[label](dest title)` starting at `p`:
/// `(dest_start, dest_end, close)`, the `)` being at `close`.
pub open spec fn link_at(s: Seq<char>, p: int) -> Option<(int, int, int)> {
    if !(0 <= p < s.len()) {
        None
    } else {
        let b = if s[p] == '!' {
            p + 1
        } else {
            p
        };
        if b < s.len() && s[b] == '[' {
            match find_from(s, seq![']'], b + 1) {
                Some(q) => if q + 1 < s.len() && s[q + 1] == '(' {
                    match dest_from(s, q + 2) {
                        Some((de, c)) => Some((q + 2, de, c)),
                        None => None,
                    }
                } else {
                    None
                },
                None => None,
            }
        } else {
            None
        }
    }
}

/// A destination holds whitespace.
pub open spec fn has_ws(s: Seq<char>) -> bool {
    exists|i: int| 0 <= i < s.len() && is_ws(#[trigger] s[i])
}

/// The rewritten link: a destination with whitespace that is not already in
/// `<>` gets wrapped in `<>`; anything else is kept.
pub open spec fn rewrite_link(label: Seq<char>, dest: Seq<char>, title: Seq<char>) -> Seq<char> {
    if !has_prefix(dest, "<"@) && has_ws(dest) {
        label + "(<"@ + dest + ">"@ + title + ")"@
    } else {
        label + "("@ + dest + title + ")"@
    }
}

/// Link repair of `s` from `k` on, scanning for the leftmost link each time.
pub open spec fn fix_links_from(s: Seq<char>, k: int) -> Seq<char>
    decreases s.len() - k,
{
    if k < 0 || k >= s.len() {
        Seq::empty()
    } else {
        match link_at(s, k) {
            Some((ds, de, c)) => if k < ds <= de <= c < s.len() {
                rewrite_link(s.subrange(k, ds - 1), s.subrange(ds, de), s.subrange(de, c))
                    + fix_links_from(s, c + 1)
            } else {
                Seq::empty()
            },
            None => seq![s[k]] + fix_links_from(s, k + 1),
        }
    }
}

/// Link repair of a piece of text with no code span in it.
pub open spec fn fix_links(s: Seq<char>) -> Seq<char> {
    fix_links_from(s, 0)
}

/// Link repair of one line from `k` on: inline code spans (a backtick up to
/// the next backtick) are kept, the text around them is repaired.
pub open spec fn fix_line_from(s: Seq<char>, k: int) -> Seq<char>
    decreases s.len() + 1 - k,
{
    if k < 0 || k > s.len() {
        Seq::empty()
    } else {
        match find_from(s, seq!['`'], k) {
            None => fix_links(s.skip(k)),
            Some(a) => match find_from(s, seq!['`'], a + 1) {
                None => fix_links(s.skip(k)),
                Some(b) => if k <= a < b < s.len() {
                    fix_links(s.subrange(k, a)) + s.subrange(a, b + 1) + fix_line_from(s, b + 1)
                } else {
                    Seq::empty()
                },
            },
        }
    }
}

/// Link repair of one line.
pub open spec fn fix_line(s: Seq<char>) -> Seq<char> {
    fix_line_from(s, 0)
}

/// A line that opens or closes a fenced code block.
pub open spec fn is_fence_line(line: Seq<char>) -> bool {
    has_prefix(trim_start(line), "```"@)
}

/// One line of a document in the output: fence lines and lines inside a
/// fence are kept, others get their links repaired.
pub open spec fn fix_doc_line(line: Seq<char>, fence: bool) -> Seq<char> {
    if is_fence_line(line) || fence {
        line
    } else {
        fix_line(line)
    }
}

/// Whether a fence is open after `line`.
pub open spec fn fence_after(line: Seq<char>, fence: bool) -> bool {
    if is_fence_line(line) {
        !fence
    } else {
        fence
    }
}

/// Link repair of a document from `k` on, line by line; `fence` tells
/// whether a fence is open at `k`. Line endings are kept.
pub open spec fn fix_doc(s: Seq<char>, k: int, fence: bool) -> Seq<char>
    decreases s.len() - k,
{
    if k < 0 || k >= s.len() {
        Seq::empty()
    } else {
        match find_from(s, seq!['\n'], k) {
            Some(i) => if k <= i < s.len() {
                let line = s.subrange(k, i);
                fix_doc_line(line, fence) + seq!['\n'] + fix_doc(
                    s,
                    i + 1,
                    fence_after(line, fence),
                )
            } else {
                Seq::empty()
            },
            None => fix_doc_line(s.skip(k), fence),
        }
    }
}

/// The link repair of a whole Markdown document.
pub open spec fn fix_spaced_link_destinations_spec(md: Seq<char>) -> Seq<char> {
    fix_doc(md, 0, false)
}

fn ws_end_exec(s: &Vec<char>, x: usize) -> (y: usize)
    requires
        x <= s@.len(),
    ensures
        y == ws_end(s@, x as int),
        x <= y <= s@.len(),
{
    let mut y = x;
    while y < s.len() && is_whitespace(s[y])
        invariant
            x <= y <= s@.len(),
            ws_end(s@, x as int) == ws_end(s@, y as int),
        decreases s@.len() - y,
    {
        y = y + 1;
    }
    y
}

fn quoted_group_exec(s: &Vec<char>, x: usize, open: char, close: &Vec<char>) -> (r: Option<usize>)
    requires
        x <= s@.len(),
        close@.len() == 1,
    ensures
        r matches Some(e) ==> quoted_group(s@, x as int, open, close@[0]) == Some(e as int) && x < e
            <= s@.len(),
        r is None ==> quoted_group(s@, x as int, open, close@[0]) is None,
{
    let y = ws_end_exec(s, x);
    assert(close@ =~= seq![close@[0]]);
    if y > x && y < s.len() && s[y] == open {
        proof {
            lemma_find_from_bounds(s@, close@, y + 1);
        }
        match find_from_exec(s, close, y + 1) {
            Some(z) => Some(z + 1),
            None => None,
        }
    } else {
        None
    }
}

fn close_at_exec(s: &Vec<char>, x: usize) -> (r: bool)
    ensures
        r == close_at(s@, x as int),
{
    x < s.len() && s[x] == ')'
}

fn title_paren_exec(s: &Vec<char>, x: usize, paren: &Vec<char>) -> (r: Option<usize>)
    requires
        x <= s@.len(),
        paren@ == seq![')'],
    ensures
        r matches Some(c) ==> title_paren(s@, x as int) == Some(c as int) && x <= c < s@.len(),
        r is None ==> title_paren(s@, x as int) is None,
{
    match quoted_group_exec(s, x, '(', paren) {
        Some(e) => if close_at_exec(s, e) {
            Some(e)
        } else if close_at_exec(s, x) {
            Some(x)
        } else {
            None
        },
        None => if close_at_exec(s, x) {
            Some(x)
        } else {
            None
        },
    }
}

fn title_single_exec(s: &Vec<char>, x: usize, quote: &Vec<char>, paren: &Vec<char>) -> (r: Option<
    usize,
>)
    requires
        x <= s@.len(),
        quote@ == seq!['\''],
        paren@ == seq![')'],
    ensures
        r matches Some(c) ==> title_single(s@, x as int) == Some(c as int) && x <= c < s@.len(),
        r is None ==> title_single(s@, x as int) is None,
{
    match quoted_group_exec(s, x, '\'', quote) {
        Some(e) => match title_paren_exec(s, e, paren) {
            Some(c) => Some(c),
            None => title_paren_exec(s, x, paren),
        },
        None => title_paren_exec(s, x, paren),
    }
}

fn title_end_exec(
    s: &Vec<char>,
    x: usize,
    dquote: &Vec<char>,
    quote: &Vec<char>,
    paren: &Vec<char>,
) -> (r: Option<usize>)
    requires
        x <= s@.len(),
        dquote@ == seq!['"'],
        quote@ == seq!['\''],
        paren@ == seq![')'],
    ensures
        r matches Some(c) ==> title_end(s@, x as int) == Some(c as int) && x <= c < s@.len(),
        r is None ==> title_end(s@, x as int) is None,
{
    match quoted_group_exec(s, x, '"', dquote) {
        Some(e) => match title_single_exec(s, e, quote, paren) {
            Some(c) => Some(c),
            None => title_single_exec(s, x, quote, paren),
        },
        None => title_single_exec(s, x, quote, paren),
    }
}

/// The link starting at `p`, if any.
fn link_at_exec(s: &Vec<char>, p: usize) -> (r: Option<(usize, usize, usize)>)
    ensures
        r matches Some((ds, de, c)) ==> link_at(s@, p as int) == Some(
            (ds as int, de as int, c as int),
        ) && p < ds <= de <= c < s@.len(),
        r is None ==> link_at(s@, p as int) is None,
{
    if p >= s.len() {
        return None;
    }
    let b = if s[p] == '!' {
        p + 1
    } else {
        p
    };
    if !(b < s.len() && s[b] == '[') {
        return None;
    }
    let rb = chars_of("]");
    let dquote = chars_of("\"");
    let quote = chars_of("'");
    let paren = chars_of(")");
    proof {
        reveal_strlit("]");
        reveal_strlit("\"");
        reveal_strlit("'");
        reveal_strlit(")");
        assert(rb@ =~= seq![']']);
        assert(dquote@ =~= seq!['"']);
        assert(quote@ =~= seq!['\'']);
        assert(paren@ =~= seq![')']);
        lemma_find_from_bounds(s@, rb@, b + 1);
    }
    let q = match find_from_exec(s, &rb, b + 1) {
        Some(q) => q,
        None => {
            return None;
        },
    };
    if !(q + 1 < s.len() && s[q + 1] == '(') {
        return None;
    }
    let mut d = q + 2;
    assert(link_at(s@, p as int) == (match dest_from(s@, q + 2) {
        Some((de, c)) => Some(((q + 2) as int, de, c)),
        None => None,
    }));
    while d <= s.len()
        invariant
            link_at(s@, p as int) == (match dest_from(s@, q + 2) {
                Some((de, c)) => Some(((q + 2) as int, de, c)),
                None => None,
            }),
            q + 2 <= d <= s@.len() + 1,
            q + 1 < s@.len(),
            p < q + 2,
            dquote@ == seq!['"'],
            quote@ == seq!['\''],
            paren@ == seq![')'],
            dest_from(s@, q + 2) == dest_from(s@, d as int),
        decreases s@.len() + 1 - d,
    {
        match title_end_exec(s, d, &dquote, &quote, &paren) {
            Some(c) => {
                assert(dest_from(s@, d as int) == Some((d as int, c as int)));
                return Some((q + 2, d, c));
            },
            None => {
                if d < s.len() && s[d] != ')' {
                    d = d + 1;
                } else {
                    return None;
                }
            },
        }
    }
    None
}

/// Whether `v[lo..hi]` holds whitespace.
fn has_ws_exec(v: &Vec<char>, lo: usize, hi: usize) -> (r: bool)
    requires
        lo <= hi <= v@.len(),
    ensures
        r == has_ws(v@.subrange(lo as int, hi as int)),
{
    let ghost t = v@.subrange(lo as int, hi as int);
    let mut i = lo;
    while i < hi
        invariant
            lo <= i <= hi <= v@.len(),
            t == v@.subrange(lo as int, hi as int),
            forall|j: int| 0 <= j < i - lo ==> !is_ws(#[trigger] t[j]),
        decreases hi - i,
    {
        if is_whitespace(v[i]) {
            assert(is_ws(t[i - lo]));
            return true;
        }
        i = i + 1;
    }
    false
}

/// Link repair of a piece of text with no code span in it.
pub fn fix_links_exec(s: &Vec<char>) -> (r: Vec<char>)
    ensures
        r@ == fix_links(s@),
{
    let n = s.len();
    let mut out: Vec<char> = Vec::new();
    let mut k: usize = 0;
    while k < n
        invariant
            k <= n == s@.len(),
            out@ + fix_links_from(s@, k as int) == fix_links_from(s@, 0),
        decreases n - k,
    {
        let ghost before = out@;
        match link_at_exec(s, k) {
            Some((ds, de, c)) => {
                let wrap = s[ds] != '<' && has_ws_exec(s, ds, de);
                proof {
                    reveal_strlit("<");
                    if de > ds {
                        assert(s@.subrange(ds as int, de as int)[0] == s@[ds as int]);
                    }
                    assert(has_prefix(s@.subrange(ds as int, de as int), "<"@) ==> s@[ds as int]
                        == '<') by {
                        if has_prefix(s@.subrange(ds as int, de as int), "<"@) {
                            assert(s@.subrange(ds as int, de as int).subrange(0, 1)[0] == '<');
                        }
                    }
                    if de > ds && s@[ds as int] == '<' {
                        assert(s@.subrange(ds as int, de as int).subrange(0, 1) =~= "<"@);
                    }
                    if de == ds {
                        assert(!has_ws(s@.subrange(ds as int, de as int)));
                    }
                }
                push_range(&mut out, s, k, ds - 1);
                if wrap {
                    push_str(&mut out, "(<");
                    push_range(&mut out, s, ds, de);
                    push_str(&mut out, ">");
                } else {
                    push_str(&mut out, "(");
                    push_range(&mut out, s, ds, de);
                }
                push_range(&mut out, s, de, c);
                push_str(&mut out, ")");
                proof {
                    assert(out@ == before + rewrite_link(
                        s@.subrange(k as int, ds - 1),
                        s@.subrange(ds as int, de as int),
                        s@.subrange(de as int, c as int),
                    ));
                    assert(out@ + fix_links_from(s@, c + 1) =~= before + fix_links_from(
                        s@,
                        k as int,
                    ));
                }
                k = c + 1;
            },
            None => {
                out.push(s[k]);
                assert(out@ + fix_links_from(s@, k + 1) =~= before + fix_links_from(
                    s@,
                    k as int,
                ));
                k = k + 1;
            },
        }
    }
    assert(out@ + Seq::<char>::empty() =~= out@);
    out
}

/// Link repair of one line, keeping inline code spans.
pub fn fix_line_exec(s: &Vec<char>) -> (r: Vec<char>)
    ensures
        r@ == fix_line(s@),
{
    let tick = chars_of("`");
    proof {
        reveal_strlit("`");
        assert(tick@ =~= seq!['`']);
    }
    let n = s.len();
    let mut out: Vec<char> = Vec::new();
    let mut k: usize = 0;
    while k <= n
        invariant
            k <= n == s@.len(),
            tick@ == seq!['`'],
            out@ + fix_line_from(s@, k as int) == fix_line_from(s@, 0),
        decreases n + 1 - k,
    {
        let ghost before = out@;
        proof {
            lemma_find_from_bounds(s@, tick@, k as int);
        }
        let a = match find_from_exec(s, &tick, k) {
            Some(a) => a,
            None => {
                let rest = subvec(s, k, n);
                let fixed = fix_links_exec(&rest);
                push_all(&mut out, &fixed);
                assert(s@.skip(k as int) =~= s@.subrange(k as int, n as int));
                return out;
            },
        };
        proof {
            lemma_find_from_bounds(s@, tick@, a + 1);
        }
        let b = match find_from_exec(s, &tick, a + 1) {
            Some(b) => b,
            None => {
                let rest = subvec(s, k, n);
                let fixed = fix_links_exec(&rest);
                push_all(&mut out, &fixed);
                assert(s@.skip(k as int) =~= s@.subrange(k as int, n as int));
                return out;
            },
        };
        let seg = subvec(s, k, a);
        let fixed = fix_links_exec(&seg);
        push_all(&mut out, &fixed);
        push_range(&mut out, s, a, b + 1);
        assert(out@ + fix_line_from(s@, b + 1) =~= before + fix_line_from(s@, k as int));
        k = b + 1;
    }
    out
}

/// Wraps link and image destinations that hold whitespace in `<>`, outside
/// fenced code blocks and inline code spans, keeping line endings.
pub fn fix_spaced_link_destinations(markdown: &str) -> (r: String)
    ensures
        r@ == fix_spaced_link_destinations_spec(markdown@),
{
    let s = chars_of(markdown);
    let nl = chars_of("\n");
    let fence_mark = chars_of("```");
    proof {
        reveal_strlit("\n");
        reveal_strlit("```");
        assert(nl@ =~= seq!['\n']);
    }
    let n = s.len();
    let mut out: Vec<char> = Vec::new();
    let mut k: usize = 0;
    let mut in_fence = false;
    while k < n
        invariant
            k <= n == s@.len(),
            s@ == markdown@,
            nl@ == seq!['\n'],
            fence_mark@ == "```"@,
            out@ + fix_doc(s@, k as int, in_fence) == fix_doc(s@, 0, false),
        decreases n - k,
    {
        proof {
            reveal_strlit("```");
            lemma_find_from_bounds(s@, nl@, k as int);
        }
        let ghost before = out@;
        let (le, next, has_nl) = match find_from_exec(&s, &nl, k) {
            Some(i) => (i, i + 1, true),
            None => (n, n, false),
        };
        let line = subvec(&s, k, le);
        let t = skip_ws(&line, 0, line.len());
        assert(line@.subrange(0, line@.len() as int) =~= line@);
        assert(trim_start(line@) =~= line@.skip(t as int));
        let fence_line = crate::text::matches_at_exec(&line, &fence_mark, t);
        assert(fence_line == is_fence_line(line@)) by {
            if t + 3 <= line@.len() {
                assert(line@.skip(t as int).subrange(0, 3) =~= line@.subrange(t as int, t + 3));
            }
        }
        let was = in_fence;
        if fence_line || in_fence {
            push_all(&mut out, &line);
        } else {
            let fixed = fix_line_exec(&line);
            push_all(&mut out, &fixed);
        }
        if fence_line {
            in_fence = !in_fence;
        }
        if has_nl {
            out.push('\n');
            assert(out@ + fix_doc(s@, next as int, in_fence) =~= before + fix_doc(
                s@,
                k as int,
                was,
            ));
        } else {
            assert(s@.skip(k as int) =~= line@);
            assert(out@ =~= before + fix_doc(s@, k as int, was));
            assert(fix_doc(s@, n as int, in_fence) =~= Seq::<char>::empty());
            assert(out@ + fix_doc(s@, n as int, in_fence) =~= out@);
        }
        k = next;
    }
    string_of(&out)
}

/// A link whose destination has no whitespace, or is already wrapped in
/// `<>`, is written back exactly as it was; one that gets wrapped keeps its
/// label, destination and title, and wrapping it once more changes nothing.
pub proof fn lemma_rewrite_link(s: Seq<char>, k: int, ds: int, de: int, c: int)
    requires
        0 <= k < ds <= de <= c < s.len(),
        s[ds - 1] == '(',
        s[c] == ')',
    ensures
        (has_prefix(s.subrange(ds, de), "<"@) || !has_ws(s.subrange(ds, de))) ==> rewrite_link(
            s.subrange(k, ds - 1),
            s.subrange(ds, de),
            s.subrange(de, c),
        ) == s.subrange(k, c + 1),
        (!has_prefix(s.subrange(ds, de), "<"@) && has_ws(s.subrange(ds, de))) ==> rewrite_link(
            s.subrange(k, ds - 1),
            "<"@ + s.subrange(ds, de) + ">"@,
            s.subrange(de, c),
        ) == rewrite_link(s.subrange(k, ds - 1), s.subrange(ds, de), s.subrange(de, c)),
{
    reveal_strlit("<");
    reveal_strlit("(");
    reveal_strlit(")");
    reveal_strlit("(<");
    reveal_strlit(">");
    let label = s.subrange(k, ds - 1);
    let dest = s.subrange(ds, de);
    let title = s.subrange(de, c);
    assert(label + "("@ + dest + title + ")"@ =~= s.subrange(k, c + 1));
    let w = "<"@ + dest + ">"@;
    assert(w.subrange(0, 1) =~= "<"@);
    assert(label + "("@ + w + title + ")"@ =~= label + "(<"@ + dest + ">"@ + title + ")"@);
}

/// The number of line breaks in `s`.
pub open spec fn line_breaks(s: Seq<char>) -> nat
    decreases s.len(),
{
    if s.len() == 0 {
        0
    } else {
        line_breaks(s.drop_last()) + if s.last() == '\n' {
            1nat
        } else {
            0nat
        }
    }
}

/// `s` holds no line break.
pub open spec fn no_break(s: Seq<char>) -> bool {
    forall|i: int| 0 <= i < s.len() ==> #[trigger] s[i] != '\n'
}

proof fn lemma_line_breaks_add(a: Seq<char>, b: Seq<char>)
    ensures
        line_breaks(a + b) == line_breaks(a) + line_breaks(b),
    decreases b.len(),
{
    if b.len() == 0 {
        assert(a + b =~= a);
    } else {
        lemma_line_breaks_add(a, b.drop_last());
        assert((a + b).drop_last() =~= a + b.drop_last());
    }
}

proof fn lemma_no_break_count(s: Seq<char>)
    requires
        no_break(s),
    ensures
        line_breaks(s) == 0,
    decreases s.len(),
{
    if s.len() > 0 {
        lemma_no_break_count(s.drop_last());
    }
}

/// Where a search for one character stops, and that it passes no other
/// occurrence of it.
proof fn lemma_find_char(s: Seq<char>, c: char, k: int)
    requires
        0 <= k,
    ensures
        find_from(s, seq![c], k) matches Some(i) ==> k <= i < s.len() && s[i] == c && forall|j: int|
            k <= j < i ==> #[trigger] s[j] != c,
        find_from(s, seq![c], k) is None ==> forall|j: int| k <= j < s.len() ==> #[trigger] s[j] != c,
    decreases s.len() + 1 - k,
{
    if k + 1 > s.len() {
    } else if matches_at(s, seq![c], k) {
        assert(s.subrange(k, k + 1)[0] == s[k]);
    } else {
        assert(s[k] != c) by {
            if s[k] == c {
                assert(s.subrange(k, k + 1) =~= seq![c]);
            }
        }
        lemma_find_char(s, c, k + 1);
    }
}

proof fn lemma_fix_links_no_break(s: Seq<char>, k: int)
    requires
        no_break(s),
    ensures
        no_break(fix_links_from(s, k)),
    decreases s.len() - k,
{
    reveal_strlit("(<");
    reveal_strlit(">");
    reveal_strlit("(");
    reveal_strlit(")");
    if 0 <= k < s.len() {
        match link_at(s, k) {
            Some((ds, de, c)) => if k < ds <= de <= c < s.len() {
                lemma_fix_links_no_break(s, c + 1);
                let label = s.subrange(k, ds - 1);
                let dest = s.subrange(ds, de);
                let title = s.subrange(de, c);
                let rest = fix_links_from(s, c + 1);
                assert(no_break(label + "(<"@ + dest + ">"@ + title + ")"@ + rest));
                assert(no_break(label + "("@ + dest + title + ")"@ + rest));
            },
            None => {
                lemma_fix_links_no_break(s, k + 1);
                assert(no_break(seq![s[k]] + fix_links_from(s, k + 1)));
            },
        }
    }
}

proof fn lemma_fix_line_no_break(s: Seq<char>, k: int)
    requires
        no_break(s),
    ensures
        no_break(fix_line_from(s, k)),
    decreases s.len() + 1 - k,
{
    if 0 <= k <= s.len() {
        assert(no_break(s.skip(k)));
        lemma_fix_links_no_break(s.skip(k), 0);
        match find_from(s, seq!['`'], k) {
            None => {},
            Some(a) => match find_from(s, seq!['`'], a + 1) {
                None => {},
                Some(b) => if k <= a < b < s.len() {
                    assert(no_break(s.subrange(k, a)));
                    lemma_fix_links_no_break(s.subrange(k, a), 0);
                    lemma_fix_line_no_break(s, b + 1);
                    assert(no_break(
                        fix_links(s.subrange(k, a)) + s.subrange(a, b + 1) + fix_line_from(s, b + 1),
                    ));
                },
            },
        }
    }
}

proof fn lemma_fix_doc_breaks(s: Seq<char>, k: int, fence: bool)
    requires
        0 <= k <= s.len(),
    ensures
        line_breaks(fix_doc(s, k, fence)) == line_breaks(s.skip(k)),
    decreases s.len() - k,
{
    lemma_find_char(s, '\n', k);
    if k == s.len() {
        assert(s.skip(k) =~= Seq::<char>::empty());
    } else {
        match find_from(s, seq!['\n'], k) {
            Some(i) => {
                let line = s.subrange(k, i);
                assert(no_break(line));
                lemma_fix_line_no_break(line, 0);
                lemma_no_break_count(fix_doc_line(line, fence));
                lemma_no_break_count(line);
                lemma_fix_doc_breaks(s, i + 1, fence_after(line, fence));
                lemma_line_breaks_add(fix_doc_line(line, fence), seq!['\n']);
                lemma_line_breaks_add(
                    fix_doc_line(line, fence) + seq!['\n'],
                    fix_doc(s, i + 1, fence_after(line, fence)),
                );
                assert(s.skip(k) =~= line + seq!['\n'] + s.skip(i + 1));
                lemma_line_breaks_add(line, seq!['\n']);
                lemma_line_breaks_add(line + seq!['\n'], s.skip(i + 1));
                assert(line_breaks(seq!['\n']) == 1) by {
                    let nl = seq!['\n'];
                    assert(nl.drop_last() =~= Seq::<char>::empty());
                    assert(line_breaks(nl.drop_last()) == 0);
                    assert(nl.last() == '\n');
                }
            },
            None => {
                assert(no_break(s.skip(k)));
                lemma_fix_line_no_break(s.skip(k), 0);
                lemma_no_break_count(fix_doc_line(s.skip(k), fence));
                lemma_no_break_count(s.skip(k));
            },
        }
    }
}

/// Link repair keeps every line break: the output has as many lines as the
/// input.
pub proof fn lemma_fix_keeps_line_count(md: Seq<char>)
    ensures
        line_breaks(fix_spaced_link_destinations_spec(md)) == line_breaks(md),
{
    lemma_fix_doc_breaks(md, 0, false);
    assert(md.skip(0) =~= md);
}

/// A fence line, and every line while a fence is open, is copied unchanged
/// together with its line break; the scan then goes on after that break.
pub proof fn lemma_fence_lines_kept(s: Seq<char>, k: int, fence: bool)
    requires
        0 <= k < s.len(),
    ensures
        find_from(s, seq!['\n'], k) matches Some(i) ==> (fence || is_fence_line(s.subrange(k, i)))
            ==> fix_doc(s, k, fence) == s.subrange(k, i + 1) + fix_doc(
            s,
            i + 1,
            fence_after(s.subrange(k, i), fence),
        ),
        find_from(s, seq!['\n'], k) is None ==> (fence || is_fence_line(s.skip(k))) ==> fix_doc(
            s,
            k,
            fence,
        ) == s.skip(k),
{
    lemma_find_char(s, '\n', k);
    if let Some(i) = find_from(s, seq!['\n'], k) {
        assert(s.subrange(k, i) + seq!['\n'] =~= s.subrange(k, i + 1));
    }
}

} // verus!
