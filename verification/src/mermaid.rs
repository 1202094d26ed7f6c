//! Mermaid diagrams: finding the diagram code blocks in rendered HTML,
//! restoring their source, and splicing the rendered SVG back in. Rendering
//! itself (a headless browser) is done by the caller's renderer; a block
//! whose rendering fails keeps its code.
use vstd::prelude::*;
use crate::front_matter::{lines, subvec};
use crate::links::ws_end;
use crate::text::{
    chars_of, contains, eq_ignore_ascii_case, eq_ignore_ascii_case_exec, find, find_from,
    find_from_exec, is_whitespace, is_ws, lemma_find_from_bounds, matches_at, matches_at_exec,
    push_range, push_str, replace_all, replace_str, skip_ws, skip_ws_back, string_of,
    trim,
};
use crate::unicode::{to_lowercase, unicode_lowercase};
use crate::docx::render::{escape_xml_char, escape_xml_spec};

verus! {

/// Fence languages that name a diagram.
pub open spec fn mermaid_langs() -> Seq<Seq<char>> {
    seq![
        "mermaid"@, "flowchart"@, "flow"@, "sequence"@, "sequencediagram"@, "sequenceDiagram"@,
        "classdiagram"@, "classDiagram"@, "statediagram"@, "stateDiagram"@, "erdiagram"@,
        "erDiagram"@, "gantt"@, "pie"@, "journey"@, "gitgraph"@, "mindmap"@, "timeline"@,
        "quadrantchart"@, "quadrantChart"@, "requirementdiagram"@, "requirementDiagram"@,
        "block-beta"@, "kanban"@, "architecture"@, "c4context"@, "c4container"@, "c4component"@,
        "info"@,
    ]
}

/// Diagram keywords that a source may start with.
pub open spec fn mermaid_keywords() -> Seq<Seq<char>> {
    seq![
        "flowchart"@, "graph"@, "sequenceDiagram"@, "classDiagram"@, "stateDiagram"@, "state"@,
        "erDiagram"@, "gantt"@, "pie"@, "journey"@, "gitgraph"@, "mindmap"@, "timeline"@,
        "quadrantChart"@, "requirementDiagram"@, "block-beta"@, "kanban"@, "architecture"@,
        "c4context"@, "c4container"@, "c4component"@, "info"@, "requirement"@,
    ]
}

/// Keyword prefixes that a source's first word may start with.
pub open spec fn mermaid_prefixes() -> Seq<Seq<char>> {
    seq![
        "flowchart"@, "graph"@, "statediagram"@, "classdiagram"@, "erdiagram"@,
        "sequencediagram"@, "c4"@,
    ]
}

const MERMAID_LANGS: [&'static str; 29] = [
    "mermaid",
    "flowchart",
    "flow",
    "sequence",
    "sequencediagram",
    "sequenceDiagram",
    "classdiagram",
    "classDiagram",
    "statediagram",
    "stateDiagram",
    "erdiagram",
    "erDiagram",
    "gantt",
    "pie",
    "journey",
    "gitgraph",
    "mindmap",
    "timeline",
    "quadrantchart",
    "quadrantChart",
    "requirementdiagram",
    "requirementDiagram",
    "block-beta",
    "kanban",
    "architecture",
    "c4context",
    "c4container",
    "c4component",
    "info",
];

const MERMAID_KEYWORDS: [&'static str; 23] = [
    "flowchart",
    "graph",
    "sequenceDiagram",
    "classDiagram",
    "stateDiagram",
    "state",
    "erDiagram",
    "gantt",
    "pie",
    "journey",
    "gitgraph",
    "mindmap",
    "timeline",
    "quadrantChart",
    "requirementDiagram",
    "block-beta",
    "kanban",
    "architecture",
    "c4context",
    "c4container",
    "c4component",
    "info",
    "requirement",
];

const MERMAID_PREFIX: [&'static str; 7] = [
    "flowchart",
    "graph",
    "statediagram",
    "classdiagram",
    "erdiagram",
    "sequencediagram",
    "c4",
];

/// The first non-blank line of `s`, trimmed.
pub open spec fn first_nonblank(ls: Seq<Seq<char>>) -> Option<Seq<char>>
    decreases ls.len(),
{
    if ls.len() == 0 {
        None
    } else if trim(ls[0]).len() > 0 {
        Some(trim(ls[0]))
    } else {
        first_nonblank(ls.drop_first())
    }
}

/// The first word (run of non-whitespace) of `t`.
pub open spec fn first_word(t: Seq<char>) -> Seq<char> {
    t.take(crate::template::word_len(t))
}

/// `word` equals one of the diagram keywords, ignoring ASCII case.
pub open spec fn is_keyword(word: Seq<char>) -> bool {
    exists|i: int| 0 <= i < mermaid_keywords().len() && eq_ignore_ascii_case(word, #[trigger] mermaid_keywords()[i])
}

/// `word` starts with one of the keyword prefixes, ignoring ASCII case.
pub open spec fn has_keyword_prefix(word: Seq<char>) -> bool {
    exists|i: int|
        0 <= i < mermaid_prefixes().len() && word.len() >= (#[trigger] mermaid_prefixes()[i]).len()
            && eq_ignore_ascii_case(word.take(mermaid_prefixes()[i].len() as int), mermaid_prefixes()[i])
}

/// The source starts with a diagram keyword: the first word of its first
/// non-blank line is a keyword or starts with a keyword prefix.
pub open spec fn starts_with_keyword(source: Seq<char>) -> bool {
    match first_nonblank(lines(source)) {
        Some(t) => is_keyword(first_word(t)) || has_keyword_prefix(first_word(t)),
        None => false,
    }
}

/// A code block is a diagram: a non-empty fence language, trimmed and
/// lower-cased, must be one of the diagram languages; without one, the
/// source must start with a diagram keyword.
pub open spec fn is_mermaid_spec(lang: Seq<char>, source: Seq<char>) -> bool {
    if trim(lang).len() > 0 {
        mermaid_langs().contains(unicode_lowercase(trim(lang)))
    } else {
        starts_with_keyword(source)
    }
}

/// HTML entities that the Markdown renderer writes, turned back into text.
pub open spec fn unescape_html_spec(s: Seq<char>) -> Seq<char> {
    let a = replace_all(s, "&lt;"@, "<"@);
    let b = replace_all(a, "&gt;"@, ">"@);
    let c = replace_all(b, "&quot;"@, "\""@);
    let d = replace_all(c, "&#39;"@, "'"@);
    replace_all(d, "&amp;"@, "&"@)
}

/// The diagram source for a fence language and code: when the language is
/// a diagram keyword (not `mermaid`) that the code does not start with, the
/// language becomes the first line.
pub open spec fn reconstruct_spec(lang: Seq<char>, body: Seq<char>) -> Seq<char> {
    let l = trim(lang);
    if l.len() == 0 || eq_ignore_ascii_case(l, "mermaid"@) {
        body
    } else if starts_with_keyword(body) {
        body
    } else {
        l + seq!['\n'] + body
    }
}

/// `w[lo..hi]` equals one of `words`, ignoring ASCII case.
fn matches_any(w: &Vec<char>, lo: usize, hi: usize, words: &[&str]) -> (r: bool)
    requires
        lo <= hi <= w@.len(),
    ensures
        r == exists|i: int| 0 <= i < words@.len() && eq_ignore_ascii_case(w@.subrange(lo as int, hi as int), (#[trigger] words@[i])@),
{
    let mut i: usize = 0;
    while i < words.len()
        invariant
            lo <= hi <= w@.len(),
            i <= words@.len(),
            forall|j: int| 0 <= j < i ==> !eq_ignore_ascii_case(w@.subrange(lo as int, hi as int), (#[trigger] words@[j])@),
        decreases words@.len() - i,
    {
        let kw = chars_of(words[i]);
        if eq_ignore_ascii_case_exec(w, lo, hi, &kw) {
            return true;
        }
        i = i + 1;
    }
    false
}

/// Some prefix of `words` starts `w[lo..hi]`, ignoring ASCII case.
fn prefix_any(w: &Vec<char>, lo: usize, hi: usize, words: &[&str]) -> (r: bool)
    requires
        lo <= hi <= w@.len(),
    ensures
        r == exists|i: int|
            0 <= i < words@.len() && hi - lo >= (#[trigger] words@[i])@.len()
                && eq_ignore_ascii_case(w@.subrange(lo as int, hi as int).take(words@[i]@.len() as int), words@[i]@),
{
    let ghost s = w@.subrange(lo as int, hi as int);
    let mut found = false;
    let mut i: usize = 0;
    while i < words.len()
        invariant
            lo <= hi <= w@.len(),
            s == w@.subrange(lo as int, hi as int),
            i <= words@.len(),
            found == exists|j: int|
                0 <= j < i && hi - lo >= (#[trigger] words@[j])@.len() && eq_ignore_ascii_case(
                    s.take(words@[j]@.len() as int),
                    words@[j]@,
                ),
        decreases words@.len() - i,
    {
        let p = chars_of(words[i]);
        let pl = p.len();
        if hi - lo >= pl {
            assert(s.take(pl as int) =~= w@.subrange(lo as int, lo + pl));
            if eq_ignore_ascii_case_exec(w, lo, lo + pl, &p) {
                found = true;
            }
        }
        i = i + 1;
    }
    found
}

/// The first non-blank line of `v`, trimmed, as a range.
fn first_nonblank_exec(v: &Vec<char>) -> (r: Option<(usize, usize)>)
    ensures
        r matches Some((a, b)) ==> a < b <= v@.len() && first_nonblank(lines(v@)) == Some(
            v@.subrange(a as int, b as int),
        ),
        r is None ==> first_nonblank(lines(v@)) is None,
{
    let nl = chars_of("\n");
    proof {
        reveal_strlit("\n");
        assert(nl@ =~= seq!['\n']);
    }
    let n = v.len();
    let mut pos: usize = 0;
    assert(v@.skip(0) =~= v@);
    while pos < n
        invariant
            pos <= n == v@.len(),
            nl@ == seq!['\n'],
            first_nonblank(lines(v@)) == first_nonblank(lines(v@.skip(pos as int))),
        decreases n - pos,
    {
        let ghost rest = v@.skip(pos as int);
        proof {
            crate::text::lemma_find_skip(v@, nl@, pos as int);
            lemma_find_from_bounds(v@, nl@, pos as int);
        }
        let (le, next) = match find_from_exec(v, &nl, pos) {
            Some(j) => (j, j + 1),
            None => (n, n),
        };
        let mut e = le;
        if next > le && e > pos && v[e - 1] == '\r' {
            e = e - 1;
        }
        let a = skip_ws(v, pos, e);
        let b = skip_ws_back(v, a, e);
        let ghost line = v@.subrange(pos as int, e as int);
        proof {
            if next > le {
                assert(rest.take(le - pos) =~= v@.subrange(pos as int, le as int));
                assert(line =~= crate::front_matter::strip_cr(v@.subrange(pos as int, le as int)));
                assert(rest.skip(le - pos + 1) =~= v@.skip(next as int));
                assert(lines(rest) == seq![line] + lines(v@.skip(next as int)));
            } else {
                assert(rest =~= line);
                assert(lines(rest) == seq![line]);
                assert(v@.skip(n as int) =~= Seq::<char>::empty());
            }
            assert(trim(line) == v@.subrange(a as int, b as int));
            assert((seq![line] + lines(v@.skip(next as int))).drop_first() =~= lines(
                v@.skip(next as int),
            ));
        }
        if b > a {
            return Some((a, b));
        }
        pos = next;
    }
    proof {
        assert(v@.skip(n as int) =~= Seq::<char>::empty());
    }
    None
}

/// Whether `body` starts with a diagram keyword. A keyword prefix is
/// compared character by character, so a first word that starts with a
/// multi-byte character simply does not match.
fn keyword_test(body: &Vec<char>) -> (r: bool)
    ensures
        r == starts_with_keyword(body@),
{
    proof {
        assert(MERMAID_KEYWORDS@.map_values(|s: &str| s@) =~= mermaid_keywords());
        assert(MERMAID_PREFIX@.map_values(|s: &str| s@) =~= mermaid_prefixes());
    }
    match first_nonblank_exec(body) {
        None => false,
        Some((a, b)) => {
            let ghost t = body@.subrange(a as int, b as int);
            let mut e = a;
            while e < b && !is_whitespace(body[e])
                invariant
                    a <= e <= b <= body@.len(),
                    t == body@.subrange(a as int, b as int),
                    crate::template::word_len(t) == (e - a) + crate::template::word_len(
                        body@.subrange(e as int, b as int),
                    ),
                decreases b - e,
            {
                assert(body@.subrange(e as int, b as int).drop_first() =~= body@.subrange(
                    e + 1,
                    b as int,
                ));
                e = e + 1;
            }
            assert(first_word(t) =~= body@.subrange(a as int, e as int));
            let exact = matches_any(body, a, e, &MERMAID_KEYWORDS);
            let prefix = prefix_any(body, a, e, &MERMAID_PREFIX);
            proof {
                let w = first_word(t);
                if exact {
                    let i = choose|i: int| 0 <= i < MERMAID_KEYWORDS@.len() && eq_ignore_ascii_case(w, (#[trigger] MERMAID_KEYWORDS@[i])@);
                    assert(MERMAID_KEYWORDS@[i]@ == mermaid_keywords()[i]);
                } else {
                    assert forall|i: int| 0 <= i < mermaid_keywords().len() implies !eq_ignore_ascii_case(w, #[trigger] mermaid_keywords()[i]) by {
                        assert(MERMAID_KEYWORDS@[i]@ == mermaid_keywords()[i]);
                    }
                }
                if prefix {
                    let i = choose|i: int| 0 <= i < MERMAID_PREFIX@.len() && e - a >= (#[trigger] MERMAID_PREFIX@[i])@.len() && eq_ignore_ascii_case(w.take(MERMAID_PREFIX@[i]@.len() as int), MERMAID_PREFIX@[i]@);
                    assert(MERMAID_PREFIX@[i]@ == mermaid_prefixes()[i]);
                } else {
                    assert forall|i: int| 0 <= i < mermaid_prefixes().len() && w.len() >= (#[trigger] mermaid_prefixes()[i]).len() implies !eq_ignore_ascii_case(w.take(mermaid_prefixes()[i].len() as int), mermaid_prefixes()[i]) by {
                        assert(MERMAID_PREFIX@[i]@ == mermaid_prefixes()[i]);
                    }
                }
            }
            exact || prefix
        },
    }
}

/// Whether the code of a block starts with a diagram keyword.
pub fn source_starts_with_keyword(body: &str) -> (r: bool)
    ensures
        r == starts_with_keyword(body@),
{
    let v = chars_of(body);
    keyword_test(&v)
}

/// Whether a lower-cased fence language is a diagram language.
pub fn is_mermaid_lang(lowered: &str) -> (r: bool)
    ensures
        r == mermaid_langs().contains(lowered@),
{
    let v = chars_of(lowered);
    let n = v.len();
    let mut i: usize = 0;
    proof {
        assert(MERMAID_LANGS@.map_values(|s: &str| s@) =~= mermaid_langs());
    }
    while i < 29
        invariant
            i <= 29,
            v@ == lowered@,
            n == v@.len(),
            MERMAID_LANGS@.map_values(|s: &str| s@) == mermaid_langs(),
            forall|j: int| 0 <= j < i ==> mermaid_langs()[j] != lowered@,
        decreases 29 - i,
    {
        assert(v@.subrange(0, n as int) =~= v@);
        if crate::text::range_eq_str(&v, 0, n, MERMAID_LANGS[i]) {
            assert(mermaid_langs()[i as int] == MERMAID_LANGS@[i as int]@);
            return true;
        }
        assert(mermaid_langs()[i as int] == MERMAID_LANGS@[i as int]@);
        i = i + 1;
    }
    false
}

/// Whether a code block is a diagram (see `is_mermaid_spec`).
pub fn is_mermaid_source(lang: &str, source: &str) -> (r: bool)
    ensures
        r == is_mermaid_spec(lang@, source@),
{
    let lv = chars_of(lang);
    let a = skip_ws(&lv, 0, lv.len());
    let b = skip_ws_back(&lv, a, lv.len());
    assert(lv@.subrange(0, lv@.len() as int) =~= lv@);
    if b > a {
        let trimmed = string_of(&subvec(&lv, a, b));
        let lowered = to_lowercase(trimmed.as_str());
        return is_mermaid_lang(lowered.as_str());
    }
    source_starts_with_keyword(source)
}

/// HTML entities turned back into text: `&lt;`, `&gt;`, `&quot;`, `&#39;`
/// and then `&amp;`, one level only (`&amp;lt;` gives `&lt;`). It gives back
/// any text from its XML escape (`lemma_unescape_escape`).
pub fn unescape_html(s: &str) -> (r: String)
    ensures
        r@ == unescape_html_spec(s@),
{
    let v = chars_of(s);
    let a = replace_str(&v, "&lt;", "<");
    let b = replace_str(&a, "&gt;", ">");
    let c = replace_str(&b, "&quot;", "\"");
    let d = replace_str(&c, "&#39;", "'");
    let e = replace_str(&d, "&amp;", "&");
    string_of(&e)
}

/// The diagram source for a fence language and its code (see
/// `reconstruct_spec`).
pub fn reconstruct_source(lang: &str, body: &str) -> (r: String)
    ensures
        r@ == reconstruct_spec(lang@, body@),
{
    let lv = chars_of(lang);
    let a = skip_ws(&lv, 0, lv.len());
    let b = skip_ws_back(&lv, a, lv.len());
    assert(lv@.subrange(0, lv@.len() as int) =~= lv@);
    let m = chars_of("mermaid");
    if b == a || eq_ignore_ascii_case_exec(&lv, a, b, &m) {
        return String::from_str(body);
    }
    if source_starts_with_keyword(body) {
        return String::from_str(body);
    }
    let mut out: Vec<char> = Vec::new();
    push_range(&mut out, &lv, a, b);
    out.push('\n');
    push_str(&mut out, body);
    string_of(&out)
}

/// `<pre><code`, the start of a code block.
pub open spec fn code_block_open() -> Seq<char> {
    "<pre><code"@
}

/// `</code></pre>`, the end of a code block.
pub open spec fn code_block_close() -> Seq<char> {
    "</code></pre>"@
}

/// A diagram language class after the `<code` at `x`: whitespace, then
/// `class="language-LANG"` with `LANG` a diagram language. `(LANG, end)`.
pub open spec fn class_lang(h: Seq<char>, x: int) -> Option<(Seq<char>, int)> {
    let y = ws_end(h, x);
    if y > x && matches_at(h, "class=\"language-"@, y) {
        let ls = y + 16;
        match find_from(h, seq!['"'], ls) {
            Some(le) => if mermaid_langs().contains(h.subrange(ls, le)) {
                Some((h.subrange(ls, le), le + 1))
            } else {
                None
            },
            None => None,
        }
    } else {
        None
    }
}

/// Optional whitespace and `>` at `x`: the position after the `>`.
pub open spec fn gt_after_ws(h: Seq<char>, x: int) -> Option<int> {
    let y = ws_end(h, x);
    if 0 <= y < h.len() && h[y] == '>' {
        Some(y + 1)
    } else {
        None
    }
}

/// The opening `<pre><code ...>` at `p`: (language, content start); the
/// language is empty without a diagram language class.
pub open spec fn code_open(h: Seq<char>, p: int) -> Option<(Seq<char>, int)> {
    if !matches_at(h, code_block_open(), p) {
        None
    } else {
        let x = p + 10;
        let plain = match gt_after_ws(h, x) {
            Some(c) => Some((Seq::<char>::empty(), c)),
            None => None,
        };
        match class_lang(h, x) {
            Some((l, a)) => match gt_after_ws(h, a) {
                Some(c) => Some((l, c)),
                None => plain,
            },
            None => plain,
        }
    }
}

/// A whole code block at `p`: (language, code start, code end), the code
/// running up to the first `</code></pre>`.
pub open spec fn block_at(h: Seq<char>, p: int) -> Option<(Seq<char>, int, int)> {
    match code_open(h, p) {
        Some((l, c)) => match find_from(h, code_block_close(), c) {
            Some(e) => Some((l, c, e)),
            None => None,
        },
        None => None,
    }
}

/// The diagram blocks of `h` from `p` on: `(start, end, source)` for every
/// code block that is a diagram, with its source reconstructed. Each code
/// block is matched at the leftmost `<pre><code` where one starts.
pub open spec fn blocks_from(h: Seq<char>, p: int) -> Seq<(int, int, Seq<char>)>
    decreases h.len() + 1 - p,
{
    if p < 0 || p > h.len() {
        Seq::empty()
    } else {
        match find_from(h, code_block_open(), p) {
            None => Seq::empty(),
            Some(c) => {
                proof {
                    lemma_find_from_bounds(h, code_block_open(), p);
                    lemma_block_at_bounds(h, c);
                }
                match block_at(h, c) {
                    None => blocks_from(h, c + 1),
                    Some((l, s, e)) => {
                        let body = unescape_html_spec(h.subrange(s, e));
                        (if is_mermaid_spec(l, body) {
                            seq![(c, e + 13, reconstruct_spec(l, body))]
                        } else {
                            Seq::empty()
                        }) + blocks_from(h, e + 13)
                    },
                }
            },
        }
    }
}

pub proof fn lemma_block_at_bounds(h: Seq<char>, p: int)
    requires
        0 <= p,
    ensures
        block_at(h, p) matches Some((l, s, e)) ==> p + 10 <= s <= e && e + 13 <= h.len(),
{
    reveal_strlit("<pre><code");
    reveal_strlit("</code></pre>");
    reveal_strlit("class=\"language-");
    if let Some((l, c)) = code_open(h, p) {
        lemma_ws_end(h, p + 10);
        lemma_find_from_bounds(h, code_block_close(), c);
        if let Some((l2, a)) = class_lang(h, p + 10) {
            lemma_find_from_bounds(h, seq!['"'], ws_end(h, p + 10) + 16);
            lemma_ws_end(h, a);
        }
    }
}

pub proof fn lemma_ws_end(h: Seq<char>, x: int)
    ensures
        x <= ws_end(h, x),
        0 <= x <= h.len() ==> ws_end(h, x) <= h.len(),
    decreases h.len() - x,
{
    if 0 <= x < h.len() && is_ws(h[x]) {
        lemma_ws_end(h, x + 1);
    }
}

/// A diagram block found in rendered HTML.
pub struct MermaidBlock {
    /// Where the `<pre><code` starts.
    pub start: usize,
    /// Just after the closing `</code></pre>`.
    pub end: usize,
    /// The diagram source.
    pub source: String,
}

/// The view of found blocks.
pub open spec fn blocks_view(bs: Seq<MermaidBlock>) -> Seq<(int, int, Seq<char>)> {
    bs.map_values(|b: MermaidBlock| (b.start as int, b.end as int, b.source@))
}

fn ws_end_exec(h: &Vec<char>, x: usize) -> (y: usize)
    requires
        x <= h@.len(),
    ensures
        y == ws_end(h@, x as int),
        x <= y <= h@.len(),
{
    let mut y = x;
    while y < h.len() && is_whitespace(h[y])
        invariant
            x <= y <= h@.len(),
            ws_end(h@, x as int) == ws_end(h@, y as int),
        decreases h@.len() - y,
    {
        y = y + 1;
    }
    y
}

fn gt_after_ws_exec(h: &Vec<char>, x: usize) -> (r: Option<usize>)
    requires
        x <= h@.len(),
    ensures
        r matches Some(c) ==> gt_after_ws(h@, x as int) == Some(c as int) && c <= h@.len(),
        r is None ==> gt_after_ws(h@, x as int) is None,
{
    let y = ws_end_exec(h, x);
    if y < h.len() && h[y] == '>' {
        Some(y + 1)
    } else {
        None
    }
}

fn class_lang_exec(h: &Vec<char>, x: usize) -> (r: Option<(usize, usize)>)
    requires
        x <= h@.len(),
    ensures
        r matches Some((ls, le)) ==> ls <= le < h@.len() && class_lang(h@, x as int) == Some(
            (h@.subrange(ls as int, le as int), le + 1),
        ),
        r is None ==> class_lang(h@, x as int) is None,
{
    let y = ws_end_exec(h, x);
    let cls = chars_of("class=\"language-");
    let q = chars_of("\"");
    proof {
        reveal_strlit("class=\"language-");
        reveal_strlit("\"");
        assert(q@ =~= seq!['"']);
        assert(cls@.len() == 16);
    }
    if y <= x {
        return None;
    }
    if !matches_at_exec(h, &cls, y) {
        return None;
    }
    let n = h.len();
    assert(y + 16 <= n);
    let ls = y + 16;
    proof {
        lemma_find_from_bounds(h@, q@, ls as int);
    }
    match find_from_exec(h, &q, ls) {
        Some(le) => {
            let l = string_of(&subvec(h, ls, le));
            if is_mermaid_lang(l.as_str()) {
                Some((ls, le))
            } else {
                None
            }
        },
        None => None,
    }
}

fn block_at_exec(h: &Vec<char>, p: usize) -> (r: Option<(usize, usize, usize, usize)>)
    requires
        p <= h@.len(),
    ensures
        r matches Some((ls, le, s, e)) ==> ls <= le <= h@.len() && block_at(h@, p as int) == Some(
            (h@.subrange(ls as int, le as int), s as int, e as int),
        ),
        r is None ==> block_at(h@, p as int) is None,
{
    let open = chars_of("<pre><code");
    let close = chars_of("</code></pre>");
    proof {
        reveal_strlit("<pre><code");
        reveal_strlit("</code></pre>");
        assert(open@.len() == 10);
    }
    if !matches_at_exec(h, &open, p) {
        return None;
    }
    let n = h.len();
    assert(p + 10 <= n);
    let x = p + 10;
    let plain = match gt_after_ws_exec(h, x) {
        Some(c) => Some((x, x, c)),
        None => None,
    };
    let opened = match class_lang_exec(h, x) {
        Some((ls, le)) => match gt_after_ws_exec(h, le + 1) {
            Some(c) => Some((ls, le, c)),
            None => plain,
        },
        None => plain,
    };
    proof {
        assert(h@.subrange(x as int, x as int) =~= Seq::<char>::empty());
    }
    match opened {
        Some((ls, le, c)) => {
            proof {
                lemma_find_from_bounds(h@, close@, c as int);
            }
            match find_from_exec(h, &close, c) {
                Some(e) => Some((ls, le, c, e)),
                None => None,
            }
        },
        None => None,
    }
}

/// The reconstructed source of a code block that is a diagram.
fn diagram_source(lang: &str, body: &str) -> (r: Option<String>)
    ensures
        r is Some <==> is_mermaid_spec(lang@, body@),
        r matches Some(src) ==> src@ == reconstruct_spec(lang@, body@),
{
    proof {
        reveal_strlit("mermaid");
    }
    if is_mermaid_source(lang, body) {
        Some(reconstruct_source(lang, body))
    } else {
        None
    }
}

/// The diagram blocks of `html`, in order.
fn scan_blocks(html: &Vec<char>) -> (r: Vec<MermaidBlock>)
    ensures
        blocks_view(r@) == blocks_from(html@, 0),
{
    let open = chars_of("<pre><code");
    let n = html.len();
    let mut out: Vec<MermaidBlock> = Vec::new();
    let mut p: usize = 0;
    while p <= n
        invariant
            p <= n == html@.len(),
            open@ == code_block_open(),
            blocks_view(out@) + blocks_from(html@, p as int) == blocks_from(html@, 0),
        decreases n + 1 - p,
    {
        proof {
            reveal_strlit("<pre><code");
            lemma_find_from_bounds(html@, open@, p as int);
        }
        let c = match find_from_exec(html, &open, p) {
            Some(c) => c,
            None => {
                assert(blocks_view(out@) + Seq::<(int, int, Seq<char>)>::empty() =~= blocks_view(out@));
                return out;
            },
        };
        proof {
            lemma_block_at_bounds(html@, c as int);
        }
        match block_at_exec(html, c) {
            None => {
                p = c + 1;
            },
            Some((ls, le, s, e)) => {
                let lang = string_of(&subvec(html, ls, le));
                let raw = string_of(&subvec(html, s, e));
                let body = unescape_html(raw.as_str());
                let ghost before = blocks_view(out@);
                match diagram_source(lang.as_str(), body.as_str()) {
                    Some(source) => {
                        out.push(MermaidBlock { start: c, end: e + 13, source });
                        assert(blocks_view(out@) =~= before.push(
                            (c as int, e + 13, reconstruct_spec(lang@, body@)),
                        ));
                    },
                    None => {},
                }
                proof {
                    assert(blocks_view(out@) + blocks_from(html@, e + 13) =~= before
                        + blocks_from(html@, p as int));
                }
                p = e + 13;
            },
        }
    }
    out
}

/// The diagram code blocks of rendered HTML, in order.
pub fn extract_mermaid_blocks(html: &str) -> (r: Vec<MermaidBlock>)
    ensures
        blocks_view(r@) == blocks_from(html@, 0),
{
    let h = chars_of(html);
    scan_blocks(&h)
}

/// The stable insertion of `x` into a sequence sorted by key.
pub open spec fn insert_by_key(s: Seq<(usize, Option<String>)>, x: (usize, Option<String>)) -> Seq<
    (usize, Option<String>),
>
    decreases s.len(),
{
    if s.len() == 0 {
        seq![x]
    } else if x.0 < s.last().0 {
        insert_by_key(s.drop_last(), x).push(s.last())
    } else {
        s.push(x)
    }
}

/// `s` stably sorted by key.
pub open spec fn sort_by_key_spec(s: Seq<(usize, Option<String>)>) -> Seq<(usize, Option<String>)>
    decreases s.len(),
{
    if s.len() == 0 {
        Seq::empty()
    } else {
        insert_by_key(sort_by_key_spec(s.drop_last()), s.last())
    }
}

pub proof fn lemma_insert_by_key(s: Seq<(usize, Option<String>)>, x: (usize, Option<String>), j: int)
    requires
        0 <= j <= s.len(),
        forall|i: int| j <= i < s.len() ==> x.0 < (#[trigger] s[i]).0,
        j > 0 ==> s[j - 1].0 <= x.0,
    ensures
        insert_by_key(s, x) == s.take(j).push(x) + s.skip(j),
    decreases s.len(),
{
    if s.len() == 0 {
        assert(s.take(j).push(x) + s.skip(j) =~= seq![x]);
    } else if x.0 < s.last().0 {
        lemma_insert_by_key(s.drop_last(), x, j);
        assert(s.drop_last().take(j).push(x) + s.drop_last().skip(j) + seq![s.last()] =~= s.take(
            j,
        ).push(x) + s.skip(j));
    } else {
        assert(j == s.len());
        assert(s.take(j).push(x) + s.skip(j) =~= s.push(x));
    }
}

/// A sequence sorted by key.
pub open spec fn sorted_by_key(s: Seq<(usize, Option<String>)>) -> bool {
    forall|a: int, b: int| 0 <= a < b < s.len() ==> s[a].0 <= s[b].0
}

pub proof fn lemma_insert_sorted(s: Seq<(usize, Option<String>)>, x: (usize, Option<String>))
    requires
        sorted_by_key(s),
    ensures
        sorted_by_key(insert_by_key(s, x)),
        insert_by_key(s, x).len() == s.len() + 1,
    decreases s.len(),
{
    if s.len() > 0 && x.0 < s.last().0 {
        lemma_insert_sorted(s.drop_last(), x);
        let t = insert_by_key(s.drop_last(), x);
        lemma_insert_elems(s.drop_last(), x);
        assert forall|a: int, b: int| 0 <= a < b < t.len() + 1 implies t.push(s.last())[a].0
            <= t.push(s.last())[b].0 by {
            if b == t.len() {
                if a < t.len() {
                    let e = t[a];
                    if e == x {
                    } else {
                        let k = choose|k: int| 0 <= k < s.len() - 1 && s.drop_last()[k] == e;
                        assert(s[k] == e);
                    }
                }
            }
        }
    }
}

pub proof fn lemma_insert_elems(s: Seq<(usize, Option<String>)>, x: (usize, Option<String>))
    ensures
        forall|a: int| 0 <= a < insert_by_key(s, x).len() ==> insert_by_key(s, x)[a] == x || exists|k: int|
            0 <= k < s.len() && s[k] == #[trigger] insert_by_key(s, x)[a],
    decreases s.len(),
{
    if s.len() > 0 && x.0 < s.last().0 {
        lemma_insert_elems(s.drop_last(), x);
        let t = insert_by_key(s.drop_last(), x);
        assert forall|a: int| 0 <= a < t.push(s.last()).len() implies t.push(s.last())[a] == x
            || exists|k: int| 0 <= k < s.len() && s[k] == #[trigger] t.push(s.last())[a] by {
            if a == t.len() {
                assert(s[s.len() - 1] == t.push(s.last())[a]);
            } else {
                if t[a] != x {
                    let k = choose|k: int| 0 <= k < s.drop_last().len() && s.drop_last()[k] == t[a];
                    assert(s[k] == t.push(s.last())[a]);
                }
            }
        }
    } else if s.len() > 0 {
        assert forall|a: int| 0 <= a < s.push(x).len() implies s.push(x)[a] == x || exists|k: int|
            0 <= k < s.len() && s[k] == #[trigger] s.push(x)[a] by {
            if a < s.len() {
                assert(s[a] == s.push(x)[a]);
            }
        }
    }
}

/// The results' SVGs, in order.
pub open spec fn svgs_of(s: Seq<(usize, Option<String>)>) -> Seq<Option<String>> {
    s.map_values(|p: (usize, Option<String>)| p.1)
}

fn clone_svg(o: &Option<String>) -> (r: Option<String>)
    ensures
        r == *o,
{
    match o {
        Some(s) => Some(s.clone()),
        None => None,
    }
}

/// Renderer results ordered by diagram index (a stable sort), with the
/// indexes dropped.
pub fn order_results(pairs: &Vec<(usize, Option<String>)>) -> (r: Vec<Option<String>>)
    ensures
        r@ == svgs_of(sort_by_key_spec(pairs@)),
{
    let mut sorted: Vec<(usize, Option<String>)> = Vec::new();
    let mut i: usize = 0;
    assert(pairs@.take(0) =~= Seq::<(usize, Option<String>)>::empty());
    while i < pairs.len()
        invariant
            i <= pairs@.len(),
            sorted@ == sort_by_key_spec(pairs@.take(i as int)),
            sorted_by_key(sorted@),
        decreases pairs@.len() - i,
    {
        let x = (pairs[i].0, clone_svg(&pairs[i].1));
        let mut j = sorted.len();
        while j > 0 && x.0 < sorted[j - 1].0
            invariant
                j <= sorted@.len(),
                forall|k: int| j <= k < sorted@.len() ==> x.0 < (#[trigger] sorted@[k]).0,
            decreases j,
        {
            j = j - 1;
        }
        proof {
            assert(x == pairs@[i as int]);
            lemma_insert_by_key(sorted@, x, j as int);
            lemma_insert_sorted(sorted@, x);
            assert(pairs@.take(i + 1).drop_last() =~= pairs@.take(i as int));
            assert(sorted@.insert(j as int, x) =~= sorted@.take(j as int).push(x) + sorted@.skip(
                j as int,
            ));
        }
        sorted.insert(j, x);
        i = i + 1;
    }
    assert(pairs@.take(pairs@.len() as int) =~= pairs@);
    let mut out: Vec<Option<String>> = Vec::new();
    let mut k: usize = 0;
    while k < sorted.len()
        invariant
            k <= sorted@.len(),
            out@ == svgs_of(sorted@.take(k as int)),
        decreases sorted@.len() - k,
    {
        out.push(clone_svg(&sorted[k].1));
        assert(svgs_of(sorted@.take(k + 1)) =~= svgs_of(sorted@.take(k as int)).push(sorted@[k as int].1));
        k = k + 1;
    }
    assert(sorted@.take(sorted@.len() as int) =~= sorted@);
    out
}

/// The first result of a list, if any.
pub open spec fn head_svg(svgs: Seq<Option<String>>) -> Option<String> {
    if svgs.len() > 0 {
        svgs[0]
    } else {
        None
    }
}

/// The results after the first.
pub open spec fn tail_svgs(svgs: Seq<Option<String>>) -> Seq<Option<String>> {
    if svgs.len() > 0 {
        svgs.drop_first()
    } else {
        Seq::empty()
    }
}

/// What stands for the diagram block `h[start..end]` in the output: its SVG
/// in a `mermaid-diagram` wrapper, or the block itself without one.
pub open spec fn block_output(h: Seq<char>, start: int, end: int, svg: Option<String>) -> Seq<char> {
    match svg {
        Some(s) => "<div class=\"mermaid-diagram\">"@ + s@ + "</div>"@,
        None => h.subrange(start, end),
    }
}

/// `h` from `p` on with its diagram blocks replaced, in order, by the
/// results in `svgs` (a block past the end of `svgs`, or whose result is
/// `None`, stays as it is). The blocks are those of `blocks_from`.
pub open spec fn render_from(h: Seq<char>, p: int, svgs: Seq<Option<String>>) -> Seq<char>
    decreases h.len() + 1 - p,
{
    if p < 0 || p > h.len() {
        Seq::empty()
    } else {
        match find_from(h, code_block_open(), p) {
            None => h.skip(p),
            Some(c) => {
                proof {
                    lemma_find_from_bounds(h, code_block_open(), p);
                    lemma_block_at_bounds(h, c);
                }
                match block_at(h, c) {
                    None => h.subrange(p, c + 1) + render_from(h, c + 1, svgs),
                    Some((l, s, e)) => {
                        let body = unescape_html_spec(h.subrange(s, e));
                        if is_mermaid_spec(l, body) {
                            h.subrange(p, c) + block_output(h, c, e + 13, head_svg(svgs))
                                + render_from(h, e + 13, tail_svgs(svgs))
                        } else {
                            h.subrange(p, e + 13) + render_from(h, e + 13, svgs)
                        }
                    },
                }
            },
        }
    }
}

/// The results from the `k`-th on.
pub open spec fn svgs_from(svgs: Seq<Option<String>>, k: int) -> Seq<Option<String>> {
    if k <= svgs.len() {
        svgs.skip(k)
    } else {
        Seq::empty()
    }
}

/// `html` with its diagram blocks replaced, in order, by the renderer's
/// results (see `render_from`): a block whose result is `None`, or that has
/// no result, keeps its code.
pub fn splice_svgs(html: &str, svgs: &Vec<Option<String>>) -> (r: String)
    ensures
        r@ == render_from(html@, 0, svgs@),
{
    let h = chars_of(html);
    let n = h.len();
    let open = chars_of("<pre><code");
    let ghost ss = svgs@;
    let mut out: Vec<char> = Vec::new();
    let mut p: usize = 0;
    let mut k: usize = 0;
    proof {
        reveal_strlit("<pre><code");
        assert(ss.skip(0) =~= ss);
    }
    loop
        invariant
            p <= n == h@.len(),
            h@ == html@,
            open@ == code_block_open(),
            ss == svgs@,
            k <= p,
            out@ + render_from(h@, p as int, svgs_from(ss, k as int)) == render_from(h@, 0, ss),
        decreases n - p,
    {
        let ghost rest = svgs_from(ss, k as int);
        proof {
            reveal_strlit("<pre><code");
            lemma_find_from_bounds(h@, open@, p as int);
        }
        let c = match find_from_exec(&h, &open, p) {
            Some(c) => c,
            None => {
                push_range(&mut out, &h, p, n);
                assert(h@.skip(p as int) =~= h@.subrange(p as int, n as int));
                return string_of(&out);
            },
        };
        proof {
            lemma_block_at_bounds(h@, c as int);
        }
        let ghost before = out@;
        match block_at_exec(&h, c) {
            None => {
                push_range(&mut out, &h, p, c + 1);
                assert(out@ + render_from(h@, c + 1, rest) =~= before + render_from(
                    h@,
                    p as int,
                    rest,
                ));
                p = c + 1;
            },
            Some((ls, le, s, e)) => {
                let lang = string_of(&subvec(&h, ls, le));
                let raw = string_of(&subvec(&h, s, e));
                let body = unescape_html(raw.as_str());
                match diagram_source(lang.as_str(), body.as_str()) {
                    Some(_) => {
                        push_range(&mut out, &h, p, c);
                        let svg: Option<String> = if k < svgs.len() {
                            clone_svg(&svgs[k])
                        } else {
                            None
                        };
                        proof {
                            assert(svg == head_svg(rest));
                            assert(svgs_from(ss, k + 1) =~= tail_svgs(rest));
                        }
                        let ghost mid = out@;
                        match svg {
                            Some(sv) => {
                                push_str(&mut out, "<div class=\"mermaid-diagram\">");
                                push_str(&mut out, sv.as_str());
                                push_str(&mut out, "</div>");
                            },
                            None => {
                                push_range(&mut out, &h, c, e + 13);
                            },
                        }
                        assert(out@ =~= mid + block_output(h@, c as int, e + 13, head_svg(rest)));
                        assert(out@ + render_from(h@, e + 13, svgs_from(ss, k + 1)) =~= before
                            + render_from(h@, p as int, rest));
                        k = k + 1;
                    },
                    None => {
                        push_range(&mut out, &h, p, e + 13);
                        assert(out@ + render_from(h@, e + 13, rest) =~= before + render_from(
                            h@,
                            p as int,
                            rest,
                        ));
                    },
                }
                p = e + 13;
            },
        }
    }
}

/// When no block gets an SVG, the HTML comes back unchanged.
pub proof fn lemma_render_without_svgs(h: Seq<char>, p: int, svgs: Seq<Option<String>>)
    requires
        0 <= p <= h.len(),
        forall|i: int| 0 <= i < svgs.len() ==> (#[trigger] svgs[i]) is None,
    ensures
        render_from(h, p, svgs) == h.skip(p),
    decreases h.len() + 1 - p,
{
    reveal_strlit("<pre><code");
    lemma_find_from_bounds(h, code_block_open(), p);
    match find_from(h, code_block_open(), p) {
        None => {},
        Some(c) => {
            lemma_block_at_bounds(h, c);
            match block_at(h, c) {
                None => {
                    lemma_render_without_svgs(h, c + 1, svgs);
                    assert(h.subrange(p, c + 1) + h.skip(c + 1) =~= h.skip(p));
                },
                Some((l, s, e)) => {
                    let t = tail_svgs(svgs);
                    assert forall|i: int| 0 <= i < t.len() implies (#[trigger] t[i]) is None by {
                        assert(t[i] == svgs[i + 1]);
                    }
                    lemma_render_without_svgs(h, e + 13, t);
                    lemma_render_without_svgs(h, e + 13, svgs);
                    assert(h.subrange(p, c) + h.subrange(c, e + 13) + h.skip(e + 13) =~= h.skip(p));
                    assert(h.subrange(p, e + 13) + h.skip(e + 13) =~= h.skip(p));
                },
            }
        },
    }
}

/// The results of a renderer call: `render(srcs)` may return `res`.
pub open spec fn rendered_with<F: Fn(&Vec<String>) -> Option<Vec<Option<String>>>>(
    render: F,
    srcs: Vec<String>,
    res: Option<Vec<Option<String>>>,
) -> bool {
    call_ensures(render, (&srcs,), res)
}

/// The views of a list of strings.
pub open spec fn string_views(v: Seq<String>) -> Seq<Seq<char>> {
    v.map_values(|s: String| s@)
}

/// The diagram sources of `h`, in order.
pub open spec fn block_sources(h: Seq<char>) -> Seq<Seq<char>> {
    blocks_from(h, 0).map_values(|b: (int, int, Seq<char>)| b.2)
}

/// What the page becomes for a renderer outcome: unchanged when rendering
/// failed as a whole, else with the SVGs spliced in.
pub open spec fn page_after(html: Seq<char>, res: Option<Vec<Option<String>>>) -> Seq<char> {
    match res {
        Some(svgs) => render_from(html, 0, svgs@),
        None => html,
    }
}

/// Renders the diagram code blocks of `html` to inline SVG. Without
/// diagram blocks, `html` comes back unchanged and `render` is not called.
/// Otherwise `render` gets the diagram sources in order; when it returns
/// nothing the page is unchanged, else each block whose result is an SVG is
/// replaced by it in a `mermaid-diagram` wrapper, and the rest keep their
/// code.
pub fn render_mermaid_blocks<F: Fn(&Vec<String>) -> Option<Vec<Option<String>>>>(
    html: &str,
    render: &F,
) -> (r: String)
    requires
        forall|v: &Vec<String>| render.requires((v,)),
    ensures
        blocks_from(html@, 0).len() == 0 ==> r@ == html@,
        blocks_from(html@, 0).len() > 0 ==> exists|srcs: Vec<String>, res: Option<Vec<Option<String>>>|
            #![trigger rendered_with(*render, srcs, res)]
            rendered_with(*render, srcs, res) && string_views(srcs@) == block_sources(html@)
                && r@ == page_after(html@, res),
{
    let blocks = extract_mermaid_blocks(html);
    if blocks.len() == 0 {
        return String::from_str(html);
    }
    let ghost bv = blocks_view(blocks@);
    let mut sources: Vec<String> = Vec::new();
    let mut i: usize = 0;
    while i < blocks.len()
        invariant
            i <= blocks@.len(),
            bv == blocks_view(blocks@),
            sources@.len() == i,
            string_views(sources@) == bv.take(i as int).map_values(|b: (int, int, Seq<char>)| b.2),
        decreases blocks@.len() - i,
    {
        let src = blocks[i].source.clone();
        let ghost prev = sources@;
        sources.push(src);
        assert(bv[i as int].2 == blocks@[i as int].source@);
        assert(string_views(sources@) =~= string_views(prev).push(src@));
        assert(bv.take(i + 1).map_values(|b: (int, int, Seq<char>)| b.2) =~= bv.take(i as int).map_values(|b: (int, int, Seq<char>)| b.2).push(bv[i as int].2));
        assert(string_views(sources@) =~= bv.take(i + 1).map_values(|b: (int, int, Seq<char>)| b.2));
        i = i + 1;
    }
    assert(bv.take(blocks@.len() as int) =~= bv);
    let res = render(&sources);
    assert(rendered_with(*render, sources, res));
    match res {
        Some(svgs) => splice_svgs(html, &svgs),
        None => String::from_str(html),
    }
}

/// The first result of a renderer outcome.
pub open spec fn first_result(res: Option<Vec<Option<String>>>) -> Option<String> {
    match res {
        Some(v) => head_svg(v@),
        None => None,
    }
}

/// What rendering diagram source `source` with `render` may give: the
/// first result of a call of `render` on that one source.
pub open spec fn svg_outcome<F: Fn(&Vec<String>) -> Option<Vec<Option<String>>>>(
    render: F,
    source: Seq<char>,
    r: Option<String>,
) -> bool {
    exists|srcs: Vec<String>, res: Option<Vec<Option<String>>>|
        #![trigger rendered_with(render, srcs, res)]
        rendered_with(render, srcs, res) && string_views(srcs@) == seq![source] && r == first_result(res)
}

/// What rendering a fenced diagram with language `lang` and code `literal`
/// may give: the first result of `render` on the one source made of them.
pub open spec fn svg_from_outcome<F: Fn(&Vec<String>) -> Option<Vec<Option<String>>>>(
    render: F,
    lang: Seq<char>,
    literal: Seq<char>,
    r: Option<String>,
) -> bool {
    exists|srcs: Vec<String>, res: Option<Vec<Option<String>>>|
        #![trigger rendered_with(render, srcs, res)]
        rendered_with(render, srcs, res) && string_views(srcs@) == seq![reconstruct_spec(lang, literal)]
            && r == first_result(res)
}

/// Rendering a fenced diagram is rendering its reconstructed source: a
/// result can come from `render_mermaid_svg_from` on `lang` and `literal`
/// exactly when it can come from `render_mermaid_svg` on the source that
/// `reconstruct_source` makes of them.
pub proof fn lemma_svg_from_is_svg_of_source<F: Fn(&Vec<String>) -> Option<Vec<Option<String>>>>(
    render: F,
    lang: Seq<char>,
    literal: Seq<char>,
    source: Seq<char>,
    r: Option<String>,
)
    requires
        source == reconstruct_spec(lang, literal),
    ensures
        svg_from_outcome(render, lang, literal, r) <==> svg_outcome(render, source, r),
{
}

/// Renders one diagram source to an SVG: `render` gets the one source, and
/// its first result is returned.
pub fn render_mermaid_svg<F: Fn(&Vec<String>) -> Option<Vec<Option<String>>>>(
    source: &str,
    render: &F,
) -> (r: Option<String>)
    requires
        forall|v: &Vec<String>| render.requires((v,)),
    ensures
        svg_outcome(*render, source@, r),
{
    let mut sources: Vec<String> = Vec::new();
    sources.push(String::from_str(source));
    assert(string_views(sources@) =~= seq![source@]);
    let res = render(&sources);
    assert(rendered_with(*render, sources, res));
    match res {
        Some(v) => {
            if v.len() > 0 {
                clone_svg(&v[0])
            } else {
                None
            }
        },
        None => None,
    }
}

/// Renders a fenced diagram to an SVG, first restoring a keyword that the
/// fence language took from its code (see `reconstruct_spec`).
pub fn render_mermaid_svg_from<F: Fn(&Vec<String>) -> Option<Vec<Option<String>>>>(
    lang: &str,
    literal: &str,
    render: &F,
) -> (r: Option<String>)
    requires
        forall|v: &Vec<String>| render.requires((v,)),
    ensures
        svg_from_outcome(*render, lang@, literal@, r),
{
    let source = reconstruct_source(lang, literal);
    render_mermaid_svg(source.as_str(), render)
}

/// A lower-case hexadecimal digit.
pub open spec fn hex_digit(n: int) -> char {
    if n < 10 {
        (48 + n) as char
    } else {
        (87 + n) as char
    }
}

/// One character inside a JSON string literal, escaped as serde_json does.
pub open spec fn json_escape_char(c: char) -> Seq<char> {
    let u = c as u32;
    if c == '"' {
        seq!['\\', '"']
    } else if c == '\\' {
        seq!['\\', '\\']
    } else if u == 8 {
        seq!['\\', 'b']
    } else if u == 9 {
        seq!['\\', 't']
    } else if u == 10 {
        seq!['\\', 'n']
    } else if u == 12 {
        seq!['\\', 'f']
    } else if u == 13 {
        seq!['\\', 'r']
    } else if u < 32 {
        seq!['\\', 'u', '0', '0', hex_digit(u as int / 16), hex_digit(u as int % 16)]
    } else {
        seq![c]
    }
}

/// The escaped contents of a JSON string literal.
pub open spec fn json_escape(s: Seq<char>) -> Seq<char>
    decreases s.len(),
{
    if s.len() == 0 {
        Seq::empty()
    } else {
        json_escape(s.drop_last()) + json_escape_char(s.last())
    }
}

/// A JSON string literal.
pub open spec fn json_string(s: Seq<char>) -> Seq<char> {
    seq!['"'] + json_escape(s) + seq!['"']
}

/// JSON string literals separated by commas.
pub open spec fn json_items(items: Seq<Seq<char>>) -> Seq<char>
    decreases items.len(),
{
    if items.len() == 0 {
        Seq::empty()
    } else if items.len() == 1 {
        json_string(items[0])
    } else {
        json_items(items.drop_last()) + seq![','] + json_string(items.last())
    }
}

/// A compact JSON array of strings.
pub open spec fn json_list(items: Seq<Seq<char>>) -> Seq<char> {
    seq!['['] + json_items(items) + seq![']']
}

/// `serde_json::to_string` on a list of strings. Its serializer writes a
/// compact JSON array: `[`, the strings separated by `,`, then `]`; each
/// string in double quotes, with `"` and backslash escaped by a backslash,
/// U+0008, U+0009, U+000A, U+000C and U+000D as `\b`, `\t`, `\n`, `\f`,
/// `\r`, the other characters below U+0020 as `\u00` and two lower-case
/// hex digits, and every other character as it is. It writes into a byte
/// vector, whose writes never fail, and strings and sequences have no other
/// error path, so it always succeeds (the `Option` only carries its
/// `Result` over).
#[verifier::external_body]
fn json_string_list(items: &Vec<String>) -> (r: Option<String>)
    ensures
        r is Some,
        r matches Some(s) ==> s@ == json_list(string_views(items@)),
{
    serde_json::to_string(items).ok()
}

/// The page around the diagram list: what comes before it.
pub open spec fn harness_head() -> Seq<char> {
    "<!DOCTYPE html>\n<html lang=\"zh-CN\">\n<head>\n<meta charset=\"utf-8\">\n<script src=\"mermaid.min.js\"></script>\n</head>\n<body>\n<script>\nfunction reportError(msg, stack) {\n  try {\n    var e = document.createElement('script');\n    e.id = '__mermaid_err';\n    e.type = 'application/json';\n    e.textContent = JSON.stringify({ error: String(msg), stack: stack ? String(stack) : '' });\n    document.body.appendChild(e);\n  } catch (x) {}\n  document.body.setAttribute('data-status', 'error');\n}\nwindow.addEventListener('error', function(ev) {\n  reportError(ev.message, ev.error && ev.error.stack);\n});\n\nconst diagrams = "@
}

/// The page around the diagram list: what comes after it.
pub open spec fn harness_tail() -> Seq<char> {
    ";\nif (typeof mermaid === 'undefined') {\n  reportError('mermaid global is undefined', '');\n} else {\n  try {\n    mermaid.initialize({ startOnLoad: false, securityLevel: 'loose', theme: 'default' });\n  } catch (e) {\n    reportError('mermaid.initialize failed: ' + e.message, e.stack);\n  }\n}\n\n(async () => {\n  const results = [];\n  for (let i = 0; i < diagrams.length; i++) {\n    const code = diagrams[i];\n    try {\n      const { svg } = await mermaid.render('mmd-' + i, code);\n      results.push({ i: i, svg: svg });\n    } catch (e) {\n      results.push({ i: i, svg: null });\n    }\n  }\n  const s = document.createElement('script');\n  s.id = '__mermaid_data';\n  s.type = 'application/json';\n  s.textContent = JSON.stringify(results);\n  document.body.appendChild(s);\n  document.body.setAttribute('data-status', 'done');\n})();\n</script>\n</body>\n</html>"@
}

/// The browser page that renders the diagrams of a JSON list (each result
/// is written as `{ i, svg }` into the `__mermaid_data` script, and the
/// body's `data-status` becomes `done`).
pub fn build_harness(diagrams_json: &str) -> (r: String)
    ensures
        r@ == harness_head() + diagrams_json@ + harness_tail(),
{
    let mut out: Vec<char> = Vec::new();
    push_str(&mut out, "<!DOCTYPE html>\n<html lang=\"zh-CN\">\n<head>\n<meta charset=\"utf-8\">\n<script src=\"mermaid.min.js\"></script>\n</head>\n<body>\n<script>\nfunction reportError(msg, stack) {\n  try {\n    var e = document.createElement('script');\n    e.id = '__mermaid_err';\n    e.type = 'application/json';\n    e.textContent = JSON.stringify({ error: String(msg), stack: stack ? String(stack) : '' });\n    document.body.appendChild(e);\n  } catch (x) {}\n  document.body.setAttribute('data-status', 'error');\n}\nwindow.addEventListener('error', function(ev) {\n  reportError(ev.message, ev.error && ev.error.stack);\n});\n\nconst diagrams = ");
    push_str(&mut out, diagrams_json);
    push_str(&mut out, ";\nif (typeof mermaid === 'undefined') {\n  reportError('mermaid global is undefined', '');\n} else {\n  try {\n    mermaid.initialize({ startOnLoad: false, securityLevel: 'loose', theme: 'default' });\n  } catch (e) {\n    reportError('mermaid.initialize failed: ' + e.message, e.stack);\n  }\n}\n\n(async () => {\n  const results = [];\n  for (let i = 0; i < diagrams.length; i++) {\n    const code = diagrams[i];\n    try {\n      const { svg } = await mermaid.render('mmd-' + i, code);\n      results.push({ i: i, svg: svg });\n    } catch (e) {\n      results.push({ i: i, svg: null });\n    }\n  }\n  const s = document.createElement('script');\n  s.id = '__mermaid_data';\n  s.type = 'application/json';\n  s.textContent = JSON.stringify(results);\n  document.body.appendChild(s);\n  document.body.setAttribute('data-status', 'done');\n})();\n</script>\n</body>\n</html>");
    string_of(&out)
}

/// The browser page that renders `sources`: the diagram list written as a
/// JSON array of strings between the page's head and tail. It always
/// succeeds.
pub fn mermaid_harness(sources: &Vec<String>) -> (r: Option<String>)
    ensures
        r is Some,
        r matches Some(h) ==> h@ == harness_head() + json_list(string_views(sources@))
            + harness_tail(),
{
    match json_string_list(sources) {
        Some(j) => Some(build_harness(j.as_str())),
        None => None,
    }
}

/// The JSON text of the `__mermaid_data` script in a dumped page: from
/// the `>` that ends the tag carrying `id="__mermaid_data"` to the next
/// `</script>`.
pub open spec fn mermaid_data_spec(dom: Seq<char>) -> Option<Seq<char>> {
    match find(dom, "id=\"__mermaid_data\""@) {
        None => None,
        Some(o) => match find_from(dom, seq!['>'], o) {
            None => None,
            Some(g) => match find_from(dom, "</script>"@, g + 1) {
                None => None,
                Some(e) => Some(dom.subrange(g + 1, e)),
            },
        },
    }
}

/// The results JSON in a page dumped by the browser (see
/// `mermaid_data_spec`).
pub fn mermaid_data_json(dom: &str) -> (r: Option<String>)
    ensures
        r matches Some(j) ==> mermaid_data_spec(dom@) == Some(j@),
        r is None ==> mermaid_data_spec(dom@) is None,
{
    let d = chars_of(dom);
    let marker = chars_of("id=\"__mermaid_data\"");
    let gt = chars_of(">");
    let end = chars_of("</script>");
    proof {
        reveal_strlit(">");
        assert(gt@ =~= seq!['>']);
    }
    let o = match find_from_exec(&d, &marker, 0) {
        Some(o) => o,
        None => return None,
    };
    proof {
        lemma_find_from_bounds(d@, marker@, 0);
        lemma_find_from_bounds(d@, gt@, o as int);
    }
    let g = match find_from_exec(&d, &gt, o) {
        Some(g) => g,
        None => return None,
    };
    let n = d.len();
    assert(g + 1 <= n);
    proof {
        lemma_find_from_bounds(d@, end@, g + 1);
    }
    match find_from_exec(&d, &end, g + 1) {
        Some(e) => Some(string_of(&subvec(&d, g + 1, e))),
        None => None,
    }
}

/// The dumped page says that rendering finished.
pub open spec fn render_done_spec(dom: Seq<char>) -> bool {
    contains(dom, "data-status=\"done\""@) || contains(dom, "data-status='done'"@)
}

/// Whether a dumped page says that rendering finished.
pub fn render_done(dom: &str) -> (r: bool)
    ensures
        r == render_done_spec(dom@),
{
    let d = chars_of(dom);
    let a = chars_of("data-status=\"done\"");
    let b = chars_of("data-status='done'");
    find_from_exec(&d, &a, 0).is_some() || find_from_exec(&d, &b, 0).is_some()
}

/// The virtual time, in milliseconds, that the first browser run gets.
pub const VIRTUAL_TIME_BUDGET: u64 = 20000;

/// What to do after a browser run.
pub enum RenderStep {
    /// Stop with this outcome.
    Finish(Option<Vec<Option<String>>>),
    /// Run the browser again with this virtual time budget.
    Retry(u64),
}

/// The decision after browser run `attempt` (counted from 0; there are at
/// most two) with virtual time `budget`, given whether the run succeeded,
/// the page it dumped and the results parsed from that page: a failed run
/// ends in failure; parsed results from a page that finished rendering are
/// the outcome, ordered by diagram index; otherwise the browser runs again
/// with twice the budget, unless this was the second run.
pub fn after_dump(
    attempt: u32,
    budget: u64,
    run_ok: bool,
    dom: &str,
    results: Option<Vec<(usize, Option<String>)>>,
) -> (r: RenderStep)
    requires
        budget <= u64::MAX / 2,
    ensures
        !run_ok ==> r is Finish && r->Finish_0 is None,
        run_ok && results is Some && render_done_spec(dom@) ==> r is Finish && r->Finish_0 is Some
            && r->Finish_0->0@ == svgs_of(sort_by_key_spec(results->0@)),
        run_ok && !(results is Some && render_done_spec(dom@)) ==> if attempt < 1 {
            r == RenderStep::Retry((budget * 2) as u64)
        } else {
            r is Finish && r->Finish_0 is None
        },
{
    if !run_ok {
        return RenderStep::Finish(None);
    }
    let done = render_done(dom);
    match results {
        Some(v) => {
            if done {
                return RenderStep::Finish(Some(order_results(&v)));
            }
        },
        None => {},
    }
    if attempt < 1 {
        RenderStep::Retry(budget * 2)
    } else {
        RenderStep::Finish(None)
    }
}

/// The stable sort by key yields a sequence sorted by key, of the same
/// length.
pub proof fn lemma_sort_by_key_sorted(s: Seq<(usize, Option<String>)>)
    ensures
        sorted_by_key(sort_by_key_spec(s)),
        sort_by_key_spec(s).len() == s.len(),
    decreases s.len(),
{
    if s.len() > 0 {
        lemma_sort_by_key_sorted(s.drop_last());
        lemma_insert_sorted(sort_by_key_spec(s.drop_last()), s.last());
    }
}

/// A page without diagram blocks comes back unchanged, whatever the
/// results.
pub proof fn lemma_render_without_blocks(h: Seq<char>, p: int, svgs: Seq<Option<String>>)
    requires
        0 <= p <= h.len(),
        blocks_from(h, p).len() == 0,
    ensures
        render_from(h, p, svgs) == h.skip(p),
    decreases h.len() + 1 - p,
{
    reveal_strlit("<pre><code");
    lemma_find_from_bounds(h, code_block_open(), p);
    match find_from(h, code_block_open(), p) {
        None => {},
        Some(c) => {
            lemma_block_at_bounds(h, c);
            match block_at(h, c) {
                None => {
                    lemma_render_without_blocks(h, c + 1, svgs);
                    assert(h.subrange(p, c + 1) + h.skip(c + 1) =~= h.skip(p));
                },
                Some((l, s, e)) => {
                    let body = unescape_html_spec(h.subrange(s, e));
                    if is_mermaid_spec(l, body) {
                        assert(blocks_from(h, p).len() > 0);
                    } else {
                        assert(blocks_from(h, p) =~= blocks_from(h, e + 13));
                        lemma_render_without_blocks(h, e + 13, svgs);
                        assert(h.subrange(p, e + 13) + h.skip(e + 13) =~= h.skip(p));
                    }
                },
            }
        },
    }
}

/// A character after the first `k` entity replacements of unescaping
/// (`&lt;`, `&gt;`, `&quot;`, `&#39;`, `&amp;`, in that order) have been
/// applied to its XML escape.
pub open spec fn esc_stage(c: char, k: int) -> Seq<char> {
    if c == '<' && k < 1 {
        "&lt;"@
    } else if c == '>' && k < 2 {
        "&gt;"@
    } else if c == '"' && k < 3 {
        "&quot;"@
    } else if c == '&' && k < 5 {
        "&amp;"@
    } else {
        seq![c]
    }
}

/// A text after the first `k` replacements of unescaping have been applied
/// to its XML escape.
pub open spec fn esc_all(s: Seq<char>, k: int) -> Seq<char>
    decreases s.len(),
{
    if s.len() == 0 {
        Seq::empty()
    } else {
        esc_stage(s[0], k) + esc_all(s.drop_first(), k)
    }
}

/// The entity that replacement `k` of unescaping looks for.
pub open spec fn stage_pat(k: int) -> Seq<char> {
    if k == 0 {
        "&lt;"@
    } else if k == 1 {
        "&gt;"@
    } else if k == 2 {
        "&quot;"@
    } else if k == 3 {
        "&#39;"@
    } else {
        "&amp;"@
    }
}

/// What replacement `k` of unescaping writes.
pub open spec fn stage_rep(k: int) -> Seq<char> {
    if k == 0 {
        "<"@
    } else if k == 1 {
        ">"@
    } else if k == 2 {
        "\""@
    } else if k == 3 {
        "'"@
    } else {
        "&"@
    }
}

proof fn reveal_entities()
    ensures
        "&lt;"@ == seq!['&', 'l', 't', ';'],
        "&gt;"@ == seq!['&', 'g', 't', ';'],
        "&quot;"@ == seq!['&', 'q', 'u', 'o', 't', ';'],
        "&#39;"@ == seq!['&', '#', '3', '9', ';'],
        "&amp;"@ == seq!['&', 'a', 'm', 'p', ';'],
        "<"@ == seq!['<'],
        ">"@ == seq!['>'],
        "\""@ == seq!['"'],
        "'"@ == seq!['\''],
        "&"@ == seq!['&'],
{
    reveal_strlit("&lt;");
    reveal_strlit("&gt;");
    reveal_strlit("&quot;");
    reveal_strlit("&#39;");
    reveal_strlit("&amp;");
    reveal_strlit("<");
    reveal_strlit(">");
    reveal_strlit("\"");
    reveal_strlit("'");
    reveal_strlit("&");
    assert("&lt;"@ =~= seq!['&', 'l', 't', ';']);
    assert("&gt;"@ =~= seq!['&', 'g', 't', ';']);
    assert("&quot;"@ =~= seq!['&', 'q', 'u', 'o', 't', ';']);
    assert("&#39;"@ =~= seq!['&', '#', '3', '9', ';']);
    assert("&amp;"@ =~= seq!['&', 'a', 'm', 'p', ';']);
    assert("<"@ =~= seq!['<']);
    assert(">"@ =~= seq!['>']);
    assert("\""@ =~= seq!['"']);
    assert("'"@ =~= seq!['\'']);
    assert("&"@ =~= seq!['&']);
}

proof fn lemma_stage_step(c: char, k: int)
    requires
        0 <= k < 5,
    ensures
        esc_stage(c, k) == stage_pat(k) ==> esc_stage(c, k + 1) == stage_rep(k),
        esc_stage(c, k) != stage_pat(k) ==> esc_stage(c, k + 1) == esc_stage(c, k),
        stage_pat(k).len() >= 4,
        stage_pat(k)[0] == '&',
{
    reveal_entities();
}

/// No occurrence of the stage's entity starts inside a token that is not
/// that entity.
proof fn lemma_no_early_match(c: char, k: int, b: Seq<char>, i: int)
    requires
        0 <= k < 5,
        esc_stage(c, k) != stage_pat(k),
        0 <= i < esc_stage(c, k).len(),
    ensures
        !matches_at(esc_stage(c, k) + b, stage_pat(k), i),
{
    reveal_entities();
    lemma_stage_step(c, k);
    let a = esc_stage(c, k);
    let p = stage_pat(k);
    let x = a + b;
    if matches_at(x, p, i) {
        assert(x.subrange(i, i + p.len() as int)[0] == x[i]);
        assert(x[i] == a[i]);
        if i == 0 {
            assert(a.len() >= 4);
            assert(x.subrange(0, p.len() as int)[1] == x[1]);
            assert(x[1] == a[1]);
            assert(false);
        } else {
            assert(a[i] != '&');
        }
    }
}

proof fn lemma_find_after_prefix(x: Seq<char>, p: Seq<char>, i: int, m: int)
    requires
        0 <= i <= m,
        forall|j: int| i <= j < m ==> !matches_at(x, p, j),
    ensures
        find_from(x, p, i) == find_from(x, p, m),
    decreases m - i,
{
    if i < m {
        lemma_find_after_prefix(x, p, i + 1, m);
        if i + p.len() > x.len() {
            assert(find_from(x, p, m) is None);
        }
    }
}

/// Replacement `k` of unescaping turns stage `k` into stage `k + 1`.
proof fn lemma_replace_stage(s: Seq<char>, k: int)
    requires
        0 <= k < 5,
    ensures
        replace_all(esc_all(s, k), stage_pat(k), stage_rep(k)) == esc_all(s, k + 1),
    decreases s.len(),
{
    let p = stage_pat(k);
    let t = stage_rep(k);
    let x = esc_all(s, k);
    lemma_stage_step(' ', k);
    if s.len() == 0 {
        assert(find_from(x, p, 0) is None);
    } else {
        let a = esc_stage(s[0], k);
        let xr = esc_all(s.drop_first(), k);
        assert(x == a + xr);
        lemma_stage_step(s[0], k);
        lemma_replace_stage(s.drop_first(), k);
        assert(x.skip(a.len() as int) =~= xr);
        if a == p {
            assert(x.subrange(0, p.len() as int) =~= p);
            assert(find_from(x, p, 0) == Some(0int));
            assert(x.take(0) + t + replace_all(x.skip(p.len() as int), p, t) =~= t + esc_all(s.drop_first(), k + 1));
        } else {
            assert forall|j: int| 0 <= j < a.len() implies !matches_at(x, p, j) by {
                lemma_no_early_match(s[0], k, xr, j);
            }
            lemma_find_after_prefix(x, p, 0, a.len() as int);
            crate::text::lemma_find_from_skip(x, p, a.len() as int, 0);
            match find_from(xr, p, 0) {
                None => {
                    assert(find_from(x, p, 0) is None);
                },
                Some(j) => {
                    crate::text::lemma_find_from_bounds(xr, p, 0);
                    assert(find_from(x, p, 0) == Some(j + a.len()));
                    assert(x.take(j + a.len()) =~= a + xr.take(j));
                    assert(x.skip(j + a.len() + p.len()) =~= xr.skip(j + p.len()));
                    assert(x.take(j + a.len()) + t + replace_all(x.skip(j + a.len() + p.len()), p, t)
                        =~= a + (xr.take(j) + t + replace_all(xr.skip(j + p.len()), p, t)));
                },
            }
        }
    }
}

proof fn lemma_esc_all_snoc(s: Seq<char>, k: int)
    requires
        s.len() > 0,
    ensures
        esc_all(s, k) == esc_all(s.drop_last(), k) + esc_stage(s.last(), k),
    decreases s.len(),
{
    if s.len() == 1 {
        assert(s.drop_last() =~= Seq::<char>::empty());
        assert(esc_all(s.drop_first(), k) == Seq::<char>::empty());
    } else {
        lemma_esc_all_snoc(s.drop_first(), k);
        assert(s.drop_first().drop_last() =~= s.drop_last().drop_first());
        assert(s.drop_last()[0] == s[0]);
        assert(esc_all(s, k) =~= esc_all(s.drop_last(), k) + esc_stage(s.last(), k));
    }
}

proof fn lemma_esc_all_ends(s: Seq<char>)
    ensures
        esc_all(s, 0) == escape_xml_spec(s),
        esc_all(s, 5) == s,
    decreases s.len(),
{
    reveal_entities();
    if s.len() > 0 {
        lemma_esc_all_ends(s.drop_last());
        lemma_esc_all_snoc(s, 0);
        lemma_esc_all_snoc(s, 5);
        assert(esc_stage(s.last(), 0) == escape_xml_char(s.last()));
        assert(s.drop_last().push(s.last()) =~= s);
    }
}

/// Unescaping (`&lt;`, `&gt;`, `&quot;`, `&#39;`, then `&amp;`) gives back
/// any text from its XML escape.
pub proof fn lemma_unescape_escape(s: Seq<char>)
    ensures
        unescape_html_spec(escape_xml_spec(s)) == s,
{
    reveal_entities();
    lemma_esc_all_ends(s);
    lemma_replace_stage(s, 0);
    lemma_replace_stage(s, 1);
    lemma_replace_stage(s, 2);
    lemma_replace_stage(s, 3);
    lemma_replace_stage(s, 4);
}

} // verus!
