//! YAML-style front matter: a leading `---` line, `key: value` lines, and a
//! closing `---` line.
use vstd::prelude::*;
use crate::metadata::Metadata;
use crate::text::{
    chars_of, find, find_from, find_from_exec, has_prefix, lemma_find_from_bounds, lemma_find_skip, matches_at,
    matches_at_exec, push_range, skip_ws, skip_ws_back, string_of, trim, trim_start,
};

verus! {

/// `line` with one trailing carriage return removed.
pub open spec fn strip_cr(line: Seq<char>) -> Seq<char> {
    if line.len() > 0 && line.last() == '\r' {
        line.drop_last()
    } else {
        line
    }
}

/// `str::lines`: the pieces between `\n`s, each without a trailing `\r`;
/// a final `\n` does not start another line.
pub open spec fn lines(s: Seq<char>) -> Seq<Seq<char>>
    decreases s.len(),
{
    if s.len() == 0 {
        Seq::empty()
    } else {
        match find(s, seq!['\n']) {
            Some(i) => {
                proof {
                    lemma_find_from_bounds(s, seq!['\n'], 0);
                }
                seq![strip_cr(s.take(i))] + lines(s.skip(i + 1))
            },
            None => seq![s],
        }
    }
}

/// `str::split_once(':')`.
pub open spec fn split_colon(line: Seq<char>) -> Option<(Seq<char>, Seq<char>)> {
    match find(line, seq![':']) {
        Some(i) => Some((line.take(i), line.skip(i + 1))),
        None => None,
    }
}

/// The metadata of front-matter lines: each `key: value` line with a
/// non-blank key inserts the trimmed key and value, in order.
pub open spec fn meta_of_lines(ls: Seq<Seq<char>>) -> Map<Seq<char>, Seq<char>>
    decreases ls.len(),
{
    if ls.len() == 0 {
        Map::empty()
    } else {
        let m = meta_of_lines(ls.drop_last());
        match split_colon(ls.last()) {
            Some((k, v)) => if trim(k).len() > 0 {
                m.insert(trim(k), trim(v))
            } else {
                m
            },
            None => m,
        }
    }
}

/// Splits `md` into its front-matter text and the body after it: after
/// leading whitespace, `md` starts with `---`, and the front matter runs up to
/// the next `\n---`; the body is what follows that marker, without leading
/// whitespace. `None` when `md` has no such block.
pub open spec fn front_matter_split(md: Seq<char>) -> Option<(Seq<char>, Seq<char>)> {
    let s = trim_start(md);
    if has_prefix(s, "---"@) {
        match find(s.skip(3), "\n---"@) {
            Some(e) => Some((s.subrange(3, 3 + e), trim_start(s.skip(3 + e + 4)))),
            None => None,
        }
    } else {
        None
    }
}

/// The document body once its front matter is removed.
pub open spec fn strip_front_matter_spec(md: Seq<char>) -> Seq<char> {
    match front_matter_split(md) {
        Some((_, body)) => body,
        None => md,
    }
}

/// The metadata of `md`'s front matter, when it has one with an entry.
pub open spec fn front_matter_meta(md: Seq<char>) -> Option<Map<Seq<char>, Seq<char>>> {
    match front_matter_split(md) {
        Some((front, _)) => if meta_of_lines(lines(front)) == Map::<Seq<char>, Seq<char>>::empty() {
            None
        } else {
            Some(meta_of_lines(lines(front)))
        },
        None => None,
    }
}

/// A copy of `v[lo..hi]`.
pub fn subvec(v: &Vec<char>, lo: usize, hi: usize) -> (r: Vec<char>)
    requires
        lo <= hi <= v@.len(),
    ensures
        r@ == v@.subrange(lo as int, hi as int),
{
    let mut r: Vec<char> = Vec::new();
    push_range(&mut r, v, lo, hi);
    r
}

/// Adds the `key: value` pair of one front-matter line to `m`.
fn add_meta_line(m: &mut Metadata, line: &Vec<char>)
    ensures
        final(m)@ == (match split_colon(line@) {
            Some((k, v)) => if trim(k).len() > 0 {
                old(m)@.insert(trim(k), trim(v))
            } else {
                old(m)@
            },
            None => old(m)@,
        }),
{
    let colon = chars_of(":");
    proof {
        reveal_strlit(":");
        assert(colon@ =~= seq![':']);
        lemma_find_from_bounds(line@, seq![':'], 0);
    }
    match find_from_exec(line, &colon, 0) {
        Some(i) => {
            let n = line.len();
            let ks = skip_ws(line, 0, i);
            let ke = skip_ws_back(line, ks, i);
            let vs = skip_ws(line, i + 1, n);
            let ve = skip_ws_back(line, vs, n);
            assert(line@.take(i as int) =~= line@.subrange(0, i as int));
            assert(line@.skip(i + 1) =~= line@.subrange(i + 1, n as int));
            if ke > ks {
                let k = string_of(&subvec(line, ks, ke));
                let v = string_of(&subvec(line, vs, ve));
                m.insert(k, v);
            }
        },
        None => {},
    }
}

/// The metadata of the lines of `front`.
fn parse_meta_lines(front: &Vec<char>) -> (m: Metadata)
    ensures
        m@ == meta_of_lines(lines(front@)),
{
    let mut m = Metadata::new();
    let nl = chars_of("\n");
    proof {
        reveal_strlit("\n");
        assert(nl@ =~= seq!['\n']);
    }
    let n = front.len();
    let mut pos: usize = 0;
    let ghost mut done: Seq<Seq<char>> = Seq::empty();
    assert(front@.skip(0) =~= front@);
    while pos < n
        invariant
            pos <= n == front@.len(),
            nl@ == seq!['\n'],
            lines(front@) == done + lines(front@.skip(pos as int)),
            m@ == meta_of_lines(done),
        decreases n - pos,
    {
        let ghost rest = front@.skip(pos as int);
        proof {
            lemma_find_skip(front@, nl@, pos as int);
            lemma_find_from_bounds(front@, nl@, pos as int);
        }
        let (le, next) = match find_from_exec(front, &nl, pos) {
            Some(j) => (j, j + 1),
            None => (n, n),
        };
        let mut e = le;
        if next > le && e > pos && front[e - 1] == '\r' {
            e = e - 1;
        }
        let line = subvec(front, pos, e);
        proof {
            if next > le {
                assert(rest.take(le - pos) =~= front@.subrange(pos as int, le as int));
                assert(front@.subrange(pos as int, e as int) =~= strip_cr(
                    front@.subrange(pos as int, le as int),
                ));
                assert(rest.skip(le - pos + 1) =~= front@.skip(next as int));
            } else {
                assert(rest =~= front@.subrange(pos as int, e as int));
                assert(front@.skip(n as int) =~= Seq::<char>::empty());
            }
        }
        add_meta_line(&mut m, &line);
        proof {
            let nd = done.push(line@);
            assert(nd.drop_last() =~= done);
            assert(done + lines(rest) =~= nd + lines(front@.skip(next as int)));
            done = nd;
        }
        pos = next;
    }
    assert(front@.skip(n as int) =~= Seq::<char>::empty());
    assert(done + Seq::<Seq<char>>::empty() =~= done);
    m
}

/// Where the body starts and where the front matter lies in `v`, if it has one.
fn locate_front_matter(v: &Vec<char>) -> (r: Option<(usize, usize, usize)>)
    ensures
        r matches Some((fs, fe, bs)) ==> fs <= fe <= bs <= v@.len() && front_matter_split(v@)
            == Some((v@.subrange(fs as int, fe as int), v@.skip(bs as int))),
        r is None ==> front_matter_split(v@) is None,
{
    let n = v.len();
    let a = skip_ws(v, 0, n);
    let dash = chars_of("---");
    let marker = chars_of("\n---");
    let ghost s = trim_start(v@);
    proof {
        reveal_strlit("---");
        reveal_strlit("\n---");
        assert(v@.subrange(0, n as int) =~= v@);
        assert(s =~= v@.skip(a as int));
        if a + 3 <= n {
            assert(s.subrange(0, 3) =~= v@.subrange(a as int, a + 3));
        }
    }
    if !matches_at_exec(v, &dash, a) {
        return None;
    }
    proof {
        lemma_find_skip(v@, marker@, a + 3);
        lemma_find_from_bounds(v@, marker@, a + 3);
        assert(s.skip(3) =~= v@.skip(a + 3));
    }
    match find_from_exec(v, &marker, a + 3) {
        Some(j) => {
            let b = skip_ws(v, j + 4, n);
            proof {
                assert(s.subrange(3, 3 + (j - (a + 3))) =~= v@.subrange(a + 3, j as int));
                assert(s.skip(3 + (j - (a + 3)) + 4) =~= v@.subrange(j + 4, n as int));
                assert(v@.subrange(b as int, n as int) =~= v@.skip(b as int));
            }
            Some((a + 3, j, b))
        },
        None => None,
    }
}

/// Parses the front matter of `md`: the metadata it holds (`None` when there
/// is no front matter or it holds no entry) and the body after it (all of
/// `md` when there is no front matter).
pub fn parse_front_matter(md: &str) -> (r: (Option<Metadata>, &str))
    ensures
        r.1@ == strip_front_matter_spec(md@),
        match (r.0, front_matter_meta(md@)) {
            (Some(m), Some(spec_m)) => m@ == spec_m,
            (None, None) => true,
            _ => false,
        },
{
    let v = chars_of(md);
    match locate_front_matter(&v) {
        Some((fs, fe, bs)) => {
            let front = subvec(&v, fs, fe);
            let m = parse_meta_lines(&front);
            let body = md.substring_char(bs, v.len());
            assert(v@.subrange(bs as int, v@.len() as int) =~= v@.skip(bs as int));
            if m.is_empty() {
                (None, body)
            } else {
                (Some(m), body)
            }
        },
        None => (None, md),
    }
}

/// `md` without its front matter.
pub fn strip_front_matter(md: &str) -> (r: &str)
    ensures
        r@ == strip_front_matter_spec(md@),
{
    let v = chars_of(md);
    match locate_front_matter(&v) {
        Some((_, _, bs)) => {
            assert(v@.subrange(bs as int, v@.len() as int) =~= v@.skip(bs as int));
            md.substring_char(bs, v.len())
        },
        None => md,
    }
}

/// A document that does not start with `---` (after leading whitespace) has
/// no front matter: stripping leaves it as it is and there is no metadata.
pub proof fn lemma_no_front_matter(md: Seq<char>)
    requires
        !has_prefix(trim_start(md), "---"@),
    ensures
        strip_front_matter_spec(md) == md,
        front_matter_meta(md) is None,
{
}

/// `find` gives the first occurrence: a match at `m` with none before it.
proof fn lemma_find_first(s: Seq<char>, p: Seq<char>, i: int, m: int)
    requires
        0 <= i <= m,
        matches_at(s, p, m),
        forall|j: int| i <= j < m ==> !matches_at(s, p, j),
    ensures
        find_from(s, p, i) == Some(m),
    decreases m - i,
{
    if i < m {
        lemma_find_first(s, p, i + 1, m);
    }
}

/// A line `k: v` whose key part `k` holds no `:` splits at that first
/// colon.
proof fn lemma_split_first_colon(k: Seq<char>, v: Seq<char>)
    requires
        forall|i: int| 0 <= i < k.len() ==> k[i] != ':',
    ensures
        split_colon(k + seq![':'] + v) == Some((k, v)),
{
    let line = k + seq![':'] + v;
    let m = k.len() as int;
    assert(line.subrange(m, m + 1) =~= seq![':']);
    assert forall|j: int| 0 <= j < m implies !matches_at(line, seq![':'], j) by {
        if matches_at(line, seq![':'], j) {
            assert(line.subrange(j, j + 1)[0] == line[j]);
            assert(line[j] == k[j]);
        }
    }
    lemma_find_first(line, seq![':'], 0, m);
    assert(line.take(m) =~= k);
    assert(line.skip(m + 1) =~= v);
}

/// Each front-matter line `k: v` whose key part `k` holds no `:` and is
/// not blank maps the trimmed key to the trimmed text after that first
/// colon, colons in the value included; later lines win.
pub proof fn lemma_meta_line_first_colon(ls: Seq<Seq<char>>, k: Seq<char>, v: Seq<char>)
    requires
        forall|i: int| 0 <= i < k.len() ==> k[i] != ':',
        trim(k).len() > 0,
    ensures
        meta_of_lines(ls.push(k + seq![':'] + v)) == meta_of_lines(ls).insert(trim(k), trim(v)),
{
    lemma_split_first_colon(k, v);
    assert(ls.push(k + seq![':'] + v).drop_last() =~= ls);
}

/// A document that opens with a front matter of one line `k: v` (no line
/// breaks in it, no `:` in `k`, `k` not blank and not starting with `-`)
/// closed by `\n---`: its metadata is exactly the trimmed key mapped to
/// the trimmed value after the first colon, and its body is what follows
/// the closing marker without leading whitespace.
pub proof fn lemma_one_line_front_matter(k: Seq<char>, v: Seq<char>, body: Seq<char>)
    requires
        forall|i: int| 0 <= i < k.len() ==> k[i] != ':' && k[i] != '\n',
        forall|i: int| 0 <= i < v.len() ==> v[i] != '\n',
        trim(k).len() > 0,
        k[0] != '-',
    ensures
        front_matter_meta("---\n"@ + k + seq![':'] + v + "\n---"@ + body) == Some(
            Map::<Seq<char>, Seq<char>>::empty().insert(trim(k), trim(v)),
        ),
        strip_front_matter_spec("---\n"@ + k + seq![':'] + v + "\n---"@ + body) == trim_start(body),
{
    reveal_strlit("---\n");
    reveal_strlit("\n---");
    reveal_strlit("---");
    let line = k + seq![':'] + v;
    let md = "---\n"@ + line + "\n---"@ + body;
    assert(k.len() > 0);
    assert(trim_start(md) == md) by {
        assert(md[0] == '-');
    }
    assert(md.subrange(0, 3) =~= "---"@);
    assert(has_prefix(md, "---"@));
    let s3 = md.skip(3);
    let m = 1 + line.len() as int;
    assert(s3 =~= seq!['\n'] + line + "\n---"@ + body);
    assert(s3.subrange(m, m + 4) =~= "\n---"@);
    assert forall|j: int| 0 <= j < m implies !matches_at(s3, "\n---"@, j) by {
        if matches_at(s3, "\n---"@, j) {
            assert(s3.subrange(j, j + 4)[0] == s3[j]);
            assert(s3.subrange(j, j + 4)[1] == s3[j + 1]);
            if j == 0 {
                assert(s3[1] == k[0]);
            } else {
                assert(s3[j] == line[j - 1]);
                if j - 1 < k.len() {
                    assert(line[j - 1] == k[j - 1]);
                } else if j - 1 == k.len() {
                } else {
                    assert(line[j - 1] == v[j - 1 - k.len() - 1]);
                }
            }
        }
    }
    lemma_find_first(s3, "\n---"@, 0, m);
    let front = md.subrange(3, 3 + m);
    assert(front =~= seq!['\n'] + line);
    assert(md.skip(3 + m + 4) =~= body);
    // The front matter's lines: an empty one, then `line`.
    assert(front.subrange(0, 1) =~= seq!['\n']);
    lemma_find_first(front, seq!['\n'], 0, 0);
    assert(front.take(0) =~= Seq::<char>::empty());
    assert(front.skip(1) =~= line);
    lemma_find_from_bounds(line, seq!['\n'], 0);
    if find(line, seq!['\n']) is Some {
        let j = find(line, seq!['\n']).unwrap();
        assert(line.subrange(j, j + 1)[0] == line[j]);
        if j < k.len() {
            assert(line[j] == k[j]);
        } else if j == k.len() {
        } else {
            assert(line[j] == v[j - k.len() - 1]);
        }
    }
    assert(line.len() > 0);
    assert(lines(line) == seq![line]);
    assert(lines(front) =~= seq![Seq::<char>::empty(), line]);
    assert(strip_cr(Seq::<char>::empty()) == Seq::<char>::empty());
    let ls = seq![Seq::<char>::empty()];
    assert(find(Seq::<char>::empty(), seq![':']) is None);
    assert(split_colon(Seq::<char>::empty()) is None);
    assert(meta_of_lines(ls) == Map::<Seq<char>, Seq<char>>::empty()) by {
        assert(ls.drop_last() =~= Seq::<Seq<char>>::empty());
        assert(meta_of_lines(Seq::<Seq<char>>::empty()) == Map::<Seq<char>, Seq<char>>::empty());
        assert(ls.last() == Seq::<char>::empty());
    }
    lemma_meta_line_first_colon(ls, k, v);
    assert(ls.push(line) =~= seq![Seq::<char>::empty(), line]);
    let mm = Map::<Seq<char>, Seq<char>>::empty().insert(trim(k), trim(v));
    assert(meta_of_lines(lines(front)) == mm);
    assert(mm.dom().contains(trim(k)));
    assert(mm != Map::<Seq<char>, Seq<char>>::empty());
    assert(find(s3, "\n---"@) == Some(m));
    assert(front_matter_split(md) == Some((front, trim_start(body))));
    assert(md =~= "---\n"@ + k + seq![':'] + v + "\n---"@ + body);
}

} // verus!
