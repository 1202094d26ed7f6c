//! Character-level text model shared by the converters.
//!
//! Every text function of the library is specified over `Seq<char>`, the
//! view that vstd gives `str` and `String`. The executable helpers here work
//! on `Vec<char>` buffers and are proved against the spec functions.
use vstd::prelude::*;

verus! {

/// Unicode `White_Space` code points, as `char::is_whitespace` documents them.
pub open spec fn is_ws(c: char) -> bool {
    let u = c as u32;
    ||| 0x09 <= u <= 0x0D
    ||| u == 0x20
    ||| u == 0x85
    ||| u == 0xA0
    ||| u == 0x1680
    ||| 0x2000 <= u <= 0x200A
    ||| u == 0x2028
    ||| u == 0x2029
    ||| u == 0x202F
    ||| u == 0x205F
    ||| u == 0x3000
}

/// `s` with leading whitespace removed (`str::trim_start`).
pub open spec fn trim_start(s: Seq<char>) -> Seq<char>
    decreases s.len(),
{
    if s.len() > 0 && is_ws(s[0]) {
        trim_start(s.drop_first())
    } else {
        s
    }
}

/// `s` with trailing whitespace removed (`str::trim_end`).
pub open spec fn trim_end(s: Seq<char>) -> Seq<char>
    decreases s.len(),
{
    if s.len() > 0 && is_ws(s.last()) {
        trim_end(s.drop_last())
    } else {
        s
    }
}

/// `str::trim`.
pub open spec fn trim(s: Seq<char>) -> Seq<char> {
    trim_end(trim_start(s))
}

/// `p` occurs in `s` at index `i`.
pub open spec fn matches_at(s: Seq<char>, p: Seq<char>, i: int) -> bool {
    0 <= i && i + p.len() <= s.len() && s.subrange(i, i + p.len()) == p
}

/// `s` starts with `p`.
pub open spec fn has_prefix(s: Seq<char>, p: Seq<char>) -> bool {
    matches_at(s, p, 0)
}

/// The first index `>= i` at which `p` occurs in `s`.
pub open spec fn find_from(s: Seq<char>, p: Seq<char>, i: int) -> Option<int>
    decreases s.len() + 1 - i,
{
    if i < 0 || i + p.len() > s.len() {
        None
    } else if matches_at(s, p, i) {
        Some(i)
    } else {
        find_from(s, p, i + 1)
    }
}

/// `str::find`: the first index at which `p` occurs in `s`.
pub open spec fn find(s: Seq<char>, p: Seq<char>) -> Option<int> {
    find_from(s, p, 0)
}

/// `s` contains `p`.
pub open spec fn contains(s: Seq<char>, p: Seq<char>) -> bool {
    find(s, p) is Some
}

/// The last index `i` with `i + p.len() <= end` at which `p` occurs in `s`.
pub open spec fn rfind_before(s: Seq<char>, p: Seq<char>, end: int) -> Option<int>
    decreases end + 1,
{
    if end < p.len() || end > s.len() {
        None
    } else if matches_at(s, p, end - p.len()) {
        Some(end - p.len())
    } else {
        rfind_before(s, p, end - 1)
    }
}

/// `str::rfind`: the last index at which `p` occurs in `s`.
pub open spec fn rfind(s: Seq<char>, p: Seq<char>) -> Option<int> {
    rfind_before(s, p, s.len() as int)
}

/// `str::replace`: every non-overlapping occurrence of `f`, scanned from the
/// left, replaced by `t`.
pub open spec fn replace_all(s: Seq<char>, f: Seq<char>, t: Seq<char>) -> Seq<char>
    decreases s.len(),
{
    if f.len() == 0 {
        s
    } else {
        match find(s, f) {
            Some(i) => {
                proof {
                    lemma_find_from_bounds(s, f, 0);
                }
                s.take(i) + t + replace_all(s.skip(i + f.len()), f, t)
            },
            None => s,
        }
    }
}

/// ASCII lower-casing of one character (`char::to_ascii_lowercase`).
pub open spec fn ascii_lower(c: char) -> char {
    if 'A' <= c && c <= 'Z' {
        ((c as u32) + 32) as char
    } else {
        c
    }
}

/// `str::eq_ignore_ascii_case`.
pub open spec fn eq_ignore_ascii_case(a: Seq<char>, b: Seq<char>) -> bool {
    a.len() == b.len() && forall|i: int| 0 <= i < a.len() ==> ascii_lower(a[i]) == ascii_lower(b[i])
}

pub proof fn lemma_find_from_bounds(s: Seq<char>, p: Seq<char>, i: int)
    requires
        0 <= i,
    ensures
        find_from(s, p, i) matches Some(j) ==> i <= j && matches_at(s, p, j),
        find_from(s, p, i) is None ==> forall|j: int| i <= j && #[trigger] matches_at(s, p, j) ==> false,
    decreases s.len() + 1 - i,
{
    if i < 0 || i + p.len() > s.len() {
    } else if matches_at(s, p, i) {
    } else {
        lemma_find_from_bounds(s, p, i + 1);
        assert forall|j: int| i <= j && #[trigger] matches_at(s, p, j) implies j != i by {}
    }
}

pub proof fn lemma_find_from_skip(s: Seq<char>, p: Seq<char>, k: int, i: int)
    requires
        0 <= k <= s.len(),
        0 <= i,
    ensures
        find_from(s.skip(k), p, i) == (match find_from(s, p, i + k) {
            Some(j) => Some(j - k),
            None => None::<int>,
        }),
    decreases s.len() + 1 - k - i,
{
    let t = s.skip(k);
    if i + p.len() > t.len() {
    } else {
        assert(t.subrange(i, i + p.len()) =~= s.subrange(i + k, i + k + p.len()));
        if matches_at(t, p, i) {
        } else {
            lemma_find_from_skip(s, p, k, i + 1);
        }
    }
}

/// `find(s.skip(k), p)` is `find_from(s, p, k)` shifted by `k`.
pub proof fn lemma_find_skip(s: Seq<char>, p: Seq<char>, k: int)
    requires
        0 <= k <= s.len(),
    ensures
        find(s.skip(k), p) == (match find_from(s, p, k) {
            Some(j) => Some(j - k),
            None => None::<int>,
        }),
{
    lemma_find_from_skip(s, p, k, 0);
}

pub proof fn lemma_find_from_take(s: Seq<char>, p: Seq<char>, n: int, i: int)
    requires
        0 <= n <= s.len(),
        0 <= i,
    ensures
        find_from(s.take(n), p, i) == (match find_from(s, p, i) {
            Some(j) => if j + p.len() <= n { Some(j) } else { None::<int> },
            None => None::<int>,
        }),
    decreases s.len() + 1 - i,
{
    let t = s.take(n);
    if i + p.len() > s.len() {
    } else {
        if i + p.len() <= n {
            assert(t.subrange(i, i + p.len()) =~= s.subrange(i, i + p.len()));
        }
        if matches_at(s, p, i) {
        } else {
            lemma_find_from_take(s, p, n, i + 1);
        }
    }
}

/// The characters of `s`.
pub fn chars_of(s: &str) -> (v: Vec<char>)
    ensures
        v@ == s@,
{
    let mut v: Vec<char> = Vec::new();
    let n = s.unicode_len();
    let mut i: usize = 0;
    while i < n
        invariant
            n == s@.len(),
            i <= n,
            v@ == s@.take(i as int),
        decreases n - i,
    {
        let c = s.get_char(i);
        v.push(c);
        i = i + 1;
        assert(v@ =~= s@.take(i as int));
    }
    assert(v@ =~= s@);
    v
}

/// A `String` holding the characters of `v`.
#[verifier::external_body]
pub(crate) fn string_of(v: &Vec<char>) -> (s: String)
    ensures
        s@ == v@,
{
    String::from_iter(v)
}

/// Appends `v[lo..hi]` to `out`.
pub fn push_range(out: &mut Vec<char>, v: &Vec<char>, lo: usize, hi: usize)
    requires
        lo <= hi <= v@.len(),
    ensures
        final(out)@ == old(out)@ + v@.subrange(lo as int, hi as int),
{
    let mut i = lo;
    while i < hi
        invariant
            lo <= i <= hi <= v@.len(),
            out@ == old(out)@ + v@.subrange(lo as int, i as int),
        decreases hi - i,
    {
        out.push(v[i]);
        i = i + 1;
        assert(out@ =~= old(out)@ + v@.subrange(lo as int, i as int));
    }
}

/// Appends all of `v` to `out`.
pub fn push_all(out: &mut Vec<char>, v: &Vec<char>)
    ensures
        final(out)@ == old(out)@ + v@,
{
    push_range(out, v, 0, v.len());
    assert(v@.subrange(0, v@.len() as int) =~= v@);
}

/// Appends the characters of `s` to `out`.
pub fn push_str(out: &mut Vec<char>, s: &str)
    ensures
        final(out)@ == old(out)@ + s@,
{
    let v = chars_of(s);
    push_all(out, &v);
}

/// Executable `is_ws`.
pub fn is_whitespace(c: char) -> (r: bool)
    ensures
        r == is_ws(c),
{
    let u = c as u32;
    (0x09 <= u && u <= 0x0D) || u == 0x20 || u == 0x85 || u == 0xA0 || u == 0x1680 || (0x2000
        <= u && u <= 0x200A) || u == 0x2028 || u == 0x2029 || u == 0x202F || u == 0x205F || u
        == 0x3000
}

/// Executable `ascii_lower`.
pub fn to_ascii_lower(c: char) -> (r: char)
    ensures
        r == ascii_lower(c),
{
    if 'A' <= c && c <= 'Z' {
        ((c as u8) + 32) as char
    } else {
        c
    }
}

/// The first index in `[lo, hi)` whose character is not whitespace, or `hi`.
pub fn skip_ws(v: &Vec<char>, lo: usize, hi: usize) -> (i: usize)
    requires
        lo <= hi <= v@.len(),
    ensures
        lo <= i <= hi,
        trim_start(v@.subrange(lo as int, hi as int)) == v@.subrange(i as int, hi as int),
{
    let mut i = lo;
    while i < hi && is_whitespace(v[i])
        invariant
            lo <= i <= hi <= v@.len(),
            trim_start(v@.subrange(lo as int, hi as int)) == trim_start(
                v@.subrange(i as int, hi as int),
            ),
        decreases hi - i,
    {
        assert(v@.subrange(i as int, hi as int).drop_first() =~= v@.subrange(
            i + 1,
            hi as int,
        ));
        i = i + 1;
    }
    i
}

/// The end of `[lo, hi)` once trailing whitespace is removed.
pub fn skip_ws_back(v: &Vec<char>, lo: usize, hi: usize) -> (j: usize)
    requires
        lo <= hi <= v@.len(),
    ensures
        lo <= j <= hi,
        trim_end(v@.subrange(lo as int, hi as int)) == v@.subrange(lo as int, j as int),
{
    let mut j = hi;
    while j > lo && is_whitespace(v[j - 1])
        invariant
            lo <= j <= hi <= v@.len(),
            trim_end(v@.subrange(lo as int, hi as int)) == trim_end(
                v@.subrange(lo as int, j as int),
            ),
        decreases j,
    {
        assert(v@.subrange(lo as int, j as int).drop_last() =~= v@.subrange(
            lo as int,
            j - 1,
        ));
        j = j - 1;
    }
    j
}

/// Whether `p` occurs in `v` at `i`.
pub fn matches_at_exec(v: &Vec<char>, p: &Vec<char>, i: usize) -> (r: bool)
    ensures
        r == matches_at(v@, p@, i as int),
{
    if i > v.len() || p.len() > v.len() - i {
        return false;
    }
    let mut k: usize = 0;
    while k < p.len()
        invariant
            i + p@.len() <= v@.len(),
            v@.len() <= usize::MAX,
            k <= p@.len(),
            forall|j: int| 0 <= j < k ==> v@[i + j] == p@[j],
        decreases p@.len() - k,
    {
        assert(i + k < v@.len());
        let idx: usize = i + k;
        if v[idx] != p[k] {
            assert(v@.subrange(i as int, i + p@.len())[k as int] != p@[k as int]);
            return false;
        }
        k = k + 1;
    }
    assert(v@.subrange(i as int, i + p@.len()) =~= p@);
    true
}

/// Executable `find_from`.
pub fn find_from_exec(v: &Vec<char>, p: &Vec<char>, from: usize) -> (r: Option<usize>)
    ensures
        r matches Some(j) ==> find_from(v@, p@, from as int) == Some(j as int),
        r is None ==> find_from(v@, p@, from as int) is None,
{
    if p.len() > v.len() || from > v.len() - p.len() {
        return None;
    }
    let last = v.len() - p.len();
    let mut i = from;
    while i < last
        invariant
            from <= i <= last,
            last + p@.len() == v@.len(),
            find_from(v@, p@, from as int) == find_from(v@, p@, i as int),
        decreases last - i,
    {
        if matches_at_exec(v, p, i) {
            return Some(i);
        }
        i = i + 1;
    }
    if matches_at_exec(v, p, i) {
        return Some(i);
    }
    assert(find_from(v@, p@, i + 1) is None);
    None
}

/// Executable `rfind_before`.
pub fn rfind_before_exec(v: &Vec<char>, p: &Vec<char>, end: usize) -> (r: Option<usize>)
    requires
        end <= v@.len(),
    ensures
        r matches Some(j) ==> rfind_before(v@, p@, end as int) == Some(j as int),
        r is None ==> rfind_before(v@, p@, end as int) is None,
{
    if p.len() == 0 {
        assert(v@.subrange(end as int, end as int) =~= p@);
        return Some(end);
    }
    let mut e = end;
    while e >= p.len()
        invariant
            e <= end <= v@.len(),
            p@.len() > 0,
            rfind_before(v@, p@, end as int) == rfind_before(v@, p@, e as int),
        decreases e,
    {
        if matches_at_exec(v, p, e - p.len()) {
            return Some(e - p.len());
        }
        e = e - 1;
    }
    None
}

/// Executable `replace_all` on the characters of `v`.
pub fn replace_all_exec(v: &Vec<char>, f: &Vec<char>, t: &Vec<char>) -> (r: Vec<char>)
    ensures
        r@ == replace_all(v@, f@, t@),
{
    if f.len() == 0 {
        return v.clone();
    }
    let mut out: Vec<char> = Vec::new();
    let mut k: usize = 0;
    assert(v@.skip(0) =~= v@);
    while k <= v.len()
        invariant
            f@.len() > 0,
            k <= v@.len(),
            out@ + replace_all(v@.skip(k as int), f@, t@) == replace_all(v@, f@, t@),
        decreases v@.len() - k,
    {
        let ghost rest = v@.skip(k as int);
        proof {
            lemma_find_skip(v@, f@, k as int);
            lemma_find_from_bounds(v@, f@, k as int);
        }
        match find_from_exec(v, f, k) {
            Some(j) => {
                let ghost i = j - k;
                assert(rest.take(i) =~= v@.subrange(k as int, j as int));
                assert(rest.skip(i + f@.len()) =~= v@.skip(j + f@.len()));
                push_range(&mut out, v, k, j);
                push_all(&mut out, t);
                k = j + f.len();
            },
            None => {
                push_range(&mut out, v, k, v.len());
                assert(rest =~= v@.subrange(k as int, v@.len() as int));
                return out;
            },
        }
    }
    out
}

/// `str::replace` for a `str` and two patterns.
pub fn replace_str(s: &Vec<char>, f: &str, t: &str) -> (r: Vec<char>)
    ensures
        r@ == replace_all(s@, f@, t@),
{
    let fv = chars_of(f);
    let tv = chars_of(t);
    replace_all_exec(s, &fv, &tv)
}

/// Executable `eq_ignore_ascii_case` on `v[lo..hi]` and `w`.
pub fn eq_ignore_ascii_case_exec(v: &Vec<char>, lo: usize, hi: usize, w: &Vec<char>) -> (r: bool)
    requires
        lo <= hi <= v@.len(),
    ensures
        r == eq_ignore_ascii_case(v@.subrange(lo as int, hi as int), w@),
{
    if hi - lo != w.len() {
        return false;
    }
    let mut k: usize = 0;
    while k < w.len()
        invariant
            lo <= hi <= v@.len(),
            hi - lo == w@.len(),
            k <= w@.len(),
            forall|j: int| 0 <= j < k ==> ascii_lower(v@[lo + j]) == ascii_lower(w@[j]),
        decreases w@.len() - k,
    {
        if to_ascii_lower(v[lo + k]) != to_ascii_lower(w[k]) {
            assert(v@.subrange(lo as int, hi as int)[k as int] == v@[lo + k]);
            return false;
        }
        k = k + 1;
    }
    true
}

/// `find(v[lo..hi], p)`, as an index into `v`.
pub fn find_in(v: &Vec<char>, p: &Vec<char>, lo: usize, hi: usize) -> (r: Option<usize>)
    requires
        lo <= hi <= v@.len(),
    ensures
        r matches Some(j) ==> lo <= j && find(v@.subrange(lo as int, hi as int), p@) == Some(j - lo),
        r is None ==> find(v@.subrange(lo as int, hi as int), p@) is None,
{
    let ghost t = v@.subrange(lo as int, hi as int);
    if p.len() > hi - lo {
        return None;
    }
    let last = hi - p.len();
    let mut i = lo;
    while i <= last
        invariant
            lo <= i,
            last + p@.len() == hi,
            lo <= hi <= v@.len(),
            t == v@.subrange(lo as int, hi as int),
            find(t, p@) == find_from(t, p@, i - lo),
        decreases last + 1 - i,
    {
        assert(t.subrange(i - lo, i - lo + p@.len()) =~= v@.subrange(i as int, i + p@.len()));
        if matches_at_exec(v, p, i) {
            return Some(i);
        }
        if i == last {
            assert(find_from(t, p@, i - lo + 1) is None);
            return None;
        }
        i = i + 1;
    }
    None
}

/// `rfind(v[lo..hi], p)`, as an index into `v`.
pub fn rfind_in(v: &Vec<char>, p: &Vec<char>, lo: usize, hi: usize) -> (r: Option<usize>)
    requires
        lo <= hi <= v@.len(),
    ensures
        r matches Some(j) ==> lo <= j && rfind(v@.subrange(lo as int, hi as int), p@) == Some(j - lo),
        r is None ==> rfind(v@.subrange(lo as int, hi as int), p@) is None,
{
    let ghost t = v@.subrange(lo as int, hi as int);
    if p.len() > hi - lo {
        return None;
    }
    if p.len() == 0 {
        assert(t.subrange(t.len() as int, t.len() as int) =~= p@);
        return Some(hi);
    }
    let mut e = hi;
    while e - lo >= p.len()
        invariant
            lo <= hi <= v@.len(),
            e <= hi,
            lo <= e,
            t == v@.subrange(lo as int, hi as int),
            rfind(t, p@) == rfind_before(t, p@, e - lo),
            p@.len() > 0,
        decreases e,
    {
        assert(t.subrange(e - lo - p@.len(), e - lo) =~= v@.subrange(e - p@.len(), e as int));
        if matches_at_exec(v, p, e - p.len()) {
            return Some(e - p.len());
        }
        if e == lo {
            return None;
        }
        e = e - 1;
    }
    None
}

/// Whether `a` and `b` hold the same characters.
pub fn chars_eq(a: &Vec<char>, b: &Vec<char>) -> (r: bool)
    ensures
        r == (a@ == b@),
{
    if a.len() != b.len() {
        return false;
    }
    let mut i: usize = 0;
    while i < a.len()
        invariant
            a@.len() == b@.len(),
            i <= a@.len(),
            forall|j: int| 0 <= j < i ==> a@[j] == b@[j],
        decreases a@.len() - i,
    {
        if a[i] != b[i] {
            return false;
        }
        i = i + 1;
    }
    assert(a@ =~= b@);
    true
}

/// Whether `v[lo..hi]` holds the characters of `s`.
pub fn range_eq_str(v: &Vec<char>, lo: usize, hi: usize, s: &str) -> (r: bool)
    requires
        lo <= hi <= v@.len(),
    ensures
        r == (v@.subrange(lo as int, hi as int) == s@),
{
    let w = chars_of(s);
    if hi - lo != w.len() {
        return false;
    }
    let r = matches_at_exec(v, &w, lo);
    r
}

/// The decimal digit character for `d < 10`.
pub open spec fn digit_char(d: int) -> char {
    ((48 + d) as u8) as char
}

/// The decimal notation of `n`.
pub open spec fn decimal(n: nat) -> Seq<char>
    decreases n,
{
    if n < 10 {
        seq![digit_char(n as int)]
    } else {
        decimal(n / 10).push(digit_char((n % 10) as int))
    }
}

/// Appends the decimal notation of `n` to `out`.
pub fn push_decimal(out: &mut Vec<char>, n: u64)
    ensures
        final(out)@ == old(out)@ + decimal(n as nat),
    decreases n,
{
    if n >= 10 {
        push_decimal(out, n / 10);
    }
    let d = (n % 10) as u8;
    out.push((48u8 + d) as char);
    assert(out@ =~= old(out)@ + decimal(n as nat));
}

} // verus!
