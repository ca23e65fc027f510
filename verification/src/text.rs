//! Character-sequence model of the string operations the library relies on:
//! Unicode whitespace, trimming, substring search, left-to-right
//! replacement, splitting, joining and decimal rendering.
//!
//! Every operation is stated over `Seq<char>` (the view of `str` / `String`)
//! and implemented over `Vec<char>` with a proof that both agree.

use vstd::prelude::*;

verus! {

// ---------------------------------------------------------------------------
// Whitespace
// ---------------------------------------------------------------------------

/// Unicode `White_Space` property (what `char::is_whitespace` tests).
pub open spec fn is_ws(c: char) -> bool {
    ||| ('\u{9}' <= c && c <= '\u{d}')
    ||| c == ' '
    ||| c == '\u{85}'
    ||| c == '\u{a0}'
    ||| c == '\u{1680}'
    ||| ('\u{2000}' <= c && c <= '\u{200a}')
    ||| c == '\u{2028}'
    ||| c == '\u{2029}'
    ||| c == '\u{202f}'
    ||| c == '\u{205f}'
    ||| c == '\u{3000}'
}

pub fn is_whitespace(c: char) -> (r: bool)
    ensures
        r == is_ws(c),
{
    ('\u{9}' <= c && c <= '\u{d}') || c == ' ' || c == '\u{85}' || c == '\u{a0}' || c
        == '\u{1680}' || ('\u{2000}' <= c && c <= '\u{200a}') || c == '\u{2028}' || c
        == '\u{2029}' || c == '\u{202f}' || c == '\u{205f}' || c == '\u{3000}'
}

/// Index of the first non-whitespace character at or after `i` (or `s.len()`).
pub open spec fn lead_end(s: Seq<char>, i: int) -> int
    decreases s.len() - i,
{
    if i < 0 || i >= s.len() {
        s.len() as int
    } else if is_ws(s[i]) {
        lead_end(s, i + 1)
    } else {
        i
    }
}

/// Length of `s.take(j)` once its trailing whitespace is removed.
pub open spec fn tail_end(s: Seq<char>, j: int) -> int
    decreases j,
{
    if j <= 0 || j > s.len() {
        0
    } else if is_ws(s[j - 1]) {
        tail_end(s, j - 1)
    } else {
        j
    }
}

pub open spec fn trim_start(s: Seq<char>) -> Seq<char> {
    s.subrange(lead_end(s, 0), s.len() as int)
}

pub open spec fn trim_end(s: Seq<char>) -> Seq<char> {
    s.subrange(0, tail_end(s, s.len() as int))
}

/// `str::trim`: leading and trailing Unicode whitespace removed.
pub open spec fn trim(s: Seq<char>) -> Seq<char> {
    trim_end(trim_start(s))
}

/// The last character of `s` that is not whitespace, if any.
pub open spec fn last_non_ws(s: Seq<char>) -> Option<char> {
    let j = tail_end(s, s.len() as int);
    if j == 0 {
        None
    } else {
        Some(s[j - 1])
    }
}

/// The first character of `s` that is not whitespace, if any.
pub open spec fn first_non_ws(s: Seq<char>) -> Option<char> {
    let i = lead_end(s, 0);
    if i >= s.len() {
        None
    } else {
        Some(s[i])
    }
}

pub proof fn lemma_lead_end_bounds(s: Seq<char>, i: int)
    requires
        0 <= i <= s.len(),
    ensures
        i <= lead_end(s, i) <= s.len(),
        lead_end(s, i) < s.len() ==> !is_ws(s[lead_end(s, i)]),
        forall|k: int| i <= k < lead_end(s, i) ==> is_ws(#[trigger] s[k]),
    decreases s.len() - i,
{
    if i < s.len() && is_ws(s[i]) {
        lemma_lead_end_bounds(s, i + 1);
    }
}

pub proof fn lemma_tail_end_bounds(s: Seq<char>, j: int)
    requires
        0 <= j <= s.len(),
    ensures
        0 <= tail_end(s, j) <= j,
        tail_end(s, j) > 0 ==> !is_ws(s[tail_end(s, j) - 1]),
        forall|k: int| tail_end(s, j) <= k < j ==> is_ws(#[trigger] s[k]),
    decreases j,
{
    if j > 0 && is_ws(s[j - 1]) {
        lemma_tail_end_bounds(s, j - 1);
    }
}

/// `trim` result facts: no whitespace at either end, and it sits inside `s`.
pub proof fn lemma_trim_facts(s: Seq<char>)
    ensures
        trim(s).len() > 0 ==> !is_ws(trim(s)[0]) && !is_ws(trim(s).last()),
        trim(s).len() <= s.len(),
        trim(s).len() == 0 <==> (forall|k: int| 0 <= k < s.len() ==> is_ws(#[trigger] s[k])),
{
    let a = lead_end(s, 0);
    lemma_lead_end_bounds(s, 0);
    let t = trim_start(s);
    let b = tail_end(t, t.len() as int);
    lemma_tail_end_bounds(t, t.len() as int);
    if b > 0 {
        assert(t[0] == s[a]);
        lemma_tail_end_nonzero(t);
    }
    if trim(s).len() == 0 {
        assert forall|k: int| 0 <= k < s.len() implies is_ws(#[trigger] s[k]) by {
            if k >= a {
                assert(t[k - a] == s[k]);
            }
        }
    }
}

proof fn lemma_tail_end_nonzero(t: Seq<char>)
    requires
        t.len() > 0,
        !is_ws(t[0]),
    ensures
        tail_end(t, t.len() as int) > 0,
{
    lemma_tail_end_bounds(t, t.len() as int);
    if tail_end(t, t.len() as int) == 0 {
        assert(is_ws(t[0]));
    }
}

/// Trimming twice changes nothing more.
pub proof fn lemma_trim_idempotent(s: Seq<char>)
    ensures
        trim(trim(s)) == trim(s),
{
    let t = trim(s);
    lemma_trim_facts(s);
    lemma_trim_of_clean(t);
}

/// A sequence with no whitespace at either end is its own trim.
pub proof fn lemma_trim_of_clean(t: Seq<char>)
    requires
        t.len() > 0 ==> !is_ws(t[0]) && !is_ws(t.last()),
    ensures
        trim(t) == t,
{
    if t.len() > 0 {
        assert(lead_end(t, 0) == 0);
        assert(trim_start(t) =~= t);
        assert(tail_end(t, t.len() as int) == t.len());
        assert(trim_end(t) =~= t);
    } else {
        assert(trim(t) =~= t);
    }
}

/// Every character of `s` is whitespace.
pub open spec fn all_ws(s: Seq<char>) -> bool {
    forall|k: int| 0 <= k < s.len() ==> is_ws(#[trigger] s[k])
}

/// Non-empty, with no whitespace at either end.
pub open spec fn is_clean(x: Seq<char>) -> bool {
    x.len() > 0 && !is_ws(x[0]) && !is_ws(x.last())
}

/// Whitespace around a clean sequence is exactly what `trim` removes.
pub proof fn lemma_trim_padded(a: Seq<char>, x: Seq<char>, b: Seq<char>)
    requires
        all_ws(a),
        all_ws(b),
        is_clean(x),
    ensures
        trim(a + x + b) == x,
{
    let s = a + x + b;
    lemma_lead_end_bounds(s, 0);
    let le = lead_end(s, 0);
    assert(s[a.len() as int] == x[0]);
    if le < a.len() {
        assert(s[le] == a[le]);
    }
    if le > a.len() {
        assert(is_ws(s[a.len() as int]));
    }
    assert(le == a.len());
    let t = trim_start(s);
    assert(t =~= x + b);
    lemma_tail_end_bounds(t, t.len() as int);
    let te = tail_end(t, t.len() as int);
    assert(t[x.len() - 1] == x.last());
    if te < x.len() {
        assert(is_ws(t[x.len() - 1]));
    }
    if te > x.len() {
        assert(t[te - 1] == b[te - 1 - x.len()]);
    }
    assert(te == x.len());
    assert(trim(s) =~= x);
}

/// Trailing whitespace does not change the trimmed text.
pub proof fn lemma_trim_push_ws(l: Seq<char>, c: char)
    requires
        is_ws(c),
    ensures
        trim(l.push(c)) == trim(l),
{
    lemma_trim_facts(l);
    lemma_trim_facts(l.push(c));
    if trim(l).len() == 0 {
        assert forall|k: int| 0 <= k < l.push(c).len() implies is_ws(#[trigger] l.push(c)[k]) by {
            if k < l.len() {
                assert(l.push(c)[k] == l[k]);
            }
        }
    } else {
        let le = lead_end(l, 0);
        lemma_lead_end_bounds(l, 0);
        let t = trim_start(l);
        let te = tail_end(t, t.len() as int);
        lemma_tail_end_bounds(t, t.len() as int);
        let a = l.take(le);
        let x = trim(l);
        let b = l.subrange(le + te, l.len() as int);
        assert(x =~= l.subrange(le, le + te));
        assert(l =~= a + x + b);
        assert(all_ws(a)) by {
            assert forall|k: int| 0 <= k < a.len() implies is_ws(#[trigger] a[k]) by {
                assert(a[k] == l[k]);
            }
        }
        assert(all_ws(b.push(c))) by {
            assert forall|k: int| 0 <= k < b.push(c).len() implies is_ws(#[trigger] b.push(c)[k]) by {
                if k < b.len() {
                    assert(b[k] == t[te + k]);
                }
            }
        }
        assert(l.push(c) =~= a + x + b.push(c));
        lemma_trim_padded(a, x, b.push(c));
    }
}

/// Bounds `(a, b)` with `s.subrange(a, b) == trim(s)`.
pub fn trim_bounds(s: &[char]) -> (r: (usize, usize))
    ensures
        r.0 <= r.1 <= s@.len(),
        s@.subrange(r.0 as int, r.1 as int) == trim(s@),
{
    let n = s.len();
    let mut a: usize = 0;
    while a < n && is_whitespace(s[a])
        invariant
            a <= n == s@.len(),
            lead_end(s@, 0) == lead_end(s@, a as int),
        decreases n - a,
    {
        a = a + 1;
    }
    let ghost t = s@.subrange(a as int, n as int);
    assert(trim_start(s@) == t);
    let mut b: usize = n;
    while b > a && is_whitespace(s[b - 1])
        invariant
            a <= b <= n == s@.len(),
            t == s@.subrange(a as int, n as int),
            tail_end(t, (b - a) as int) == tail_end(t, t.len() as int),
        decreases b,
    {
        assert(t[(b - a - 1) as int] == s@[b - 1]);
        b = b - 1;
    }
    proof {
        if b > a {
            assert(t[(b - a - 1) as int] == s@[b - 1]);
        }
        assert(tail_end(t, (b - a) as int) == (b - a) as int);
        assert(trim_end(t) =~= s@.subrange(a as int, b as int));
    }
    (a, b)
}

/// `trim` of a character vector, copied out.
pub fn trim_vec(s: &[char]) -> (r: Vec<char>)
    ensures
        r@ == trim(s@),
{
    let (a, b) = trim_bounds(s);
    copy_range(s, a, b)
}

/// `s[a..b]` copied into a new vector.
pub fn copy_range(s: &[char], a: usize, b: usize) -> (r: Vec<char>)
    requires
        a <= b <= s@.len(),
    ensures
        r@ == s@.subrange(a as int, b as int),
{
    let mut r: Vec<char> = Vec::new();
    let mut i = a;
    while i < b
        invariant
            a <= i <= b <= s@.len(),
            r@ == s@.subrange(a as int, i as int),
        decreases b - i,
    {
        r.push(s[i]);
        i = i + 1;
        assert(r@ =~= s@.subrange(a as int, i as int));
    }
    r
}

/// `trim_end` of a character vector, copied out.
pub fn trim_end_vec(s: &[char]) -> (r: Vec<char>)
    ensures
        r@ == trim_end(s@),
{
    let n = s.len();
    let mut b: usize = n;
    while b > 0 && is_whitespace(s[b - 1])
        invariant
            b <= n == s@.len(),
            tail_end(s@, b as int) == tail_end(s@, n as int),
        decreases b,
    {
        b = b - 1;
    }
    copy_range(s, 0, b)
}

/// Whether every character is whitespace (`s.trim().is_empty()`).
pub fn is_blank(s: &[char]) -> (r: bool)
    ensures
        r == (trim(s@).len() == 0),
{
    let (a, b) = trim_bounds(s);
    a == b
}

/// The last non-whitespace character.
pub fn last_non_ws_char(s: &[char]) -> (r: Option<char>)
    ensures
        r == last_non_ws(s@),
{
    let n = s.len();
    let mut b: usize = n;
    while b > 0 && is_whitespace(s[b - 1])
        invariant
            b <= n == s@.len(),
            tail_end(s@, b as int) == tail_end(s@, n as int),
        decreases b,
    {
        b = b - 1;
    }
    if b == 0 {
        None
    } else {
        Some(s[b - 1])
    }
}

/// The first non-whitespace character.
pub fn first_non_ws_char(s: &[char]) -> (r: Option<char>)
    ensures
        r == first_non_ws(s@),
{
    let n = s.len();
    let mut a: usize = 0;
    while a < n && is_whitespace(s[a])
        invariant
            a <= n == s@.len(),
            lead_end(s@, 0) == lead_end(s@, a as int),
        decreases n - a,
    {
        a = a + 1;
    }
    if a >= n {
        None
    } else {
        Some(s[a])
    }
}

// ---------------------------------------------------------------------------
// Search
// ---------------------------------------------------------------------------

/// `p` occurs in `s` starting at index `i`.
pub open spec fn matches_at(s: Seq<char>, p: Seq<char>, i: int) -> bool {
    0 <= i && i + p.len() <= s.len() && s.subrange(i, i + p.len()) == p
}

/// First index `>= i` at which `p` occurs in `s`.
pub open spec fn find_from(s: Seq<char>, p: Seq<char>, i: int) -> Option<int>
    decreases s.len() + 1 - i,
{
    if i < 0 || i + p.len() > s.len() {
        None
    } else if matches_at(s, p, i) {
        Some(i)
    } else {
        find_from(s, p, i + 1)
    }
}

/// `str::find` (counted in characters).
pub open spec fn find(s: Seq<char>, p: Seq<char>) -> Option<int> {
    find_from(s, p, 0)
}

/// `str::contains`.
pub open spec fn contains(s: Seq<char>, p: Seq<char>) -> bool {
    find(s, p) is Some
}

pub proof fn lemma_find_from_facts(s: Seq<char>, p: Seq<char>, i: int)
    requires
        0 <= i,
    ensures
        find_from(s, p, i) matches Some(k) ==> i <= k && matches_at(s, p, k) && forall|j: int|
            i <= j < k ==> !matches_at(s, p, j),
        find_from(s, p, i) is None ==> forall|j: int| i <= j ==> !matches_at(s, p, j),
    decreases s.len() + 1 - i,
{
    if i + p.len() > s.len() {
    } else if matches_at(s, p, i) {
    } else {
        lemma_find_from_facts(s, p, i + 1);
    }
}

/// Whether `p` occurs at `i` in `s`.
pub fn matches_at_exec(s: &[char], p: &[char], i: usize) -> (r: bool)
    ensures
        r == matches_at(s@, p@, i as int),
{
    if i > s.len() || p.len() > s.len() - i {
        return false;
    }
    let mut k: usize = 0;
    while k < p.len()
        invariant
            i + p@.len() <= s@.len(),
            s@.len() == s.len(),
            k <= p@.len(),
            forall|j: int| 0 <= j < k ==> s@[i + j] == p@[j],
        decreases p@.len() - k,
    {
        if s[i + k] != p[k] {
            assert(s@.subrange(i as int, i + p@.len())[k as int] != p@[k as int]);
            return false;
        }
        k = k + 1;
    }
    assert(s@.subrange(i as int, i + p@.len()) =~= p@);
    true
}

/// First occurrence of `p` at or after `from`.
pub fn find_chars(s: &[char], p: &[char], from: usize) -> (r: Option<usize>)
    ensures
        r matches Some(k) ==> find_from(s@, p@, from as int) == Some(k as int),
        r is None ==> find_from(s@, p@, from as int) is None,
{
    let mut i = from;
    while i <= s.len() && p.len() <= s.len() - i
        invariant
            from <= i,
            find_from(s@, p@, from as int) == find_from(s@, p@, i as int),
        decreases s@.len() + 1 - i,
    {
        if matches_at_exec(s, p, i) {
            return Some(i);
        }
        if i == s.len() {
            assert(find_from(s@, p@, i + 1) is None);
            return None;
        }
        i = i + 1;
    }
    None
}

pub fn contains_chars(s: &[char], p: &[char]) -> (r: bool)
    ensures
        r == contains(s@, p@),
{
    find_chars(s, p, 0).is_some()
}

// ---------------------------------------------------------------------------
// Replacement
// ---------------------------------------------------------------------------

/// Left-to-right, non-overlapping substitution scanning `src` from `i`:
/// wherever `p` matches in `key` at the current position, `r` is emitted and
/// the match is skipped; otherwise the character of `src` is copied.
/// With `key == src` this is `str::replace`.
pub open spec fn subst(key: Seq<char>, src: Seq<char>, p: Seq<char>, r: Seq<char>, i: int) -> Seq<
    char,
>
    decreases src.len() - i,
{
    if i < 0 || i >= src.len() {
        Seq::empty()
    } else if p.len() > 0 && i + p.len() <= src.len() && matches_at(key, p, i) {
        r + subst(key, src, p, r, i + p.len())
    } else {
        seq![src[i]] + subst(key, src, p, r, i + 1)
    }
}

/// `str::replace(s, p, r)` for a non-empty pattern.
pub open spec fn replace_all(s: Seq<char>, p: Seq<char>, r: Seq<char>) -> Seq<char> {
    subst(s, s, p, r, 0)
}

/// Substitution of `p` (matched in `key`) by `r`, copying from `src`.
pub fn subst_chars(key: &[char], src: &[char], p: &[char], r: &[char]) -> (out: Vec<char>)
    ensures
        out@ == subst(key@, src@, p@, r@, 0),
{
    let mut out: Vec<char> = Vec::new();
    let mut i: usize = 0;
    let n = src.len();
    while i < n
        invariant
            i <= n == src@.len(),
            out@ + subst(key@, src@, p@, r@, i as int) == subst(key@, src@, p@, r@, 0),
        decreases n - i,
    {
        let ghost before = out@;
        if p.len() > 0 && p.len() <= n - i && matches_at_exec(key, p, i) {
            let mut k: usize = 0;
            while k < r.len()
                invariant
                    k <= r@.len(),
                    out@ == before + r@.take(k as int),
                decreases r@.len() - k,
            {
                out.push(r[k]);
                k = k + 1;
                assert(out@ =~= before + r@.take(k as int));
            }
            assert(r@.take(r@.len() as int) =~= r@);
            assert(out@ + subst(key@, src@, p@, r@, (i + p.len()) as int) =~= before + subst(
                key@,
                src@,
                p@,
                r@,
                i as int,
            ));
            i = i + p.len();
        } else {
            out.push(src[i]);
            assert(out@ + subst(key@, src@, p@, r@, (i + 1) as int) =~= before + subst(
                key@,
                src@,
                p@,
                r@,
                i as int,
            ));
            i = i + 1;
        }
    }
    assert(out@ + subst(key@, src@, p@, r@, i as int) =~= out@);
    out
}

proof fn lemma_subst_absent(s: Seq<char>, c: char, r: Seq<char>, i: int)
    requires
        forall|k: int| 0 <= k < s.len() ==> s[k] != c,
        0 <= i <= s.len(),
    ensures
        subst(s, s, seq![c], r, i) == s.skip(i),
    decreases s.len() - i,
{
    if i < s.len() {
        lemma_subst_absent(s, c, r, i + 1);
        if matches_at(s, seq![c], i) {
            assert(s.subrange(i, i + 1)[0] == s[i]);
        }
        assert(seq![s[i]] + s.skip(i + 1) =~= s.skip(i));
    } else {
        assert(s.skip(i) =~= Seq::<char>::empty());
    }
}

/// Replacing a character that does not occur changes nothing.
pub proof fn lemma_replace_absent(s: Seq<char>, c: char, r: Seq<char>)
    requires
        forall|k: int| 0 <= k < s.len() ==> s[k] != c,
    ensures
        replace_all(s, seq![c], r) == s,
{
    lemma_subst_absent(s, c, r, 0);
    assert(s.skip(0) =~= s);
}

/// `str::replace` over characters.
pub fn replace_chars(s: &[char], p: &[char], r: &[char]) -> (out: Vec<char>)
    ensures
        out@ == replace_all(s@, p@, r@),
{
    subst_chars(s, s, p, r)
}

// ---------------------------------------------------------------------------
// Conversions
// ---------------------------------------------------------------------------

/// The characters of a string slice.
pub fn chars_of(s: &str) -> (v: Vec<char>)
    ensures
        v@ == s@,
{
    let mut v: Vec<char> = Vec::new();
    for c in it: s.chars()
        invariant
            v@ == it.seq().take(it.index() as int),
            it.seq() == s@,
    {
        v.push(c);
    }
    v
}

/// `String::push`: appends one character.
#[verifier::external_body]
pub(crate) fn push_char(s: &mut String, c: char)
    ensures
        final(s)@ == old(s)@.push(c),
{
    s.push(c);
}

/// Appends a character slice to a string.
pub fn push_chars(s: &mut String, v: &[char])
    ensures
        final(s)@ == old(s)@ + v@,
{
    let ghost start = s@;
    let mut i: usize = 0;
    while i < v.len()
        invariant
            i <= v@.len(),
            s@ == start + v@.take(i as int),
        decreases v@.len() - i,
    {
        push_char(s, v[i]);
        i = i + 1;
        assert(s@ =~= start + v@.take(i as int));
    }
    assert(v@.take(v@.len() as int) =~= v@);
}

/// A string holding exactly the given characters.
pub fn string_of(v: &[char]) -> (s: String)
    ensures
        s@ == v@,
{
    let mut s = String::new();
    push_chars(&mut s, v);
    assert(s@ =~= v@);
    s
}


// ---------------------------------------------------------------------------
// Splitting and joining
// ---------------------------------------------------------------------------

/// `str::split` on any character of `seps`: the pieces between separators,
/// always at least one (possibly empty) piece.
pub open spec fn split_by(s: Seq<char>, seps: Seq<char>) -> Seq<Seq<char>>
    decreases s.len(),
{
    if s.len() == 0 {
        seq![Seq::empty()]
    } else {
        let pre = split_by(s.drop_last(), seps);
        if seps.contains(s.last()) {
            pre.push(Seq::empty())
        } else {
            pre.update(pre.len() - 1, pre.last().push(s.last()))
        }
    }
}

pub proof fn lemma_split_by_nonempty(s: Seq<char>, seps: Seq<char>)
    ensures
        split_by(s, seps).len() >= 1,
    decreases s.len(),
{
    if s.len() > 0 {
        lemma_split_by_nonempty(s.drop_last(), seps);
    }
}

/// `s` holds none of the characters of `cs`.
pub open spec fn free_of(s: Seq<char>, cs: Seq<char>) -> bool {
    forall|k: int| 0 <= k < s.len() ==> !cs.contains(#[trigger] s[k])
}

/// Appending characters that are not separators extends the last piece.
pub proof fn lemma_split_by_append_plain(s: Seq<char>, t: Seq<char>, seps: Seq<char>)
    requires
        free_of(t, seps),
    ensures
        split_by(s + t, seps) == split_by(s, seps).update(
            split_by(s, seps).len() - 1,
            split_by(s, seps).last() + t,
        ),
    decreases t.len(),
{
    lemma_split_by_nonempty(s, seps);
    let p = split_by(s, seps);
    if t.len() == 0 {
        assert(s + t =~= s);
        assert(p.update(p.len() - 1, p.last() + t) =~= p);
    } else {
        let t0 = t.drop_last();
        assert(free_of(t0, seps)) by {
            assert forall|k: int| 0 <= k < t0.len() implies !seps.contains(#[trigger] t0[k]) by {
                assert(t0[k] == t[k]);
            }
        }
        lemma_split_by_append_plain(s, t0, seps);
        assert((s + t).drop_last() =~= s + t0);
        assert((s + t).last() == t.last());
        assert(!seps.contains(t[t.len() - 1]));
        let pre = split_by(s + t0, seps);
        assert(split_by(s + t, seps) == pre.update(pre.len() - 1, pre.last().push(t.last())));
        assert((p.last() + t0).push(t.last()) =~= p.last() + t);
        assert(pre.update(pre.len() - 1, pre.last().push(t.last())) =~= p.update(
            p.len() - 1,
            p.last() + t,
        ));
    }
}

/// A separator character splits: the pieces of `a`, then those of `b`.
pub proof fn lemma_split_by_sep(a: Seq<char>, c: char, b: Seq<char>, seps: Seq<char>)
    requires
        seps.contains(c),
    ensures
        split_by(a + seq![c] + b, seps) == split_by(a, seps) + split_by(b, seps),
    decreases b.len(),
{
    let x = split_by(a, seps);
    if b.len() == 0 {
        assert(a + seq![c] + b =~= a.push(c));
        assert(a.push(c).drop_last() =~= a);
        assert(x.push(Seq::empty()) =~= x + seq![Seq::<char>::empty()]);
    } else {
        let b0 = b.drop_last();
        lemma_split_by_sep(a, c, b0, seps);
        let s = a + seq![c] + b;
        assert(s.drop_last() =~= a + seq![c] + b0);
        assert(s.last() == b.last());
        lemma_split_by_nonempty(b0, seps);
        let y = split_by(b0, seps);
        if seps.contains(b.last()) {
            assert((x + y).push(Seq::empty()) =~= x + y.push(Seq::empty()));
        } else {
            assert((x + y).update((x + y).len() - 1, (x + y).last().push(b.last())) =~= x
                + y.update(y.len() - 1, y.last().push(b.last())));
        }
    }
}

/// Without separators a sequence is a single piece.
pub proof fn lemma_split_by_plain(s: Seq<char>, seps: Seq<char>)
    requires
        free_of(s, seps),
    ensures
        split_by(s, seps) == seq![s],
{
    lemma_split_by_append_plain(Seq::empty(), s, seps);
    assert(Seq::<char>::empty() + s =~= s);
    assert(seq![Seq::<char>::empty()].update(0, Seq::<char>::empty() + s) =~= seq![s]);
}

/// `concat` over two halves.
pub proof fn lemma_concat_append(x: Seq<Seq<char>>, y: Seq<Seq<char>>)
    ensures
        concat(x + y) == concat(x) + concat(y),
    decreases y.len(),
{
    if y.len() == 0 {
        assert(x + y =~= x);
        assert(concat(x) + Seq::<char>::empty() =~= concat(x));
    } else {
        lemma_concat_append(x, y.drop_last());
        assert((x + y).drop_last() =~= x + y.drop_last());
        assert((x + y).last() == y.last());
        assert(concat(x) + concat(y.drop_last()) + y.last() =~= concat(x) + (concat(y.drop_last())
            + y.last()));
    }
}

/// Text made of the given lines, each ended by a line break.
pub open spec fn lines_text(lines: Seq<Seq<char>>) -> Seq<char> {
    concat(lines.map_values(|l: Seq<char>| l + "\n"@))
}

/// `lines_text` over two halves.
pub proof fn lemma_lines_text_append(x: Seq<Seq<char>>, y: Seq<Seq<char>>)
    ensures
        lines_text(x + y) == lines_text(x) + lines_text(y),
{
    let f = |l: Seq<char>| l + "\n"@;
    assert((x + y).map_values(f) =~= x.map_values(f) + y.map_values(f));
    lemma_concat_append(x.map_values(f), y.map_values(f));
}

/// `lines_text` of a single line.
pub proof fn lemma_lines_text_one(l: Seq<char>)
    ensures
        lines_text(seq![l]) == l + "\n"@,
{
    let m = seq![l].map_values(|l: Seq<char>| l + "\n"@);
    assert(m.drop_last() =~= Seq::<Seq<char>>::empty());
    assert(concat(m) == concat(m.drop_last()) + m.last());
    assert(Seq::<char>::empty() + (l + "\n"@) =~= l + "\n"@);
}

/// Splitting text made of single-line lines at line breaks gives the lines
/// back, followed by an empty last piece.
pub proof fn lemma_split_lines_text(lines: Seq<Seq<char>>)
    requires
        forall|i: int| 0 <= i < lines.len() ==> free_of(#[trigger] lines[i], seq!['\n']),
    ensures
        split_by(lines_text(lines), seq!['\n']) == lines.push(Seq::empty()),
    decreases lines.len(),
{
    reveal_strlit("\n");
    let f = |l: Seq<char>| l + "\n"@;
    if lines.len() == 0 {
        assert(lines.map_values(f) =~= Seq::<Seq<char>>::empty());
        assert(lines.push(Seq::empty()) =~= seq![Seq::<char>::empty()]);
    } else {
        let pre = lines.drop_last();
        assert forall|i: int| 0 <= i < pre.len() implies free_of(#[trigger] pre[i], seq!['\n']) by {
            assert(pre[i] == lines[i]);
        }
        lemma_split_lines_text(pre);
        assert(lines.map_values(f).drop_last() =~= pre.map_values(f));
        let x = lines_text(pre);
        let l = lines.last();
        assert(lines_text(lines) == x + (l + "\n"@));
        assert(x + (l + "\n"@) =~= (x + l).push('\n'));
        assert((x + l).push('\n').drop_last() =~= x + l);
        assert(seq!['\n'].contains('\n')) by {
            assert(seq!['\n'][0] == '\n');
        }
        assert(free_of(l, seq!['\n']));
        lemma_split_by_append_plain(x, l, seq!['\n']);
        assert(pre.push(Seq::empty()).update(pre.len() as int, Seq::<char>::empty() + l)
            =~= lines);
    }
}

/// Views of a sequence of strings.
pub open spec fn views(v: Seq<String>) -> Seq<Seq<char>> {
    v.map_values(|s: String| s@)
}

/// Views of a sequence of character vectors.
pub open spec fn vviews(v: Seq<Vec<char>>) -> Seq<Seq<char>> {
    v.map_values(|s: Vec<char>| s@)
}

pub fn in_set(c: char, set: &[char]) -> (r: bool)
    ensures
        r == set@.contains(c),
{
    let mut i: usize = 0;
    while i < set.len()
        invariant
            i <= set@.len(),
            forall|j: int| 0 <= j < i ==> set@[j] != c,
        decreases set@.len() - i,
    {
        if set[i] == c {
            return true;
        }
        i = i + 1;
    }
    false
}

/// `split_by` over a character vector.
pub fn split_chars(s: &[char], seps: &[char]) -> (r: Vec<Vec<char>>)
    ensures
        vviews(r@) == split_by(s@, seps@),
{
    let mut pieces: Vec<Vec<char>> = Vec::new();
    let mut cur: Vec<char> = Vec::new();
    let mut i: usize = 0;
    while i < s.len()
        invariant
            i <= s@.len(),
            vviews(pieces@).push(cur@) == split_by(s@.take(i as int), seps@),
        decreases s@.len() - i,
    {
        let c = s[i];
        let ghost pre = split_by(s@.take(i as int), seps@);
        assert(s@.take(i + 1).drop_last() =~= s@.take(i as int));
        if in_set(c, seps) {
            let done = cur;
            pieces.push(done);
            cur = Vec::new();
            assert(vviews(pieces@) =~= pre);
            assert(vviews(pieces@).push(cur@) =~= pre.push(Seq::empty()));
        } else {
            cur.push(c);
            assert(vviews(pieces@).push(cur@) =~= pre.update(pre.len() - 1, pre.last().push(c)));
        }
        i = i + 1;
    }
    assert(s@.take(s@.len() as int) =~= s@);
    pieces.push(cur);
    assert(vviews(pieces@) =~= split_by(s@, seps@));
    pieces
}

/// `[T]::join(sep)` on strings.
pub open spec fn join_sep(parts: Seq<Seq<char>>, sep: Seq<char>) -> Seq<char>
    decreases parts.len(),
{
    if parts.len() == 0 {
        Seq::empty()
    } else if parts.len() == 1 {
        parts[0]
    } else {
        join_sep(parts.drop_last(), sep) + sep + parts.last()
    }
}

/// Joins strings with a separator.
pub fn join_strings(parts: &[String], sep: &str) -> (r: String)
    ensures
        r@ == join_sep(views(parts@), sep@),
{
    let mut out = String::new();
    let mut i: usize = 0;
    while i < parts.len()
        invariant
            i <= parts@.len(),
            out@ == join_sep(views(parts@.take(i as int)), sep@),
        decreases parts@.len() - i,
    {
        let ghost before = out@;
        assert(views(parts@.take(i + 1)).drop_last() =~= views(parts@.take(i as int)));
        if i > 0 {
            out.append(sep);
        }
        out.append(parts[i].as_str());
        i = i + 1;
        proof {
            let vs = views(parts@.take(i as int));
            assert(vs.last() == parts@[i - 1]@);
            if i == 1 {
                assert(before =~= Seq::<char>::empty());
                assert(out@ =~= vs[0]);
            }
        }
    }
    assert(parts@.take(parts@.len() as int) =~= parts@);
    out
}

// ---------------------------------------------------------------------------
// Decimal rendering
// ---------------------------------------------------------------------------

pub open spec fn digit_char(d: int) -> char {
    if d == 0 {
        '0'
    } else if d == 1 {
        '1'
    } else if d == 2 {
        '2'
    } else if d == 3 {
        '3'
    } else if d == 4 {
        '4'
    } else if d == 5 {
        '5'
    } else if d == 6 {
        '6'
    } else if d == 7 {
        '7'
    } else if d == 8 {
        '8'
    } else {
        '9'
    }
}

/// Base-10 rendering of a natural number (`format!("{}", n)`).
pub open spec fn decimal(n: nat) -> Seq<char>
    decreases n,
{
    if n < 10 {
        seq![digit_char(n as int)]
    } else {
        decimal(n / 10).push(digit_char((n % 10) as int))
    }
}

/// Left-padding with `'0'` up to `width` characters (`{:0width$}`).
pub open spec fn zero_pad(s: Seq<char>, width: nat) -> Seq<char> {
    if s.len() >= width {
        s
    } else {
        Seq::new((width - s.len()) as nat, |i: int| '0') + s
    }
}

fn digit_exec(d: u64) -> (c: char)
    requires
        d < 10,
    ensures
        c == digit_char(d as int),
{
    if d == 0 {
        '0'
    } else if d == 1 {
        '1'
    } else if d == 2 {
        '2'
    } else if d == 3 {
        '3'
    } else if d == 4 {
        '4'
    } else if d == 5 {
        '5'
    } else if d == 6 {
        '6'
    } else if d == 7 {
        '7'
    } else if d == 8 {
        '8'
    } else {
        '9'
    }
}

/// Decimal digits of `n`.
pub fn decimal_chars(n: u64) -> (r: Vec<char>)
    ensures
        r@ == decimal(n as nat),
    decreases n,
{
    if n < 10 {
        let mut v: Vec<char> = Vec::new();
        v.push(digit_exec(n));
        assert(v@ =~= seq![digit_char(n as int)]);
        v
    } else {
        let mut v = decimal_chars(n / 10);
        v.push(digit_exec(n % 10));
        v
    }
}

/// Decimal digits of `n`, left-padded with zeros to `width`.
pub fn zero_padded_chars(n: u64, width: usize) -> (r: Vec<char>)
    ensures
        r@ == zero_pad(decimal(n as nat), width as nat),
{
    let d = decimal_chars(n);
    if d.len() >= width {
        return d;
    }
    let mut r: Vec<char> = Vec::new();
    let pad = width - d.len();
    let mut i: usize = 0;
    while i < pad
        invariant
            i <= pad,
            r@ == Seq::new(i as nat, |k: int| '0'),
        decreases pad - i,
    {
        r.push('0');
        i = i + 1;
        assert(r@ =~= Seq::new(i as nat, |k: int| '0'));
    }
    let mut j: usize = 0;
    let ghost zeros = r@;
    while j < d.len()
        invariant
            j <= d@.len(),
            r@ == zeros + d@.take(j as int),
        decreases d@.len() - j,
    {
        r.push(d[j]);
        j = j + 1;
        assert(r@ =~= zeros + d@.take(j as int));
    }
    assert(d@.take(d@.len() as int) =~= d@);
    r
}


/// Character-wise equality of two vectors.
pub fn chars_eq(a: &[char], b: &[char]) -> (r: bool)
    ensures
        r == (a@ == b@),
{
    if a.len() != b.len() {
        return false;
    }
    let mut i: usize = 0;
    while i < a.len()
        invariant
            i <= a@.len() == b@.len(),
            forall|j: int| 0 <= j < i ==> a@[j] == b@[j],
        decreases a@.len() - i,
    {
        if a[i] != b[i] {
            return false;
        }
        i = i + 1;
    }
    assert(a@ =~= b@);
    true
}

/// Whether `s` contains the string `p`.
pub fn str_contains(s: &str, p: &str) -> (r: bool)
    ensures
        r == contains(s@, p@),
{
    let sv = chars_of(s);
    let pv = chars_of(p);
    contains_chars(&sv, &pv)
}

/// Whether two strings are equal.
pub fn str_eq(a: &str, b: &str) -> (r: bool)
    ensures
        r == (a@ == b@),
{
    let av = chars_of(a);
    let bv = chars_of(b);
    chars_eq(&av, &bv)
}

/// Concatenation of a sequence of strings.
pub open spec fn concat(parts: Seq<Seq<char>>) -> Seq<char>
    decreases parts.len(),
{
    if parts.len() == 0 {
        Seq::empty()
    } else {
        concat(parts.drop_last()) + parts.last()
    }
}


// ---------------------------------------------------------------------------
// Trimming a given character
// ---------------------------------------------------------------------------

/// Index of the first character at or after `i` that is not `c`.
pub open spec fn lead_end_of(s: Seq<char>, c: char, i: int) -> int
    decreases s.len() - i,
{
    if i < 0 || i >= s.len() {
        s.len() as int
    } else if s[i] == c {
        lead_end_of(s, c, i + 1)
    } else {
        i
    }
}

/// Length of `s.take(j)` once its trailing `c` characters are removed.
pub open spec fn tail_end_of(s: Seq<char>, c: char, j: int) -> int
    decreases j,
{
    if j <= 0 || j > s.len() {
        0
    } else if s[j - 1] == c {
        tail_end_of(s, c, j - 1)
    } else {
        j
    }
}

/// `str::trim_matches(c)`: every leading and trailing `c` removed.
pub open spec fn trim_char(s: Seq<char>, c: char) -> Seq<char> {
    let t = s.subrange(lead_end_of(s, c, 0), s.len() as int);
    t.subrange(0, tail_end_of(t, c, t.len() as int))
}

pub proof fn lemma_lead_end_of_bounds(s: Seq<char>, c: char, i: int)
    requires
        0 <= i <= s.len(),
    ensures
        i <= lead_end_of(s, c, i) <= s.len(),
    decreases s.len() - i,
{
    if i < s.len() && s[i] == c {
        lemma_lead_end_of_bounds(s, c, i + 1);
    }
}

pub proof fn lemma_tail_end_of_bounds(s: Seq<char>, c: char, j: int)
    requires
        0 <= j <= s.len(),
    ensures
        0 <= tail_end_of(s, c, j) <= j,
    decreases j,
{
    if j > 0 && s[j - 1] == c {
        lemma_tail_end_of_bounds(s, c, j - 1);
    }
}

/// `trim_char` of a character vector, copied out.
pub fn trim_char_vec(s: &[char], c: char) -> (r: Vec<char>)
    ensures
        r@ == trim_char(s@, c),
{
    let n = s.len();
    let mut a: usize = 0;
    while a < n && s[a] == c
        invariant
            a <= n == s@.len(),
            lead_end_of(s@, c, 0) == lead_end_of(s@, c, a as int),
        decreases n - a,
    {
        a = a + 1;
    }
    let ghost t = s@.subrange(a as int, n as int);
    let mut b: usize = n;
    while b > a && s[b - 1] == c
        invariant
            a <= b <= n == s@.len(),
            t == s@.subrange(a as int, n as int),
            tail_end_of(t, c, (b - a) as int) == tail_end_of(t, c, t.len() as int),
        decreases b,
    {
        assert(t[(b - a - 1) as int] == s@[b - 1]);
        b = b - 1;
    }
    proof {
        if b > a {
            assert(t[(b - a - 1) as int] == s@[b - 1]);
        }
        assert(tail_end_of(t, c, (b - a) as int) == (b - a) as int);
        assert(t.subrange(0, (b - a) as int) =~= s@.subrange(a as int, b as int));
    }
    copy_range(s, a, b)
}

// ---------------------------------------------------------------------------
// Lowercasing
// ---------------------------------------------------------------------------

/// What `str::to_lowercase` returns for a string with these characters.
pub uninterp spec fn str_lowercase(s: Seq<char>) -> Seq<char>;

/// Characters of `str::to_lowercase(s)`: the Unicode lowercase mapping,
/// which depends on `s` alone (no locale). Nothing more is stated of it.
#[verifier::external_body]
pub(crate) fn lowercase_chars(s: &str) -> (r: Vec<char>)
    ensures
        r@ == str_lowercase(s@),
{
    s.to_lowercase().chars().collect()
}

} // verus!
