//! Character-level string toolkit shared by the parsers: whitespace
//! trimming, substring search, splitting, decimal parsing and printing.
//!
//! Every operation works on `Seq<char>` in its specification, which is the
//! view vstd gives to `String` and `&str`.

use vstd::prelude::*;

verus! {

// ---------------------------------------------------------------------------
// Building and reading strings
// ---------------------------------------------------------------------------

/// Appends one character to a `String` (std's `String::push`).
#[verifier::external_body]
pub(crate) fn push_char(s: &mut String, c: char)
    ensures
        final(s)@ == old(s)@.push(c),
{
    s.push(c);
}

/// The characters of `s`, in order.
pub fn chars_of(s: &str) -> (v: Vec<char>)
    ensures
        v@ == s@,
{
    let n = s.unicode_len();
    let mut v: Vec<char> = Vec::new();
    let mut i: usize = 0;
    while i < n
        invariant
            n == s@.len(),
            i <= n,
            v@ == s@.take(i as int),
        decreases n - i,
    {
        let c = s.get_char(i);
        v.push(c);
        i = i + 1;
        assert(v@ =~= s@.take(i as int));
    }
    assert(v@ =~= s@);
    v
}

/// The string made of `v[start..end]`.
pub fn string_of_range(v: &Vec<char>, start: usize, end: usize) -> (s: String)
    requires
        start <= end <= v.len(),
    ensures
        s@ == v@.subrange(start as int, end as int),
{
    let mut s = String::new();
    let mut i: usize = start;
    while i < end
        invariant
            start <= i <= end <= v.len(),
            s@ == v@.subrange(start as int, i as int),
        decreases end - i,
    {
        push_char(&mut s, v[i]);
        i = i + 1;
        assert(s@ =~= v@.subrange(start as int, i as int));
    }
    s
}

/// The string made of all of `v`.
pub fn string_of(v: &Vec<char>) -> (s: String)
    ensures
        s@ == v@,
{
    let s = string_of_range(v, 0, v.len());
    assert(v@.subrange(0, v@.len() as int) =~= v@);
    s
}

/// The character sequences of a list of strings.
pub open spec fn strings_view(v: Seq<String>) -> Seq<Seq<char>> {
    v.map_values(|s: String| s@)
}

pub proof fn lemma_strings_view_push(v: Seq<String>, s: String)
    ensures
        strings_view(v.push(s)) == strings_view(v).push(s@),
{
    assert(strings_view(v.push(s)) =~= strings_view(v).push(s@));
}

/// The characters of an optional string.
pub open spec fn opt_chars(o: Option<String>) -> Option<Seq<char>> {
    match o {
        Some(s) => Some(s@),
        None => None,
    }
}

/// Equality of two optional strings.
pub fn opt_str_eq(a: &Option<String>, b: &Option<String>) -> (r: bool)
    ensures
        r == (opt_chars(*a) == opt_chars(*b)),
{
    match (a, b) {
        (Some(x), Some(y)) => str_eq(x.as_str(), y.as_str()),
        (None, None) => true,
        _ => false,
    }
}

/// A copy of `s` (std's `String::clone`, whose result equals its argument).
pub fn copy_string(s: &String) -> (r: String)
    ensures
        r@ == s@,
{
    s.clone()
}

/// Structural equality of two strings.
pub fn str_eq(a: &str, b: &str) -> (r: bool)
    ensures
        r == (a@ == b@),
{
    let av = chars_of(a);
    let bv = chars_of(b);
    chars_eq(&av, &bv)
}

/// Equality of two character vectors.
pub fn chars_eq(a: &Vec<char>, b: &Vec<char>) -> (r: bool)
    ensures
        r == (a@ == b@),
{
    if a.len() != b.len() {
        return false;
    }
    let mut i: usize = 0;
    while i < a.len()
        invariant
            a.len() == b.len(),
            i <= a.len(),
            a@.take(i as int) == b@.take(i as int),
        decreases a.len() - i,
    {
        if a[i] != b[i] {
            assert(a@[i as int] != b@[i as int]);
            return false;
        }
        assert(a@.take(i + 1) =~= a@.take(i as int).push(a@[i as int]));
        assert(b@.take(i + 1) =~= b@.take(i as int).push(b@[i as int]));
        i = i + 1;
    }
    assert(a@ =~= a@.take(a.len() as int));
    assert(b@ =~= b@.take(b.len() as int));
    true
}

// ---------------------------------------------------------------------------
// Whitespace and trimming
// ---------------------------------------------------------------------------

/// Unicode `White_Space`, the set of characters `char::is_whitespace` accepts.
pub open spec fn is_ws(c: char) -> bool {
    let u = c as u32;
    (0x9 <= u <= 0xd) || u == 0x20 || u == 0x85 || u == 0xa0 || u == 0x1680 || (0x2000 <= u
        <= 0x200a) || u == 0x2028 || u == 0x2029 || u == 0x202f || u == 0x205f || u == 0x3000
}

pub fn is_whitespace(c: char) -> (b: bool)
    ensures
        b == is_ws(c),
{
    let u = c as u32;
    (0x9 <= u && u <= 0xd) || u == 0x20 || u == 0x85 || u == 0xa0 || u == 0x1680 || (0x2000 <= u
        && u <= 0x200a) || u == 0x2028 || u == 0x2029 || u == 0x202f || u == 0x205f || u == 0x3000
}

/// Number of leading whitespace characters.
pub open spec fn ws_prefix_len(s: Seq<char>) -> nat
    decreases s.len(),
{
    if s.len() > 0 && is_ws(s[0]) {
        1 + ws_prefix_len(s.drop_first())
    } else {
        0
    }
}

/// Number of trailing whitespace characters.
pub open spec fn ws_suffix_len(s: Seq<char>) -> nat
    decreases s.len(),
{
    if s.len() > 0 && is_ws(s.last()) {
        1 + ws_suffix_len(s.drop_last())
    } else {
        0
    }
}

/// `s` without its leading and trailing whitespace (`str::trim`).
pub open spec fn trim(s: Seq<char>) -> Seq<char> {
    let t = s.skip(ws_prefix_len(s) as int);
    t.take(t.len() - ws_suffix_len(t))
}

pub proof fn lemma_ws_prefix_bound(s: Seq<char>)
    ensures
        ws_prefix_len(s) <= s.len(),
    decreases s.len(),
{
    if s.len() > 0 && is_ws(s[0]) {
        lemma_ws_prefix_bound(s.drop_first());
    }
}

pub proof fn lemma_ws_suffix_bound(s: Seq<char>)
    ensures
        ws_suffix_len(s) <= s.len(),
    decreases s.len(),
{
    if s.len() > 0 && is_ws(s.last()) {
        lemma_ws_suffix_bound(s.drop_last());
    }
}

/// Bounds `(start, end)` such that `v[start..end]` is `trim(v[from..to])`.
pub fn trim_bounds(v: &Vec<char>, from: usize, to: usize) -> (r: (usize, usize))
    requires
        from <= to <= v.len(),
    ensures
        from <= r.0 <= r.1 <= to,
        v@.subrange(r.0 as int, r.1 as int) == trim(v@.subrange(from as int, to as int)),
{
    let ghost s = v@.subrange(from as int, to as int);
    let mut start = from;
    while start < to && is_whitespace(v[start])
        invariant
            from <= start <= to <= v.len(),
            s == v@.subrange(from as int, to as int),
            ws_prefix_len(s) == (start - from) + ws_prefix_len(
                v@.subrange(start as int, to as int),
            ),
        decreases to - start,
    {
        assert(v@.subrange(start as int, to as int).drop_first() =~= v@.subrange(
            start + 1,
            to as int,
        ));
        start = start + 1;
    }
    proof {
        let rest = v@.subrange(start as int, to as int);
        assert(ws_prefix_len(rest) == 0);
        lemma_ws_prefix_bound(s);
        assert(s.skip(ws_prefix_len(s) as int) =~= rest);
    }
    let ghost t = v@.subrange(start as int, to as int);
    let mut end = to;
    while end > start && is_whitespace(v[end - 1])
        invariant
            from <= start <= end <= to <= v.len(),
            t == v@.subrange(start as int, to as int),
            ws_suffix_len(t) == (to - end) + ws_suffix_len(v@.subrange(start as int, end as int)),
        decreases end - start,
    {
        assert(v@.subrange(start as int, end as int).drop_last() =~= v@.subrange(
            start as int,
            end - 1,
        ));
        end = end - 1;
    }
    proof {
        let rest = v@.subrange(start as int, end as int);
        assert(ws_suffix_len(rest) == 0);
        lemma_ws_suffix_bound(t);
        assert(t.take(t.len() - ws_suffix_len(t)) =~= rest);
    }
    (start, end)
}

// ---------------------------------------------------------------------------
// Substring search
// ---------------------------------------------------------------------------

/// `p` occurs in `s` starting at index `i`.
pub open spec fn matches_at(s: Seq<char>, p: Seq<char>, i: int) -> bool {
    0 <= i && i + p.len() <= s.len() && s.subrange(i, i + p.len()) == p
}

/// The first occurrence of `p` in `s` at or after `i`.
pub open spec fn find_from(s: Seq<char>, p: Seq<char>, i: int) -> Option<int>
    decreases s.len() + 1 - i,
{
    if i < 0 || i + p.len() > s.len() {
        None
    } else if matches_at(s, p, i) {
        Some(i)
    } else {
        find_from(s, p, i + 1)
    }
}

/// The first occurrence of `p` in `s`.
pub open spec fn find(s: Seq<char>, p: Seq<char>) -> Option<int> {
    find_from(s, p, 0)
}

/// The last occurrence of `p` in `s` at or before `i`.
pub open spec fn rfind_before(s: Seq<char>, p: Seq<char>, i: int) -> Option<int>
    decreases i + 1,
{
    if i < 0 {
        None
    } else if matches_at(s, p, i) {
        Some(i)
    } else {
        rfind_before(s, p, i - 1)
    }
}

/// The last occurrence of `p` in `s`.
pub open spec fn rfind(s: Seq<char>, p: Seq<char>) -> Option<int> {
    rfind_before(s, p, s.len() - p.len())
}

/// `str::split_once`: the parts before and after the first `p`.
pub open spec fn split_once(s: Seq<char>, p: Seq<char>) -> Option<(Seq<char>, Seq<char>)> {
    match find(s, p) {
        Some(i) => Some((s.take(i), s.skip(i + p.len()))),
        None => None,
    }
}

/// `str::rsplit_once`: the parts before and after the last `p`.
pub open spec fn rsplit_once(s: Seq<char>, p: Seq<char>) -> Option<(Seq<char>, Seq<char>)> {
    match rfind(s, p) {
        Some(i) => Some((s.take(i), s.skip(i + p.len()))),
        None => None,
    }
}

pub proof fn lemma_find_from_bounds(s: Seq<char>, p: Seq<char>, i: int)
    requires
        0 <= i,
    ensures
        find_from(s, p, i) matches Some(k) ==> i <= k && matches_at(s, p, k) && forall|j: int|
            i <= j < k ==> !matches_at(s, p, j),
        find_from(s, p, i) is None ==> forall|j: int| i <= j ==> !matches_at(s, p, j),
    decreases s.len() + 1 - i,
{
    if i < 0 || i + p.len() > s.len() {
    } else if matches_at(s, p, i) {
    } else {
        lemma_find_from_bounds(s, p, i + 1);
    }
}

pub proof fn lemma_rfind_before_bounds(s: Seq<char>, p: Seq<char>, i: int)
    ensures
        rfind_before(s, p, i) matches Some(k) ==> k <= i && matches_at(s, p, k) && forall|j: int|
            k < j <= i ==> !matches_at(s, p, j),
        rfind_before(s, p, i) is None ==> forall|j: int| j <= i ==> !matches_at(s, p, j),
    decreases i + 1,
{
    if i >= 0 && !matches_at(s, p, i) {
        lemma_rfind_before_bounds(s, p, i - 1);
    }
}

/// Whether `p` occurs in `v[from..to]` at absolute index `i`.
fn matches_here(v: &Vec<char>, from: usize, to: usize, p: &Vec<char>, i: usize) -> (r: bool)
    requires
        from <= i,
        from <= to <= v.len(),
    ensures
        r == matches_at(v@.subrange(from as int, to as int), p@, i - from),
{
    let ghost s = v@.subrange(from as int, to as int);
    if i > to || p.len() > to - i {
        return false;
    }
    let mut k: usize = 0;
    while k < p.len()
        invariant
            from <= i <= to <= v.len(),
            p.len() <= to - i,
            k <= p.len(),
            s == v@.subrange(from as int, to as int),
            forall|j: int| 0 <= j < k ==> v@[i + j] == p@[j],
        decreases p.len() - k,
    {
        if v[i + k] != p[k] {
            assert(s.subrange(i - from, i - from + p.len())[k as int] != p@[k as int]);
            return false;
        }
        k = k + 1;
    }
    assert(s.subrange(i - from, i - from + p.len()) =~= p@);
    true
}

/// Absolute index of the first `p` inside `v[from..to]`.
pub fn find_in(v: &Vec<char>, from: usize, to: usize, p: &Vec<char>) -> (r: Option<usize>)
    requires
        from <= to <= v.len(),
    ensures
        match r {
            Some(i) => find(v@.subrange(from as int, to as int), p@) == Some(i - from) && from
                <= i,
            None => find(v@.subrange(from as int, to as int), p@) is None,
        },
{
    let ghost s = v@.subrange(from as int, to as int);
    let mut i = from;
    loop
        invariant
            from <= i <= to,
            from <= to <= v.len(),
            s == v@.subrange(from as int, to as int),
            find(s, p@) == find_from(s, p@, i - from),
        decreases to - i,
    {
        if p.len() > to - i {
            return None;
        }
        if matches_here(v, from, to, p, i) {
            return Some(i);
        }
        proof {
            if p.len() == 0 {
                assert(s.subrange(i - from, i - from) =~= p@);
            }
        }
        i = i + 1;
    }
}

/// Whether `p` occurs in `s` (`str::contains`).
pub fn contains_str(s: &str, p: &str) -> (r: bool)
    ensures
        r == find(s@, p@) is Some,
{
    let v = chars_of(s);
    let pv = chars_of(p);
    assert(v@.subrange(0, v@.len() as int) =~= s@);
    find_in(&v, 0, v.len(), &pv).is_some()
}

/// Absolute index of the last `p` inside `v[from..to]`.
pub fn rfind_in(v: &Vec<char>, from: usize, to: usize, p: &Vec<char>) -> (r: Option<usize>)
    requires
        from <= to <= v.len(),
    ensures
        match r {
            Some(i) => rfind(v@.subrange(from as int, to as int), p@) == Some(i - from) && from
                <= i,
            None => rfind(v@.subrange(from as int, to as int), p@) is None,
        },
{
    let ghost s = v@.subrange(from as int, to as int);
    if p.len() > to - from {
        return None;
    }
    let mut i = to - p.len();
    loop
        invariant
            from <= i <= to,
            from <= to <= v.len(),
            i + p.len() <= to,
            s == v@.subrange(from as int, to as int),
            rfind(s, p@) == rfind_before(s, p@, i - from),
        decreases i,
    {
        if matches_here(v, from, to, p, i) {
            return Some(i);
        }
        if i == from {
            assert(rfind_before(s, p@, -1) is None);
            return None;
        }
        i = i - 1;
    }
}

// ---------------------------------------------------------------------------
// Splitting on separators
// ---------------------------------------------------------------------------

/// Pieces of `s` split on `a` and `b`, the current piece starting as `cur`.
pub open spec fn split_acc(cur: Seq<char>, s: Seq<char>, a: char, b: char) -> Seq<Seq<char>>
    decreases s.len(),
{
    if s.len() == 0 {
        seq![cur]
    } else if s[0] == a || s[0] == b {
        seq![cur] + split_acc(Seq::empty(), s.drop_first(), a, b)
    } else {
        split_acc(cur.push(s[0]), s.drop_first(), a, b)
    }
}

/// Splitting at a separator between `x` and `y` gives the pieces of `x`
/// followed by those of `y`.
pub proof fn lemma_split_acc_at(cur: Seq<char>, x: Seq<char>, y: Seq<char>, a: char, b: char)
    ensures
        split_acc(cur, x + seq![a] + y, a, b) == split_acc(cur, x, a, b) + split_acc(
            Seq::empty(),
            y,
            a,
            b,
        ),
    decreases x.len(),
{
    let s = x + seq![a] + y;
    if x.len() == 0 {
        assert(s.drop_first() =~= y);
    } else {
        assert(s[0] == x[0]);
        assert(s.drop_first() =~= x.drop_first() + seq![a] + y);
        if x[0] == a || x[0] == b {
            lemma_split_acc_at(Seq::empty(), x.drop_first(), y, a, b);
            assert(seq![cur] + split_acc(Seq::empty(), s.drop_first(), a, b) =~= seq![cur]
                + split_acc(Seq::empty(), x.drop_first(), a, b) + split_acc(Seq::empty(), y, a, b));
        } else {
            lemma_split_acc_at(cur.push(x[0]), x.drop_first(), y, a, b);
        }
    }
}

/// There is always at least one piece.
pub proof fn lemma_split_acc_nonempty(cur: Seq<char>, s: Seq<char>, a: char, b: char)
    ensures
        split_acc(cur, s, a, b).len() >= 1,
    decreases s.len(),
{
    if s.len() > 0 {
        if s[0] == a || s[0] == b {
            lemma_split_acc_nonempty(Seq::empty(), s.drop_first(), a, b);
        } else {
            lemma_split_acc_nonempty(cur.push(s[0]), s.drop_first(), a, b);
        }
    }
}

/// Without a separator, the piece is all of it.
pub proof fn lemma_split_acc_whole(cur: Seq<char>, s: Seq<char>, a: char, b: char)
    requires
        forall|i: int| 0 <= i < s.len() ==> #[trigger] s[i] != a && s[i] != b,
    ensures
        split_acc(cur, s, a, b) == seq![cur + s],
    decreases s.len(),
{
    if s.len() == 0 {
        assert(cur + s =~= cur);
    } else {
        assert(s[0] != a && s[0] != b);
        lemma_split_acc_whole(cur.push(s[0]), s.drop_first(), a, b);
        assert(cur.push(s[0]) + s.drop_first() =~= cur + s);
    }
}

/// A character that is not a separator, appended, extends the last piece.
pub proof fn lemma_split_acc_push(cur: Seq<char>, s: Seq<char>, c: char, a: char, b: char)
    requires
        c != a && c != b,
    ensures
        split_acc(cur, s.push(c), a, b) == split_acc(cur, s, a, b).drop_last().push(
            split_acc(cur, s, a, b).last().push(c),
        ),
    decreases s.len(),
{
    let t = s.push(c);
    if s.len() == 0 {
        assert(t[0] == c);
        assert(t.drop_first() =~= Seq::<char>::empty());
        assert(split_acc(cur.push(c), Seq::<char>::empty(), a, b) == seq![cur.push(c)]);
        assert(split_acc(cur, t, a, b) == seq![cur.push(c)]);
        assert(split_acc(cur, s, a, b) == seq![cur]);
        assert(seq![cur].drop_last().push(cur.push(c)) =~= seq![cur.push(c)]);
    } else {
        assert(t[0] == s[0]);
        assert(t.drop_first() =~= s.drop_first().push(c));
        if s[0] == a || s[0] == b {
            lemma_split_acc_push(Seq::empty(), s.drop_first(), c, a, b);
            lemma_split_acc_nonempty(Seq::empty(), s.drop_first(), a, b);
            let x = split_acc(Seq::empty(), s.drop_first(), a, b);
            assert((seq![cur] + x).drop_last() =~= seq![cur] + x.drop_last());
            assert((seq![cur] + x).last() == x.last());
            assert(seq![cur] + x.drop_last().push(x.last().push(c)) =~= (seq![cur]
                + x.drop_last()).push(x.last().push(c)));
        } else {
            lemma_split_acc_push(cur.push(s[0]), s.drop_first(), c, a, b);
            assert(split_acc(cur, t, a, b) == split_acc(cur.push(s[0]), s.drop_first().push(c), a, b));
            assert(split_acc(cur, s, a, b) == split_acc(cur.push(s[0]), s.drop_first(), a, b));
        }
    }
}

/// A separator, appended, starts a new empty piece.
pub proof fn lemma_split_acc_push_sep(cur: Seq<char>, s: Seq<char>, a: char, b: char)
    ensures
        split_acc(cur, s.push(a), a, b) == split_acc(cur, s, a, b).push(Seq::empty()),
{
    lemma_split_acc_at(cur, s, Seq::empty(), a, b);
    assert(s + seq![a] + Seq::<char>::empty() =~= s.push(a));
    assert(split_acc(Seq::empty(), Seq::<char>::empty(), a, b) == seq![Seq::<char>::empty()]);
}

/// `str::split(c)`: the pieces between the occurrences of `c`.
pub open spec fn split_char(s: Seq<char>, c: char) -> Seq<Seq<char>> {
    split_acc(Seq::empty(), s, c, c)
}

/// `str::split([a, b])`: the pieces between the occurrences of `a` or `b`.
pub open spec fn split_either(s: Seq<char>, a: char, b: char) -> Seq<Seq<char>> {
    split_acc(Seq::empty(), s, a, b)
}

/// The pieces of `v` split on `c`, as index ranges.
pub fn split_ranges(v: &Vec<char>, c: char) -> (r: Vec<(usize, usize)>)
    ensures
        r@.len() == split_char(v@, c).len(),
        forall|k: int|
            0 <= k < r@.len() ==> (#[trigger] r@[k]).0 <= r@[k].1 <= v.len() && v@.subrange(
                r@[k].0 as int,
                r@[k].1 as int,
            ) == split_char(v@, c)[k],
{
    split_ranges_either(v, c, c)
}

/// The pieces of `v` split on `a` and `b`, as index ranges.
pub fn split_ranges_either(v: &Vec<char>, a: char, b: char) -> (r: Vec<(usize, usize)>)
    ensures
        r@.len() == split_either(v@, a, b).len(),
        forall|k: int|
            0 <= k < r@.len() ==> (#[trigger] r@[k]).0 <= r@[k].1 <= v.len() && v@.subrange(
                r@[k].0 as int,
                r@[k].1 as int,
            ) == split_either(v@, a, b)[k],
{
    let mut r: Vec<(usize, usize)> = Vec::new();
    let mut start: usize = 0;
    let mut i: usize = 0;
    let ghost piece = |p: (usize, usize)| v@.subrange(p.0 as int, p.1 as int);
    assert(v@.subrange(0, 0) =~= Seq::<char>::empty());
    assert(v@.skip(0) =~= v@);
    assert(r@.map_values(piece) =~= Seq::<Seq<char>>::empty());
    while i < v.len()
        invariant
            start <= i <= v.len(),
            piece == (|p: (usize, usize)| v@.subrange(p.0 as int, p.1 as int)),
            forall|k: int| 0 <= k < r@.len() ==> (#[trigger] r@[k]).0 <= r@[k].1 <= v.len(),
            split_either(v@, a, b) == r@.map_values(piece) + split_acc(
                v@.subrange(start as int, i as int),
                v@.skip(i as int),
                a,
                b,
            ),
        decreases v.len() - i,
    {
        let ghost old_r = r@;
        let ghost rest = v@.skip(i as int);
        assert(rest[0] == v@[i as int]);
        assert(rest.drop_first() =~= v@.skip(i + 1));
        if v[i] == a || v[i] == b {
            r.push((start, i));
            assert(r@.map_values(piece) =~= old_r.map_values(piece) + seq![
                v@.subrange(start as int, i as int),
            ]);
            assert(v@.subrange(i + 1, i + 1) =~= Seq::<char>::empty());
            start = i + 1;
        } else {
            assert(v@.subrange(start as int, i as int).push(v@[i as int]) =~= v@.subrange(
                start as int,
                i + 1,
            ));
        }
        i = i + 1;
    }
    let ghost old_r = r@;
    assert(v@.skip(i as int).len() == 0);
    r.push((start, i));
    assert(r@.map_values(piece) =~= old_r.map_values(piece) + seq![
        v@.subrange(start as int, i as int),
    ]);
    assert(split_either(v@, a, b) =~= r@.map_values(piece));
    assert forall|k: int| 0 <= k < r@.len() implies (#[trigger] r@[k]).0 <= r@[k].1 <= v.len()
        && v@.subrange(r@[k].0 as int, r@[k].1 as int) == split_either(v@, a, b)[k] by {
        assert(r@.map_values(piece)[k] == piece(r@[k]));
    }
    r
}

// ---------------------------------------------------------------------------
// Decimal numbers
// ---------------------------------------------------------------------------

pub open spec fn is_digit(c: char) -> bool {
    '0' <= c && c <= '9'
}

pub open spec fn digit_value(c: char) -> nat {
    (c as u32 - '0' as u32) as nat
}

/// The number written by the decimal digits `s`.
pub open spec fn digits_value(s: Seq<char>) -> nat
    decreases s.len(),
{
    if s.len() == 0 {
        0
    } else {
        digits_value(s.drop_last()) * 10 + digit_value(s.last())
    }
}

pub open spec fn all_digits(s: Seq<char>) -> bool {
    forall|i: int| 0 <= i < s.len() ==> is_digit(#[trigger] s[i])
}

/// `str::parse::<u16>`: an optional `+`, then one or more decimal digits
/// whose value fits in 16 bits.
pub open spec fn parse_u16_spec(s: Seq<char>) -> Option<u16> {
    let d = if s.len() > 0 && s[0] == '+' {
        s.drop_first()
    } else {
        s
    };
    if d.len() == 0 || !all_digits(d) || digits_value(d) > 65535 {
        None
    } else {
        Some(digits_value(d) as u16)
    }
}

proof fn lemma_digits_value_grows(s: Seq<char>, k: int)
    requires
        0 <= k <= s.len(),
        all_digits(s),
    ensures
        digits_value(s.take(k)) <= digits_value(s),
    decreases s.len() - k,
{
    if k < s.len() {
        lemma_digits_value_grows(s, k + 1);
        assert(s.take(k + 1).drop_last() =~= s.take(k));
    } else {
        assert(s.take(k) =~= s);
    }
}

/// `str::parse::<u64>`: an optional `+`, then one or more decimal digits
/// whose value fits in 64 bits.
pub open spec fn parse_u64_spec(s: Seq<char>) -> Option<u64> {
    let d = if s.len() > 0 && s[0] == '+' {
        s.drop_first()
    } else {
        s
    };
    if d.len() == 0 || !all_digits(d) || digits_value(d) > u64::MAX {
        None
    } else {
        Some(digits_value(d) as u64)
    }
}

/// `str::parse::<u64>` on `v[from..to]`.
pub fn parse_u64(v: &Vec<char>, from: usize, to: usize) -> (r: Option<u64>)
    requires
        from <= to <= v.len(),
    ensures
        r == parse_u64_spec(v@.subrange(from as int, to as int)),
{
    let ghost s = v@.subrange(from as int, to as int);
    let mut start = from;
    if start < to && v[start] == '+' {
        start = start + 1;
    }
    let ghost d = v@.subrange(start as int, to as int);
    proof {
        if s.len() > 0 && s[0] == '+' {
            assert(s.drop_first() =~= d);
        } else {
            assert(s =~= d);
        }
    }
    if start == to {
        return None;
    }
    let mut value: u128 = 0;
    let mut i = start;
    while i < to
        invariant
            from <= start <= i <= to <= v.len(),
            d == v@.subrange(start as int, to as int),
            s == v@.subrange(from as int, to as int),
            d == (if s.len() > 0 && s[0] == '+' {
                s.drop_first()
            } else {
                s
            }),
            d.len() > 0,
            all_digits(d.take(i - start)),
            value == digits_value(d.take(i - start)),
            value <= u64::MAX,
        decreases to - i,
    {
        let c = v[i];
        if !('0' <= c && c <= '9') {
            assert(d[i - start] == c);
            assert(!is_digit(d[i - start]));
            assert(!all_digits(d));
            return None;
        }
        let dv = ((c as u32) - ('0' as u32)) as u128;
        assert(d.take(i - start + 1).drop_last() =~= d.take(i - start));
        assert(d.take(i - start + 1).last() == c);
        assert(all_digits(d.take(i - start + 1)));
        value = value * 10 + dv;
        i = i + 1;
        assert(value == digits_value(d.take(i - start)));
        if value > u64::MAX as u128 {
            proof {
                let k = i - start;
                if all_digits(d) {
                    lemma_digits_value_grows(d, k);
                    assert(digits_value(d) > u64::MAX);
                }
                assert(parse_u64_spec(s) is None);
            }
            return None;
        }
    }
    assert(d.take(i - start) =~= d);
    Some(value as u64)
}

/// `str::parse::<u16>` on `v[from..to]`.
pub fn parse_u16(v: &Vec<char>, from: usize, to: usize) -> (r: Option<u16>)
    requires
        from <= to <= v.len(),
    ensures
        r == parse_u16_spec(v@.subrange(from as int, to as int)),
{
    let ghost s = v@.subrange(from as int, to as int);
    let mut start = from;
    if start < to && v[start] == '+' {
        start = start + 1;
    }
    let ghost d = v@.subrange(start as int, to as int);
    proof {
        if s.len() > 0 && s[0] == '+' {
            assert(s.drop_first() =~= d);
        } else {
            assert(s =~= d);
        }
    }
    if start == to {
        return None;
    }
    let mut value: u32 = 0;
    let mut i = start;
    while i < to
        invariant
            from <= start <= i <= to <= v.len(),
            d == v@.subrange(start as int, to as int),
            s == v@.subrange(from as int, to as int),
            d == (if s.len() > 0 && s[0] == '+' {
                s.drop_first()
            } else {
                s
            }),
            d.len() > 0,
            all_digits(d.take(i - start)),
            value == digits_value(d.take(i - start)),
            value <= 65535,
        decreases to - i,
    {
        let c = v[i];
        if !('0' <= c && c <= '9') {
            assert(d[i - start] == c);
            assert(!is_digit(d[i - start]));
            assert(!all_digits(d));
            return None;
        }
        let dv = (c as u32) - ('0' as u32);
        assert(d.take(i - start + 1).drop_last() =~= d.take(i - start));
        assert(d.take(i - start + 1).last() == c);
        assert(all_digits(d.take(i - start + 1)));
        value = value * 10 + dv;
        i = i + 1;
        assert(value == digits_value(d.take(i - start)));
        if value > 65535 {
            proof {
                let k = i - start;
                if all_digits(d) {
                    lemma_digits_value_grows(d, k);
                    assert(digits_value(d) > 65535);
                }
                assert(parse_u16_spec(s) is None);
            }
            return None;
        }
    }
    assert(d.take(i - start) =~= d);
    Some(value as u16)
}

/// The decimal digit character for `d < 10`.
pub open spec fn digit_char(d: nat) -> char {
    ((d + '0' as u32) as u32) as char
}

/// Decimal notation of `n`, as `Display` writes it.
pub open spec fn decimal(n: nat) -> Seq<char>
    decreases n,
{
    if n < 10 {
        seq![digit_char(n)]
    } else {
        decimal(n / 10).push(digit_char(n % 10))
    }
}

pub proof fn lemma_decimal_len(n: nat)
    ensures
        decimal(n).len() >= 1,
        n >= 10 ==> decimal(n).len() >= 2,
    decreases n,
{
    if n >= 10 {
        lemma_decimal_len(n / 10);
    }
}

/// Distinct numbers have distinct decimal notations.
pub proof fn lemma_decimal_injective(a: nat, b: nat)
    requires
        decimal(a) == decimal(b),
    ensures
        a == b,
    decreases a,
{
    lemma_decimal_len(a);
    lemma_decimal_len(b);
    if a < 10 && b < 10 {
        assert(decimal(a)[0] == digit_char(a));
        assert(decimal(b)[0] == digit_char(b));
        assert(digit_char(a) as u32 == a + 48);
        assert(digit_char(b) as u32 == b + 48);
    } else if a >= 10 && b >= 10 {
        let da = decimal(a);
        let db = decimal(b);
        assert(da.last() == digit_char(a % 10));
        assert(db.last() == digit_char(b % 10));
        assert(digit_char(a % 10) as u32 == a % 10 + 48);
        assert(digit_char(b % 10) as u32 == b % 10 + 48);
        assert(da.drop_last() =~= decimal(a / 10));
        assert(db.drop_last() =~= decimal(b / 10));
        lemma_decimal_injective(a / 10, b / 10);
    }
}

/// Appends the decimal notation of `n` to `s`.
pub fn push_decimal(s: &mut String, n: u64)
    ensures
        final(s)@ == old(s)@ + decimal(n as nat),
    decreases n,
{
    if n >= 10 {
        push_decimal(s, n / 10);
    }
    let d = (n % 10) as u8;
    let c = (d + 48u8) as char;
    assert(c == digit_char((n % 10) as nat));
    push_char(s, c);
    proof {
        if n >= 10 {
            assert(old(s)@ + decimal(n as nat) =~= old(s)@ + decimal((n / 10) as nat) + seq![c]);
        } else {
            assert(old(s)@ + decimal(n as nat) =~= old(s)@.push(c));
        }
    }
}

/// Decimal notation of a signed number: a `-` before the digits when negative.
pub open spec fn signed_decimal(n: int) -> Seq<char> {
    if n < 0 {
        seq!['-'] + decimal((-n) as nat)
    } else {
        decimal(n as nat)
    }
}

/// Appends the decimal notation of `n` to `s`.
pub fn push_signed_decimal(s: &mut String, n: i64)
    ensures
        final(s)@ == old(s)@ + signed_decimal(n as int),
{
    if n < 0 {
        push_char(s, '-');
        let magnitude: u64 = if n == i64::MIN {
            9_223_372_036_854_775_808u64
        } else {
            (-n) as u64
        };
        assert(magnitude as int == -(n as int));
        push_decimal(s, magnitude);
        assert(old(s)@ + signed_decimal(n as int) =~= old(s)@.push('-') + decimal(magnitude as nat));
    } else {
        push_decimal(s, n as u64);
    }
}

// ---------------------------------------------------------------------------
// ASCII case
// ---------------------------------------------------------------------------

/// `char::to_ascii_lowercase`.
pub open spec fn ascii_lower(c: char) -> char {
    if 'A' <= c && c <= 'Z' {
        ((c as u32 + 32) as u32) as char
    } else {
        c
    }
}

/// `str::to_ascii_lowercase`.
pub open spec fn ascii_lower_seq(s: Seq<char>) -> Seq<char> {
    s.map_values(|c: char| ascii_lower(c))
}

pub fn to_ascii_lower_char(c: char) -> (r: char)
    ensures
        r == ascii_lower(c),
{
    if 'A' <= c && c <= 'Z' {
        let u = (c as u8) + 32;
        u as char
    } else {
        c
    }
}

/// The ASCII-lowercased characters of `v[from..to]`.
pub fn ascii_lower_range(v: &Vec<char>, from: usize, to: usize) -> (r: Vec<char>)
    requires
        from <= to <= v.len(),
    ensures
        r@ == ascii_lower_seq(v@.subrange(from as int, to as int)),
{
    let mut r: Vec<char> = Vec::new();
    let mut i = from;
    while i < to
        invariant
            from <= i <= to <= v.len(),
            r@ == ascii_lower_seq(v@.subrange(from as int, i as int)),
        decreases to - i,
    {
        let c = to_ascii_lower_char(v[i]);
        r.push(c);
        i = i + 1;
        assert(r@ =~= ascii_lower_seq(v@.subrange(from as int, i as int)));
    }
    r
}

// ---------------------------------------------------------------------------
// Lexicographic order (the order of `String` comparison)
// ---------------------------------------------------------------------------

/// `a` sorts strictly before `b`, character by character, a proper prefix
/// first. Byte-wise UTF-8 order, which `String` comparison uses, is the same
/// as code point order.
pub open spec fn seq_lt(a: Seq<char>, b: Seq<char>) -> bool
    decreases a.len(),
{
    if a.len() == 0 {
        b.len() > 0
    } else if b.len() == 0 {
        false
    } else if a[0] < b[0] {
        true
    } else if a[0] == b[0] {
        seq_lt(a.drop_first(), b.drop_first())
    } else {
        false
    }
}

pub proof fn lemma_seq_lt_irreflexive(a: Seq<char>)
    ensures
        !seq_lt(a, a),
    decreases a.len(),
{
    if a.len() > 0 {
        lemma_seq_lt_irreflexive(a.drop_first());
    }
}

pub proof fn lemma_seq_lt_asymmetric(a: Seq<char>, b: Seq<char>)
    ensures
        seq_lt(a, b) ==> !seq_lt(b, a),
    decreases a.len(),
{
    if a.len() > 0 && b.len() > 0 && a[0] == b[0] {
        lemma_seq_lt_asymmetric(a.drop_first(), b.drop_first());
    }
}

pub proof fn lemma_seq_lt_total(a: Seq<char>, b: Seq<char>)
    ensures
        a != b ==> seq_lt(a, b) || seq_lt(b, a),
    decreases a.len(),
{
    if a.len() > 0 && b.len() > 0 {
        if a[0] == b[0] {
            lemma_seq_lt_total(a.drop_first(), b.drop_first());
            if a.drop_first() == b.drop_first() {
                assert(a =~= seq![a[0]] + a.drop_first());
                assert(b =~= seq![b[0]] + b.drop_first());
            }
        } else {
        }
    } else if a.len() == 0 && b.len() == 0 {
        assert(a =~= b);
    }
}

pub proof fn lemma_seq_lt_transitive(a: Seq<char>, b: Seq<char>, c: Seq<char>)
    ensures
        seq_lt(a, b) && seq_lt(b, c) ==> seq_lt(a, c),
    decreases a.len(),
{
    if a.len() > 0 && b.len() > 0 && c.len() > 0 && a[0] == b[0] && b[0] == c[0] {
        lemma_seq_lt_transitive(a.drop_first(), b.drop_first(), c.drop_first());
    }
}

/// `a < b` in `String` order.
pub fn chars_lt(a: &Vec<char>, b: &Vec<char>) -> (r: bool)
    ensures
        r == seq_lt(a@, b@),
{
    let mut i: usize = 0;
    assert(a@.skip(0) =~= a@);
    assert(b@.skip(0) =~= b@);
    while i < a.len() && i < b.len() && a[i] == b[i]
        invariant
            i <= a.len(),
            i <= b.len(),
            seq_lt(a@, b@) == seq_lt(a@.skip(i as int), b@.skip(i as int)),
        decreases a.len() - i,
    {
        assert(a@.skip(i as int).drop_first() =~= a@.skip(i + 1));
        assert(b@.skip(i as int).drop_first() =~= b@.skip(i + 1));
        i = i + 1;
    }
    if i == a.len() {
        i < b.len()
    } else if i == b.len() {
        false
    } else {
        a[i] < b[i]
    }
}

/// `s` starts with `p`.
pub open spec fn starts_with(s: Seq<char>, p: Seq<char>) -> bool {
    s.len() >= p.len() && s.subrange(0, p.len() as int) == p
}

/// Whether `s` starts with `p` (`str::starts_with`).
pub fn str_starts_with(s: &str, p: &str) -> (r: bool)
    ensures
        r == starts_with(s@, p@),
{
    let v = chars_of(s);
    let pv = chars_of(p);
    if pv.len() > v.len() {
        return false;
    }
    let mut i: usize = 0;
    while i < pv.len()
        invariant
            i <= pv.len() <= v.len(),
            v@ == s@,
            pv@ == p@,
            v@.subrange(0, i as int) == pv@.subrange(0, i as int),
        decreases pv.len() - i,
    {
        if v[i] != pv[i] {
            assert(v@.subrange(0, pv.len() as int)[i as int] != pv@[i as int]);
            return false;
        }
        assert(v@.subrange(0, i + 1) =~= v@.subrange(0, i as int).push(v@[i as int]));
        assert(pv@.subrange(0, i + 1) =~= pv@.subrange(0, i as int).push(pv@[i as int]));
        i = i + 1;
    }
    assert(pv@.subrange(0, pv.len() as int) =~= pv@);
    true
}

/// `a < b` in `str` order.
pub fn str_lt(a: &str, b: &str) -> (r: bool)
    ensures
        r == seq_lt(a@, b@),
{
    let av = chars_of(a);
    let bv = chars_of(b);
    chars_lt(&av, &bv)
}

/// Whether `c` occurs in `v`.
pub fn contains_char(v: &Vec<char>, c: char) -> (r: bool)
    ensures
        r == v@.contains(c),
{
    let mut i: usize = 0;
    while i < v.len()
        invariant
            i <= v.len(),
            forall|j: int| 0 <= j < i ==> v@[j] != c,
        decreases v.len() - i,
    {
        if v[i] == c {
            return true;
        }
        i = i + 1;
    }
    false
}


// ---------------------------------------------------------------------------
// Unicode lowercase
// ---------------------------------------------------------------------------

/// What `str::to_lowercase` returns for a string: the Unicode lowercase
/// mapping of every character, which can change the length.
pub uninterp spec fn str_lowercase(s: Seq<char>) -> Seq<char>;

/// A character is ASCII.
pub open spec fn ascii_char(c: char) -> bool {
    (c as u32) < 128
}

/// std's `str::to_lowercase`. The contract ties the result to the argument
/// through `str_lowercase`; of the Unicode tables it states only what they
/// do to ASCII text (the uppercase letters `A`–`Z` become `a`–`z`, every
/// other ASCII character is kept, one for one).
#[verifier::external_body]
pub(crate) fn to_lowercase(s: &str) -> (r: String)
    ensures
        r@ == str_lowercase(s@),
        (forall|i: int| 0 <= i < s@.len() ==> ascii_char(#[trigger] s@[i])) ==> r@ == ascii_lower_seq(s@),
{
    s.to_lowercase()
}


} // verus!
