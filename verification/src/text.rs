//! Character-level string helpers shared by the formatters and parsers.

use vstd::prelude::*;

verus! {

broadcast use vstd::string::group_string_axioms;

/// `p` occurs in `t` starting at index `i`.
pub open spec fn occurs_at(t: Seq<char>, p: Seq<char>, i: int) -> bool {
    0 <= i && i + p.len() <= t.len() && t.subrange(i, i + p.len()) == p
}

/// `p` is a substring of `t`.
pub open spec fn contains_seq(t: Seq<char>, p: Seq<char>) -> bool {
    exists|i: int| occurs_at(t, p, i)
}

/// `i` is the first index at which `p` occurs in `t`.
pub open spec fn is_first_occurrence(t: Seq<char>, p: Seq<char>, i: int) -> bool {
    occurs_at(t, p, i) && forall|j: int| 0 <= j < i ==> !occurs_at(t, p, j)
}

/// The decimal digit for `d < 10`.
pub open spec fn digit_char(d: nat) -> char {
    if d == 0 { '0' } else if d == 1 { '1' } else if d == 2 { '2' } else if d == 3 { '3' }
    else if d == 4 { '4' } else if d == 5 { '5' } else if d == 6 { '6' } else if d == 7 { '7' }
    else if d == 8 { '8' } else { '9' }
}

/// The shortest decimal rendering of `n`.
pub open spec fn decimal(n: nat) -> Seq<char>
    decreases n,
{
    if n < 10 {
        seq![digit_char(n)]
    } else {
        decimal(n / 10).push(digit_char(n % 10))
    }
}

/// `n` in decimal, with a leading `-` when negative.
pub open spec fn signed_decimal(n: int) -> Seq<char> {
    if n < 0 { seq!['-'] + decimal((-n) as nat) } else { decimal(n as nat) }
}

/// `n` in decimal, left-padded with zeros to at least `width` digits.
pub open spec fn padded_decimal(n: nat, width: nat) -> Seq<char> {
    let d = decimal(n);
    if d.len() < width { Seq::new((width - d.len()) as nat, |_i: int| '0') + d } else { d }
}

/// Appends one character to a `String` (std's `String::push`).
#[verifier::external_body]
pub(crate) fn push_char(s: &mut String, c: char)
    ensures
        final(s)@ == old(s)@.push(c),
{
    s.push(c)
}

/// Appends `t` to `s` (std's `String::push_str`).
#[verifier::external_body]
pub(crate) fn push_str(s: &mut String, t: &str)
    ensures
        final(s)@ == old(s)@ + t@,
{
    s.push_str(t)
}

/// The characters of `s`, in order.
pub fn chars_of(s: &str) -> (v: Vec<char>)
    ensures
        v@ == s@,
{
    let mut v: Vec<char> = Vec::new();
    for c in it: s.chars()
        invariant
            it.seq() == s@,
            v@ == it.seq().take(it.index()),
    {
        v.push(c);
    }
    v
}

/// Appends the characters `v[from..to]` to `s`.
pub fn push_chars(s: &mut String, v: &[char], from: usize, to: usize)
    requires
        from <= to <= v@.len(),
    ensures
        final(s)@ == old(s)@ + v@.subrange(from as int, to as int),
{
    let mut i = from;
    while i < to
        invariant
            from <= i <= to <= v@.len(),
            s@ == old(s)@ + v@.subrange(from as int, i as int),
        decreases to - i,
    {
        push_char(s, v[i]);
        assert(v@.subrange(from as int, i + 1) == v@.subrange(from as int, i as int).push(v@[i as int]));
        i = i + 1;
    }
}

/// A `String` holding the characters `v[from..to]`.
pub fn string_of(v: &[char], from: usize, to: usize) -> (s: String)
    requires
        from <= to <= v@.len(),
    ensures
        s@ == v@.subrange(from as int, to as int),
{
    let mut s = String::new();
    push_chars(&mut s, v, from, to);
    s
}

/// Whether `p` occurs in `t` at index `i`.
pub fn matches_at(t: &[char], p: &[char], i: usize) -> (b: bool)
    ensures
        b == occurs_at(t@, p@, i as int),
{
    if i > t.len() || p.len() > t.len() - i {
        return false;
    }
    let mut k: usize = 0;
    while k < p.len()
        invariant
            i + p.len() <= t.len(),
            k <= p.len(),
            forall|m: int| 0 <= m < k ==> t@[i + m] == p@[m],
        decreases p.len() - k,
    {
        if t[i + k] != p[k] {
            assert(t@.subrange(i as int, i + p@.len())[k as int] != p@[k as int]);
            return false;
        }
        k = k + 1;
    }
    assert(t@.subrange(i as int, i + p@.len()) =~= p@);
    true
}

/// The first index at or after `k` where `p` occurs in `t`.
pub open spec fn first_index_from(t: Seq<char>, p: Seq<char>, k: int) -> Option<int>
    decreases t.len() + 1 - k,
{
    if k < 0 || k + p.len() > t.len() {
        None
    } else if occurs_at(t, p, k) {
        Some(k)
    } else {
        first_index_from(t, p, k + 1)
    }
}

/// The first index where `p` occurs in `t`.
pub open spec fn first_index(t: Seq<char>, p: Seq<char>) -> Option<int> {
    first_index_from(t, p, 0)
}

/// `first_index_from` finds the first occurrence at or after `k`.
pub proof fn lemma_first_index_from(t: Seq<char>, p: Seq<char>, k: int)
    requires
        0 <= k,
    ensures
        match first_index_from(t, p, k) {
            Some(i) => k <= i && occurs_at(t, p, i) && forall|j: int|
                k <= j < i ==> !occurs_at(t, p, j),
            None => forall|j: int| k <= j ==> !occurs_at(t, p, j),
        },
    decreases t.len() + 1 - k,
{
    if k + p.len() > t.len() {
    } else if occurs_at(t, p, k) {
    } else {
        lemma_first_index_from(t, p, k + 1);
        assert forall|j: int| k <= j && j < k + 1 implies !occurs_at(t, p, j) by {}
    }
}

/// An occurrence at `i` with none before it is what `first_index_from(t, p, k)` finds.
pub proof fn lemma_first_index_at(t: Seq<char>, p: Seq<char>, k: int, i: int)
    requires
        0 <= k <= i,
        occurs_at(t, p, i),
        forall|j: int| k <= j < i ==> !occurs_at(t, p, j),
    ensures
        first_index_from(t, p, k) == Some(i),
    decreases i - k,
{
    if k < i {
        lemma_first_index_at(t, p, k + 1, i);
    }
}

/// The first index at or after `from` where `p` occurs in `t`.
pub fn find_from(t: &[char], p: &[char], from: usize) -> (r: Option<usize>)
    ensures
        (match r {
            Some(i) => Some(i as int),
            None => None,
        }) == first_index_from(t@, p@, from as int),
{
    let mut i = from;
    while i < t.len()
        invariant
            from <= i,
            first_index_from(t@, p@, from as int) == first_index_from(t@, p@, i as int),
        decreases t.len() - i,
    {
        if matches_at(t, p, i) {
            return Some(i);
        }
        i = i + 1;
    }
    if matches_at(t, p, i) {
        return Some(i);
    }
    proof {
        if i + p@.len() <= t@.len() {
            assert(t@.subrange(i as int, i + p@.len()) =~= p@);
        }
    }
    None
}

/// The first index where `p` occurs in `t`.
pub fn find(t: &[char], p: &[char]) -> (r: Option<usize>)
    ensures
        (match r {
            Some(i) => Some(i as int),
            None => None,
        }) == first_index(t@, p@),
{
    find_from(t, p, 0)
}

/// Whether `p` occurs in `t`.
pub fn contains(t: &[char], p: &[char]) -> (b: bool)
    ensures
        b == contains_seq(t@, p@),
{
    let r = find(t, p);
    proof {
        lemma_first_index_from(t@, p@, 0);
    }
    r.is_some()
}

/// Whether `a` and `b` are the same text.
pub fn str_eq(a: &str, b: &str) -> (r: bool)
    ensures
        r == (a@ == b@),
{
    let x = chars_of(a);
    let y = chars_of(b);
    if x.len() != y.len() {
        return false;
    }
    let r = matches_at(&x, &y, 0);
    assert(x@.subrange(0, y@.len() as int) =~= x@);
    r
}

/// The decimal digits of `n`.
pub fn decimal_string(n: u64) -> (s: String)
    ensures
        s@ == decimal(n as nat),
    decreases n,
{
    let mut s = if n >= 10 { decimal_string(n / 10) } else { String::new() };
    let d = n % 10;
    let c = if d == 0 { '0' } else if d == 1 { '1' } else if d == 2 { '2' } else if d == 3 { '3' }
        else if d == 4 { '4' } else if d == 5 { '5' } else if d == 6 { '6' } else if d == 7 { '7' }
        else if d == 8 { '8' } else { '9' };
    push_char(&mut s, c);
    s
}

/// Appends `n` in decimal, zero-padded to at least `width` digits.
pub fn push_padded(s: &mut String, n: u64, width: usize)
    ensures
        final(s)@ == old(s)@ + padded_decimal(n as nat, width as nat),
{
    let d = decimal_string(n);
    let dv = chars_of(d.as_str());
    let mut k: usize = dv.len();
    let ghost start = s@;
    while k < width
        invariant
            dv.len() <= k <= width || (k == dv.len() && width <= k),
            dv@ == decimal(n as nat),
            s@ == start + Seq::new((k - dv@.len()) as nat, |_i: int| '0'),
        decreases width - k,
    {
        push_char(s, '0');
        assert(Seq::new((k + 1 - dv@.len()) as nat, |_i: int| '0') =~= Seq::new(
            (k - dv@.len()) as nat, |_i: int| '0').push('0'));
        k = k + 1;
    }
    push_chars(s, &dv, 0, dv.len());
    assert(dv@.subrange(0, dv@.len() as int) == dv@);
    if dv.len() < width {
        assert(s@ =~= start + padded_decimal(n as nat, width as nat));
    } else {
        assert(Seq::new(0nat, |_i: int| '0') =~= Seq::<char>::empty());
        assert(s@ =~= start + padded_decimal(n as nat, width as nat));
    }
}

/// Appends `n` in decimal, with a leading `-` when negative.
pub fn push_signed_decimal(s: &mut String, n: i64)
    ensures
        final(s)@ == old(s)@ + signed_decimal(n as int),
{
    let ghost s0 = s@;
    if n < 0 {
        push_char(s, '-');
        let m: u64 = (0i128 - n as i128) as u64;
        let d = decimal_string(m);
        push_str(s, d.as_str());
        assert(s@ =~= s0 + signed_decimal(n as int));
    } else {
        let d = decimal_string(n as u64);
        push_str(s, d.as_str());
    }
}

} // verus!
