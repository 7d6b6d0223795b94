//! Byte strings: searching for a pattern, splitting on it, letter case and
//! decimal numbers.
//!
//! Requests and responses are handled as bytes throughout. Text written in
//! the source as a string literal enters through [`ascii`].

use vstd::prelude::*;
use vstd::slice::{slice_subrange, slice_to_vec};
use vstd::utf8::is_ascii_chars;

verus! {

/// The bytes of a text of ASCII characters: one byte for each character.
pub open spec fn ascii(s: Seq<char>) -> Seq<u8> {
    Seq::new(s.len(), |i: int| s[i] as u8)
}

/// The bytes of `s`.
pub(crate) fn ascii_bytes(s: &str) -> (b: &[u8])
    requires
        is_ascii_chars(s@),
    ensures
        b@ == ascii(s@),
{
    let b = s.as_bytes();
    proof {
        vstd::string::is_ascii_spec_bytes(s);
    }
    b
}

/// What each of the vectors holds, in their order.
pub open spec fn views(v: Seq<Vec<u8>>) -> Seq<Seq<u8>> {
    Seq::new(v.len(), |i: int| v[i]@)
}

/// What the vector holds, if there is one.
pub open spec fn option_view(bytes: Option<Vec<u8>>) -> Option<Seq<u8>> {
    match bytes {
        Some(v) => Some(v@),
        None => None,
    }
}

/// Whether `pat` stands in `s` at index `i`.
pub open spec fn spec_occurs_at(s: Seq<u8>, pat: Seq<u8>, i: int) -> bool {
    0 <= i && i + pat.len() <= s.len() && s.subrange(i, i + pat.len()) == pat
}

/// The first index from `from` on at which `pat` stands in `s`.
pub open spec fn spec_find_from(s: Seq<u8>, pat: Seq<u8>, from: int) -> Option<int>
    decreases s.len() + 1 - from,
{
    if from < 0 || from + pat.len() > s.len() {
        None
    } else if spec_occurs_at(s, pat, from) {
        Some(from)
    } else {
        spec_find_from(s, pat, from + 1)
    }
}

/// The first index at which `pat` stands in `s`.
pub open spec fn spec_find(s: Seq<u8>, pat: Seq<u8>) -> Option<int> {
    spec_find_from(s, pat, 0)
}

/// Whether `pat` stands anywhere in `s`.
pub open spec fn contains(s: Seq<u8>, pat: Seq<u8>) -> bool {
    exists|i: int| spec_occurs_at(s, pat, i)
}

/// The pieces of `s` between the occurrences of `pat`, found from left to
/// right without overlap. There is always at least one piece; an empty
/// pattern separates nothing.
pub open spec fn spec_split(s: Seq<u8>, pat: Seq<u8>) -> Seq<Seq<u8>>
    decreases s.len(),
    via spec_split_decreases
{
    if pat.len() == 0 {
        seq![s]
    } else {
        match spec_find(s, pat) {
            Some(i) => seq![s.take(i)] + spec_split(s.skip(i + pat.len()), pat),
            None => seq![s],
        }
    }
}

#[via_fn]
proof fn spec_split_decreases(s: Seq<u8>, pat: Seq<u8>) {
    lemma_find_from(s, pat, 0);
}

/// `spec_find_from` gives the least index from `from` on where the pattern
/// stands, and `None` exactly when there is none.
pub proof fn lemma_find_from(s: Seq<u8>, pat: Seq<u8>, from: int)
    requires
        0 <= from,
    ensures
        match spec_find_from(s, pat, from) {
            Some(i) => from <= i && spec_occurs_at(s, pat, i) && forall|j: int|
                from <= j < i ==> !spec_occurs_at(s, pat, j),
            None => forall|j: int| from <= j ==> !spec_occurs_at(s, pat, j),
        },
    decreases s.len() + 1 - from,
{
    if from + pat.len() > s.len() {
    } else if spec_occurs_at(s, pat, from) {
    } else {
        lemma_find_from(s, pat, from + 1);
    }
}

/// An occurrence with none before it is the one that `spec_find` gives.
pub proof fn lemma_find_is(s: Seq<u8>, pat: Seq<u8>, i: int)
    requires
        spec_occurs_at(s, pat, i),
        forall|j: int| 0 <= j < i ==> !spec_occurs_at(s, pat, j),
    ensures
        spec_find(s, pat) == Some(i),
{
    lemma_find_from(s, pat, 0);
}

/// Without an occurrence `spec_find` gives `None`.
pub proof fn lemma_find_none(s: Seq<u8>, pat: Seq<u8>)
    requires
        !contains(s, pat),
    ensures
        spec_find(s, pat) is None,
{
    lemma_find_from(s, pat, 0);
    if let Some(i) = spec_find(s, pat) {
        assert(spec_occurs_at(s, pat, i));
    }
}

/// A split gives at least one piece.
pub proof fn lemma_split_first(s: Seq<u8>, pat: Seq<u8>)
    ensures
        spec_split(s, pat).len() >= 1,
{
}

/// Whether `pat` stands in `s` at index `i`.
pub fn occurs_at(s: &[u8], pat: &[u8], i: usize) -> (b: bool)
    ensures
        b == spec_occurs_at(s@, pat@, i as int),
{
    let n = s.len();
    let m = pat.len();
    if i > n || m > n - i {
        return false;
    }
    let mut k: usize = 0;
    while k < m
        invariant
            k <= m,
            m == pat.len(),
            i + m <= s.len(),
            forall|j: int| 0 <= j < k ==> s@[i + j] == pat@[j],
        decreases m - k,
    {
        if s[i + k] != pat[k] {
            assert(s@.subrange(i as int, i + m)[k as int] != pat@[k as int]);
            return false;
        }
        k += 1;
    }
    assert(s@.subrange(i as int, i + m) =~= pat@);
    true
}

/// The first index at which `pat` stands in `s`: `pat` stands there and
/// nowhere before; `None` where it stands nowhere.
pub fn find(s: &[u8], pat: &[u8]) -> (r: Option<usize>)
    ensures
        match r {
            Some(i) => spec_find(s@, pat@) == Some(i as int) && i + pat.len() <= s.len()
                && spec_occurs_at(s@, pat@, i as int) && forall|j: int|
                0 <= j < i ==> !spec_occurs_at(s@, pat@, j),
            None => spec_find(s@, pat@) is None && !contains(s@, pat@),
        },
{
    let n = s.len();
    let m = pat.len();
    proof {
        lemma_find_from(s@, pat@, 0);
    }
    if m > n {
        return None;
    }
    let mut i: usize = 0;
    loop
        invariant
            n == s.len(),
            m == pat.len(),
            i <= n - m,
            spec_find(s@, pat@) == spec_find_from(s@, pat@, i as int),
        decreases n - m - i,
    {
        proof {
            lemma_find_from(s@, pat@, 0);
        }
        if occurs_at(s, pat, i) {
            return Some(i);
        }
        if i == n - m {
            assert(spec_find_from(s@, pat@, i + 1) is None);
            return None;
        }
        i += 1;
    }
}

/// A copy of the bytes of `s` from index `from` up to `to`.
pub(crate) fn copy_range(s: &[u8], from: usize, to: usize) -> (v: Vec<u8>)
    requires
        from <= to <= s.len(),
    ensures
        v@ == s@.subrange(from as int, to as int),
{
    slice_to_vec(slice_subrange(s, from, to))
}

/// The pieces of `s` between the occurrences of `pat`.
pub fn split(s: &[u8], pat: &[u8]) -> (parts: Vec<Vec<u8>>)
    ensures
        views(parts@) == spec_split(s@, pat@),
{
    let n = s.len();
    let m = pat.len();
    let mut parts: Vec<Vec<u8>> = Vec::new();
    if m == 0 {
        parts.push(slice_to_vec(s));
        assert(views(parts@) =~= seq![s@]);
        return parts;
    }
    let mut start: usize = 0;
    assert(s@.skip(0) =~= s@);
    assert(views(parts@) + spec_split(s@, pat@) =~= spec_split(s@, pat@));
    loop
        invariant_except_break
            n == s.len(),
            m == pat.len(),
            m > 0,
            start <= n,
            spec_split(s@, pat@) == views(parts@) + spec_split(s@.skip(start as int), pat@),
        ensures
            views(parts@) == spec_split(s@, pat@),
        decreases n - start,
    {
        let rest = slice_subrange(s, start, n);
        let ghost before = views(parts@);
        proof {
            lemma_find_from(rest@, pat@, 0);
        }
        match find(rest, pat) {
            None => {
                parts.push(slice_to_vec(rest));
                assert(views(parts@) =~= before + seq![rest@]);
                break ;
            },
            Some(i) => {
                parts.push(copy_range(rest, 0, i));
                assert(views(parts@) =~= before + seq![rest@.take(i as int)]);
                assert(rest@.skip(i + m) =~= s@.skip(start + i + m));
                start = start + i + m;
            },
        }
    }
    parts
}

/// Whether the two hold the same bytes.
pub fn equal(a: &[u8], b: &[u8]) -> (r: bool)
    ensures
        r == (a@ == b@),
{
    if a.len() != b.len() {
        return false;
    }
    assert(a@.subrange(0, a@.len() as int) =~= a@);
    occurs_at(a, b, 0)
}

/// Whether `s` ends with `suffix`.
pub open spec fn spec_ends_with(s: Seq<u8>, suffix: Seq<u8>) -> bool {
    suffix.len() <= s.len() && s.skip(s.len() - suffix.len()) == suffix
}

/// Whether `s` ends with `suffix`.
pub fn ends_with(s: &[u8], suffix: &[u8]) -> (r: bool)
    ensures
        r == spec_ends_with(s@, suffix@),
{
    if suffix.len() > s.len() {
        return false;
    }
    occurs_at(s, suffix, s.len() - suffix.len())
}

/// The lower-case form of an ASCII capital letter; any other byte as it is.
pub open spec fn spec_lower_byte(b: u8) -> u8 {
    if 65 <= b <= 90 {
        (b + 32) as u8
    } else {
        b
    }
}

/// `s` with each ASCII capital letter in lower case.
pub open spec fn spec_lower(s: Seq<u8>) -> Seq<u8> {
    Seq::new(s.len(), |i: int| spec_lower_byte(s[i]))
}

/// `s` with each ASCII capital letter in lower case.
pub fn lower(s: &[u8]) -> (v: Vec<u8>)
    ensures
        v@ == spec_lower(s@),
{
    let mut v: Vec<u8> = Vec::new();
    let mut i: usize = 0;
    while i < s.len()
        invariant
            i <= s.len(),
            v@ == spec_lower(s@.take(i as int)),
        decreases s.len() - i,
    {
        let b = s[i];
        v.push(if 65 <= b && b <= 90 { b + 32 } else { b });
        i += 1;
        assert(v@ =~= spec_lower(s@.take(i as int)));
    }
    assert(s@.take(i as int) =~= s@);
    v
}

/// Whether `b` is one of the ASCII digits.
pub open spec fn is_digit(b: u8) -> bool {
    48 <= b <= 57
}

/// Whether `s` holds nothing but ASCII digits.
pub open spec fn all_digits(s: Seq<u8>) -> bool {
    forall|i: int| 0 <= i < s.len() ==> is_digit(#[trigger] s[i])
}

/// The number that the digits of `s` write in base ten.
pub open spec fn digits_value(s: Seq<u8>) -> nat
    decreases s.len(),
{
    if s.len() == 0 {
        0
    } else {
        digits_value(s.drop_last()) * 10 + (s.last() - 48) as nat
    }
}

/// `n` written in base ten, without leading zeros.
pub open spec fn spec_decimal(n: nat) -> Seq<u8>
    decreases n,
{
    if n < 10 {
        seq![(48 + n) as u8]
    } else {
        spec_decimal(n / 10).push((48 + n % 10) as u8)
    }
}

/// The number that `s` writes in base ten: one or more digits, with or
/// without a plus sign before them, and a value of at most `u64::MAX`.
pub open spec fn spec_parse_decimal(s: Seq<u8>) -> Option<u64> {
    let d = if s.len() > 0 && s[0] == 43 {
        s.skip(1)
    } else {
        s
    };
    if d.len() > 0 && all_digits(d) && digits_value(d) <= u64::MAX {
        Some(digits_value(d) as u64)
    } else {
        None
    }
}

/// `n` written in base ten, without leading zeros.
pub fn decimal(n: u64) -> (v: Vec<u8>)
    ensures
        v@ == spec_decimal(n as nat),
    decreases n,
{
    if n < 10 {
        let mut v: Vec<u8> = Vec::new();
        v.push(48 + n as u8);
        assert(v@ =~= spec_decimal(n as nat));
        v
    } else {
        let mut v = decimal(n / 10);
        v.push(48 + (n % 10) as u8);
        v
    }
}

/// The value of digits grows with every digit that follows.
pub proof fn lemma_digits_value_prefix(s: Seq<u8>, k: int)
    requires
        all_digits(s),
        0 <= k <= s.len(),
    ensures
        digits_value(s.take(k)) <= digits_value(s),
    decreases s.len(),
{
    if k == s.len() {
        assert(s.take(k) =~= s);
    } else {
        lemma_digits_value_prefix(s.drop_last(), k);
        assert(s.drop_last().take(k) =~= s.take(k));
    }
}

/// The number that `s` writes in base ten, if it writes one.
pub fn parse_decimal(s: &[u8]) -> (r: Option<u64>)
    ensures
        r == spec_parse_decimal(s@),
{
    let n = s.len();
    let start: usize = if n > 0 && s[0] == 43 { 1 } else { 0 };
    let ghost d = if n > 0 && s@[0] == 43 {
        s@.skip(1)
    } else {
        s@
    };
    if start == n {
        return None;
    }
    let mut acc: u64 = 0;
    let mut i: usize = start;
    while i < n
        invariant
            start <= i <= n,
            n == s.len(),
            d.len() == n - start,
            d == (if n > 0 && s@[0] == 43 {
                s@.skip(1)
            } else {
                s@
            }),
            forall|k: int| 0 <= k < d.len() ==> d[k] == s@[start + k],
            all_digits(d.take(i - start)),
            acc == digits_value(d.take(i - start)),
        decreases n - i,
    {
        let b = s[i];
        if b < 48 || b > 57 {
            assert(!is_digit(d[i - start]));
            return None;
        }
        let digit: u64 = (b - 48) as u64;
        assert(d.take(i - start + 1).drop_last() =~= d.take(i - start));
        assert(d.take(i - start + 1).last() == b);
        if acc > (u64::MAX - digit) / 10 {
            proof {
                if all_digits(d) {
                    lemma_digits_value_prefix(d, i - start + 1);
                }
            }
            return None;
        }
        acc = acc * 10 + digit;
        i += 1;
    }
    assert(d.take(n - start) =~= d);
    Some(acc)
}

/// The digits of a number, read back, give the number.
pub proof fn lemma_decimal_value(n: nat)
    ensures
        spec_decimal(n).len() > 0,
        all_digits(spec_decimal(n)),
        digits_value(spec_decimal(n)) == n,
    decreases n,
{
    if n < 10 {
        let s = spec_decimal(n);
        assert(s.drop_last() =~= Seq::<u8>::empty());
        assert(digits_value(s.drop_last()) == 0);
    } else {
        lemma_decimal_value(n / 10);
        let s = spec_decimal(n);
        assert(s.drop_last() =~= spec_decimal(n / 10));
    }
}

/// A number written by `spec_decimal` is read back by `spec_parse_decimal`.
pub proof fn lemma_parse_decimal(n: u64)
    ensures
        spec_parse_decimal(spec_decimal(n as nat)) == Some(n),
{
    lemma_decimal_value(n as nat);
}

/// Whether `s` holds the byte `b` nowhere.
pub open spec fn free_of(s: Seq<u8>, b: u8) -> bool {
    forall|i: int| 0 <= i < s.len() ==> s[i] != b
}

/// An occurrence, said byte by byte.
pub proof fn lemma_occurs_bytes(s: Seq<u8>, pat: Seq<u8>, i: int)
    ensures
        spec_occurs_at(s, pat, i) <==> (0 <= i && i + pat.len() <= s.len() && forall|k: int|
            0 <= k < pat.len() ==> s[i + k] == #[trigger] pat[k]),
{
    if 0 <= i && i + pat.len() <= s.len() {
        let sub = s.subrange(i, i + pat.len());
        if forall|k: int| 0 <= k < pat.len() ==> s[i + k] == #[trigger] pat[k] {
            assert(sub =~= pat);
        }
        if sub == pat {
            assert forall|k: int| 0 <= k < pat.len() implies s[i + k] == #[trigger] pat[k] by {
                assert(sub[k] == s[i + k]);
            }
        }
    }
}

/// Two texts side by side are free of a byte where each of them is.
pub proof fn lemma_free_of_concat(a: Seq<u8>, b: Seq<u8>, x: u8)
    ensures
        free_of(a + b, x) <==> free_of(a, x) && free_of(b, x),
{
    if free_of(a + b, x) {
        assert forall|i: int| 0 <= i < a.len() implies a[i] != x by {
            assert((a + b)[i] == a[i]);
        }
        assert forall|i: int| 0 <= i < b.len() implies b[i] != x by {
            assert((a + b)[a.len() + i] == b[i]);
        }
    }
}

/// Digits are free of every byte that is no digit.
pub proof fn lemma_digits_free_of(s: Seq<u8>, x: u8)
    requires
        all_digits(s),
        !is_digit(x),
    ensures
        free_of(s, x),
{
}

/// A text that is free of the first byte of a pattern does not hold the
/// pattern.
pub proof fn lemma_free_of_contains(s: Seq<u8>, pat: Seq<u8>)
    requires
        pat.len() > 0,
        free_of(s, pat[0]),
    ensures
        !contains(s, pat),
{
    assert forall|i: int| !spec_occurs_at(s, pat, i) by {
        lemma_occurs_bytes(s, pat, i);
    }
}

/// Behind a text that is free of the first byte of a pattern, the pattern
/// is found where the text ends.
pub proof fn lemma_find_after(a: Seq<u8>, pat: Seq<u8>, rest: Seq<u8>)
    requires
        pat.len() > 0,
        free_of(a, pat[0]),
    ensures
        spec_find(a + pat + rest, pat) == Some(a.len() as int),
{
    let s = a + pat + rest;
    assert(s.subrange(a.len() as int, (a.len() + pat.len()) as int) =~= pat);
    assert forall|j: int| 0 <= j < a.len() implies !spec_occurs_at(s, pat, j) by {
        lemma_occurs_bytes(s, pat, j);
        assert(s[j + 0] == a[j]);
    }
    lemma_find_is(s, pat, a.len() as int);
}

/// Behind a text that does not hold a pattern of two different bytes, the
/// pattern is found where the text ends.
pub proof fn lemma_find_after_pair(a: Seq<u8>, x: u8, y: u8, rest: Seq<u8>)
    requires
        x != y,
        !contains(a, seq![x, y]),
    ensures
        spec_find(a + seq![x, y] + rest, seq![x, y]) == Some(a.len() as int),
{
    let pat = seq![x, y];
    let s = a + pat + rest;
    assert(s.subrange(a.len() as int, (a.len() + pat.len()) as int) =~= pat);
    assert forall|j: int| 0 <= j < a.len() implies !spec_occurs_at(s, pat, j) by {
        lemma_occurs_bytes(s, pat, j);
        lemma_occurs_bytes(a, pat, j);
        assert(!spec_occurs_at(a, pat, j));
        if j + 2 <= a.len() {
            assert(s[j + 0] == a[j + 0]);
            assert(s[j + 1] == a[j + 1]);
            assert(pat[0] == x && pat[1] == y);
        } else {
            assert(s[j + 1] == x);
            assert(pat[1] == y);
        }
    }
    lemma_find_is(s, pat, a.len() as int);
}

/// Where the pattern is first found behind `a`, the first piece is `a` and
/// the other pieces are those of what follows the pattern.
pub proof fn lemma_split_cut(a: Seq<u8>, pat: Seq<u8>, rest: Seq<u8>)
    requires
        pat.len() > 0,
        spec_find(a + pat + rest, pat) == Some(a.len() as int),
    ensures
        spec_split(a + pat + rest, pat) == seq![a] + spec_split(rest, pat),
{
    let s = a + pat + rest;
    assert(s.take(a.len() as int) =~= a);
    assert(s.skip((a.len() + pat.len()) as int) =~= rest);
}

/// A text that does not hold the pattern is one piece.
pub proof fn lemma_split_whole(s: Seq<u8>, pat: Seq<u8>)
    requires
        !contains(s, pat),
    ensures
        spec_split(s, pat) == seq![s],
{
    lemma_find_none(s, pat);
}

/// The pieces behind a first piece that is free of the first byte of the
/// pattern.
pub proof fn lemma_split_after(a: Seq<u8>, pat: Seq<u8>, rest: Seq<u8>)
    requires
        pat.len() > 0,
        free_of(a, pat[0]),
    ensures
        spec_split(a + pat + rest, pat) == seq![a] + spec_split(rest, pat),
{
    lemma_find_after(a, pat, rest);
    lemma_split_cut(a, pat, rest);
}

/// A pattern of two bytes does not stand in three texts side by side where
/// the first is free of its first byte, the last is free of its second, and
/// the middle one does not hold it.
pub proof fn lemma_contains_between(a: Seq<u8>, s: Seq<u8>, b: Seq<u8>, x: u8, y: u8)
    requires
        free_of(a, x),
        free_of(b, y),
        !contains(s, seq![x, y]),
    ensures
        !contains(a + s + b, seq![x, y]),
{
    let pat = seq![x, y];
    let all = a + s + b;
    assert forall|j: int| !spec_occurs_at(all, pat, j) by {
        lemma_occurs_bytes(all, pat, j);
        if spec_occurs_at(all, pat, j) {
            assert(all[j + 0] == pat[0]);
            assert(all[j + 1] == pat[1]);
            let i = j - a.len();
            lemma_occurs_bytes(s, pat, i);
            assert(!spec_occurs_at(s, pat, i));
            if j < a.len() {
                assert(all[j] == a[j]);
            } else if j + 1 >= a.len() + s.len() {
                assert(all[j + 1] == b[j + 1 - a.len() - s.len()]);
            } else {
                assert(all[j + 0] == s[i + 0]);
                assert(all[j + 1] == s[i + 1]);
            }
        }
    }
}

/// No piece of a split on a single byte holds that byte.
pub proof fn lemma_split_free(s: Seq<u8>, b: u8, k: int)
    requires
        0 <= k < spec_split(s, seq![b]).len(),
    ensures
        free_of(spec_split(s, seq![b])[k], b),
    decreases s.len(),
{
    let pat = seq![b];
    lemma_find_from(s, pat, 0);
    match spec_find(s, pat) {
        Some(i) => {
            if k == 0 {
                assert forall|j: int| 0 <= j < i implies s.take(i)[j] != b by {
                    lemma_occurs_bytes(s, pat, j);
                    assert(!spec_occurs_at(s, pat, j));
                    assert(pat[0] == b);
                    if s[j] == b {
                        assert forall|n: int| 0 <= n < pat.len() implies s[j + n]
                            == #[trigger] pat[n] by {}
                    }
                }
            } else {
                lemma_split_free(s.skip(i + 1), b, k - 1);
            }
        },
        None => {
            assert forall|j: int| 0 <= j < s.len() implies s[j] != b by {
                lemma_occurs_bytes(s, pat, j);
                assert(!spec_occurs_at(s, pat, j));
                assert(pat[0] == b);
                if s[j] == b {
                    assert forall|n: int| 0 <= n < pat.len() implies s[j + n]
                        == #[trigger] pat[n] by {}
                }
            }
        },
    }
}

} // verus!
