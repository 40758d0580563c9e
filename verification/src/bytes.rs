//! Reading numbers out of bytes: little-endian fields and decimal text.
use vstd::prelude::*;
use vstd::slice::slice_subrange;

verus! {

/// The 16-bit value that two bytes hold, the low byte first.
pub open spec fn le16(lo: u8, hi: u8) -> u16 {
    (lo as u16) | ((hi as u16) << 8)
}

/// Reads two bytes, the low byte first.
pub fn read_le16(lo: u8, hi: u8) -> (r: u16)
    ensures
        r == le16(lo, hi),
{
    (lo as u16) | ((hi as u16) << 8)
}

/// The 32-bit value that four bytes hold, the lowest byte first.
pub open spec fn le32(b0: u8, b1: u8, b2: u8, b3: u8) -> u32 {
    (b0 as u32) | ((b1 as u32) << 8) | ((b2 as u32) << 16) | ((b3 as u32) << 24)
}

/// The 32-bit value in the four bytes of `s` from `at` on.
pub open spec fn le32_at(s: Seq<u8>, at: int) -> u32 {
    le32(s[at], s[at + 1], s[at + 2], s[at + 3])
}

/// Reads the four bytes of `s` from `at` on, the lowest byte first.
pub fn read_le32(s: &[u8], at: usize) -> (r: u32)
    requires
        at + 4 <= s@.len(),
    ensures
        r == le32_at(s@, at as int),
{
    let n: usize = s.len();
    assert(at + 4 <= n);
    (s[at] as u32) | ((s[at + 1] as u32) << 8) | ((s[at + 2] as u32) << 16) | ((s[at + 3] as u32)
        << 24)
}

/// The 64-bit value in the eight bytes of `s` from `at` on, the lowest byte first.
pub open spec fn le64_at(s: Seq<u8>, at: int) -> u64 {
    (le32_at(s, at) as u64) | ((le32_at(s, at + 4) as u64) << 32)
}

/// Reads the eight bytes of `s` from `at` on, the lowest byte first.
pub fn read_le64(s: &[u8], at: usize) -> (r: u64)
    requires
        at + 8 <= s@.len(),
    ensures
        r == le64_at(s@, at as int),
{
    let n: usize = s.len();
    assert(at + 8 <= n);
    (read_le32(s, at) as u64) | ((read_le32(s, at + 4) as u64) << 32)
}

/// Whether `s` begins with `prefix`.
pub open spec fn starts_with(s: Seq<u8>, prefix: Seq<u8>) -> bool {
    prefix.len() <= s.len() && s.subrange(0, prefix.len() as int) == prefix
}

/// Whether `s` ends with `suffix`.
pub open spec fn ends_with(s: Seq<u8>, suffix: Seq<u8>) -> bool {
    suffix.len() <= s.len() && s.subrange(s.len() - suffix.len(), s.len() as int) == suffix
}

/// Tells whether the bytes of `s` from `at` on are those of `pattern`.
pub fn matches_at(s: &[u8], at: usize, pattern: &[u8]) -> (r: bool)
    requires
        at <= s@.len(),
    ensures
        r == (at + pattern@.len() <= s@.len() && s@.subrange(
            at as int,
            at + pattern@.len(),
        ) == pattern@),
{
    if pattern.len() > s.len() - at {
        return false;
    }
    let mut i: usize = 0;
    while i < pattern.len()
        invariant
            i <= pattern@.len(),
            at + pattern@.len() <= s@.len() <= usize::MAX,
            s@.subrange(at as int, at + i) == pattern@.subrange(0, i as int),
        decreases pattern@.len() - i,
    {
        if s[at + i] != pattern[i] {
            proof {
                let whole = s@.subrange(at as int, at + pattern@.len());
                assert(whole[i as int] == s@[at + i]);
            }
            return false;
        }
        proof {
            assert(s@.subrange(at as int, at + i + 1) =~= s@.subrange(at as int, at + i).push(
                s@[at + i],
            ));
            assert(pattern@.subrange(0, i + 1) =~= pattern@.subrange(0, i as int).push(
                pattern@[i as int],
            ));
        }
        i = i + 1;
    }
    proof {
        assert(pattern@.subrange(0, pattern@.len() as int) =~= pattern@);
    }
    true
}

/// Whether the byte is one of the characters `0` to `9`.
pub open spec fn is_digit(b: u8) -> bool {
    48 <= b <= 57
}

/// Whether `s` holds decimal digits only.
pub open spec fn all_digits(s: Seq<u8>) -> bool {
    forall|i: int| 0 <= i < s.len() ==> is_digit(#[trigger] s[i])
}

/// The number that the decimal digits `s` spell.
pub open spec fn digits_value(s: Seq<u8>) -> nat
    decreases s.len(),
{
    if s.len() == 0 {
        0
    } else {
        digits_value(s.drop_last()) * 10 + (s.last() - 48) as nat
    }
}

/// The digits of a number in decimal text: what follows a plus sign, or all of it.
pub open spec fn digits_of(s: Seq<u8>) -> Seq<u8> {
    if s.len() > 0 && s[0] == 43 {
        s.subrange(1, s.len() as int)
    } else {
        s
    }
}

/// The number that the text `s` spells in decimal, if it is at most `max`:
/// one digit or more, with nothing around them but, at most, a plus sign in front.
pub open spec fn decimal(s: Seq<u8>, max: u64) -> Option<u64> {
    let digits = digits_of(s);
    if digits.len() > 0 && all_digits(digits) && digits_value(digits) <= max {
        Some(digits_value(digits) as u64)
    } else {
        None
    }
}

/// A number does not get smaller when digits are put behind it.
pub proof fn lemma_digits_value_grows(s: Seq<u8>, n: int)
    requires
        0 <= n <= s.len(),
        all_digits(s),
    ensures
        digits_value(s.subrange(0, n)) <= digits_value(s),
    decreases s.len() - n,
{
    if n < s.len() {
        lemma_digits_value_grows(s, n + 1);
        assert(s.subrange(0, n + 1).drop_last() =~= s.subrange(0, n));
    } else {
        assert(s.subrange(0, n) =~= s);
    }
}

/// Reads the decimal number that `s` spells, if it spells one that is at most `max`.
pub fn parse_decimal(s: &[u8], max: u64) -> (r: Option<u64>)
    ensures
        r == decimal(s@, max),
{
    let start: usize = if s.len() > 0 && s[0] == 43 {
        1
    } else {
        0
    };
    let ghost digits = digits_of(s@);
    if start == s.len() {
        return None;
    }
    let mut value: u64 = 0;
    let mut i: usize = start;
    while i < s.len()
        invariant
            start <= i <= s@.len(),
            digits == s@.subrange(start as int, s@.len() as int),
            digits == digits_of(s@),
            all_digits(digits.subrange(0, i - start)),
            value == digits_value(digits.subrange(0, i - start)),
            value <= max,
        decreases s@.len() - i,
    {
        let b: u8 = s[i];
        let ghost before = digits.subrange(0, i - start);
        let ghost with = digits.subrange(0, i - start + 1);
        proof {
            assert(with.drop_last() =~= before);
            assert(with.last() == b);
        }
        if b < 48 || b > 57 {
            proof {
                assert(!is_digit(digits[i - start]));
            }
            return None;
        }
        let d: u64 = (b - 48) as u64;
        if d > max || value > (max - d) / 10 {
            proof {
                assert(digits_value(with) > max);
                if all_digits(digits) {
                    lemma_digits_value_grows(digits, i - start + 1);
                }
            }
            return None;
        }
        value = value * 10 + d;
        proof {
            assert forall|k: int| 0 <= k < with.len() implies is_digit(#[trigger] with[k]) by {
                if k < before.len() {
                    assert(before[k] == with[k]);
                }
            }
        }
        i = i + 1;
    }
    proof {
        assert(digits.subrange(0, s@.len() - start) =~= digits);
    }
    Some(value)
}

/// The index of the first `b` in `s` at or after `from`, or the length of `s`
/// where there is none.
pub open spec fn index_of(s: Seq<u8>, b: u8, from: int) -> int
    decreases s.len() - from,
{
    if from < 0 || from >= s.len() {
        s.len() as int
    } else if s[from] == b {
        from
    } else {
        index_of(s, b, from + 1)
    }
}

/// Finds the first `b` in `s` at or after `from`.
pub fn find(s: &[u8], b: u8, from: usize) -> (r: usize)
    requires
        from <= s@.len(),
    ensures
        r == index_of(s@, b, from as int),
        from <= r <= s@.len(),
{
    let mut i: usize = from;
    while i < s.len()
        invariant
            from <= i <= s@.len(),
            index_of(s@, b, i as int) == index_of(s@, b, from as int),
        decreases s@.len() - i,
    {
        if s[i] == b {
            return i;
        }
        i = i + 1;
    }
    i
}

/// The `k`-th of the fields that `sep` parts `s` into, counted from zero, if
/// there are that many.
pub open spec fn nth_field(s: Seq<u8>, sep: u8, k: nat) -> Option<Seq<u8>>
    decreases k,
{
    let end = index_of(s, sep, 0);
    if k == 0 {
        Some(s.subrange(0, end))
    } else if end >= s.len() {
        None
    } else {
        nth_field(s.subrange(end + 1, s.len() as int), sep, (k - 1) as nat)
    }
}

/// The last of the fields that `sep` parts `s` into.
pub open spec fn last_field(s: Seq<u8>, sep: u8) -> Seq<u8>
    decreases s.len(),
{
    let end = index_of(s, sep, 0);
    if 0 <= end < s.len() {
        last_field(s.subrange(end + 1, s.len() as int), sep)
    } else {
        s
    }
}

/// Finds the `k`-th of the fields that `sep` parts `s` into.
pub fn field<'a>(s: &'a [u8], sep: u8, k: usize) -> (r: Option<&'a [u8]>)
    ensures
        match nth_field(s@, sep, k as nat) {
            Some(f) => r is Some && r.unwrap()@ == f,
            None => r is None,
        },
{
    let mut rest: &[u8] = s;
    let mut left: usize = k;
    loop
        invariant
            nth_field(rest@, sep, left as nat) == nth_field(s@, sep, k as nat),
        decreases left,
    {
        let end: usize = find(rest, sep, 0);
        if left == 0 {
            return Some(slice_subrange(rest, 0, end));
        }
        if end >= rest.len() {
            return None;
        }
        rest = slice_subrange(rest, end + 1, rest.len());
        left = left - 1;
    }
}

/// Finds the last of the fields that `sep` parts `s` into.
pub fn final_field<'a>(s: &'a [u8], sep: u8) -> (r: &'a [u8])
    ensures
        r@ == last_field(s@, sep),
{
    let mut rest: &[u8] = s;
    loop
        invariant
            last_field(rest@, sep) == last_field(s@, sep),
        decreases rest@.len(),
    {
        let end: usize = find(rest, sep, 0);
        if end >= rest.len() {
            return rest;
        }
        rest = slice_subrange(rest, end + 1, rest.len());
    }
}

/// Tells whether `s` is exactly the bytes of `word`.
pub fn is_word<const N: usize>(s: &[u8], word: &[u8; N]) -> (r: bool)
    ensures
        r == (s@ == word@),
{
    if s.len() != N {
        return false;
    }
    let mut i: usize = 0;
    while i < N
        invariant
            i <= N,
            s@.len() == N,
            word@.len() == N,
            s@.subrange(0, i as int) == word@.subrange(0, i as int),
        decreases N - i,
    {
        if s[i] != word[i] {
            return false;
        }
        proof {
            assert(s@.subrange(0, i + 1) =~= s@.subrange(0, i as int).push(s@[i as int]));
            assert(word@.subrange(0, i + 1) =~= word@.subrange(0, i as int).push(
                word@[i as int],
            ));
        }
        i = i + 1;
    }
    proof {
        assert(s@.subrange(0, N as int) =~= s@);
        assert(word@.subrange(0, N as int) =~= word@);
    }
    true
}

} // verus!
