//! Reading text as bytes: prefixes, suffixes, parts, pieces between
//! separators, and decimal numbers.

use vstd::prelude::*;
use vstd::string::StringSliceAdditionalSpecFns;

verus! {

/// Whether `s` begins with `prefix`.
pub open spec fn starts_with(s: Seq<u8>, prefix: Seq<u8>) -> bool {
    prefix.len() <= s.len() && s.take(prefix.len() as int) == prefix
}

/// Whether `s` ends with `suffix`.
pub open spec fn ends_with(s: Seq<u8>, suffix: Seq<u8>) -> bool {
    suffix.len() <= s.len() && s.skip(s.len() - suffix.len()) == suffix
}

/// Whether `part` stands in `s` at index `at`.
pub open spec fn occurs_at(s: Seq<u8>, part: Seq<u8>, at: int) -> bool {
    0 <= at && at + part.len() <= s.len() && s.subrange(at, at + part.len()) == part
}

/// Whether `part` stands somewhere in `s`.
pub open spec fn contains(s: Seq<u8>, part: Seq<u8>) -> bool {
    exists|at: int| occurs_at(s, part, at)
}

/// The index just behind the last `sep` among the first `n` bytes of `s`,
/// or zero if there is none.
pub open spec fn last_piece_start(s: Seq<u8>, sep: u8, n: int) -> int
    decreases n,
{
    if n <= 0 {
        0
    } else if s[n - 1] == sep {
        n
    } else {
        last_piece_start(s, sep, n - 1)
    }
}

/// What follows the last `sep` in `s`; all of `s` if it holds none.
pub open spec fn last_piece(s: Seq<u8>, sep: u8) -> Seq<u8> {
    s.skip(last_piece_start(s, sep, s.len() as int))
}

/// Whether `b` is the code of a decimal digit.
pub open spec fn is_digit_byte(b: u8) -> bool {
    48 <= b <= 57
}

/// Whether `s` holds decimal digits only.
pub open spec fn all_digits(s: Seq<u8>) -> bool {
    forall|i: int| 0 <= i < s.len() ==> is_digit_byte(#[trigger] s[i])
}

/// The number that the decimal digits `s` write.
pub open spec fn digits_value(s: Seq<u8>) -> nat
    decreases s.len(),
{
    if s.len() == 0 {
        0
    } else {
        (digits_value(s.drop_last()) * 10 + (s.last() - 48)) as nat
    }
}

/// The number that `s` writes: an optional plus sign, then at least one
/// decimal digit and nothing else, the whole no larger than `u64::MAX`.
pub open spec fn number_of(s: Seq<u8>) -> Option<u64> {
    if s.len() > 0 && s[0] == 43 {
        unsigned_number_of(s.skip(1))
    } else {
        unsigned_number_of(s)
    }
}

/// The number that `digits` writes: at least one decimal digit and nothing
/// else, the whole no larger than `u64::MAX`.
pub open spec fn unsigned_number_of(digits: Seq<u8>) -> Option<u64> {
    if digits.len() > 0 && all_digits(digits) && digits_value(digits) <= u64::MAX {
        Some(digits_value(digits) as u64)
    } else {
        None
    }
}

/// The first digits of a number write no more than all of them.
proof fn lemma_digits_value_grows(s: Seq<u8>, k: int)
    requires
        all_digits(s),
        0 <= k <= s.len(),
    ensures
        digits_value(s.take(k)) <= digits_value(s),
    decreases s.len(),
{
    if k == s.len() {
        assert(s.take(k) =~= s);
    } else {
        let front = s.drop_last();
        assert(front.take(k) =~= s.take(k));
        assert(all_digits(front)) by {
            assert forall|i: int| 0 <= i < front.len() implies is_digit_byte(#[trigger] front[i]) by {
                assert(front[i] == s[i]);
            }
        }
        lemma_digits_value_grows(front, k);
        assert(is_digit_byte(s[s.len() - 1]));
    }
}

/// The piece behind the last separator starts within the text, holds no
/// separator, and the byte before it is one.
pub proof fn lemma_last_piece(s: Seq<u8>, sep: u8, n: int)
    requires
        0 <= n <= s.len(),
    ensures
        0 <= last_piece_start(s, sep, n) <= n,
        forall|i: int| last_piece_start(s, sep, n) <= i < n ==> #[trigger] s[i] != sep,
        last_piece_start(s, sep, n) > 0 ==> s[last_piece_start(s, sep, n) - 1] == sep,
    decreases n,
{
    if n > 0 && s[n - 1] != sep {
        lemma_last_piece(s, sep, n - 1);
    }
}

/// In a text that begins with the separator, the last piece starts where
/// the last piece of the text behind that first separator starts.
proof fn lemma_start_behind_first(s: Seq<u8>, sep: u8, n: int)
    requires
        1 <= n <= s.len(),
        s[0] == sep,
    ensures
        last_piece_start(s, sep, n) == last_piece_start(s.skip(1), sep, n - 1) + 1,
    decreases n,
{
    if n > 1 {
        assert(s.skip(1)[n - 2] == s[n - 1]);
        lemma_start_behind_first(s, sep, n - 1);
    }
}

/// The pieces of a text that begins with the separator are, behind the
/// empty first one, the pieces of what follows that separator: the last of
/// them is the last piece of the text.
pub proof fn lemma_last_piece_behind_first(s: Seq<u8>, sep: u8)
    requires
        s.len() > 0,
        s[0] == sep,
    ensures
        last_piece(s.skip(1), sep) == last_piece(s, sep),
{
    lemma_start_behind_first(s, sep, s.len() as int);
    lemma_last_piece(s.skip(1), sep, s.len() - 1);
    let start = last_piece_start(s.skip(1), sep, s.len() - 1);
    assert(s.skip(1).skip(start) =~= s.skip(start + 1));
}

/// Whether `s` begins with `prefix`.
pub fn has_prefix(s: &[u8], prefix: &[u8]) -> (b: bool)
    ensures
        b == starts_with(s@, prefix@),
{
    let n: usize = prefix.len();
    if n > s.len() {
        return false;
    }
    let mut i: usize = 0;
    while i < n
        invariant
            n == prefix.len(),
            n <= s.len(),
            i <= n,
            forall|j: int| 0 <= j < i ==> s[j] == prefix[j],
        decreases n - i,
    {
        if s[i] != prefix[i] {
            assert(s@.take(n as int)[i as int] != prefix@[i as int]);
            return false;
        }
        i += 1;
    }
    assert(s@.take(n as int) =~= prefix@);
    true
}

/// Whether `part` stands in `s` at index `at`.
fn matches_at(s: &[u8], part: &[u8], at: usize) -> (b: bool)
    requires
        at + part.len() <= s.len(),
    ensures
        b == occurs_at(s@, part@, at as int),
{
    let n: usize = part.len();
    let mut i: usize = 0;
    while i < n
        invariant
            n == part.len(),
            at + n <= s.len(),
            i <= n,
            forall|j: int| 0 <= j < i ==> s[at + j] == part[j],
        decreases n - i,
    {
        if s[at + i] != part[i] {
            assert(s@.subrange(at as int, at + n)[i as int] != part@[i as int]);
            return false;
        }
        i += 1;
    }
    assert(s@.subrange(at as int, at + n) =~= part@);
    true
}

/// Whether `s` ends with `suffix`.
pub fn has_suffix(s: &[u8], suffix: &[u8]) -> (b: bool)
    ensures
        b == ends_with(s@, suffix@),
{
    if suffix.len() > s.len() {
        return false;
    }
    let at: usize = s.len() - suffix.len();
    assert(s@.skip(at as int) =~= s@.subrange(at as int, at + suffix.len()));
    matches_at(s, suffix, at)
}

/// Whether `part` stands somewhere in `s`.
pub fn has_part(s: &[u8], part: &[u8]) -> (b: bool)
    ensures
        b == contains(s@, part@),
{
    if part.len() > s.len() {
        return false;
    }
    let last: usize = s.len() - part.len();
    let mut at: usize = 0;
    loop
        invariant
            last == s.len() - part.len(),
            at <= last,
            forall|k: int| 0 <= k < at ==> !occurs_at(s@, part@, k),
        decreases last - at,
    {
        if matches_at(s, part, at) {
            return true;
        }
        if at == last {
            return false;
        }
        at += 1;
    }
}

/// Where the piece behind the last `sep` starts.
pub fn find_last_piece(s: &[u8], sep: u8) -> (start: usize)
    ensures
        start == last_piece_start(s@, sep, s.len() as int),
        start <= s.len(),
{
    let mut n: usize = s.len();
    while n > 0 && s[n - 1] != sep
        invariant
            n <= s.len(),
            last_piece_start(s@, sep, n as int) == last_piece_start(s@, sep, s.len() as int),
        decreases n,
    {
        n -= 1;
    }
    n
}

/// The number that the bytes from `from` on write.
pub fn parse_number(s: &[u8], from: usize) -> (r: Option<u64>)
    requires
        from <= s.len(),
    ensures
        r == number_of(s@.skip(from as int)),
{
    let n: usize = s.len();
    let ghost text = s@.skip(from as int);
    let mut i: usize = from;
    if i < n && s[i] == 43 {
        i += 1;
    }
    let start: usize = i;
    let ghost digits = s@.skip(start as int);
    assert(digits =~= if text.len() > 0 && text[0] == 43 {
        text.skip(1)
    } else {
        text
    });
    assert(number_of(text) == unsigned_number_of(digits));
    if i == n {
        return None;
    }
    let mut value: u64 = 0;
    while i < n
        invariant
            n == s.len(),
            start <= i <= n,
            digits == s@.skip(start as int),
            number_of(s@.skip(from as int)) == unsigned_number_of(digits),
            all_digits(digits.take(i - start)),
            value == digits_value(digits.take(i - start)),
        decreases n - i,
    {
        let b: u8 = s[i];
        assert(digits[i - start] == b);
        if b < 48 || b > 57 {
            assert(!is_digit_byte(digits[i - start]));
            assert(!all_digits(digits));
            return None;
        }
        let d: u64 = (b - 48) as u64;
        proof {
            let grown = digits.take(i - start + 1);
            assert(grown.drop_last() =~= digits.take(i - start));
            assert(grown.last() == b);
            assert(digits_value(grown) == value * 10 + d);
            assert(all_digits(grown)) by {
                assert forall|j: int| 0 <= j < grown.len() implies is_digit_byte(
                    #[trigger] grown[j],
                ) by {
                    if j < i - start {
                        assert(grown[j] == digits.take(i - start)[j]);
                    }
                }
            }
            if all_digits(digits) {
                lemma_digits_value_grows(digits, i - start + 1);
            }
        }
        if value > (u64::MAX - d) / 10 {
            return None;
        }
        value = value * 10 + d;
        i += 1;
    }
    assert(digits.take(i - start) =~= digits);
    Some(value)
}

/// Whether the text `s` begins with `prefix`.
pub fn text_starts_with(s: &str, prefix: &str) -> (b: bool)
    ensures
        b == starts_with(s.spec_bytes(), prefix.spec_bytes()),
{
    has_prefix(s.as_bytes(), prefix.as_bytes())
}

/// Whether the text `s` ends with `suffix`.
pub fn text_ends_with(s: &str, suffix: &str) -> (b: bool)
    ensures
        b == ends_with(s.spec_bytes(), suffix.spec_bytes()),
{
    has_suffix(s.as_bytes(), suffix.as_bytes())
}

/// Whether `part` stands somewhere in the text `s`.
pub fn text_contains(s: &str, part: &str) -> (b: bool)
    ensures
        b == contains(s.spec_bytes(), part.spec_bytes()),
{
    has_part(s.as_bytes(), part.as_bytes())
}

/// Whether two texts are the same.
pub fn text_equals(a: &str, b: &str) -> (same: bool)
    ensures
        same == (a.spec_bytes() == b.spec_bytes()),
{
    let x: &[u8] = a.as_bytes();
    let y: &[u8] = b.as_bytes();
    if x.len() != y.len() {
        return false;
    }
    let same: bool = has_prefix(x, y);
    assert(x@.take(y@.len() as int) =~= x@);
    same
}

/// The number that the text `s` writes.
pub fn text_number(s: &str) -> (r: Option<u64>)
    ensures
        r == number_of(s.spec_bytes()),
{
    let bytes: &[u8] = s.as_bytes();
    assert(bytes@.skip(0) =~= bytes@);
    parse_number(bytes, 0)
}

/// The number that follows the last `sep` of the text `s`, or that all of
/// `s` writes if it holds no `sep`.
pub fn last_number(s: &str, sep: u8) -> (r: Option<u64>)
    ensures
        r == number_of(last_piece(s.spec_bytes(), sep)),
{
    let bytes: &[u8] = s.as_bytes();
    let start: usize = find_last_piece(bytes, sep);
    parse_number(bytes, start)
}

} // verus!
