//! Decimal text of integers, and joining of text pieces with a separator.

use vstd::prelude::*;

verus! {

/// The character of a decimal digit.
pub open spec fn digit_char(d: int) -> char
    recommends
        0 <= d < 10,
{
    if d == 0 {
        '0'
    } else if d == 1 {
        '1'
    } else if d == 2 {
        '2'
    } else if d == 3 {
        '3'
    } else if d == 4 {
        '4'
    } else if d == 5 {
        '5'
    } else if d == 6 {
        '6'
    } else if d == 7 {
        '7'
    } else if d == 8 {
        '8'
    } else {
        '9'
    }
}

/// Whether `c` is one of the ten decimal digits.
pub open spec fn is_digit(c: char) -> bool {
    exists|d: int| 0 <= d < 10 && c == #[trigger] digit_char(d)
}

/// The decimal digits of a natural number, most significant first, without
/// leading zeros (zero itself is `"0"`).
pub open spec fn decimal_digits(n: nat) -> Seq<char>
    decreases n,
{
    if n < 10 {
        seq![digit_char(n as int)]
    } else {
        decimal_digits(n / 10).push(digit_char((n % 10) as int))
    }
}

/// The decimal text of an integer: a minus sign for a negative number, then
/// the digits of its magnitude.
pub open spec fn decimal(n: int) -> Seq<char> {
    if n < 0 {
        seq!['-'] + decimal_digits((-n) as nat)
    } else {
        decimal_digits(n as nat)
    }
}

/// The pieces of `parts` in order, with `sep` between each two neighbours
/// and nowhere else.
pub open spec fn join(parts: Seq<Seq<char>>, sep: char) -> Seq<char>
    decreases parts.len(),
{
    if parts.len() == 0 {
        Seq::empty()
    } else if parts.len() == 1 {
        parts[0]
    } else {
        join(parts.drop_last(), sep) + seq![sep] + parts.last()
    }
}

/// The digits of a number are never empty and are all decimal digits.
pub proof fn lemma_decimal_digits_shape(n: nat)
    ensures
        decimal_digits(n).len() >= 1,
        forall|i: int| 0 <= i < decimal_digits(n).len() ==> is_digit(#[trigger] decimal_digits(n)[i]),
    decreases n,
{
    if n < 10 {
        assert(is_digit(digit_char(n as int)));
    } else {
        lemma_decimal_digits_shape(n / 10);
        assert(is_digit(digit_char((n % 10) as int)));
    }
}

/// The decimal text of an integer is never empty, and holds only digits
/// and, in front of a negative number, a minus sign.
pub proof fn lemma_decimal_shape(n: int)
    ensures
        decimal(n).len() >= 1,
        forall|i: int|
            0 <= i < decimal(n).len() ==> is_digit(#[trigger] decimal(n)[i]) || decimal(n)[i] == '-',
{
    if n < 0 {
        lemma_decimal_digits_shape((-n) as nat);
    } else {
        lemma_decimal_digits_shape(n as nat);
    }
}

/// Whether `t` is free of `sep` at both ends and holds no two `sep` next to
/// each other.
pub open spec fn well_separated(t: Seq<char>, sep: char) -> bool {
    &&& t.len() > 0 ==> t[0] != sep && t[t.len() - 1] != sep
    &&& forall|i: int| 0 <= i < t.len() - 1 ==> !(#[trigger] t[i] == sep && t[i + 1] == sep)
}

/// Whether `piece` is not empty and holds no `sep`.
pub open spec fn is_piece(piece: Seq<char>, sep: char) -> bool {
    &&& piece.len() > 0
    &&& forall|i: int| 0 <= i < piece.len() ==> #[trigger] piece[i] != sep
}

/// Joining one more piece puts the separator in front of it, unless it is
/// the first.
pub proof fn lemma_join_push(parts: Seq<Seq<char>>, piece: Seq<char>, sep: char)
    ensures
        join(parts.push(piece), sep) == if parts.len() == 0 {
            piece
        } else {
            join(parts, sep) + seq![sep] + piece
        },
{
    let all = parts.push(piece);
    assert(all.last() == piece);
    assert(all.drop_last() =~= parts);
    if parts.len() == 0 {
        assert(all[0] == piece);
    }
}

/// Joined pieces that are not empty and hold no separator give a text that
/// neither starts nor ends with the separator and never holds two in a
/// row; it is empty only if there are no pieces.
pub proof fn lemma_join_well_separated(parts: Seq<Seq<char>>, sep: char)
    requires
        forall|k: int| 0 <= k < parts.len() ==> is_piece(#[trigger] parts[k], sep),
    ensures
        well_separated(join(parts, sep), sep),
        parts.len() > 0 ==> join(parts, sep).len() > 0,
        parts.len() == 0 ==> join(parts, sep).len() == 0,
    decreases parts.len(),
{
    if parts.len() == 1 {
        assert(is_piece(parts[0], sep));
    } else if parts.len() > 1 {
        let front = parts.drop_last();
        let piece = parts.last();
        assert forall|k: int| 0 <= k < front.len() implies is_piece(#[trigger] front[k], sep) by {
            assert(front[k] == parts[k]);
        }
        lemma_join_well_separated(front, sep);
        assert(is_piece(parts[parts.len() - 1], sep));
        let head = join(front, sep);
        let t = join(parts, sep);
        assert(t == head + seq![sep] + piece);
        assert(t.len() == head.len() + 1 + piece.len());
        assert forall|i: int| 0 <= i < t.len() - 1 implies !(#[trigger] t[i] == sep && t[i + 1]
            == sep) by {
            if i + 1 < head.len() {
                assert(t[i] == head[i]);
                assert(t[i + 1] == head[i + 1]);
            } else if i + 1 == head.len() {
                assert(t[i] == head[head.len() - 1]);
            } else if i == head.len() {
                assert(t[i + 1] == piece[0]);
            } else {
                assert(t[i] == piece[i - head.len() - 1]);
            }
        }
        assert(t[0] == head[0]);
        assert(t[t.len() - 1] == piece[piece.len() - 1]);
    }
}

/// The one-character text of a decimal digit.
fn digit_text(d: u8) -> (s: &'static str)
    requires
        d < 10,
    ensures
        s@ == seq![digit_char(d as int)],
{
    proof {
        reveal_strlit("0");
        reveal_strlit("1");
        reveal_strlit("2");
        reveal_strlit("3");
        reveal_strlit("4");
        reveal_strlit("5");
        reveal_strlit("6");
        reveal_strlit("7");
        reveal_strlit("8");
        reveal_strlit("9");
    }
    let s: &'static str = if d == 0 {
        "0"
    } else if d == 1 {
        "1"
    } else if d == 2 {
        "2"
    } else if d == 3 {
        "3"
    } else if d == 4 {
        "4"
    } else if d == 5 {
        "5"
    } else if d == 6 {
        "6"
    } else if d == 7 {
        "7"
    } else if d == 8 {
        "8"
    } else {
        "9"
    };
    assert(s@ =~= seq![digit_char(d as int)]);
    s
}

/// Appends the decimal digits of `n` to `out`.
pub fn push_digits(out: &mut String, n: u64)
    ensures
        final(out)@ == old(out)@ + decimal_digits(n as nat),
    decreases n,
{
    if n >= 10 {
        push_digits(out, n / 10);
    }
    let d: u8 = (n % 10) as u8;
    out.append(digit_text(d));
    proof {
        if n >= 10 {
            assert(out@ =~= old(out)@ + decimal_digits(n as nat));
        } else {
            assert(out@ =~= old(out)@ + decimal_digits(n as nat));
        }
    }
}

/// Appends the decimal text of `n` to `out`.
pub fn push_decimal(out: &mut String, n: i64)
    ensures
        final(out)@ == old(out)@ + decimal(n as int),
{
    if n < 0 {
        proof {
            reveal_strlit("-");
        }
        out.append("-");
        let magnitude: u64 = (-(n as i128)) as u64;
        push_digits(out, magnitude);
        assert(out@ =~= old(out)@ + decimal(n as int));
    } else {
        push_digits(out, n as u64);
    }
}

/// The decimal text of `n`.
pub fn decimal_string(n: i64) -> (s: String)
    ensures
        s@ == decimal(n as int),
{
    let mut s = String::new();
    push_decimal(&mut s, n);
    assert(s@ =~= decimal(n as int));
    s
}

} // verus!
