//! Text: comparison, and decimal numbers.

use vstd::prelude::*;
use vstd::string::*;

verus! {

/// `str::eq`, the `==` of two string slices: they hold the same characters.
pub assume_specification[ <str as PartialEq>::eq ](a: &str, b: &str) -> (r: bool)
    ensures
        r == (a@ == b@),
;

/// The character of a decimal digit.
pub open spec fn digit_char(d: nat) -> char {
    ('0' as int + d) as char
}

/// Whether a character is a decimal digit.
pub open spec fn is_digit(c: char) -> bool {
    '0' as int <= c as int <= '9' as int
}

/// Whether all characters of a text are decimal digits.
pub open spec fn all_digits(s: Seq<char>) -> bool {
    forall|i: int| 0 <= i < s.len() ==> is_digit(#[trigger] s[i])
}

/// The decimal digits of a number, without leading zeros.
pub open spec fn digits(n: nat) -> Seq<char>
    decreases n,
{
    if n < 10 {
        seq![digit_char(n)]
    } else {
        digits(n / 10).push(digit_char(n % 10))
    }
}

/// A number in decimal, with a minus sign if it is negative.
pub open spec fn decimal(n: int) -> Seq<char> {
    if n < 0 {
        seq!['-'] + digits((-n) as nat)
    } else {
        digits(n as nat)
    }
}

/// The number that a sequence of decimal digits stands for.
pub open spec fn digits_value(s: Seq<char>) -> int
    decreases s.len(),
{
    if s.len() == 0 {
        0
    } else {
        10 * digits_value(s.drop_last()) + (s.last() as int - '0' as int)
    }
}

/// The digits of a number are digits, there is at least one, and they stand for
/// the number.
pub proof fn lemma_digits(n: nat)
    ensures
        digits(n).len() > 0,
        all_digits(digits(n)),
        digits_value(digits(n)) == n,
    decreases n,
{
    reveal_with_fuel(digits_value, 2);
    if n >= 10 {
        lemma_digits(n / 10);
        assert(digits(n).drop_last() =~= digits(n / 10));
    } else {
        assert(digits(n).drop_last() =~= Seq::empty());
    }
}

/// A number in decimal is made of digits and, at its start, a minus sign; it
/// ends with a digit.
pub proof fn lemma_decimal_chars(n: int)
    ensures
        decimal(n).len() > 0,
        forall|i: int| 0 <= i < decimal(n).len() ==> decimal(n)[i] == '-' || is_digit(
            #[trigger] decimal(n)[i],
        ),
        is_digit(decimal(n).last()),
{
    let magnitude = (if n < 0 { -n } else { n }) as nat;
    lemma_digits(magnitude);
    let d = digits(magnitude);
    assert(is_digit(d[d.len() - 1]));
    if n < 0 {
        assert(decimal(n)[0] == '-');
        assert forall|i: int| 0 < i < decimal(n).len() implies is_digit(#[trigger] decimal(n)[i]) by {
            assert(decimal(n)[i] == d[i - 1]);
        }
    }
}

/// Different numbers are different texts, and a number in decimal is not empty
/// and has no bar in it.
pub proof fn lemma_decimal(m: int, n: int)
    ensures
        decimal(n).len() > 0,
        !decimal(n).contains('|'),
        decimal(m) == decimal(n) ==> m == n,
{
    let m_abs = (if m < 0 { -m } else { m }) as nat;
    let n_abs = (if n < 0 { -n } else { n }) as nat;
    lemma_digits(m_abs);
    lemma_digits(n_abs);
    lemma_decimal_chars(n);
    assert forall|i: int| 0 <= i < decimal(n).len() implies decimal(n)[i] != '|' by {
        assert(decimal(n)[i] == '-' || is_digit(decimal(n)[i]));
    }
    if n < 0 {
        assert(decimal(n)[0] == '-');
        assert(decimal(n).drop_first() =~= digits(n_abs));
    }
    if m < 0 {
        assert(decimal(m)[0] == '-');
        assert(decimal(m).drop_first() =~= digits(m_abs));
    }
    if decimal(m) == decimal(n) {
        assert(is_digit(digits(m_abs)[0]));
        assert(is_digit(digits(n_abs)[0]));
    }
}

/// One decimal digit as text.
fn digit_text(d: u64) -> (s: &'static str)
    requires
        d < 10,
    ensures
        s@ == seq![digit_char(d as nat)],
{
    proof {
        reveal_strlit("0");
        reveal_strlit("1");
        reveal_strlit("2");
        reveal_strlit("3");
        reveal_strlit("4");
        reveal_strlit("5");
        reveal_strlit("6");
        reveal_strlit("7");
        reveal_strlit("8");
        reveal_strlit("9");
    }
    let s: &'static str = match d {
        0 => "0",
        1 => "1",
        2 => "2",
        3 => "3",
        4 => "4",
        5 => "5",
        6 => "6",
        7 => "7",
        8 => "8",
        _ => "9",
    };
    assert(s@ =~= seq![digit_char(d as nat)]);
    s
}

/// The decimal digits of a number.
fn digits_text(n: u64) -> (s: String)
    ensures
        s@ == digits(n as nat),
    decreases n,
{
    if n < 10 {
        digit_text(n).to_owned()
    } else {
        let mut s = digits_text(n / 10);
        s.append(digit_text(n % 10));
        assert(s@ =~= digits(n as nat / 10).push(digit_char(n as nat % 10)));
        s
    }
}

/// A number in decimal.
pub fn decimal_text(n: i32) -> (s: String)
    ensures
        s@ == decimal(n as int),
{
    if n < 0 {
        proof {
            reveal_strlit("-");
        }
        let mut s = "-".to_owned();
        let magnitude: i64 = -(n as i64);
        s.append(digits_text(magnitude as u64).as_str());
        assert(s@ =~= decimal(n as int));
        s
    } else {
        digits_text(n as u64)
    }
}

/// The value of a text of digits: nothing stands for zero, and a digit behind
/// others makes their value ten times as large and adds its own.
pub proof fn law_digit_behind_counts_ten_times_less(s: Seq<char>, c: char)
    ensures
        digits_value(Seq::<char>::empty()) == 0,
        digits_value(s.push(c)) == 10 * digits_value(s) + (c as int - 48),
        is_digit(c) <==> 48 <= c as int <= 57,
{
    assert(s.push(c).drop_last() =~= s);
}

/// A number that is not negative is written with the digits that stand for it,
/// without a zero before them; a negative one with a minus sign before its
/// opposite.
pub proof fn law_decimal_is_plain(n: int)
    ensures
        n >= 0 ==> decimal(n).len() > 0,
        n >= 0 ==> forall|i: int|
            0 <= i < decimal(n).len() ==> 48 <= #[trigger] decimal(n)[i] as int <= 57,
        n >= 0 ==> digits_value(decimal(n)) == n,
        n >= 0 && decimal(n).len() > 1 ==> decimal(n)[0] != '0',
        n < 0 ==> decimal(n) == seq!['-'] + decimal(-n),
{
    if n >= 0 {
        lemma_digits(n as nat);
        lemma_no_leading_zero(n as nat);
        assert forall|i: int| 0 <= i < decimal(n).len() implies 48 <= #[trigger] decimal(n)[i] as int
            <= 57 by {
            assert(is_digit(digits(n as nat)[i]));
        }
    }
}

/// The digits of a number start with a zero only where the number is zero.
proof fn lemma_no_leading_zero(n: nat)
    ensures
        digits(n).len() > 0,
        n > 0 ==> digits(n)[0] != '0',
        n < 10 ==> digits(n).len() == 1,
    decreases n,
{
    if n >= 10 {
        lemma_no_leading_zero(n / 10);
    }
}

} // verus!
