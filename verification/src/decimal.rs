//! Decimal integers in text.

use vstd::prelude::*;
use vstd::string::{is_ascii_spec_bytes, StringExecFns};

verus! {

/// Whether a character is one of the ten decimal digits.
pub open spec fn is_digit(c: char) -> bool {
    '0' <= c <= '9'
}

/// The number that a decimal digit stands for.
pub open spec fn digit_value(c: char) -> int {
    c as int - '0' as int
}

/// Whether a text consists of decimal digits only.
pub open spec fn all_digits(s: Seq<char>) -> bool {
    forall|i: int| 0 <= i < s.len() ==> is_digit(#[trigger] s[i])
}

/// The number that a text of decimal digits stands for.
pub open spec fn digits_value(s: Seq<char>) -> int
    decreases s.len(),
{
    if s.len() == 0 {
        0
    } else {
        digits_value(s.drop_last()) * 10 + digit_value(s.last())
    }
}

/// The digits of a decimal integer: the text without its sign.
pub open spec fn unsigned_part(s: Seq<char>) -> Seq<char> {
    if s.len() > 0 && (s[0] == '-' || s[0] == '+') {
        s.skip(1)
    } else {
        s
    }
}

/// The integer that a text stands for: an optional `+` or `-`, then at least
/// one decimal digit and nothing else, with a value that an `i64` holds.
pub open spec fn decimal_i64(s: Seq<char>) -> Option<i64> {
    let digits = unsigned_part(s);
    let value = if s.len() > 0 && s[0] == '-' {
        -digits_value(digits)
    } else {
        digits_value(digits)
    };
    if digits.len() > 0 && all_digits(digits) && i64::MIN <= value <= i64::MAX {
        Some(value as i64)
    } else {
        None
    }
}

/// The value of digits never shrinks when more digits follow.
pub proof fn lemma_digits_value_grows(s: Seq<char>, n: int)
    requires
        all_digits(s),
        0 <= n <= s.len(),
    ensures
        0 <= digits_value(s.take(n)) <= digits_value(s),
    decreases s.len() - n,
{
    if n == s.len() {
        assert(s.take(n) =~= s);
        lemma_digits_value_is_natural(s);
    } else {
        lemma_digits_value_grows(s, n + 1);
        assert(s.take(n + 1).drop_last() =~= s.take(n));
        assert(is_digit(s[n]));
        assert(s.take(n + 1).last() == s[n]);
        lemma_digits_value_is_natural(s.take(n));
        assert(all_digits(s.take(n))) by {
            assert forall|i: int| 0 <= i < s.take(n).len() implies is_digit(
                #[trigger] s.take(n)[i],
            ) by {
                assert(s.take(n)[i] == s[i]);
            }
        }
    }
}

/// The value of digits is never negative.
pub proof fn lemma_digits_value_is_natural(s: Seq<char>)
    requires
        all_digits(s),
    ensures
        0 <= digits_value(s),
    decreases s.len(),
{
    if s.len() > 0 {
        assert forall|i: int| 0 <= i < s.drop_last().len() implies is_digit(
            #[trigger] s.drop_last()[i],
        ) by {
            assert(s.drop_last()[i] == s[i]);
        }
        lemma_digits_value_is_natural(s.drop_last());
        assert(is_digit(s[s.len() - 1]));
    }
}

/// Reads a decimal integer: an optional sign, then digits. Anything else,
/// and a value outside the range of `i64`, is refused.
pub fn parse_decimal_i64(s: &str) -> (r: Option<i64>)
    ensures
        r == decimal_i64(s@),
{
    let ghost digits = unsigned_part(s@);
    if !s.is_ascii() {
        proof {
            let i = choose|i: int| 0 <= i < s@.len() && !('\0' <= #[trigger] s@[i] <= '\u{7f}');
            if i == 0 {
                assert(!is_digit(digits[0]));
            } else if s@[0] == '-' || s@[0] == '+' {
                assert(digits[i - 1] == s@[i]);
                assert(!is_digit(digits[i - 1]));
            } else {
                assert(!is_digit(digits[i]));
            }
        }
        return None;
    }
    let bytes = s.as_bytes();
    proof {
        is_ascii_spec_bytes(s);
        assert(bytes@.len() == s@.len());
        assert forall|i: int| 0 <= i < bytes@.len() implies #[trigger] bytes@[i] == s@[i] as u8 by {}
    }
    let n = bytes.len();
    if n == 0 {
        return None;
    }
    let negative = bytes[0] == 45u8;
    let signed = negative || bytes[0] == 43u8;
    let first: usize = if signed {
        1
    } else {
        0
    };
    proof {
        assert(s@[0] as u8 == bytes@[0]);
        assert(negative == (s@[0] == '-'));
        assert(signed == (s@[0] == '-' || s@[0] == '+'));
        assert(digits.len() == n - first);
    }
    if first == n {
        return None;
    }
    // The digits read so far stand for `-low`.
    let mut low: i64 = 0;
    let mut i: usize = first;
    assert(digits.take(0) =~= Seq::<char>::empty());
    while i < n
        invariant
            first <= i <= n,
            n == bytes@.len(),
            bytes@.len() == s@.len(),
            digits == unsigned_part(s@),
            digits.len() == n - first,
            forall|k: int| 0 <= k < digits.len() ==> #[trigger] digits[k] == s@[k + first],
            forall|k: int| 0 <= k < bytes@.len() ==> #[trigger] bytes@[k] == s@[k] as u8,
            forall|k: int| 0 <= k < s@.len() ==> '\0' <= #[trigger] s@[k] <= '\u{7f}',
            all_digits(digits.take(i - first)),
            low == -digits_value(digits.take(i - first)),
            low <= 0,
        decreases n - i,
    {
        let b = bytes[i];
        let ghost c = digits[i - first];
        proof {
            assert(c == s@[i as int]);
            assert(b == c as u8);
            assert(digits.take(i - first + 1).drop_last() =~= digits.take(i - first));
            assert(digits.take(i - first + 1).last() == c);
        }
        if b < 48u8 || b > 57u8 {
            assert(!is_digit(digits[i - first]));
            return None;
        }
        let d: i128 = (b - 48u8) as i128;
        let wide: i128 = low as i128 * 10 - d;
        proof {
            assert(is_digit(c));
            assert(d == digit_value(c));
            assert(wide == -digits_value(digits.take(i - first + 1)));
            assert(all_digits(digits.take(i - first + 1))) by {
                assert forall|k: int| 0 <= k < i - first + 1 implies is_digit(
                    #[trigger] digits.take(i - first + 1)[k],
                ) by {
                    if k < i - first {
                        assert(digits.take(i - first)[k] == digits[k]);
                    }
                }
            }
        }
        if wide < i64::MIN as i128 {
            proof {
                if all_digits(digits) {
                    lemma_digits_value_grows(digits, i - first + 1);
                }
            }
            return None;
        }
        low = wide as i64;
        i += 1;
    }
    proof {
        assert(digits.take(n - first) =~= digits);
    }
    if negative {
        Some(low)
    } else if low == i64::MIN {
        None
    } else {
        Some(-low)
    }
}

/// The character of a decimal digit.
pub open spec fn digit_char(d: nat) -> char
    recommends
        d < 10,
{
    if d == 0 {
        '0'
    } else if d == 1 {
        '1'
    } else if d == 2 {
        '2'
    } else if d == 3 {
        '3'
    } else if d == 4 {
        '4'
    } else if d == 5 {
        '5'
    } else if d == 6 {
        '6'
    } else if d == 7 {
        '7'
    } else if d == 8 {
        '8'
    } else {
        '9'
    }
}

/// A natural number in decimal digits, without leading zeros.
pub open spec fn decimal_text(n: nat) -> Seq<char>
    decreases n,
{
    if n < 10 {
        seq![digit_char(n)]
    } else {
        decimal_text(n / 10).push(digit_char(n % 10))
    }
}

/// The text of one decimal digit.
fn digit_text(d: u64) -> (text: &'static str)
    requires
        d < 10,
    ensures
        text@ == seq![digit_char(d as nat)],
{
    proof {
        reveal_strlit("0");
        reveal_strlit("1");
        reveal_strlit("2");
        reveal_strlit("3");
        reveal_strlit("4");
        reveal_strlit("5");
        reveal_strlit("6");
        reveal_strlit("7");
        reveal_strlit("8");
        reveal_strlit("9");
    }
    let text = match d {
        0 => "0",
        1 => "1",
        2 => "2",
        3 => "3",
        4 => "4",
        5 => "5",
        6 => "6",
        7 => "7",
        8 => "8",
        _ => "9",
    };
    assert(text@ =~= seq![digit_char(d as nat)]);
    text
}

/// Writes a number in decimal digits behind a text.
pub fn push_decimal(text: &mut String, n: u64)
    ensures
        final(text)@ == old(text)@ + decimal_text(n as nat),
    decreases n,
{
    if n >= 10 {
        push_decimal(text, n / 10);
    }
    text.append(digit_text(n % 10));
    proof {
        if n >= 10 {
            assert(final(text)@ =~= old(text)@ + decimal_text(n as nat));
        } else {
            assert(final(text)@ =~= old(text)@ + decimal_text(n as nat));
        }
    }
}

/// The digits of a number are digits, and they stand for the number.
pub proof fn lemma_decimal_text(n: nat)
    ensures
        decimal_text(n).len() > 0,
        all_digits(decimal_text(n)),
        digits_value(decimal_text(n)) == n,
        decimal_text(n)[0] != '-',
        decimal_text(n)[0] != '+',
    decreases n,
{
    reveal_with_fuel(digits_value, 2);
    if n < 10 {
        let text = decimal_text(n);
        assert(text.drop_last() =~= Seq::<char>::empty());
        assert(text.last() == digit_char(n));
    } else {
        lemma_decimal_text(n / 10);
        let head = decimal_text(n / 10);
        let text = head.push(digit_char(n % 10));
        assert(text.drop_last() =~= head);
        assert forall|i: int| 0 <= i < text.len() implies is_digit(#[trigger] text[i]) by {
            if i < head.len() {
                assert(text[i] == head[i]);
            }
        }
        assert(text[0] == head[0]);
    }
}

/// A number that `i64` holds, written in decimal digits, is read back as
/// itself.
pub proof fn law_written_number_reads_back(n: nat)
    requires
        n <= i64::MAX,
    ensures
        decimal_i64(decimal_text(n)) == Some(n as i64),
{
    lemma_decimal_text(n);
}

} // verus!
