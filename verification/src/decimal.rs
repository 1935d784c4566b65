//! Decimal notation: writing an integer in digits and reading digits back.

use vstd::prelude::*;
use crate::text::{find_text, first_occurrence};

verus! {

/// Whether `c` is one of the digits `0` to `9`.
pub open spec fn is_digit(c: char) -> bool {
    '0' <= c <= '9'
}

/// The value of the digit `c`.
pub open spec fn digit_value(c: char) -> nat {
    (c as int - '0' as int) as nat
}

/// The digit that stands for `d`, a number below ten.
pub open spec fn digit_char(d: nat) -> char {
    ('0' as int + d) as char
}

/// Whether `s` holds digits only.
pub open spec fn all_digits(s: Seq<char>) -> bool {
    forall|i: int| 0 <= i < s.len() ==> is_digit(#[trigger] s[i])
}

/// The number that the digits `s` write, the first digit counting most.
pub open spec fn digits_value(s: Seq<char>) -> nat
    decreases s.len(),
{
    if s.len() == 0 {
        0
    } else {
        10 * digits_value(s.drop_last()) + digit_value(s.last())
    }
}

/// The number that `s` writes, where `s` is one digit or more and nothing
/// else.
pub open spec fn decimal_value(s: Seq<char>) -> Option<nat> {
    if s.len() > 0 && all_digits(s) {
        Some(digits_value(s))
    } else {
        None
    }
}

/// The digits of `n`, without leading zeros.
pub open spec fn decimal_digits(n: nat) -> Seq<char>
    decreases n,
{
    if n < 10 {
        seq![digit_char(n)]
    } else {
        decimal_digits(n / 10).push(digit_char(n % 10))
    }
}

/// The decimal notation of `i`: its digits, after a minus sign where it is
/// negative.
pub open spec fn decimal(i: int) -> Seq<char> {
    if i < 0 {
        seq!['-'] + decimal_digits((-i) as nat)
    } else {
        decimal_digits(i as nat)
    }
}

/// The whole part of a number in decimal notation: `text` is an optional
/// minus sign, one digit or more, and optionally a point and one digit or
/// more; the digits before the point give the number cut off toward zero.
/// Any other text has no whole part.
pub open spec fn whole_part(text: Seq<char>) -> Option<int> {
    let negative = text.len() > 0 && text.first() == '-';
    let magnitude = if negative {
        text.drop_first()
    } else {
        text
    };
    let digits = match first_occurrence(magnitude, seq!['.']) {
        Some(point) => if decimal_value(magnitude.skip(point + 1)) is Some {
            decimal_value(magnitude.take(point))
        } else {
            None
        },
        None => decimal_value(magnitude),
    };
    match digits {
        Some(value) => Some(
            if negative {
                -(value as int)
            } else {
                value as int
            },
        ),
        None => None,
    }
}

/// What is written is read back: the digits of `n` write `n`.
pub proof fn lemma_decimal_round_trip(n: nat)
    ensures
        decimal_value(decimal_digits(n)) == Some(n),
    decreases n,
{
    let digits = decimal_digits(n);
    if n < 10 {
        assert(digits.drop_last().len() == 0);
        assert(digits_value(digits.drop_last()) == 0);
        assert(digit_value(digit_char(n)) == n);
    } else {
        lemma_decimal_round_trip(n / 10);
        let shorter = decimal_digits(n / 10);
        assert(digits.drop_last() == shorter);
        assert(digit_value(digit_char(n % 10)) == n % 10);
        assert forall|i: int| 0 <= i < decimal_digits(n).len() implies is_digit(
            #[trigger] decimal_digits(n)[i],
        ) by {
            if i < shorter.len() {
                assert(decimal_digits(n)[i] == shorter[i]);
            }
        }
    }
}

/// A number is at least what any of its leading digits write.
pub proof fn lemma_digits_value_grows(s: Seq<char>, k: int)
    requires
        0 <= k <= s.len(),
        all_digits(s),
    ensures
        digits_value(s.take(k)) <= digits_value(s),
    decreases s.len() - k,
{
    if k < s.len() {
        lemma_digits_value_grows(s, k + 1);
        assert(s.take(k + 1).drop_last() == s.take(k));
    } else {
        assert(s.take(k) == s);
    }
}

/// Reads `chars[from..to]` as a number of one digit or more that is at most
/// `limit`.
pub fn parse_digits(chars: &Vec<char>, from: usize, to: usize, limit: u64) -> (r: Option<u64>)
    requires
        from <= to <= chars.len(),
    ensures
        r == match decimal_value(chars@.subrange(from as int, to as int)) {
            Some(value) => if value <= limit {
                Some(value as u64)
            } else {
                None
            },
            None => None,
        },
{
    let ghost s = chars@.subrange(from as int, to as int);
    if from == to {
        return None;
    }
    let mut value: u64 = 0;
    let mut i: usize = from;
    assert(s.take(0).len() == 0);
    while i < to
        invariant
            from <= i <= to <= chars.len(),
            s == chars@.subrange(from as int, to as int),
            all_digits(s.take(i - from)),
            value == digits_value(s.take(i - from)),
            value <= limit,
        decreases to - i,
    {
        let c = chars[i];
        assert(s[i - from] == c);
        if !('0' <= c && c <= '9') {
            assert(!all_digits(s));
            return None;
        }
        let digit: u64 = (c as u32 - '0' as u32) as u64;
        proof {
            let longer = s.take(i - from + 1);
            assert(longer.drop_last() == s.take(i - from));
            assert(longer.last() == c);
            assert forall|j: int| 0 <= j < longer.len() implies is_digit(#[trigger] longer[j]) by {
                if j < i - from {
                    assert(s.take(i - from)[j] == longer[j]);
                }
            }
            assert(digits_value(longer) == 10 * value + digit);
            if 10 * value + digit > limit {
                if all_digits(s) {
                    lemma_digits_value_grows(s, i - from + 1);
                }
            }
        }
        if limit < digit || value > (limit - digit) / 10 {
            return None;
        }
        value = 10 * value + digit;
        i += 1;
    }
    assert(s.take(to - from) == s);
    Some(value)
}

/// The one-character text of the digit that stands for `d`.
fn digit_text(d: u64) -> (s: &'static str)
    requires
        d < 10,
    ensures
        s@ == seq![digit_char(d as nat)],
{
    proof {
        reveal_strlit("0");
        reveal_strlit("1");
        reveal_strlit("2");
        reveal_strlit("3");
        reveal_strlit("4");
        reveal_strlit("5");
        reveal_strlit("6");
        reveal_strlit("7");
        reveal_strlit("8");
        reveal_strlit("9");
    }
    let s = if d == 0 {
        "0"
    } else if d == 1 {
        "1"
    } else if d == 2 {
        "2"
    } else if d == 3 {
        "3"
    } else if d == 4 {
        "4"
    } else if d == 5 {
        "5"
    } else if d == 6 {
        "6"
    } else if d == 7 {
        "7"
    } else if d == 8 {
        "8"
    } else {
        "9"
    };
    assert(s@ =~= seq![digit_char(d as nat)]);
    s
}

/// Appends the digits of `n` to `out`.
fn push_digits(n: u64, out: &mut String)
    ensures
        final(out)@ == old(out)@ + decimal_digits(n as nat),
    decreases n,
{
    if n >= 10 {
        push_digits(n / 10, out);
    }
    out.append(digit_text(n % 10));
}

/// The decimal notation of `n`.
pub fn unsigned_text(n: u64) -> (text: String)
    ensures
        text@ == decimal(n as int),
{
    let mut text = String::new();
    push_digits(n, &mut text);
    text
}

/// The decimal notation of `i`.
pub fn signed_text(i: i64) -> (text: String)
    ensures
        text@ == decimal(i as int),
{
    if i < 0 {
        proof {
            reveal_strlit("-");
        }
        let magnitude: u64 = (-(i as i128)) as u64;
        let mut text = String::from_str("-");
        assert(text@ =~= seq!['-']);
        push_digits(magnitude, &mut text);
        text
    } else {
        unsigned_text(i as u64)
    }
}

/// Whether `chars[from..to]` is one digit or more and nothing else.
pub fn is_number(chars: &Vec<char>, from: usize, to: usize) -> (b: bool)
    requires
        from <= to <= chars.len(),
    ensures
        b == decimal_value(chars@.subrange(from as int, to as int)) is Some,
{
    let ghost s = chars@.subrange(from as int, to as int);
    let mut i: usize = from;
    while i < to
        invariant
            from <= i <= to <= chars.len(),
            s == chars@.subrange(from as int, to as int),
            forall|j: int| 0 <= j < i - from ==> is_digit(#[trigger] s[j]),
        decreases to - i,
    {
        let c = chars[i];
        assert(s[i - from] == c);
        if !('0' <= c && c <= '9') {
            return false;
        }
        i += 1;
    }
    from < to
}

/// Reads the whole part of the decimal notation `text` as a number from 1 to
/// `limit`.
pub fn parse_whole_part(text: &Vec<char>, limit: u64) -> (r: Option<u64>)
    ensures
        r == match whole_part(text@) {
            Some(value) => if 1 <= value <= limit {
                Some(value as u64)
            } else {
                None
            },
            None => None,
        },
{
    let negative = text.len() > 0 && text[0] == '-';
    let start: usize = if negative {
        1
    } else {
        0
    };
    let end = text.len();
    let ghost magnitude = text@.subrange(start as int, end as int);
    assert(magnitude == if negative {
        text@.drop_first()
    } else {
        text@
    });
    let mut point_text: Vec<char> = Vec::new();
    point_text.push('.');
    assert(point_text@ == seq!['.']);
    let digits = match find_text(text, start, end, &point_text) {
        Some(point) => {
            assert(magnitude.skip(point - start + 1) == text@.subrange(point + 1, end as int));
            assert(magnitude.take(point - start) == text@.subrange(start as int, point as int));
            if is_number(text, point + 1, end) {
                parse_digits(text, start, point, limit)
            } else {
                None
            }
        },
        None => parse_digits(text, start, end, limit),
    };
    match digits {
        Some(value) => if negative || value == 0 {
            None
        } else {
            Some(value)
        },
        None => None,
    }
}

} // verus!
