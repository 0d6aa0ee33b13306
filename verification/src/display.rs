//! The display form of dates, and the proof that it reads back as the date.

use crate::calendar::Ymd;
use crate::date::CalendarDate;
use crate::text::{
    all_digits, decimal_value, fields, is_digit, lemma_fields_first, lemma_fields_single,
    parse_date, parse_token,
};
use vstd::prelude::*;
use vstd::string::StringExecFns;

verus! {

/// The decimal digit for a number from 0 to 9.
pub open spec fn digit_char(d: int) -> char {
    if d == 0 {
        '0'
    } else if d == 1 {
        '1'
    } else if d == 2 {
        '2'
    } else if d == 3 {
        '3'
    } else if d == 4 {
        '4'
    } else if d == 5 {
        '5'
    } else if d == 6 {
        '6'
    } else if d == 7 {
        '7'
    } else if d == 8 {
        '8'
    } else {
        '9'
    }
}

/// A natural number in decimal, without leading zeros.
pub open spec fn decimal_digits(n: int) -> Seq<char>
    decreases n,
{
    if n < 10 {
        seq![digit_char(n)]
    } else {
        decimal_digits(n / 10).push(digit_char(n % 10))
    }
}

/// A natural number in decimal, with a leading zero if it is below 10.
pub open spec fn zero_padded(n: int) -> Seq<char> {
    if n < 10 {
        seq!['0', digit_char(n)]
    } else {
        decimal_digits(n)
    }
}

/// An integer in decimal, with a `-` in front if it is negative.
pub open spec fn signed_decimal(i: int) -> Seq<char> {
    if i < 0 {
        seq!['-'] + decimal_digits(-i)
    } else {
        decimal_digits(i)
    }
}

/// The display form of a date: day and month in two digits, the year as it
/// is, separated by `/`.
pub open spec fn date_text(d: Ymd) -> Seq<char> {
    zero_padded(d.day) + seq!['/'] + zero_padded(d.month) + seq!['/'] + signed_decimal(d.year)
}

/// The text of one decimal digit.
fn digit_str(d: u64) -> (text: &'static str)
    requires
        d < 10,
    ensures
        text@ == seq![digit_char(d as int)],
{
    proof {
        reveal_strlit("0");
        reveal_strlit("1");
        reveal_strlit("2");
        reveal_strlit("3");
        reveal_strlit("4");
        reveal_strlit("5");
        reveal_strlit("6");
        reveal_strlit("7");
        reveal_strlit("8");
        reveal_strlit("9");
    }
    let text = if d == 0 {
        "0"
    } else if d == 1 {
        "1"
    } else if d == 2 {
        "2"
    } else if d == 3 {
        "3"
    } else if d == 4 {
        "4"
    } else if d == 5 {
        "5"
    } else if d == 6 {
        "6"
    } else if d == 7 {
        "7"
    } else if d == 8 {
        "8"
    } else {
        "9"
    };
    text
}

/// Appends a natural number in decimal.
pub(crate) fn append_decimal(text: &mut String, n: u64)
    ensures
        final(text)@ == old(text)@ + decimal_digits(n as int),
    decreases n,
{
    if n >= 10 {
        append_decimal(text, n / 10);
    }
    text.append(digit_str(n % 10));
}

/// Appends a natural number in decimal, in at least two digits.
fn append_zero_padded(text: &mut String, n: u64)
    ensures
        final(text)@ == old(text)@ + zero_padded(n as int),
{
    if n < 10 {
        proof {
            reveal_strlit("0");
        }
        text.append("0");
        text.append(digit_str(n));
    } else {
        append_decimal(text, n);
    }
}

/// The display form of a date, such as `05/09/2022`.
pub fn format_date(date: &CalendarDate) -> (text: String)
    ensures
        text@ == date_text(date@),
{
    proof {
        use_type_invariant(date);
        reveal_strlit("/");
        reveal_strlit("-");
    }
    let mut text = String::new();
    append_zero_padded(&mut text, date.day() as u64);
    text.append("/");
    append_zero_padded(&mut text, date.month() as u64);
    text.append("/");
    let year = date.year();
    if year < 0 {
        text.append("-");
        append_decimal(&mut text, (0 - year) as u64);
    } else {
        append_decimal(&mut text, year as u64);
    }
    text
}

/// Writing a natural number in decimal and reading the digits gives the
/// number back.
pub proof fn lemma_decimal_digits(n: int)
    requires
        0 <= n,
    ensures
        decimal_digits(n).len() > 0,
        all_digits(decimal_digits(n)),
        decimal_value(decimal_digits(n)) == n,
    decreases n,
{
    let s = decimal_digits(n);
    if n < 10 {
        assert(s.drop_last() == Seq::<char>::empty());
        assert(decimal_value(s.drop_last()) == 0);
    } else {
        lemma_decimal_digits(n / 10);
        assert(s.drop_last() == decimal_digits(n / 10));
    }
}

/// The same for a number written in at least two digits.
pub proof fn lemma_zero_padded(n: int)
    requires
        0 <= n,
    ensures
        zero_padded(n).len() > 0,
        all_digits(zero_padded(n)),
        decimal_value(zero_padded(n)) == n,
{
    let s = zero_padded(n);
    if n < 10 {
        assert(s.drop_last() == seq!['0']);
        assert(s.drop_last().drop_last() == Seq::<char>::empty());
        assert(decimal_value(s.drop_last().drop_last()) == 0);
        assert(decimal_value(s.drop_last()) == 0);
    } else {
        lemma_decimal_digits(n);
    }
}

/// Reading the display form of a date gives the date back.
pub proof fn lemma_format_then_parse(d: Ymd)
    requires
        d.is_date(),
    ensures
        parse_token(date_text(d)) == Some((d.day, d.month, d.year)),
        parse_date(date_text(d)) == Some(d),
{
    let day = zero_padded(d.day);
    let month = zero_padded(d.month);
    let year = signed_decimal(d.year);
    lemma_zero_padded(d.day);
    lemma_zero_padded(d.month);
    if d.year < 0 {
        lemma_decimal_digits(-d.year);
        assert(year.drop_first() == decimal_digits(-d.year));
        assert forall|j: int| 0 <= j < year.len() implies year[j] != '/' by {
            if j > 0 {
                assert(is_digit(decimal_digits(-d.year)[j - 1]));
            }
        }
    } else {
        lemma_decimal_digits(d.year);
    }
    lemma_fields_single(year);
    lemma_fields_first(month, year);
    lemma_fields_first(day, month + seq!['/'] + year);
    assert(date_text(d) == day + seq!['/'] + (month + seq!['/'] + year));
    assert(fields(date_text(d)) == seq![day, month, year]);
}

/// A text that denotes a date denotes the same date after it has been read
/// and displayed again, whatever its own padding and signs were.
pub proof fn lemma_parse_format_parse(t: Seq<char>)
    requires
        parse_date(t) is Some,
    ensures
        parse_date(date_text(parse_date(t)->0)) == parse_date(t),
{
    lemma_format_then_parse(parse_date(t)->0);
}

} // verus!
