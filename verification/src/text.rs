//! The textual form of dates: `day/month/year`, the fields in decimal.

use crate::calendar::{ymd, Ymd};
use crate::date::CalendarDate;
use vstd::prelude::*;

verus! {

/// The one way a date text can be wrong: it is not three decimal fields
/// separated by `/` that name a day of the calendar.
#[derive(Clone, Copy, Debug, PartialEq, Eq, Structural)]
pub struct DateFormatError;

impl DateFormatError {
    /// What to tell a reader about the error.
    pub fn message(&self) -> (text: String)
        ensures
            text@ == "invalid date format"@,
    {
        "invalid date format".to_owned()
    }
}

/// The decimal digits `'0'` to `'9'`.
pub open spec fn is_digit(c: char) -> bool {
    '0' <= c <= '9'
}

/// The number a decimal digit stands for.
pub open spec fn digit_value(c: char) -> int {
    c as int - '0' as int
}

/// Every character is a decimal digit.
pub open spec fn all_digits(s: Seq<char>) -> bool {
    forall|i: int| 0 <= i < s.len() ==> is_digit(#[trigger] s[i])
}

/// The number written by a string of decimal digits, most significant digit
/// first. The empty string writes 0.
pub open spec fn decimal_value(s: Seq<char>) -> int
    decreases s.len(),
{
    if s.len() == 0 {
        0
    } else {
        decimal_value(s.drop_last()) * 10 + digit_value(s.last())
    }
}

/// The number written by one or more decimal digits, if it does not exceed
/// `limit`.
pub open spec fn digits_up_to(s: Seq<char>, limit: int) -> Option<int> {
    if s.len() > 0 && all_digits(s) && decimal_value(s) <= limit {
        Some(decimal_value(s))
    } else {
        None
    }
}

/// The text without its leading `+`, if it has one.
pub open spec fn without_plus(s: Seq<char>) -> Seq<char> {
    if s.len() > 0 && s[0] == '+' {
        s.drop_first()
    } else {
        s
    }
}

/// What a day or month field denotes: an optional `+` and then digits, with
/// a value that fits in 32 bits without sign.
pub open spec fn unsigned_field(s: Seq<char>) -> Option<int> {
    digits_up_to(without_plus(s), u32::MAX as int)
}

/// What a year field denotes: an optional `+` or `-` and then digits, with a
/// value that fits in 32 bits with sign.
pub open spec fn signed_field(s: Seq<char>) -> Option<int> {
    if s.len() > 0 && s[0] == '-' {
        match digits_up_to(s.drop_first(), -(i32::MIN as int)) {
            Some(v) => Some(-v),
            None => None,
        }
    } else {
        digits_up_to(without_plus(s), i32::MAX as int)
    }
}

/// Length of the text before the first `/`, or of the whole text if it has
/// none.
pub open spec fn field_len(s: Seq<char>) -> int
    decreases s.len(),
{
    if s.len() == 0 || s[0] == '/' {
        0
    } else {
        1 + field_len(s.drop_first())
    }
}

/// The pieces of a text between its `/` separators, in order. A text with n
/// separators has n + 1 pieces, some of which may be empty.
pub open spec fn fields(s: Seq<char>) -> Seq<Seq<char>>
    decreases s.len(),
{
    let n = field_len(s);
    if n < 0 || n >= s.len() {
        seq![s]
    } else {
        seq![s.take(n)] + fields(s.skip(n + 1))
    }
}

/// The numbers `(day, month, year)` that a text denotes: it must have exactly
/// three fields, an unsigned day, an unsigned month and a signed year.
pub open spec fn parse_token(s: Seq<char>) -> Option<(int, int, int)> {
    let parts = fields(s);
    if parts.len() == 3 {
        match (unsigned_field(parts[0]), unsigned_field(parts[1]), signed_field(parts[2])) {
            (Some(day), Some(month), Some(year)) => Some((day, month, year)),
            _ => None,
        }
    } else {
        None
    }
}

/// The date that a text denotes: its three numbers must name a day that
/// exists.
pub open spec fn parse_date(s: Seq<char>) -> Option<Ymd> {
    match parse_token(s) {
        Some((day, month, year)) => if ymd(year, month, day).is_date() {
            Some(ymd(year, month, day))
        } else {
            None
        },
        None => None,
    }
}

/// The characters of a string, one by one.
pub fn chars_of(s: &str) -> (chars: Vec<char>)
    ensures
        chars@ == s@,
{
    let mut chars: Vec<char> = Vec::new();
    for c in it: s.chars()
        invariant
            it.seq() == s@,
            chars@ == s@.take(it.index() as int),
    {
        chars.push(c);
    }
    chars
}

/// A prefix without separator that ends at a separator, or at the end of the
/// text, is the first field.
proof fn lemma_field_len(s: Seq<char>, k: int)
    requires
        0 <= k <= s.len(),
        forall|j: int| 0 <= j < k ==> s[j] != '/',
        k == s.len() || s[k] == '/',
    ensures
        field_len(s) == k,
    decreases k,
{
    if k > 0 {
        lemma_field_len(s.drop_first(), k - 1);
    }
}

/// Cuts a text at its `/` separators.
pub fn split_fields(chars: &Vec<char>) -> (parts: Vec<Vec<char>>)
    ensures
        parts@.len() == fields(chars@).len(),
        forall|k: int| 0 <= k < parts@.len() ==> (#[trigger] parts@[k])@ == fields(chars@)[k],
{
    let mut parts: Vec<Vec<char>> = Vec::new();
    let mut current: Vec<char> = Vec::new();
    let ghost mut start: int = 0;
    let ghost mut done: Seq<Seq<char>> = Seq::empty();
    let mut i: usize = 0;
    assert(chars@.skip(0) == chars@);
    while i < chars.len()
        invariant
            0 <= start <= i <= chars.len(),
            current@ == chars@.subrange(start, i as int),
            forall|j: int| start <= j < i ==> chars@[j] != '/',
            fields(chars@) == done + fields(chars@.skip(start)),
            parts@.len() == done.len(),
            forall|k: int| 0 <= k < parts@.len() ==> (#[trigger] parts@[k])@ == done[k],
        decreases chars.len() - i,
    {
        let c = chars[i];
        if c == '/' {
            proof {
                let rest = chars@.skip(start);
                lemma_field_len(rest, i - start);
                assert(rest.take(i - start) == current@);
                assert(rest.skip(i - start + 1) == chars@.skip(i + 1));
                done = done.push(current@);
                start = i + 1;
            }
            parts.push(current);
            current = Vec::new();
        } else {
            current.push(c);
        }
        i += 1;
    }
    proof {
        let rest = chars@.skip(start);
        lemma_field_len(rest, chars@.len() - start);
    }
    parts.push(current);
    parts
}

/// A number written in digits is at least the number written by any prefix
/// of them.
proof fn lemma_decimal_value_prefix(s: Seq<char>, k: int)
    requires
        all_digits(s),
        0 <= k <= s.len(),
    ensures
        0 <= decimal_value(s.take(k)) <= decimal_value(s),
    decreases s.len(),
{
    if s.len() == 0 {
    } else if k == s.len() {
        assert(s.take(k) == s);
        lemma_decimal_value_prefix(s.drop_last(), k - 1);
    } else {
        assert(s.drop_last().take(k) == s.take(k));
        lemma_decimal_value_prefix(s.drop_last(), k);
        lemma_decimal_value_prefix(s.drop_last(), s.len() - 1);
    }
}

/// Reads the digits of `field` from position `from` to its end.
fn parse_digits(field: &Vec<char>, from: usize, limit: u64) -> (value: Option<u64>)
    requires
        from <= field.len(),
        limit <= u32::MAX as u64 + 1,
    ensures
        value matches Some(v) ==> digits_up_to(field@.skip(from as int), limit as int) == Some(
            v as int,
        ),
        value is None ==> digits_up_to(field@.skip(from as int), limit as int) is None,
{
    let ghost digits = field@.skip(from as int);
    if from == field.len() {
        return None;
    }
    let mut value: u64 = 0;
    let mut i: usize = from;
    while i < field.len()
        invariant
            from <= i <= field.len(),
            digits == field@.skip(from as int),
            all_digits(digits.take(i - from)),
            value == decimal_value(digits.take(i - from)),
            value <= limit <= u32::MAX as u64 + 1,
        decreases field.len() - i,
    {
        let c = field[i];
        if c < '0' || c > '9' {
            assert(!is_digit(digits[i - from]));
            return None;
        }
        let ghost longer = digits.take(i - from + 1);
        assert(longer.drop_last() == digits.take(i - from));
        value = value * 10 + (c as u64 - '0' as u64);
        if value > limit {
            proof {
                if all_digits(digits) {
                    lemma_decimal_value_prefix(digits, i - from + 1);
                }
            }
            return None;
        }
        i += 1;
    }
    assert(digits.take(i - from) == digits);
    Some(value)
}

/// Reads a day or month field.
pub fn parse_unsigned(field: &Vec<char>) -> (value: Option<u32>)
    ensures
        value matches Some(v) ==> unsigned_field(field@) == Some(v as int),
        value is None ==> unsigned_field(field@) is None,
{
    let from: usize = if field.len() > 0 && field[0] == '+' {
        1
    } else {
        0
    };
    assert(field@.skip(0) == field@);
    match parse_digits(field, from, u32::MAX as u64) {
        Some(v) => Some(v as u32),
        None => None,
    }
}

/// Reads a year field.
pub fn parse_signed(field: &Vec<char>) -> (value: Option<i32>)
    ensures
        value matches Some(v) ==> signed_field(field@) == Some(v as int),
        value is None ==> signed_field(field@) is None,
{
    assert(field@.skip(0) == field@);
    if field.len() > 0 && field[0] == '-' {
        match parse_digits(field, 1, i32::MAX as u64 + 1) {
            Some(v) => Some((0 - v as i64) as i32),
            None => None,
        }
    } else {
        let from: usize = if field.len() > 0 && field[0] == '+' {
            1
        } else {
            0
        };
        match parse_digits(field, from, i32::MAX as u64) {
            Some(v) => Some(v as i32),
            None => None,
        }
    }
}

/// Reads the three numbers of a `day/month/year` text.
pub fn get_day_month_year(d: &str) -> (numbers: Result<(u32, u32, i32), DateFormatError>)
    ensures
        numbers matches Ok(n) ==> parse_token(d@) == Some((n.0 as int, n.1 as int, n.2 as int)),
        numbers is Err ==> parse_token(d@) is None,
{
    let chars = chars_of(d);
    let parts = split_fields(&chars);
    if parts.len() != 3 {
        return Err(DateFormatError);
    }
    let day = match parse_unsigned(&parts[0]) {
        Some(v) => v,
        None => {
            return Err(DateFormatError);
        },
    };
    let month = match parse_unsigned(&parts[1]) {
        Some(v) => v,
        None => {
            return Err(DateFormatError);
        },
    };
    let year = match parse_signed(&parts[2]) {
        Some(v) => v,
        None => {
            return Err(DateFormatError);
        },
    };
    Ok((day, month, year))
}

/// Reads a date from its `day/month/year` text.
pub fn str_to_date(t: &str) -> (date: Result<CalendarDate, DateFormatError>)
    ensures
        date matches Ok(d) ==> parse_date(t@) == Some(d@),
        date is Err ==> parse_date(t@) is None,
{
    let (day, month, year) = match get_day_month_year(t) {
        Ok(numbers) => numbers,
        Err(e) => {
            return Err(e);
        },
    };
    match CalendarDate::from_ymd(year, month, day) {
        Some(date) => Ok(date),
        None => Err(DateFormatError),
    }
}

/// A text without separator is its own single field.
pub proof fn lemma_fields_single(s: Seq<char>)
    requires
        forall|j: int| 0 <= j < s.len() ==> s[j] != '/',
    ensures
        fields(s) == seq![s],
{
    lemma_field_len(s, s.len() as int);
}

/// A text that starts with a piece without separator and then a separator
/// has that piece as its first field.
pub proof fn lemma_fields_first(first: Seq<char>, rest: Seq<char>)
    requires
        forall|j: int| 0 <= j < first.len() ==> first[j] != '/',
    ensures
        fields(first + seq!['/'] + rest) == seq![first] + fields(rest),
{
    let s = first + seq!['/'] + rest;
    lemma_field_len(s, first.len() as int);
    assert(s.take(first.len() as int) == first);
    assert(s.skip(first.len() as int + 1) == rest);
}

/// Number of `/` separators in a text.
pub open spec fn separator_count(s: Seq<char>) -> nat
    decreases s.len(),
{
    if s.len() == 0 {
        0
    } else if s[0] == '/' {
        1 + separator_count(s.drop_first())
    } else {
        separator_count(s.drop_first())
    }
}

/// The first field holds no separator: the separators of a text are the one
/// that ends its first field, if any, and those after it.
proof fn lemma_separators_after_field(s: Seq<char>)
    ensures
        0 <= field_len(s) <= s.len(),
        field_len(s) == s.len() ==> separator_count(s) == 0,
        field_len(s) < s.len() ==> separator_count(s) == 1 + separator_count(
            s.skip(field_len(s) + 1),
        ),
    decreases s.len(),
{
    if s.len() == 0 {
    } else if s[0] == '/' {
        assert(s.skip(1) == s.drop_first());
    } else {
        let rest = s.drop_first();
        lemma_separators_after_field(rest);
        if field_len(rest) < rest.len() {
            assert(rest.skip(field_len(rest) + 1) == s.skip(field_len(s) + 1));
        }
    }
}

/// A text has one field more than it has separators.
pub proof fn lemma_field_count(s: Seq<char>)
    ensures
        fields(s).len() == separator_count(s) + 1,
    decreases s.len(),
{
    lemma_separators_after_field(s);
    if field_len(s) < s.len() {
        lemma_field_count(s.skip(field_len(s) + 1));
    }
}

/// A text with a missing or an extra separator denotes no date.
pub proof fn lemma_wrong_separator_count(s: Seq<char>)
    requires
        separator_count(s) != 2,
    ensures
        parse_token(s) is None,
        parse_date(s) is None,
{
    lemma_field_count(s);
}

/// A text with a field that holds no digit, an empty field too, denotes no
/// date.
pub proof fn lemma_field_without_digit(s: Seq<char>, k: int)
    requires
        0 <= k < fields(s).len(),
        forall|i: int| 0 <= i < fields(s)[k].len() ==> !is_digit(fields(s)[k][i]),
    ensures
        parse_token(s) is None,
        parse_date(s) is None,
{
    let field = fields(s)[k];
    if field.len() > 0 {
        assert(!is_digit(field[0]));
    }
    if field.len() > 1 {
        assert(field.drop_first()[0] == field[1]);
    }
}

/// A text denotes no date if one of its fields holds a character that is not
/// a digit, other than a `+` in front, or a `-` in front of the year.
pub proof fn lemma_non_numeric_field(s: Seq<char>, k: int, i: int)
    requires
        0 <= k < fields(s).len(),
        0 <= i < fields(s)[k].len(),
        !is_digit(fields(s)[k][i]),
        i > 0 || !(fields(s)[k][i] == '+' || (k == 2 && fields(s)[k][i] == '-')),
    ensures
        parse_token(s) is None,
        parse_date(s) is None,
{
    let field = fields(s)[k];
    if i > 0 {
        assert(field.drop_first()[i - 1] == field[i]);
    }
}

/// A text whose numbers name no day of the calendar, such as a 31st of
/// April, denotes no date.
pub proof fn lemma_no_such_day(s: Seq<char>)
    requires
        parse_token(s) matches Some(n) && !ymd(n.2, n.1, n.0).is_date(),
    ensures
        parse_date(s) is None,
{
}

} // verus!
