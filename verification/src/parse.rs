//! Pure text-to-value conversions: integer counts, a percentage, and two
//! date formats (long month-name dates and numeric slash-delimited dates).
//! Each parser accepts exactly its documented grammar and fails otherwise.

use vstd::prelude::*;
use crate::date::Date;

verus! {

/// Why a piece of extracted text was rejected.
#[derive(Clone, Copy, Debug, PartialEq, Eq, Structural)]
pub enum ParseError {
    NotAnInteger,
    NotAPercentage,
    BadDateFormat,
}

/// ASCII whitespace stripped around integer fields.
pub open spec fn is_space_char(c: char) -> bool {
    c == ' ' || c == '\t' || c == '\n' || c == '\r'
}

pub open spec fn is_digit_char(c: char) -> bool {
    '0' <= c && c <= '9'
}

/// Numeric value of a digit character; 0 for a non-digit.
pub open spec fn digit_val(c: char) -> nat {
    if is_digit_char(c) {
        (c as int - '0' as int) as nat
    } else {
        0
    }
}

pub open spec fn all_digits(s: Seq<char>) -> bool {
    forall|i: int| 0 <= i < s.len() ==> is_digit_char(s[i])
}

/// Value of a digit run read in base 10, most significant digit first.
pub open spec fn digits_val(s: Seq<char>) -> nat
    decreases s.len(),
{
    if s.len() == 0 {
        0
    } else {
        digits_val(s.drop_last()) * 10 + digit_val(s.last())
    }
}

pub open spec fn spec_trim_start(s: Seq<char>) -> Seq<char>
    decreases s.len(),
{
    if s.len() > 0 && is_space_char(s[0]) {
        spec_trim_start(s.drop_first())
    } else {
        s
    }
}

pub open spec fn spec_trim_end(s: Seq<char>) -> Seq<char>
    decreases s.len(),
{
    if s.len() > 0 && is_space_char(s.last()) {
        spec_trim_end(s.drop_last())
    } else {
        s
    }
}

pub open spec fn spec_trim(s: Seq<char>) -> Seq<char> {
    spec_trim_end(spec_trim_start(s))
}

/// The digit run of an integer text, after the optional leading sign.
pub open spec fn int_digits(t: Seq<char>) -> Seq<char> {
    if t.len() > 0 && (t[0] == '+' || t[0] == '-') {
        t.drop_first()
    } else {
        t
    }
}

/// Integer grammar: surrounding whitespace, an optional sign, then one or
/// more ASCII digits.
pub open spec fn is_integer_text(s: Seq<char>) -> bool {
    let d = int_digits(spec_trim(s));
    d.len() > 0 && all_digits(d)
}

/// The non-negative integer a text denotes: the grammar must match, a minus
/// sign is only admitted with value zero, and the value must fit in `u32`.
pub open spec fn int_of_text(s: Seq<char>) -> Option<u32> {
    let t = spec_trim(s);
    let d = int_digits(t);
    if is_integer_text(s) && (t[0] != '-' || digits_val(d) == 0) && digits_val(d) <= u32::MAX {
        Some(digits_val(d) as u32)
    } else {
        None
    }
}

/// Reading one more digit multiplies the prefix value by ten and adds it.
proof fn lemma_digits_val_step(s: Seq<char>, i: int)
    requires
        0 <= i < s.len(),
    ensures
        digits_val(s.subrange(0, i + 1)) == digits_val(s.subrange(0, i)) * 10 + digit_val(s[i]),
{
    let t = s.subrange(0, i + 1);
    assert(t.drop_last() =~= s.subrange(0, i));
    assert(t.last() == s[i]);
}

/// The value of a digit run is at least the value of any of its prefixes.
proof fn lemma_digits_val_prefix_le(s: Seq<char>, i: int)
    requires
        0 <= i <= s.len(),
    ensures
        digits_val(s.subrange(0, i)) <= digits_val(s),
    decreases s.len() - i,
{
    if i == s.len() {
        assert(s.subrange(0, i) =~= s);
    } else {
        lemma_digits_val_step(s, i);
        lemma_digits_val_prefix_le(s, i + 1);
    }
}

fn trim_start<'a>(s: &'a str) -> (r: &'a str)
    ensures
        r@ == spec_trim_start(s@),
    decreases s@.len(),
{
    let n = s.unicode_len();
    if n == 0 {
        return s;
    }
    let c = s.get_char(0);
    if c == ' ' || c == '\t' || c == '\n' || c == '\r' {
        let rest = s.substring_char(1, n);
        assert(rest@ =~= s@.drop_first());
        trim_start(rest)
    } else {
        s
    }
}

fn trim_end<'a>(s: &'a str) -> (r: &'a str)
    ensures
        r@ == spec_trim_end(s@),
    decreases s@.len(),
{
    let n = s.unicode_len();
    if n == 0 {
        return s;
    }
    let c = s.get_char(n - 1);
    if c == ' ' || c == '\t' || c == '\n' || c == '\r' {
        let rest = s.substring_char(0, n - 1);
        assert(rest@ =~= s@.drop_last());
        trim_end(rest)
    } else {
        s
    }
}

/// Parses a whitespace-trimmed, optionally signed run of ASCII digits as a
/// non-negative integer. Returns `Ok` exactly when `int_of_text` accepts the
/// text, and `NotAnInteger` otherwise.
pub fn parse_integer(s: &str) -> (r: Result<u32, ParseError>)
    ensures
        match r {
            Ok(n) => int_of_text(s@) == Some(n),
            Err(e) => int_of_text(s@) is None && e == ParseError::NotAnInteger,
        },
{
    let t = trim_end(trim_start(s));
    let n = t.unicode_len();
    proof {
        assert(t@ == spec_trim(s@));
    }
    if n == 0 {
        return Err(ParseError::NotAnInteger);
    }
    let first = t.get_char(0);
    let signed: bool = first == '+' || first == '-';
    let start: usize = if signed {
        1
    } else {
        0
    };
    let ghost ds = int_digits(t@);
    proof {
        assert(ds =~= t@.subrange(start as int, n as int));
    }
    if start == n {
        return Err(ParseError::NotAnInteger);
    }
    let mut i: usize = start;
    let mut acc: u64 = 0;
    while i < n
        invariant
            start <= i <= n,
            n == t@.len(),
            t@ == spec_trim(s@),
            ds == int_digits(t@),
            ds == t@.subrange(start as int, n as int),
            start == 0 || start == 1,
            start == 1 ==> t@[0] == '+' || t@[0] == '-',
            acc == digits_val(ds.subrange(0, i - start)),
            acc <= u32::MAX,
            forall|j: int| 0 <= j < i - start ==> is_digit_char(ds[j]),
        decreases n - i,
    {
        let c = t.get_char(i);
        proof {
            assert(ds[i - start] == t@[i as int]);
        }
        if !('0' <= c && c <= '9') {
            assert(!is_digit_char(ds[i - start]));
            return Err(ParseError::NotAnInteger);
        }
        let dv: u64 = (c as u32 - 48) as u64;
        let acc2: u64 = acc * 10 + dv;
        proof {
            lemma_digits_val_step(ds, i - start);
            assert(digits_val(ds.subrange(0, i - start + 1)) == acc * 10 + digit_val(
                ds[i - start],
            ));
        }
        if acc2 > 0xFFFF_FFFF {
            proof {
                lemma_digits_val_prefix_le(ds, i - start + 1);
            }
            return Err(ParseError::NotAnInteger);
        }
        acc = acc2;
        i = i + 1;
    }
    proof {
        assert(ds.subrange(0, n - start) =~= ds);
    }
    if first == '-' && acc != 0 {
        return Err(ParseError::NotAnInteger);
    }
    Ok(acc as u32)
}

/// Percentage text with at most one trailing `%` stripped.
pub open spec fn percent_body(s: Seq<char>) -> Seq<char> {
    if s.len() > 0 && s.last() == '%' {
        s.drop_last()
    } else {
        s
    }
}

/// What may follow the leading digit of a decimal number: more digits, or a
/// dot followed by at least one digit.
pub open spec fn is_decimal_tail(t: Seq<char>) -> bool
    decreases t.len(),
{
    if t.len() == 0 {
        true
    } else if is_digit_char(t[0]) {
        is_decimal_tail(t.drop_first())
    } else if t[0] == '.' {
        t.len() > 1 && all_digits(t.drop_first())
    } else {
        false
    }
}

/// Decimal-number grammar: one or more digits, optionally followed by a dot
/// and one or more digits.
pub open spec fn is_decimal_text(t: Seq<char>) -> bool {
    t.len() > 0 && is_digit_char(t[0]) && is_decimal_tail(t.drop_first())
}

/// A percentage, held as the decimal digit text that denoted it, so that
/// rendering reproduces the value at the precision the page printed.
#[derive(Debug, PartialEq, Eq)]
pub struct Percentage {
    pub text: String,
}

impl Percentage {
    pub open spec fn is_valid(self) -> bool {
        is_decimal_text(self.text@)
    }
}

fn all_digits_str(s: &str) -> (r: bool)
    ensures
        r == all_digits(s@),
{
    let n = s.unicode_len();
    let mut i: usize = 0;
    while i < n
        invariant
            0 <= i <= n,
            n == s@.len(),
            forall|j: int| 0 <= j < i ==> is_digit_char(s@[j]),
        decreases n - i,
    {
        let c = s.get_char(i);
        if !('0' <= c && c <= '9') {
            return false;
        }
        i = i + 1;
    }
    true
}

fn decimal_tail_ok(t: &str) -> (r: bool)
    ensures
        r == is_decimal_tail(t@),
    decreases t@.len(),
{
    let n = t.unicode_len();
    if n == 0 {
        return true;
    }
    let c = t.get_char(0);
    if '0' <= c && c <= '9' {
        let rest = t.substring_char(1, n);
        assert(rest@ =~= t@.drop_first());
        decimal_tail_ok(rest)
    } else if c == '.' {
        if n == 1 {
            return false;
        }
        let rest = t.substring_char(1, n);
        assert(rest@ =~= t@.drop_first());
        all_digits_str(rest)
    } else {
        false
    }
}

/// Parses a percentage: strips exactly one trailing `%` if present, then
/// accepts a decimal number. Returns `Ok` exactly when the remainder matches
/// `is_decimal_text`, and `NotAPercentage` otherwise.
pub fn parse_percentage(s: &str) -> (r: Result<Percentage, ParseError>)
    ensures
        match r {
            Ok(p) => is_decimal_text(percent_body(s@)) && p.text@ == percent_body(s@),
            Err(e) => !is_decimal_text(percent_body(s@)) && e == ParseError::NotAPercentage,
        },
{
    let n = s.unicode_len();
    let body: &str = if n > 0 && s.get_char(n - 1) == '%' {
        let b = s.substring_char(0, n - 1);
        proof {
            assert(b@ =~= s@.drop_last());
        }
        b
    } else {
        s
    };
    assert(body@ == percent_body(s@));
    let bn = body.unicode_len();
    if bn == 0 {
        return Err(ParseError::NotAPercentage);
    }
    let c0 = body.get_char(0);
    if !('0' <= c0 && c0 <= '9') {
        return Err(ParseError::NotAPercentage);
    }
    let rest = body.substring_char(1, bn);
    assert(rest@ =~= body@.drop_first());
    if decimal_tail_ok(rest) {
        Ok(Percentage { text: body.to_owned() })
    } else {
        Err(ParseError::NotAPercentage)
    }
}

/// The English name of month `m`, as both date formats spell it.
pub open spec fn month_name(m: int) -> Seq<char> {
    if m == 1 {
        "January"@
    } else if m == 2 {
        "February"@
    } else if m == 3 {
        "March"@
    } else if m == 4 {
        "April"@
    } else if m == 5 {
        "May"@
    } else if m == 6 {
        "June"@
    } else if m == 7 {
        "July"@
    } else if m == 8 {
        "August"@
    } else if m == 9 {
        "September"@
    } else if m == 10 {
        "October"@
    } else if m == 11 {
        "November"@
    } else if m == 12 {
        "December"@
    } else {
        Seq::empty()
    }
}

/// The text starts with the full name of month `m` followed by a space.
pub open spec fn month_prefix(s: Seq<char>, m: int) -> bool {
    let name = month_name(m);
    s.len() > name.len() && s.subrange(0, name.len() as int) == name && s[name.len() as int]
        == ' '
}

/// The month whose name opens a long-format date text, if any. Month names
/// share no prefix up to a space, so at most one matches.
pub open spec fn long_month_of(s: Seq<char>) -> Option<int> {
    if month_prefix(s, 1) {
        Some(1)
    } else if month_prefix(s, 2) {
        Some(2)
    } else if month_prefix(s, 3) {
        Some(3)
    } else if month_prefix(s, 4) {
        Some(4)
    } else if month_prefix(s, 5) {
        Some(5)
    } else if month_prefix(s, 6) {
        Some(6)
    } else if month_prefix(s, 7) {
        Some(7)
    } else if month_prefix(s, 8) {
        Some(8)
    } else if month_prefix(s, 9) {
        Some(9)
    } else if month_prefix(s, 10) {
        Some(10)
    } else if month_prefix(s, 11) {
        Some(11)
    } else if month_prefix(s, 12) {
        Some(12)
    } else {
        None
    }
}

/// Day and year of the tail of a long-format date: one or two day digits,
/// a comma and a space, then exactly four year digits.
pub open spec fn day_year_of(t: Seq<char>) -> Option<(nat, nat)> {
    if t.len() == 7 && is_digit_char(t[0]) && t[1] == ',' && t[2] == ' ' && all_digits(
        t.subrange(3, 7),
    ) {
        Some((digit_val(t[0]), digits_val(t.subrange(3, 7))))
    } else if t.len() == 8 && is_digit_char(t[0]) && is_digit_char(t[1]) && t[2] == ',' && t[3]
        == ' ' && all_digits(t.subrange(4, 8)) {
        Some((digit_val(t[0]) * 10 + digit_val(t[1]), digits_val(t.subrange(4, 8))))
    } else {
        None
    }
}

/// The date a long-format text (`<FullMonthName> <Day>, <4-digit Year>`)
/// denotes, provided it names a valid calendar date.
pub open spec fn long_date_of(s: Seq<char>) -> Option<Date> {
    match long_month_of(s) {
        None => None,
        Some(m) => {
            let rest = s.subrange(month_name(m).len() as int + 1, s.len() as int);
            match day_year_of(rest) {
                None => None,
                Some(dy) => {
                    let date = Date { year: dy.1 as u32, month: m as u32, day: dy.0 as u32 };
                    if date.is_valid() {
                        Some(date)
                    } else {
                        None
                    }
                },
            }
        },
    }
}

/// The date a numeric text (`MM/DD/YYYY`, month and day zero-padded or not,
/// year exactly four digits) denotes, provided it is a valid calendar date.
pub open spec fn num_date_of(s: Seq<char>) -> Option<Date> {
    if s.len() < 8 || s.len() > 10 {
        None
    } else {
        let ml: int = if s[1] == '/' {
            1
        } else {
            2
        };
        let dl: int = if s[ml + 2] == '/' {
            1
        } else {
            2
        };
        if s.len() == ml + dl + 6 && s[ml] == '/' && s[ml + 1 + dl] == '/' && all_digits(
            s.subrange(0, ml),
        ) && all_digits(s.subrange(ml + 1, ml + 1 + dl)) && all_digits(
            s.subrange(ml + dl + 2, ml + dl + 6),
        ) {
            let date = Date {
                year: digits_val(s.subrange(ml + dl + 2, ml + dl + 6)) as u32,
                month: digits_val(s.subrange(0, ml)) as u32,
                day: digits_val(s.subrange(ml + 1, ml + 1 + dl)) as u32,
            };
            if date.is_valid() {
                Some(date)
            } else {
                None
            }
        } else {
            None
        }
    }
}

/// A short digit run reads to a small value.
proof fn lemma_digits_val_small(s: Seq<char>)
    requires
        s.len() <= 4,
    ensures
        digits_val(s) <= 9999,
        s.len() <= 3 ==> digits_val(s) <= 999,
        s.len() <= 2 ==> digits_val(s) <= 99,
        s.len() <= 1 ==> digits_val(s) <= 9,
    decreases s.len(),
{
    if s.len() > 0 {
        lemma_digits_val_small(s.drop_last());
        assert(digit_val(s.last()) <= 9);
    }
}

/// True exactly when `p@` is a prefix of `s@`.
pub(crate) fn has_prefix(s: &str, p: &str) -> (r: bool)
    ensures
        r == (s@.len() >= p@.len() && s@.subrange(0, p@.len() as int) == p@),
{
    let pn = p.unicode_len();
    let n = s.unicode_len();
    if n < pn {
        return false;
    }
    let mut i: usize = 0;
    while i < pn
        invariant
            0 <= i <= pn,
            pn == p@.len(),
            n == s@.len(),
            n >= pn,
            forall|j: int| 0 <= j < i ==> s@[j] == p@[j],
        decreases pn - i,
    {
        if s.get_char(i) != p.get_char(i) {
            proof {
                assert(s@.subrange(0, pn as int)[i as int] == s@[i as int]);
            }
            return false;
        }
        i = i + 1;
    }
    proof {
        assert(s@.subrange(0, pn as int) =~= p@);
    }
    true
}

fn month_literal(m: u32) -> (r: &'static str)
    requires
        1 <= m <= 12,
    ensures
        r@ == month_name(m as int),
{
    match m {
        1 => "January",
        2 => "February",
        3 => "March",
        4 => "April",
        5 => "May",
        6 => "June",
        7 => "July",
        8 => "August",
        9 => "September",
        10 => "October",
        11 => "November",
        _ => "December",
    }
}

/// Reads the digit run `s[from..to]` as a base-10 value; `None` if any
/// character in the range is not a digit.
fn read_digit_group(s: &str, from: usize, to: usize) -> (r: Option<u32>)
    requires
        from <= to <= s@.len(),
        to - from <= 4,
    ensures
        match r {
            Some(v) => all_digits(s@.subrange(from as int, to as int)) && v == digits_val(
                s@.subrange(from as int, to as int),
            ) && v <= 9999,
            None => !all_digits(s@.subrange(from as int, to as int)),
        },
{
    let ghost g = s@.subrange(from as int, to as int);
    let mut i: usize = from;
    let mut acc: u32 = 0;
    while i < to
        invariant
            from <= i <= to,
            to <= s@.len(),
            to - from <= 4,
            g == s@.subrange(from as int, to as int),
            forall|j: int| 0 <= j < i - from ==> is_digit_char(g[j]),
            acc == digits_val(g.subrange(0, i - from)),
            acc <= 9999,
        decreases to - i,
    {
        let c = s.get_char(i);
        proof {
            assert(g[i - from] == s@[i as int]);
        }
        if !('0' <= c && c <= '9') {
            assert(!is_digit_char(g[i - from]));
            return None;
        }
        let dv: u32 = c as u32 - 48;
        proof {
            lemma_digits_val_step(g, i - from);
            let h = g.subrange(0, i - from + 1);
            assert forall|j: int| 0 <= j < h.len() implies is_digit_char(h[j]) by {
                assert(h[j] == g[j]);
            }
            lemma_digits_val_small(h);
        }
        acc = acc * 10 + dv;
        i = i + 1;
    }
    proof {
        assert(g.subrange(0, to - from) =~= g);
    }
    Some(acc)
}

fn parse_day_year(t: &str) -> (r: Option<(u32, u32)>)
    ensures
        match r {
            Some(dy) => day_year_of(t@) == Some((dy.0 as nat, dy.1 as nat)) && dy.0 <= 99
                && dy.1 <= 9999,
            None => day_year_of(t@) is None,
        },
{
    let n = t.unicode_len();
    if n == 7 {
        let c0 = t.get_char(0);
        if ('0' <= c0 && c0 <= '9') && t.get_char(1) == ',' && t.get_char(2) == ' ' {
            match read_digit_group(t, 3, 7) {
                Some(y) => {
                    let d: u32 = c0 as u32 - 48;
                    Some((d, y))
                },
                None => None,
            }
        } else {
            None
        }
    } else if n == 8 {
        let c0 = t.get_char(0);
        let c1 = t.get_char(1);
        if ('0' <= c0 && c0 <= '9') && ('0' <= c1 && c1 <= '9') && t.get_char(2) == ','
            && t.get_char(3) == ' ' {
            match read_digit_group(t, 4, 8) {
                Some(y) => {
                    let d: u32 = (c0 as u32 - 48) * 10 + (c1 as u32 - 48);
                    Some((d, y))
                },
                None => None,
            }
        } else {
            None
        }
    } else {
        None
    }
}

/// Parses a long-format date such as `January 20, 2017`. Returns `Ok`
/// exactly when `long_date_of` accepts the text (full English month name, a
/// space, the day, a comma and a space, a four-digit year, naming a valid
/// date), and `BadDateFormat` otherwise.
pub fn parse_long_date(s: &str) -> (r: Result<Date, ParseError>)
    ensures
        match r {
            Ok(d) => long_date_of(s@) == Some(d) && d.is_valid(),
            Err(e) => long_date_of(s@) is None && e == ParseError::BadDateFormat,
        },
{
    let n = s.unicode_len();
    let mut m: u32 = 1;
    while m <= 12
        invariant
            1 <= m <= 13,
            n == s@.len(),
            forall|k: int| 1 <= k < m ==> !month_prefix(s@, k),
        decreases 13 - m,
    {
        let name = month_literal(m);
        let pn = name.unicode_len();
        if has_prefix(s, name) && pn < n && s.get_char(pn) == ' ' {
            assert(month_prefix(s@, m as int));
            assert(long_month_of(s@) == Some(m as int));
            let rest = s.substring_char(pn + 1, n);
            assert(rest@ =~= s@.subrange(pn + 1, n as int));
            match parse_day_year(rest) {
                Some(dy) => {
                    let date = Date { year: dy.1, month: m, day: dy.0 };
                    if date.valid() {
                        return Ok(date);
                    } else {
                        return Err(ParseError::BadDateFormat);
                    }
                },
                None => {
                    return Err(ParseError::BadDateFormat);
                },
            }
        }
        assert(!month_prefix(s@, m as int));
        m = m + 1;
    }
    Err(ParseError::BadDateFormat)
}

/// Parses a numeric slash-delimited date such as `03/04/2019`. Returns `Ok`
/// exactly when `num_date_of` accepts the text, and `BadDateFormat`
/// otherwise.
pub fn parse_numeric_date(s: &str) -> (r: Result<Date, ParseError>)
    ensures
        match r {
            Ok(d) => num_date_of(s@) == Some(d) && d.is_valid(),
            Err(e) => num_date_of(s@) is None && e == ParseError::BadDateFormat,
        },
{
    let n = s.unicode_len();
    if n < 8 || n > 10 {
        return Err(ParseError::BadDateFormat);
    }
    let ml: usize = if s.get_char(1) == '/' {
        1
    } else {
        2
    };
    let dl: usize = if s.get_char(ml + 2) == '/' {
        1
    } else {
        2
    };
    if n != ml + dl + 6 {
        return Err(ParseError::BadDateFormat);
    }
    if s.get_char(ml) != '/' || s.get_char(ml + 1 + dl) != '/' {
        return Err(ParseError::BadDateFormat);
    }
    let month = match read_digit_group(s, 0, ml) {
        Some(v) => v,
        None => {
            return Err(ParseError::BadDateFormat);
        },
    };
    let day = match read_digit_group(s, ml + 1, ml + 1 + dl) {
        Some(v) => v,
        None => {
            return Err(ParseError::BadDateFormat);
        },
    };
    let year = match read_digit_group(s, ml + dl + 2, ml + dl + 6) {
        Some(v) => v,
        None => {
            return Err(ParseError::BadDateFormat);
        },
    };
    let date = Date { year, month, day };
    if date.valid() {
        Ok(date)
    } else {
        Err(ParseError::BadDateFormat)
    }
}

} // verus!
