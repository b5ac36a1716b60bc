//! Pure renderers over a fully-built report: a one-line summary and a
//! multi-line detailed listing. Both are functions of the report value
//! alone, so repeated calls produce identical text.

use vstd::prelude::*;
use crate::date::Date;
use crate::report::Report;

verus! {

/// The decimal character of a digit value.
pub open spec fn digit_char(d: nat) -> char {
    if d == 0 {
        '0'
    } else if d == 1 {
        '1'
    } else if d == 2 {
        '2'
    } else if d == 3 {
        '3'
    } else if d == 4 {
        '4'
    } else if d == 5 {
        '5'
    } else if d == 6 {
        '6'
    } else if d == 7 {
        '7'
    } else if d == 8 {
        '8'
    } else {
        '9'
    }
}

/// Decimal text of a number, most significant digit first, no leading zeros
/// (a single zero for 0).
pub open spec fn dec_rep(n: nat) -> Seq<char>
    decreases n,
{
    if n < 10 {
        seq![digit_char(n)]
    } else {
        dec_rep(n / 10).push(digit_char(n % 10))
    }
}

/// Exactly two decimal digits, zero padded, value taken modulo 100.
pub open spec fn two_digits(n: nat) -> Seq<char> {
    seq![digit_char(n / 10 % 10), digit_char(n % 10)]
}

/// Exactly four decimal digits, zero padded, value taken modulo 10000.
pub open spec fn four_digits(n: nat) -> Seq<char> {
    seq![
        digit_char(n / 1000 % 10),
        digit_char(n / 100 % 10),
        digit_char(n / 10 % 10),
        digit_char(n % 10),
    ]
}

/// A date as `YYYY-MM-DD`; the parsers guarantee four-digit years, so the
/// zero-padded fields lose nothing.
pub open spec fn iso_date_text(d: Date) -> Seq<char> {
    four_digits(d.year as nat) + "-"@ + two_digits(d.month as nat) + "-"@ + two_digits(
        d.day as nat,
    )
}

/// One indented line of the detailed listing.
pub open spec fn day_line(d: Date) -> Seq<char> {
    "\t"@ + iso_date_text(d) + "\n"@
}

/// The golf-day lines in stored order.
pub open spec fn day_lines(days: Seq<Date>) -> Seq<char>
    decreases days.len(),
{
    if days.len() == 0 {
        Seq::empty()
    } else {
        day_lines(days.drop_last()) + day_line(days.last())
    }
}

/// The one-line summary a report renders to.
pub open spec fn summary_text(r: Report) -> Seq<char> {
    "has been in office for "@ + dec_rep(r.days_in_office as nat) + " days since "@
        + iso_date_text(r.since) + " and spent "@ + dec_rep(r.days_golfing as nat)
        + " days golfing, which is "@ + r.percent_golfing.text@ + "% of his presidency."@
}

/// The header lines of the detailed rendering: days in office with the since
/// date, days golfing, percent golfing, and the list header.
pub open spec fn detailed_header(r: Report) -> Seq<char> {
    "has been in office for "@ + dec_rep(r.days_in_office as nat) + " days since "@
        + iso_date_text(r.since) + "\n"@ + "days golfing: "@ + dec_rep(r.days_golfing as nat)
        + "\n"@ + "percent golfing: "@ + r.percent_golfing.text@ + "%\n"@
        + "list of golfing days follows\n"@
}

/// The multi-line text a report renders to: the header lines, then one
/// indented line per golf day in stored order.
pub open spec fn detailed_text(r: Report) -> Seq<char> {
    detailed_header(r) + day_lines(r.golf_days@)
}

fn digit_str(d: u32) -> (r: &'static str)
    requires
        d <= 9,
    ensures
        r@ == seq![digit_char(d as nat)],
{
    let r: &'static str = match d {
        0 => "0",
        1 => "1",
        2 => "2",
        3 => "3",
        4 => "4",
        5 => "5",
        6 => "6",
        7 => "7",
        8 => "8",
        _ => "9",
    };
    proof {
        reveal_strlit("0");
        reveal_strlit("1");
        reveal_strlit("2");
        reveal_strlit("3");
        reveal_strlit("4");
        reveal_strlit("5");
        reveal_strlit("6");
        reveal_strlit("7");
        reveal_strlit("8");
        reveal_strlit("9");
        assert(r@ =~= seq![digit_char(d as nat)]);
    }
    r
}

/// Decimal text of a count, as the summary and detailed renderings print it.
pub fn u32_to_string(n: u32) -> (r: String)
    ensures
        r@ == dec_rep(n as nat),
    decreases n,
{
    if n < 10 {
        digit_str(n).to_owned()
    } else {
        let mut prefix = u32_to_string(n / 10);
        prefix.append(digit_str(n % 10));
        proof {
            assert(prefix@ =~= dec_rep(n as nat));
        }
        prefix
    }
}

fn two_digit_string(n: u32) -> (r: String)
    ensures
        r@ == two_digits(n as nat),
{
    let mut out = digit_str(n / 10 % 10).to_owned();
    out.append(digit_str(n % 10));
    proof {
        assert(out@ =~= two_digits(n as nat));
    }
    out
}

fn four_digit_string(n: u32) -> (r: String)
    ensures
        r@ == four_digits(n as nat),
{
    let mut out = digit_str(n / 1000 % 10).to_owned();
    out.append(digit_str(n / 100 % 10));
    out.append(digit_str(n / 10 % 10));
    out.append(digit_str(n % 10));
    proof {
        assert(out@ =~= four_digits(n as nat));
    }
    out
}

/// A date formatted as `YYYY-MM-DD`, the display convention of both
/// renderings.
pub fn iso_date_string(d: &Date) -> (r: String)
    ensures
        r@ == iso_date_text(*d),
{
    let mut out = four_digit_string(d.year);
    out.append("-");
    out.append(two_digit_string(d.month).as_str());
    out.append("-");
    out.append(two_digit_string(d.day).as_str());
    proof {
        assert(out@ =~= iso_date_text(*d));
    }
    out
}

/// Renders the one-line summary: a fixed template around the days in
/// office, the since date, the days golfing, and the percentage.
pub fn render_summary(r: &Report) -> (out: String)
    ensures
        out@ == summary_text(*r),
{
    let mut out = String::from_str("has been in office for ");
    out.append(u32_to_string(r.days_in_office).as_str());
    out.append(" days since ");
    out.append(iso_date_string(&r.since).as_str());
    out.append(" and spent ");
    out.append(u32_to_string(r.days_golfing).as_str());
    out.append(" days golfing, which is ");
    out.append(r.percent_golfing.text.as_str());
    out.append("% of his presidency.");
    proof {
        assert(out@ =~= summary_text(*r));
    }
    out
}

/// Renders the multi-line detailed report: header lines, then one indented
/// line per golf day in the stored (ascending) order.
pub fn render_detailed(r: &Report) -> (out: String)
    ensures
        out@ == detailed_text(*r),
{
    let mut out = String::from_str("has been in office for ");
    out.append(u32_to_string(r.days_in_office).as_str());
    out.append(" days since ");
    out.append(iso_date_string(&r.since).as_str());
    out.append("\n");
    out.append("days golfing: ");
    out.append(u32_to_string(r.days_golfing).as_str());
    out.append("\n");
    out.append("percent golfing: ");
    out.append(r.percent_golfing.text.as_str());
    out.append("%\n");
    out.append("list of golfing days follows\n");
    proof {
        assert(out@ =~= detailed_header(*r));
    }
    let ghost header = out@;
    let n = r.golf_days.len();
    let mut i: usize = 0;
    while i < n
        invariant
            0 <= i <= n,
            n == r.golf_days@.len(),
            header == detailed_header(*r),
            out@ == header + day_lines(r.golf_days@.subrange(0, i as int)),
        decreases n - i,
    {
        let d = r.golf_days[i];
        out.append("\t");
        out.append(iso_date_string(&d).as_str());
        out.append("\n");
        proof {
            let days = r.golf_days@;
            assert(days.subrange(0, i + 1).drop_last() =~= days.subrange(0, i as int));
            assert(days.subrange(0, i + 1).last() == days[i as int]);
            assert(out@ =~= header + day_lines(days.subrange(0, i + 1)));
        }
        i = i + 1;
    }
    proof {
        assert(r.golf_days@.subrange(0, n as int) =~= r.golf_days@);
    }
    out
}

/// The renderings are pure: two reports with the same field values render to
/// the same summary and the same detailed text, so repeated calls on one
/// report yield byte-identical strings.
pub proof fn lemma_render_deterministic(a: Report, b: Report)
    requires
        a.days_in_office == b.days_in_office,
        a.days_golfing == b.days_golfing,
        a.percent_golfing.text@ == b.percent_golfing.text@,
        a.since == b.since,
        a.golf_days@ == b.golf_days@,
    ensures
        summary_text(a) == summary_text(b),
        detailed_text(a) == detailed_text(b),
{
}

} // verus!
