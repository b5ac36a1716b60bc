//! The immutable report value, the sort invariant on its golf-day list, and
//! the assembly of one report from the raw texts a page session handed back.

use vstd::prelude::*;
use vstd::multiset::Multiset;
use crate::date::{date_le, date_before_eq, dates_sorted, Date};
use crate::parse::{
    has_prefix, int_of_text, is_decimal_text, long_date_of, num_date_of, parse_integer,
    parse_long_date, parse_numeric_date, parse_percentage, percent_body, ParseError, Percentage,
};

verus! {

broadcast use vstd::seq_lib::group_to_multiset_ensures;

/// The fully-typed result of one extraction run: five fields populated
/// together or not at all.
#[derive(Debug, PartialEq, Eq)]
pub struct Report {
    pub days_in_office: u32,
    pub days_golfing: u32,
    pub percent_golfing: Percentage,
    pub since: Date,
    pub golf_days: Vec<Date>,
}

impl Report {
    /// What assembly establishes: the percentage text is well formed, every
    /// date is a valid calendar date, and the golf-day list is sorted
    /// ascending.
    pub open spec fn wf(self) -> bool {
        &&& self.percent_golfing.is_valid()
        &&& self.since.is_valid()
        &&& forall|i: int|
            0 <= i < self.golf_days@.len() ==> (#[trigger] self.golf_days@[i]).is_valid()
        &&& dates_sorted(self.golf_days@)
    }
}

/// Why an assembly failed: the page did not load, an expected element was
/// absent, or an extracted text did not parse.
#[derive(Clone, Copy, Debug, PartialEq, Eq, Structural)]
pub enum ExtractionError {
    Navigation,
    Lookup,
    Parse(ParseError),
}

/// The raw texts one page session handed back, before any parsing. A `None`
/// field marks an element lookup that failed; `navigated` says whether the
/// page loaded at all.
#[derive(Debug)]
pub struct RawPage {
    pub navigated: bool,
    pub days_in_office: Option<String>,
    pub days_golfing: Option<String>,
    pub percent_golfing: Option<String>,
    pub since: Option<String>,
    pub golf_days: Option<Vec<String>>,
}

/// The since-field text with its fixed label prefix stripped once.
pub open spec fn since_body(s: Seq<char>) -> Seq<char> {
    if s.len() >= 6 && s.subrange(0, 6) == "Since "@ {
        s.subrange(6, s.len() as int)
    } else {
        s
    }
}

/// Some entry of the golf-day list fails to parse as a numeric date.
pub open spec fn golf_days_error(texts: Seq<Seq<char>>) -> bool {
    exists|i: int| 0 <= i < texts.len() && num_date_of(texts[i]) is None
}

/// The dates the golf-day texts denote, entry by entry.
pub open spec fn parsed_golf_days(texts: Seq<Seq<char>>) -> Seq<Date> {
    texts.map(|i: int, t: Seq<char>| num_date_of(t)->0)
}

/// The first error an assembly of these raw texts reports, walking the
/// fields in their fixed order, or `None` when every field is present and
/// parses.
pub open spec fn assemble_error(raw: RawPage) -> Option<ExtractionError> {
    if !raw.navigated {
        Some(ExtractionError::Navigation)
    } else if raw.days_in_office is None {
        Some(ExtractionError::Lookup)
    } else if int_of_text(raw.days_in_office->0@) is None {
        Some(ExtractionError::Parse(ParseError::NotAnInteger))
    } else if raw.days_golfing is None {
        Some(ExtractionError::Lookup)
    } else if int_of_text(raw.days_golfing->0@) is None {
        Some(ExtractionError::Parse(ParseError::NotAnInteger))
    } else if raw.percent_golfing is None {
        Some(ExtractionError::Lookup)
    } else if !is_decimal_text(percent_body(raw.percent_golfing->0@)) {
        Some(ExtractionError::Parse(ParseError::NotAPercentage))
    } else if raw.since is None {
        Some(ExtractionError::Lookup)
    } else if long_date_of(since_body(raw.since->0@)) is None {
        Some(ExtractionError::Parse(ParseError::BadDateFormat))
    } else if raw.golf_days is None {
        Some(ExtractionError::Lookup)
    } else if golf_days_error(raw.golf_days->0.deep_view()) {
        Some(ExtractionError::Parse(ParseError::BadDateFormat))
    } else {
        None
    }
}

/// A single malformed field fails the whole assembly, however well formed
/// the rest of the page is: whenever the page did not load, any field's
/// element is absent, or any field's text (one golf-day entry is enough)
/// does not parse, `assemble_error` names an error, so `assemble` returns
/// that error and builds no report.
pub proof fn lemma_malformed_field_fails(raw: RawPage)
    requires
        !raw.navigated || raw.days_in_office is None || int_of_text(
            raw.days_in_office->0@,
        ) is None || raw.days_golfing is None || int_of_text(raw.days_golfing->0@) is None
            || raw.percent_golfing is None || !is_decimal_text(
            percent_body(raw.percent_golfing->0@),
        ) || raw.since is None || long_date_of(since_body(raw.since->0@)) is None
            || raw.golf_days is None || golf_days_error(raw.golf_days->0.deep_view()),
    ensures
        assemble_error(raw) is Some,
{
}

/// A well-formed report — in particular any report assembly returns — holds
/// its golf days so that every adjacent pair is in non-decreasing calendar
/// order; the detailed rendering lists them in exactly this stored order.
pub proof fn lemma_report_days_ordered(r: Report)
    requires
        r.wf(),
    ensures
        forall|i: int|
            0 <= i && i + 1 < r.golf_days@.len() ==> date_le(
                #[trigger] r.golf_days@[i],
                r.golf_days@[i + 1],
            ),
{
    assert forall|i: int| 0 <= i && i + 1 < r.golf_days@.len() implies date_le(
        #[trigger] r.golf_days@[i],
        r.golf_days@[i + 1],
    ) by {
        assert(date_le(r.golf_days@[i], r.golf_days@[i + 1]));
    }
}

/// Two sorted date lists with the same entries are the same list: the sorted
/// rearrangement is unique, so sorting an already-sorted list changes
/// nothing.
pub proof fn lemma_sorted_dates_unique(x: Seq<Date>, y: Seq<Date>)
    requires
        dates_sorted(x),
        dates_sorted(y),
        x.to_multiset() == y.to_multiset(),
    ensures
        x == y,
{
    let leq = |a: Date, b: Date| date_le(a, b);
    crate::date::lemma_date_le_total();
    assert forall|i: int, j: int| 0 <= i < j < x.len() implies leq(x[i], x[j]) by {
        assert(date_le(x[i], x[j]));
    }
    assert forall|i: int, j: int| 0 <= i < j < y.len() implies leq(y[i], y[j]) by {
        assert(date_le(y[i], y[j]));
    }
    assert(vstd::relations::sorted_by(x, leq));
    assert(vstd::relations::sorted_by(y, leq));
    assert(vstd::relations::reflexive(leq)) by {
        assert forall|a: Date| #[trigger] leq(a, a) by {
            assert(date_le(a, a));
        }
    }
    assert(vstd::relations::antisymmetric(leq)) by {
        assert forall|a: Date, b: Date| #[trigger] leq(a, b) && #[trigger] leq(b, a) implies a
            == b by {
            assert(date_le(a, b) && date_le(b, a));
        }
    }
    assert(vstd::relations::transitive(leq)) by {
        assert forall|a: Date, b: Date, c: Date|
            #[trigger] leq(a, b) && #[trigger] leq(b, c) implies leq(a, c) by {
            assert(date_le(a, b) && date_le(b, c));
            assert(date_le(a, c));
        }
    }
    assert(vstd::relations::strongly_connected(leq)) by {
        assert forall|a: Date, b: Date| #[trigger] leq(a, b) || #[trigger] leq(b, a) by {
            assert(date_le(a, b) || date_le(b, a));
        }
    }
    vstd::seq_lib::lemma_sorted_unique(x, y, leq);
    assert(x =~= y);
}

/// Sorts a date list ascending by calendar order: the result is sorted,
/// holds exactly the entries given (duplicates kept), and an already-sorted
/// list comes back unchanged.
pub fn sorted_dates(v: Vec<Date>) -> (r: Vec<Date>)
    ensures
        dates_sorted(r@),
        r@.to_multiset() == v@.to_multiset(),
        forall|d: Date| #[trigger] r@.contains(d) ==> v@.contains(d),
        dates_sorted(v@) ==> r@ == v@,
{
    let ghost orig = v@;
    let mut rest = v;
    let mut out: Vec<Date> = Vec::new();
    while rest.len() > 0
        invariant
            out@.to_multiset().add(rest@.to_multiset()) == orig.to_multiset(),
            dates_sorted(out@),
            forall|i: int, j: int|
                0 <= i < out@.len() && 0 <= j < rest@.len() ==> date_le(
                    #[trigger] out@[i],
                    #[trigger] rest@[j],
                ),
        decreases rest@.len(),
    {
        let mut best: usize = 0;
        let mut k: usize = 1;
        while k < rest.len()
            invariant
                0 < rest@.len(),
                best < k <= rest@.len(),
                forall|j: int| 0 <= j < k ==> date_le(rest@[best as int], #[trigger] rest@[j]),
            decreases rest@.len() - k,
        {
            if date_before_eq(&rest[k], &rest[best]) {
                best = k;
            }
            k = k + 1;
        }
        let picked = rest.remove(best);
        proof {
            assert(out@.push(picked).to_multiset().add(rest@.to_multiset()) =~= orig.to_multiset());
        }
        out.push(picked);
    }
    proof {
        assert(rest@.to_multiset() =~= Multiset::<Date>::empty());
        assert(out@.to_multiset() =~= orig.to_multiset());
        assert forall|d: Date| #[trigger] out@.contains(d) implies orig.contains(d) by {
            assert(out@.to_multiset().contains(d));
            assert(orig.to_multiset().contains(d));
        }
        if dates_sorted(orig) {
            lemma_sorted_dates_unique(out@, orig);
        }
    }
    out
}

fn strip_since<'a>(s: &'a str) -> (r: &'a str)
    ensures
        r@ == since_body(s@),
{
    let p = "Since ";
    proof {
        reveal_strlit("Since ");
    }
    if has_prefix(s, p) {
        let n = s.unicode_len();
        let b = s.substring_char(6, n);
        assert(b@ =~= s@.subrange(6, n as int));
        b
    } else {
        s
    }
}

/// Builds one report from the raw texts of one page session, or fails with
/// the first error in field order: a navigation failure, then per field a
/// missing element or its parse error; one bad golf-day entry fails the
/// whole list. On success every field holds exactly the value its text
/// denotes, and the golf-day list is the sorted rearrangement of the parsed
/// entries.
pub fn assemble(raw: &RawPage) -> (r: Result<Report, ExtractionError>)
    ensures
        match r {
            Ok(rep) => {
                &&& assemble_error(*raw) is None
                &&& rep.wf()
                &&& int_of_text(raw.days_in_office->0@) == Some(rep.days_in_office)
                &&& int_of_text(raw.days_golfing->0@) == Some(rep.days_golfing)
                &&& rep.percent_golfing.text@ == percent_body(raw.percent_golfing->0@)
                &&& long_date_of(since_body(raw.since->0@)) == Some(rep.since)
                &&& rep.golf_days@.to_multiset() == parsed_golf_days(
                    raw.golf_days->0.deep_view(),
                ).to_multiset()
            },
            Err(e) => assemble_error(*raw) == Some(e),
        },
{
    if !raw.navigated {
        return Err(ExtractionError::Navigation);
    }
    let dio_text = match &raw.days_in_office {
        Some(t) => t,
        None => {
            return Err(ExtractionError::Lookup);
        },
    };
    let days_in_office = match parse_integer(dio_text.as_str()) {
        Ok(n) => n,
        Err(e) => {
            return Err(ExtractionError::Parse(e));
        },
    };
    let dg_text = match &raw.days_golfing {
        Some(t) => t,
        None => {
            return Err(ExtractionError::Lookup);
        },
    };
    let days_golfing = match parse_integer(dg_text.as_str()) {
        Ok(n) => n,
        Err(e) => {
            return Err(ExtractionError::Parse(e));
        },
    };
    let pct_text = match &raw.percent_golfing {
        Some(t) => t,
        None => {
            return Err(ExtractionError::Lookup);
        },
    };
    let percent_golfing = match parse_percentage(pct_text.as_str()) {
        Ok(p) => p,
        Err(e) => {
            return Err(ExtractionError::Parse(e));
        },
    };
    let since_text = match &raw.since {
        Some(t) => t,
        None => {
            return Err(ExtractionError::Lookup);
        },
    };
    let since = match parse_long_date(strip_since(since_text.as_str())) {
        Ok(d) => d,
        Err(e) => {
            return Err(ExtractionError::Parse(e));
        },
    };
    let gd_texts = match &raw.golf_days {
        Some(t) => t,
        None => {
            return Err(ExtractionError::Lookup);
        },
    };
    let ghost texts = raw.golf_days->0.deep_view();
    let mut parsed: Vec<Date> = Vec::new();
    let mut i: usize = 0;
    while i < gd_texts.len()
        invariant
            0 <= i <= gd_texts@.len(),
            parsed@.len() == i,
            texts == raw.golf_days->0.deep_view(),
            gd_texts@ == raw.golf_days->0@,
            texts.len() == gd_texts@.len(),
            raw.navigated,
            raw.days_in_office is Some && int_of_text(raw.days_in_office->0@) is Some,
            raw.days_golfing is Some && int_of_text(raw.days_golfing->0@) is Some,
            raw.percent_golfing is Some && is_decimal_text(percent_body(raw.percent_golfing->0@)),
            raw.since is Some && long_date_of(since_body(raw.since->0@)) is Some,
            raw.golf_days is Some,
            forall|j: int| 0 <= j < i ==> texts[j] == gd_texts@[j]@,
            forall|j: int|
                0 <= j < i ==> (#[trigger] num_date_of(texts[j])) is Some && parsed@[j]
                    == num_date_of(texts[j])->0 && parsed@[j].is_valid(),
        decreases gd_texts@.len() - i,
    {
        proof {
            assert(texts[i as int] == gd_texts@[i as int]@);
        }
        match parse_numeric_date(gd_texts[i].as_str()) {
            Ok(d) => {
                parsed.push(d);
            },
            Err(_) => {
                assert(golf_days_error(texts));
                return Err(ExtractionError::Parse(ParseError::BadDateFormat));
            },
        }
        i = i + 1;
    }
    proof {
        assert(parsed@ =~= parsed_golf_days(texts));
    }
    let ghost parsed_view = parsed@;
    let golf_days = sorted_dates(parsed);
    proof {
        assert forall|k: int|
            0 <= k < golf_days@.len() implies (#[trigger] golf_days@[k]).is_valid() by {
            assert(golf_days@.contains(golf_days@[k]));
            assert(parsed_view.contains(golf_days@[k]));
            let j = choose|j: int|
                0 <= j < parsed_view.len() && parsed_view[j] == golf_days@[k];
            assert(parsed_view[j].is_valid());
        }
    }
    Ok(Report { days_in_office, days_golfing, percent_golfing, since, golf_days })
}

} // verus!
