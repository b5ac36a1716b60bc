use golftrack::date::{date_before_eq, days_in_month, is_leap_year, Date};
use golftrack::locator::{locator_for, source_url, Field};
use golftrack::parse::{parse_percentage, ParseError, Percentage};
use golftrack::render::{iso_date_string, render_detailed, render_summary, u32_to_string};
use golftrack::report::{assemble, sorted_dates, ExtractionError, RawPage, Report};

fn date(year: u32, month: u32, day: u32) -> Date {
    Date { year, month, day }
}

fn full_raw_page() -> RawPage {
    RawPage {
        navigated: true,
        days_in_office: Some("1500".to_string()),
        days_golfing: Some("300".to_string()),
        percent_golfing: Some("20%".to_string()),
        since: Some("Since January 20, 2017".to_string()),
        golf_days: Some(vec!["03/04/2019".to_string(), "01/15/2018".to_string()]),
    }
}

#[test]
fn end_to_end_scenario() {
    let report = assemble(&full_raw_page()).unwrap();
    assert_eq!(report.days_in_office, 1500);
    assert_eq!(report.days_golfing, 300);
    assert_eq!(report.percent_golfing.text, "20");
    assert_eq!(report.since, date(2017, 1, 20));
    assert_eq!(report.golf_days, vec![date(2018, 1, 15), date(2019, 3, 4)]);
    assert_eq!(
        render_summary(&report),
        "has been in office for 1500 days since 2017-01-20 and spent 300 days golfing, \
         which is 20% of his presidency."
    );
}

#[test]
fn detailed_lists_days_ascending() {
    let mut raw = full_raw_page();
    raw.golf_days = Some(vec![
        "03/04/2019".to_string(),
        "01/15/2018".to_string(),
        "07/04/2018".to_string(),
        "01/15/2018".to_string(),
    ]);
    let report = assemble(&raw).unwrap();
    for pair in report.golf_days.windows(2) {
        assert!(date_before_eq(&pair[0], &pair[1]));
    }
    let text = render_detailed(&report);
    let day_lines: Vec<&str> = text
        .lines()
        .filter(|l| l.starts_with('\t'))
        .collect();
    assert_eq!(day_lines, vec!["\t2018-01-15", "\t2018-01-15", "\t2018-07-04", "\t2019-03-04"]);
}

#[test]
fn detailed_exact_text() {
    let report = assemble(&full_raw_page()).unwrap();
    assert_eq!(
        render_detailed(&report),
        "has been in office for 1500 days since 2017-01-20\n\
         days golfing: 300\n\
         percent golfing: 20%\n\
         list of golfing days follows\n\
         \t2018-01-15\n\
         \t2019-03-04\n"
    );
}

#[test]
fn renderers_are_deterministic() {
    let report = assemble(&full_raw_page()).unwrap();
    assert_eq!(render_summary(&report), render_summary(&report));
    assert_eq!(render_detailed(&report), render_detailed(&report));
}

#[test]
fn sorting_is_idempotent() {
    let sorted = vec![date(2017, 1, 1), date(2017, 1, 1), date(2018, 5, 9), date(2019, 3, 4)];
    assert_eq!(sorted_dates(sorted.clone()), sorted);
    let resorted = sorted_dates(sorted_dates(vec![date(2019, 3, 4), date(2017, 1, 1)]));
    assert_eq!(resorted, vec![date(2017, 1, 1), date(2019, 3, 4)]);
}

#[test]
fn sorting_keeps_duplicates() {
    let out = sorted_dates(vec![date(2018, 2, 2), date(2017, 3, 3), date(2018, 2, 2)]);
    assert_eq!(out, vec![date(2017, 3, 3), date(2018, 2, 2), date(2018, 2, 2)]);
}

#[test]
fn navigation_failure_aborts() {
    let mut raw = full_raw_page();
    raw.navigated = false;
    assert_eq!(assemble(&raw), Err(ExtractionError::Navigation));
}

#[test]
fn missing_element_aborts() {
    let mut raw = full_raw_page();
    raw.days_golfing = None;
    assert_eq!(assemble(&raw), Err(ExtractionError::Lookup));
}

#[test]
fn malformed_integer_aborts() {
    let mut raw = full_raw_page();
    raw.days_in_office = Some("soon".to_string());
    assert_eq!(assemble(&raw), Err(ExtractionError::Parse(ParseError::NotAnInteger)));
}

#[test]
fn malformed_percentage_aborts() {
    let mut raw = full_raw_page();
    raw.percent_golfing = Some("lots%".to_string());
    assert_eq!(assemble(&raw), Err(ExtractionError::Parse(ParseError::NotAPercentage)));
}

#[test]
fn malformed_since_aborts() {
    let mut raw = full_raw_page();
    raw.since = Some("Since Jan 20, 2017".to_string());
    assert_eq!(assemble(&raw), Err(ExtractionError::Parse(ParseError::BadDateFormat)));
}

#[test]
fn one_malformed_list_entry_aborts() {
    let mut raw = full_raw_page();
    raw.golf_days = Some(vec![
        "03/04/2019".to_string(),
        "2018-01-15".to_string(),
        "07/04/2018".to_string(),
    ]);
    assert_eq!(assemble(&raw), Err(ExtractionError::Parse(ParseError::BadDateFormat)));
}

#[test]
fn since_prefix_is_stripped_once() {
    let mut raw = full_raw_page();
    raw.since = Some("January 20, 2017".to_string());
    let report = assemble(&raw).unwrap();
    assert_eq!(report.since, date(2017, 1, 20));
    raw.since = Some("Since Since January 20, 2017".to_string());
    assert_eq!(assemble(&raw), Err(ExtractionError::Parse(ParseError::BadDateFormat)));
}

#[test]
fn empty_golf_day_list_is_allowed() {
    let mut raw = full_raw_page();
    raw.golf_days = Some(Vec::new());
    let report = assemble(&raw).unwrap();
    assert!(report.golf_days.is_empty());
    let text = render_detailed(&report);
    assert!(text.ends_with("list of golfing days follows\n"));
}

#[test]
fn number_rendering() {
    assert_eq!(u32_to_string(0), "0");
    assert_eq!(u32_to_string(7), "7");
    assert_eq!(u32_to_string(1234), "1234");
    assert_eq!(u32_to_string(u32::MAX), "4294967295");
}

#[test]
fn date_rendering_zero_pads() {
    assert_eq!(iso_date_string(&date(2018, 1, 5)), "2018-01-05");
    assert_eq!(iso_date_string(&date(476, 9, 4)), "0476-09-04");
}

#[test]
fn renderers_take_report_as_given() {
    // rendering validates nothing: the percentage is reproduced verbatim
    let report = Report {
        days_in_office: 10,
        days_golfing: 20,
        percent_golfing: parse_percentage("200.0").unwrap(),
        since: date(2017, 1, 20),
        golf_days: Vec::new(),
    };
    let summary = render_summary(&report);
    assert!(summary.contains("which is 200.0% of his presidency."));
    assert_eq!(report.percent_golfing, Percentage { text: "200.0".to_string() });
}

#[test]
fn calendar_helpers() {
    assert!(is_leap_year(2020));
    assert!(!is_leap_year(1900));
    assert!(is_leap_year(2000));
    assert_eq!(days_in_month(2019, 2), 28);
    assert_eq!(days_in_month(2020, 2), 29);
    assert_eq!(days_in_month(2020, 4), 30);
    assert_eq!(days_in_month(2020, 12), 31);
    assert!(date_before_eq(&date(2018, 12, 31), &date(2019, 1, 1)));
    assert!(!date_before_eq(&date(2019, 1, 2), &date(2019, 1, 1)));
    assert!(date_before_eq(&date(2019, 1, 1), &date(2019, 1, 1)));
}

#[test]
fn locator_table() {
    assert_eq!(locator_for(Field::DaysInOffice), "main .grid div:nth-child(1) > p:nth-child(2)");
    assert_eq!(locator_for(Field::DaysGolfing), "main .grid div:nth-child(2) > p:nth-child(2)");
    assert_eq!(locator_for(Field::PercentGolfing), "main .grid div:nth-child(3) > p:nth-child(2)");
    assert_eq!(locator_for(Field::Since), "main .grid div:nth-child(1) > p:nth-child(3)");
    assert_eq!(
        locator_for(Field::GolfDayList),
        "main .container:nth-child(2) ul li p:nth-child(1)"
    );
    assert_eq!(source_url(), "https://trumpgolftrack.com");
}
