use golftrack::date::Date;
use golftrack::parse::{
    parse_integer, parse_long_date, parse_numeric_date, parse_percentage, ParseError,
};

#[test]
fn integer_plain() {
    assert_eq!(parse_integer("42"), Ok(42));
}

#[test]
fn integer_leading_whitespace() {
    assert_eq!(parse_integer("  7"), Ok(7));
}

#[test]
fn integer_trailing_garbage() {
    assert_eq!(parse_integer("12a"), Err(ParseError::NotAnInteger));
}

#[test]
fn integer_signs_and_edges() {
    assert_eq!(parse_integer("+7"), Ok(7));
    assert_eq!(parse_integer("-0"), Ok(0));
    assert_eq!(parse_integer("-5"), Err(ParseError::NotAnInteger));
    assert_eq!(parse_integer(""), Err(ParseError::NotAnInteger));
    assert_eq!(parse_integer("   "), Err(ParseError::NotAnInteger));
    assert_eq!(parse_integer("+"), Err(ParseError::NotAnInteger));
    assert_eq!(parse_integer("4294967295"), Ok(u32::MAX));
    assert_eq!(parse_integer("4294967296"), Err(ParseError::NotAnInteger));
    assert_eq!(parse_integer("99999999999"), Err(ParseError::NotAnInteger));
    assert_eq!(parse_integer(" 1500\n"), Ok(1500));
}

#[test]
fn percentage_with_sign() {
    let p = parse_percentage("12.5%").unwrap();
    assert_eq!(p.text, "12.5");
}

#[test]
fn percentage_without_sign() {
    let p = parse_percentage("12.5").unwrap();
    assert_eq!(p.text, "12.5");
    assert_eq!(parse_percentage("12.5%").unwrap(), p);
}

#[test]
fn percentage_rejects_non_numeric() {
    assert_eq!(parse_percentage("abc%"), Err(ParseError::NotAPercentage));
}

#[test]
fn percentage_edges() {
    assert_eq!(parse_percentage("20%").unwrap().text, "20");
    assert_eq!(parse_percentage("0").unwrap().text, "0");
    assert_eq!(parse_percentage(""), Err(ParseError::NotAPercentage));
    assert_eq!(parse_percentage("%"), Err(ParseError::NotAPercentage));
    assert_eq!(parse_percentage(".5"), Err(ParseError::NotAPercentage));
    assert_eq!(parse_percentage("5."), Err(ParseError::NotAPercentage));
    assert_eq!(parse_percentage("1.2.3"), Err(ParseError::NotAPercentage));
    // exactly one trailing '%' is stripped, a second one fails the grammar
    assert_eq!(parse_percentage("20%%"), Err(ParseError::NotAPercentage));
}

#[test]
fn long_date_full_month() {
    let d = parse_long_date("January 20, 2017").unwrap();
    assert_eq!(d, Date { year: 2017, month: 1, day: 20 });
}

#[test]
fn long_date_rejects_abbreviation() {
    assert_eq!(parse_long_date("Jan 20, 2017"), Err(ParseError::BadDateFormat));
}

#[test]
fn long_date_edges() {
    assert_eq!(
        parse_long_date("September 1, 2020").unwrap(),
        Date { year: 2020, month: 9, day: 1 }
    );
    // two-digit year and wrong separators are deviations
    assert_eq!(parse_long_date("January 20, 17"), Err(ParseError::BadDateFormat));
    assert_eq!(parse_long_date("January 20 2017"), Err(ParseError::BadDateFormat));
    assert_eq!(parse_long_date("january 20, 2017"), Err(ParseError::BadDateFormat));
    // the day must exist in the month
    assert_eq!(parse_long_date("February 29, 2020").unwrap(), Date { year: 2020, month: 2, day: 29 });
    assert_eq!(parse_long_date("February 29, 2019"), Err(ParseError::BadDateFormat));
    assert_eq!(parse_long_date("April 31, 2019"), Err(ParseError::BadDateFormat));
    assert_eq!(parse_long_date("January 0, 2019"), Err(ParseError::BadDateFormat));
}

#[test]
fn numeric_date_slash_format() {
    let d = parse_numeric_date("03/04/2019").unwrap();
    assert_eq!(d, Date { year: 2019, month: 3, day: 4 });
}

#[test]
fn numeric_date_rejects_dashes() {
    assert_eq!(parse_numeric_date("2019-03-04"), Err(ParseError::BadDateFormat));
}

#[test]
fn numeric_date_edges() {
    // zero padding is optional for month and day
    assert_eq!(parse_numeric_date("3/4/2019").unwrap(), Date { year: 2019, month: 3, day: 4 });
    assert_eq!(parse_numeric_date("12/31/2019").unwrap(), Date { year: 2019, month: 12, day: 31 });
    assert_eq!(parse_numeric_date("13/01/2019"), Err(ParseError::BadDateFormat));
    assert_eq!(parse_numeric_date("00/01/2019"), Err(ParseError::BadDateFormat));
    assert_eq!(parse_numeric_date("02/30/2019"), Err(ParseError::BadDateFormat));
    assert_eq!(parse_numeric_date("02/29/2020").unwrap(), Date { year: 2020, month: 2, day: 29 });
    assert_eq!(parse_numeric_date("1/2/19"), Err(ParseError::BadDateFormat));
    assert_eq!(parse_numeric_date(""), Err(ParseError::BadDateFormat));
    assert_eq!(parse_numeric_date("03/04/2019 "), Err(ParseError::BadDateFormat));
}
