use txtimg::DateError;
use txtimg::SimpleDate;

#[test]
fn parse_plain_date() {
    assert_eq!(
        SimpleDate::parse("2021-04-05"),
        Ok(SimpleDate { year: 2021, month: 4, day: 5 })
    );
}

#[test]
fn parse_accepts_leading_plus() {
    // str::parse on unsigned integers accepts a leading '+'
    assert_eq!(
        SimpleDate::parse("+2021-+04-+05"),
        Ok(SimpleDate { year: 2021, month: 4, day: 5 })
    );
}

#[test]
fn parse_missing_month() {
    assert_eq!(SimpleDate::parse("2021"), Err(DateError::MissingPart));
}

#[test]
fn parse_missing_day() {
    assert_eq!(SimpleDate::parse("2021-04"), Err(DateError::MissingPart));
}

#[test]
fn parse_year_not_integer() {
    assert_eq!(SimpleDate::parse("abcd-01-02"), Err(DateError::BadYear));
    assert_eq!(SimpleDate::parse(""), Err(DateError::BadYear));
    // a bad year is reported before the missing month part
    assert_eq!(SimpleDate::parse("x"), Err(DateError::BadYear));
    // overflow past u16
    assert_eq!(SimpleDate::parse("70000-01-02"), Err(DateError::BadYear));
}

#[test]
fn parse_month_not_integer() {
    assert_eq!(SimpleDate::parse("2021-xx-02"), Err(DateError::BadMonth));
    assert_eq!(SimpleDate::parse("2021--02"), Err(DateError::BadMonth));
    // overflow past u8
    assert_eq!(SimpleDate::parse("2021-999-02"), Err(DateError::BadMonth));
}

#[test]
fn parse_day_not_integer() {
    assert_eq!(SimpleDate::parse("2021-04-dd"), Err(DateError::BadDay));
    assert_eq!(SimpleDate::parse("2021-04-999"), Err(DateError::BadDay));
    // only the first two dashes split: a fourth part stays glued to the day
    assert_eq!(SimpleDate::parse("2021-04-05-06"), Err(DateError::BadDay));
    assert_eq!(SimpleDate::parse("2021-04-"), Err(DateError::BadDay));
}

#[test]
fn format_pads_parts() {
    let d = SimpleDate { year: 2021, month: 4, day: 5 };
    assert_eq!(d.to_iso_string(), "2021-04-05");
    let early = SimpleDate { year: 800, month: 12, day: 31 };
    assert_eq!(early.to_iso_string(), "0800-12-31");
    let tiny = SimpleDate { year: 7, month: 1, day: 2 };
    assert_eq!(tiny.to_iso_string(), "0007-01-02");
}

#[test]
fn format_wide_year_keeps_all_digits() {
    let far = SimpleDate { year: 12345, month: 6, day: 7 };
    assert_eq!(far.to_iso_string(), "12345-06-07");
}

#[test]
fn format_then_parse_round_trips() {
    let dates = [
        SimpleDate { year: 0, month: 0, day: 0 },
        SimpleDate { year: 2021, month: 4, day: 5 },
        SimpleDate { year: 65535, month: 255, day: 255 },
        SimpleDate { year: 9, month: 10, day: 31 },
    ];
    for d in dates {
        assert_eq!(SimpleDate::parse(&d.to_iso_string()), Ok(d));
    }
}
