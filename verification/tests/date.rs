use weather_cli::date::{Date, DateParseError};

#[test]
fn reads_a_date() {
    assert_eq!(Date::from_str("2024-01-02"), Ok(Date { year: 2024, month: 1, day: 2 }));
}

#[test]
fn reads_components_without_padding() {
    assert_eq!(Date::from_str("7-3-9"), Ok(Date { year: 7, month: 3, day: 9 }));
}

#[test]
fn reads_components_with_many_zeros_in_front() {
    assert_eq!(
        Date::from_str("000000000000000000002024-0000012-031"),
        Ok(Date { year: 2024, month: 12, day: 31 })
    );
}

#[test]
fn reads_a_plus_sign_before_a_component() {
    assert_eq!(Date::from_str("+2024-+1-+2"), Ok(Date { year: 2024, month: 1, day: 2 }));
}

#[test]
fn takes_components_off_the_calendar() {
    assert_eq!(Date::from_str("0-0-0"), Ok(Date { year: 0, month: 0, day: 0 }));
    assert_eq!(Date::from_str("65535-255-255"), Ok(Date { year: 65535, month: 255, day: 255 }));
    assert_eq!(Date::from_str("2024-13-32"), Ok(Date { year: 2024, month: 13, day: 32 }));
}

#[test]
fn refuses_too_few_components() {
    assert_eq!(Date::from_str(""), Err(DateParseError::InvalidComponents));
    assert_eq!(Date::from_str("2024"), Err(DateParseError::InvalidComponents));
    assert_eq!(Date::from_str("2024-01"), Err(DateParseError::InvalidComponents));
    assert_eq!(Date::from_str("now"), Err(DateParseError::InvalidComponents));
}

#[test]
fn refuses_too_many_components() {
    assert_eq!(Date::from_str("2024-01-02-03"), Err(DateParseError::InvalidComponents));
    assert_eq!(Date::from_str("2024-01-02-"), Err(DateParseError::InvalidComponents));
    assert_eq!(Date::from_str("-2024-01-02"), Err(DateParseError::InvalidComponents));
    assert_eq!(Date::from_str("x-y-z-w"), Err(DateParseError::InvalidComponents));
}

#[test]
fn refuses_a_bad_year() {
    assert_eq!(Date::from_str("-01-02"), Err(DateParseError::YearParseError));
    assert_eq!(Date::from_str("year-01-02"), Err(DateParseError::YearParseError));
    assert_eq!(Date::from_str("65536-01-02"), Err(DateParseError::YearParseError));
    assert_eq!(Date::from_str("99999999999999999999999-01-02"), Err(DateParseError::YearParseError));
    assert_eq!(Date::from_str(" 2024-01-02"), Err(DateParseError::YearParseError));
    assert_eq!(Date::from_str("+-01-02"), Err(DateParseError::YearParseError));
    assert_eq!(Date::from_str("++1-01-02"), Err(DateParseError::YearParseError));
    assert_eq!(Date::from_str("20x4-01-02"), Err(DateParseError::YearParseError));
}

#[test]
fn refuses_a_bad_month() {
    assert_eq!(Date::from_str("2024--02"), Err(DateParseError::MonthParseError));
    assert_eq!(Date::from_str("2024-256-02"), Err(DateParseError::MonthParseError));
    assert_eq!(Date::from_str("2024-jan-02"), Err(DateParseError::MonthParseError));
    assert_eq!(Date::from_str("2024-1 -02"), Err(DateParseError::MonthParseError));
}

#[test]
fn refuses_a_bad_day() {
    assert_eq!(Date::from_str("2024-01-"), Err(DateParseError::DayParseError));
    assert_eq!(Date::from_str("2024-01-256"), Err(DateParseError::DayParseError));
    assert_eq!(Date::from_str("2024-01-2nd"), Err(DateParseError::DayParseError));
    assert_eq!(Date::from_str("2024-01-02\n"), Err(DateParseError::DayParseError));
}

#[test]
fn reports_the_first_bad_component() {
    assert_eq!(Date::from_str("a-b-c"), Err(DateParseError::YearParseError));
    assert_eq!(Date::from_str("1-b-c"), Err(DateParseError::MonthParseError));
    assert_eq!(Date::from_str("1-2-c"), Err(DateParseError::DayParseError));
}

#[test]
fn reads_like_the_standard_number_parser() {
    let samples = [
        "0", "1", "9", "10", "255", "256", "65535", "65536", "+0", "+255", "-1", "", "+", "-",
        "00", "0255", "1e3", "٣", "１", " 1", "1 ", "4294967296", "18446744073709551616",
    ];
    for year in samples {
        for small in samples {
            let text = format!("{year}-{small}-{small}");
            if year.contains('-') || small.contains('-') {
                continue;
            }
            let expected = match (year.parse::<u16>(), small.parse::<u8>()) {
                (Err(_), _) => Err(DateParseError::YearParseError),
                (Ok(_), Err(_)) => Err(DateParseError::MonthParseError),
                (Ok(y), Ok(s)) => Ok(Date { year: y, month: s, day: s }),
            };
            assert_eq!(Date::from_str(&text), expected, "{text}");
        }
    }
}

#[test]
fn writes_with_zeros_in_front() {
    assert_eq!(Date { year: 2024, month: 1, day: 2 }.to_string(), "2024-01-02");
    assert_eq!(Date { year: 7, month: 12, day: 31 }.to_string(), "0007-12-31");
    assert_eq!(Date { year: 0, month: 0, day: 0 }.to_string(), "0000-00-00");
}

#[test]
fn writes_wide_components_in_full() {
    assert_eq!(Date { year: 65535, month: 255, day: 100 }.to_string(), "65535-255-100");
}

#[test]
fn reads_back_the_date_it_writes() {
    for year in [0u16, 1, 9, 10, 99, 100, 999, 1000, 1970, 2024, 9999, 10000, 65535] {
        for month in [0u8, 1, 9, 10, 12, 99, 100, 255] {
            for day in [0u8, 1, 9, 10, 31, 255] {
                let date = Date { year, month, day };
                assert_eq!(Date::from_str(&date.to_string()), Ok(date));
            }
        }
    }
}

fn civil(day: i64) -> (i64, i64, i64) {
    let z = day + 719468;
    let era = z.div_euclid(146097);
    let doe = z.rem_euclid(146097);
    let yoe = (doe - doe / 1460 + doe / 36524 - doe / 146096) / 365;
    let doy = doe - (365 * yoe + yoe / 4 - yoe / 100);
    let mp = (5 * doy + 2) / 153;
    let d = doy - (153 * mp + 2) / 5 + 1;
    let m = if mp < 10 { mp + 3 } else { mp - 9 };
    let y = yoe + era * 400 + if m <= 2 { 1 } else { 0 };
    (y, m, d)
}

#[test]
fn counts_days_from_the_first_of_january_1970() {
    assert_eq!(Date::from_epoch_day(0), Some(Date { year: 1970, month: 1, day: 1 }));
    assert_eq!(Date::from_epoch_day(30), Some(Date { year: 1970, month: 1, day: 31 }));
    assert_eq!(Date::from_epoch_day(31), Some(Date { year: 1970, month: 2, day: 1 }));
    assert_eq!(Date::from_epoch_day(58), Some(Date { year: 1970, month: 2, day: 28 }));
    assert_eq!(Date::from_epoch_day(59), Some(Date { year: 1970, month: 3, day: 1 }));
    assert_eq!(Date::from_epoch_day(364), Some(Date { year: 1970, month: 12, day: 31 }));
    assert_eq!(Date::from_epoch_day(365), Some(Date { year: 1971, month: 1, day: 1 }));
}

#[test]
fn knows_the_leap_years() {
    assert_eq!(Date::from_epoch_day(11016), Some(Date { year: 2000, month: 2, day: 29 }));
    assert_eq!(Date::from_epoch_day(19723), Some(Date { year: 2024, month: 1, day: 1 }));
    assert_eq!(Date::from_epoch_day(19782), Some(Date { year: 2024, month: 2, day: 29 }));
    assert_eq!(Date::from_epoch_day(19783), Some(Date { year: 2024, month: 3, day: 1 }));
    assert_eq!(Date::from_epoch_day(47540), Some(Date { year: 2100, month: 2, day: 28 }));
    assert_eq!(Date::from_epoch_day(47541), Some(Date { year: 2100, month: 3, day: 1 }));
}

#[test]
fn agrees_with_the_calendar_day_by_day() {
    for day in (0..200_000u32).chain((0..400).map(|k| 200_000 + k * 58_001)) {
        let (y, m, d) = civil(day as i64);
        let expected = if y <= 65535 {
            Some(Date { year: y as u16, month: m as u8, day: d as u8 })
        } else {
            None
        };
        assert_eq!(Date::from_epoch_day(day), expected, "{day}");
    }
}

#[test]
fn ends_with_the_last_year_that_a_date_holds() {
    let mut last = 0u32;
    while civil(last as i64 + 1).0 <= 65535 {
        last += if civil(last as i64 + 1000).0 <= 65535 { 1000 } else { 1 };
    }
    assert_eq!(Date::from_epoch_day(last), Some(Date { year: 65535, month: 12, day: 31 }));
    assert_eq!(Date::from_epoch_day(last + 1), None);
    assert_eq!(Date::from_epoch_day(u32::MAX), None);
}
