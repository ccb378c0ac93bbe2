use olx_scrapper::{
    date_at_reading,
    get_location_date_from_raw_text, get_price_from_raw_text, parse_date, parse_lowered_date,
    today, CivilDate, FieldErrorKind, UtcDateTime,
};

fn day() -> CivilDate {
    CivilDate { year: 2024, month: 5, day: 20 }
}

fn at(year: i32, month: u32, day: u32, hour: u32, minute: u32) -> UtcDateTime {
    UtcDateTime { year, month, day, hour, minute }
}

#[test]
fn price_with_groups_and_decimals() {
    let p = get_price_from_raw_text("1 200,50").unwrap();
    assert_eq!(p.value, 120050);
    assert!(!p.negotiable);
}

#[test]
fn price_without_decimals() {
    assert_eq!(get_price_from_raw_text("1000").unwrap().value, 100000);
}

#[test]
fn price_with_currency_and_marker() {
    let p = get_price_from_raw_text("1 200,50 zł do negocjacji").unwrap();
    assert_eq!(p.value, 120050);
    assert!(p.negotiable);
}

#[test]
fn price_marker_absent() {
    let p = get_price_from_raw_text("35 000 zł").unwrap();
    assert_eq!(p.value, 3500000);
    assert!(!p.negotiable);
}

#[test]
fn price_marker_is_case_sensitive() {
    assert!(!get_price_from_raw_text("500 zł Do negocjacji").unwrap().negotiable);
}

#[test]
fn price_one_decimal_digit_is_not_decimals() {
    assert_eq!(get_price_from_raw_text("12,5 zł").unwrap().value, 1200);
}

#[test]
fn price_takes_first_number() {
    assert_eq!(get_price_from_raw_text("ok. 250 zł, 3 szt.").unwrap().value, 25000);
}

#[test]
fn price_double_space_ends_group() {
    assert_eq!(get_price_from_raw_text("1  200").unwrap().value, 100);
}

#[test]
fn price_without_digits_fails() {
    let e = get_price_from_raw_text("Zamienię").unwrap_err();
    assert_eq!(e.error_type, FieldErrorKind::PriceParsingError);
}

#[test]
fn price_empty_fails() {
    assert!(get_price_from_raw_text("").is_err());
}

#[test]
fn price_largest_value() {
    assert_eq!(get_price_from_raw_text("42 949 672,95").unwrap().value, 4294967295);
}

#[test]
fn price_overflow_fails() {
    let e = get_price_from_raw_text("42 949 672,96").unwrap_err();
    assert_eq!(e.error_type, FieldErrorKind::PriceParsingError);
    assert!(get_price_from_raw_text("99999999999").is_err());
}

#[test]
fn date_absolute() {
    assert_eq!(parse_lowered_date("12 maja 2024", &day()).unwrap(), at(2024, 5, 12, 0, 0));
}

#[test]
fn date_absolute_every_month() {
    let names = [
        "stycznia",
        "lutego",
        "marca",
        "kwietnia",
        "maja",
        "czerwca",
        "lipca",
        "sierpnia",
        "września",
        "października",
        "listopada",
        "grudnia",
    ];
    for (i, name) in names.iter().enumerate() {
        let text = format!("Odświeżono dnia 3 {} 2023", name);
        let d = parse_date(&text, &day()).unwrap();
        assert_eq!(d, at(2023, i as u32 + 1, 3, 0, 0));
    }
}

#[test]
fn date_is_lowered_first() {
    assert_eq!(parse_date("12 MAJA 2024", &day()).unwrap(), at(2024, 5, 12, 0, 0));
    assert_eq!(parse_date("1 WRZEŚNIA 2021", &day()).unwrap(), at(2021, 9, 1, 0, 0));
}

#[test]
fn date_lowered_parser_does_not_fold_case() {
    let e = parse_lowered_date("12 MAJA 2024", &day()).unwrap_err();
    assert_eq!(e.error_type, FieldErrorKind::DateParsingError);
}

#[test]
fn date_unknown_month_fails() {
    let e = parse_date("12 maj 2024", &day()).unwrap_err();
    assert_eq!(e.error_type, FieldErrorKind::DateParsingError);
    assert_eq!(e.message, "12 maj 2024");
}

#[test]
fn date_without_pattern_fails() {
    let e = parse_date("wczoraj", &day()).unwrap_err();
    assert_eq!(e.error_type, FieldErrorKind::DateParsingError);
}

#[test]
fn date_leap_day() {
    assert_eq!(parse_date("29 lutego 2024", &day()).unwrap(), at(2024, 2, 29, 0, 0));
    assert!(parse_date("29 lutego 2023", &day()).is_err());
}

#[test]
fn date_impossible_day_fails() {
    let e = parse_date("31 lutego 2024", &day()).unwrap_err();
    assert_eq!(e.error_type, FieldErrorKind::DateParsingError);
    assert!(parse_date("0 maja 2024", &day()).is_err());
}

#[test]
fn date_today() {
    assert_eq!(parse_date("dzisiaj o 14:30", &day()).unwrap(), at(2024, 5, 20, 14, 30));
}

#[test]
fn date_today_capitalised() {
    assert_eq!(parse_date("Dzisiaj o 7:05", &day()).unwrap(), at(2024, 5, 20, 7, 5));
}

#[test]
fn date_today_missing_time_fails() {
    let e = parse_date("dzisiaj o", &day()).unwrap_err();
    assert_eq!(e.error_type, FieldErrorKind::TimeParsingError);
}

#[test]
fn date_today_bad_time_fails() {
    for text in ["dzisiaj o 24:00", "dzisiaj o 12:60", "dzisiaj o 123:45", "dzisiaj o 12:345"] {
        let e = parse_date(text, &day()).unwrap_err();
        assert_eq!(e.error_type, FieldErrorKind::TimeParsingError);
    }
}

#[test]
fn date_today_from_clock() {
    let t = today().unwrap();
    assert!(t.is_valid());
    assert!(t.month >= 1 && t.month <= 12);
    assert!(t.day >= 1 && t.day <= 31);
    let d = parse_date("dzisiaj o 00:00", &t).unwrap();
    assert_eq!((d.year, d.month, d.day, d.hour, d.minute), (t.year, t.month, t.day, 0, 0));
}

#[test]
fn location_and_today() {
    let (loc, d) = get_location_date_from_raw_text("Warszawa - dzisiaj o 14:30", &day()).unwrap();
    assert_eq!(loc, "Warszawa");
    assert_eq!(d, at(2024, 5, 20, 14, 30));
}

#[test]
fn location_and_absolute_date() {
    let (loc, d) =
        get_location_date_from_raw_text("Kraków, Podgórze - 05 czerwca 2024", &day()).unwrap();
    assert_eq!(loc, "Kraków, Podgórze");
    assert_eq!(d, at(2024, 6, 5, 0, 0));
}

#[test]
fn location_without_separator_fails() {
    let e = get_location_date_from_raw_text("Warszawa dzisiaj o 14:30", &day()).unwrap_err();
    assert_eq!(e.error_type, FieldErrorKind::LocationDateParsingError);
}

#[test]
fn location_with_two_separators_fails() {
    let e = get_location_date_from_raw_text("Warszawa - Mokotów - dzisiaj o 14:30", &day())
        .unwrap_err();
    assert_eq!(e.error_type, FieldErrorKind::LocationDateParsingError);
}

#[test]
fn location_with_bad_date_reports_date_error() {
    let e = get_location_date_from_raw_text("Gdańsk - jutro", &day()).unwrap_err();
    assert_eq!(e.error_type, FieldErrorKind::DateParsingError);
}

#[test]
fn error_texts() {
    let e = get_price_from_raw_text("brak").unwrap_err();
    assert_eq!(e.to_text(), "error_type: PriceParsingError, message: No price found");
    let m = olx_scrapper::MissingFieldError("href missing".to_string());
    assert_eq!(m.to_text(), "Missing field: href missing");
    let s = olx_scrapper::ScrapperError::MissingFieldError(m);
    assert_eq!(s.to_text(), "Missing field: Missing field: href missing");
    let r = olx_scrapper::ScrapperError::Redirected("https://www.olx.pl/q-a/".to_string());
    assert_eq!(r.to_text(), "Redirected to: https://www.olx.pl/q-a/");
    let f = olx_scrapper::ScrapperError::FieldParsingError(e);
    assert_eq!(
        f.to_text(),
        "Field parse error: error_type: PriceParsingError, message: No price found"
    );
}

#[test]
fn price_error_messages() {
    assert_eq!(get_price_from_raw_text("Za darmo").unwrap_err().message, "No price found");
    assert_eq!(get_price_from_raw_text("99999999999").unwrap_err().message, "value out of range");
}

#[test]
fn location_passes_date_error_on() {
    let e = get_location_date_from_raw_text("Gdańsk - Dzisiaj o 25:00", &day()).unwrap_err();
    assert_eq!(e.error_type, FieldErrorKind::TimeParsingError);
    assert_eq!(e.message, "dzisiaj o 25:00");
    let e = get_location_date_from_raw_text("Gdańsk", &day()).unwrap_err();
    assert_eq!(e.message, "Gdańsk");
}

#[test]
fn civil_date_validity() {
    assert!(CivilDate { year: 2024, month: 2, day: 29 }.is_valid());
    assert!(!CivilDate { year: 2023, month: 2, day: 29 }.is_valid());
    assert!(CivilDate { year: -400, month: 2, day: 29 }.is_valid());
    assert!(!CivilDate { year: -100, month: 2, day: 29 }.is_valid());
    assert!(!CivilDate { year: 2024, month: 13, day: 1 }.is_valid());
    assert!(!CivilDate { year: 2024, month: 4, day: 31 }.is_valid());
}

#[test]
fn marker_changes_only_the_flag() {
    for text in ["1 200,50", "1000", "35 000 zł", "12,5", "cena 7"] {
        let plain = get_price_from_raw_text(text).unwrap();
        let marked = get_price_from_raw_text(&format!("{} do negocjacji", text)).unwrap();
        assert_eq!(marked.value, plain.value);
        assert!(marked.negotiable);
    }
}

#[test]
fn location_separator_scan_skips_whole_separator() {
    let (loc, d) =
        get_location_date_from_raw_text("Warszawa - - 12 maja 2024", &day()).unwrap();
    assert_eq!(loc, "Warszawa");
    assert_eq!(d, at(2024, 5, 12, 0, 0));
}

#[test]
fn date_of_clock_readings() {
    let d = |y, m, dd| Some(CivilDate { year: y, month: m, day: dd });
    assert_eq!(date_at_reading(Ok((0, 0))), d(1970, 1, 1));
    assert_eq!(date_at_reading(Ok((86399, 999_999_999))), d(1970, 1, 1));
    assert_eq!(date_at_reading(Ok((86400, 0))), d(1970, 1, 2));
    assert_eq!(date_at_reading(Ok((1_715_774_400, 0))), d(2024, 5, 15));
    assert_eq!(date_at_reading(Err((0, 1))), d(1969, 12, 31));
    assert_eq!(date_at_reading(Err((1, 0))), d(1969, 12, 31));
    assert_eq!(date_at_reading(Err((86400, 0))), d(1969, 12, 31));
    assert_eq!(date_at_reading(Err((86400, 1))), d(1969, 12, 30));
    assert_eq!(date_at_reading(Ok((253_402_300_799, 0))), d(9999, 12, 31));
    assert_eq!(date_at_reading(Err((62_135_596_800, 0))), d(1, 1, 1));
    assert_eq!(date_at_reading(Ok((u64::MAX, 0))), None);
    assert_eq!(date_at_reading(Err((u64::MAX, 0))), None);
    assert_eq!(date_at_reading(Ok((i64::MAX as u64, 0))), None);
}
