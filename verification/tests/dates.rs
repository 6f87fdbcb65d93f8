use expense_plot::date::{Date, Month, MAX_YEAR, MIN_YEAR};

fn ymd(year: i32, month: u32, day: u32) -> Date {
    Date::from_ymd(year, month, day).unwrap()
}

#[test]
fn from_ymd_accepts_real_days() {
    let d = ymd(2024, 2, 29);
    assert_eq!((d.year(), d.month(), d.day()), (2024, 2, 29));
    assert!(Date::from_ymd(2000, 2, 29).is_some());
    assert!(Date::from_ymd(2023, 12, 31).is_some());
    assert!(Date::from_ymd(MAX_YEAR, 12, 31).is_some());
    assert!(Date::from_ymd(MIN_YEAR, 1, 1).is_some());
}

#[test]
fn from_ymd_refuses_other_triples() {
    assert!(Date::from_ymd(2023, 2, 29).is_none());
    assert!(Date::from_ymd(1900, 2, 29).is_none());
    assert!(Date::from_ymd(2024, 4, 31).is_none());
    assert!(Date::from_ymd(2024, 13, 1).is_none());
    assert!(Date::from_ymd(2024, 0, 1).is_none());
    assert!(Date::from_ymd(2024, 1, 0).is_none());
    assert!(Date::from_ymd(MAX_YEAR + 1, 1, 1).is_none());
    assert!(Date::from_ymd(MIN_YEAR - 1, 12, 31).is_none());
}

#[test]
fn default_date_is_the_epoch() {
    let d = Date::default();
    assert_eq!((d.year(), d.month(), d.day()), (1970, 1, 1));
    assert_eq!(d, ymd(1970, 1, 1));
}

#[test]
fn dates_order_by_year_month_day() {
    assert!(ymd(2023, 12, 31).is_before(&ymd(2024, 1, 1)));
    assert!(ymd(2024, 1, 31).is_before(&ymd(2024, 2, 1)));
    assert!(ymd(2024, 2, 1).is_before(&ymd(2024, 2, 2)));
    assert!(!ymd(2024, 2, 2).is_before(&ymd(2024, 2, 2)));
    assert!(!ymd(2024, 3, 1).is_before(&ymd(2024, 2, 28)));
    assert!(ymd(2024, 3, 1).same_day(&ymd(2024, 3, 1)));
    assert!(!ymd(2024, 3, 1).same_day(&ymd(2023, 3, 1)));
    // The derived order agrees.
    assert!(ymd(2023, 12, 31) < ymd(2024, 1, 1));
}

#[test]
fn month_numbers() {
    assert_eq!(Month::January.ordinal0(), 0);
    assert_eq!(Month::December.ordinal0(), 11);
    assert_eq!(Month::January.number_from_month(), 1);
    assert_eq!(Month::December.number_from_month(), 12);
    assert_eq!(Month::from_number(3), Some(Month::March));
    assert_eq!(Month::from_number(0), None);
    assert_eq!(Month::from_number(13), None);
    for n in 1..=12 {
        assert_eq!(Month::from_number(n).unwrap().number_from_month(), n);
    }
}

#[test]
fn month_names() {
    assert_eq!(Month::January.name(), "January");
    assert_eq!(Month::September.name(), "September");
    assert_eq!(Month::December.name(), "December");
}

#[test]
fn months_in_calendar_order() {
    let all = Month::all();
    assert_eq!(all.len(), 12);
    for (i, m) in all.iter().enumerate() {
        assert_eq!(m.ordinal0() as usize, i);
    }
    assert_eq!(all[0], Month::January);
    assert_eq!(all[11], Month::December);
}
