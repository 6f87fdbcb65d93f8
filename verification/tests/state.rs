use expense_plot::date::Date;
use expense_plot::processing::years;
use expense_plot::state::{initial_year, LoadError};

#[test]
fn initial_year_is_the_latest() {
    let dates = vec![
        Date::from_ymd(2021, 5, 1).unwrap(),
        Date::from_ymd(2024, 1, 1).unwrap(),
        Date::from_ymd(2022, 7, 9).unwrap(),
    ];
    assert_eq!(initial_year(&dates), Ok(2024));
    assert_eq!(initial_year(&dates), Ok(*years(&dates).last().unwrap()));
}

#[test]
fn no_expenses_is_an_error() {
    assert_eq!(initial_year(&vec![]), Err(LoadError::NoExpenses));
    assert_eq!(LoadError::NoExpenses.message(), "there are no expenses to analyse");
}
