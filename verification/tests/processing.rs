use expense_plot::date::{Date, Month};
use expense_plot::processing::{date_span, day_groups, filter_to_period, pie_slices, years};

fn ymd(year: i32, month: u32, day: u32) -> Date {
    Date::from_ymd(year, month, day).unwrap()
}

fn sample() -> Vec<Date> {
    vec![
        ymd(2024, 3, 5),
        ymd(2023, 12, 31),
        ymd(2024, 1, 15),
        ymd(2024, 3, 5),
        ymd(2022, 6, 1),
        ymd(2024, 2, 10),
    ]
}

#[test]
fn years_are_sorted_and_distinct() {
    assert_eq!(years(&sample()), vec![2022, 2023, 2024]);
    assert_eq!(years(&vec![]), Vec::<i32>::new());
    assert_eq!(years(&vec![ymd(2020, 1, 1), ymd(2020, 5, 5)]), vec![2020]);
}

#[test]
fn day_groups_by_date() {
    let groups = day_groups(&sample());
    let days: Vec<Date> = groups.iter().map(|g| g.date).collect();
    assert_eq!(
        days,
        vec![ymd(2022, 6, 1), ymd(2023, 12, 31), ymd(2024, 1, 15), ymd(2024, 2, 10), ymd(2024, 3, 5)]
    );
    let members: Vec<Vec<usize>> = groups.iter().map(|g| g.members.clone()).collect();
    assert_eq!(members, vec![vec![4], vec![1], vec![2], vec![5], vec![0, 3]]);
    assert!(day_groups(&vec![]).is_empty());
}

#[test]
fn each_expense_in_one_day_group() {
    let dates = sample();
    let groups = day_groups(&dates);
    for i in 0..dates.len() {
        let holding: Vec<&Date> = groups.iter().filter(|g| g.members.contains(&i)).map(|g| &g.date).collect();
        assert_eq!(holding, vec![&dates[i]]);
    }
}

#[test]
fn date_span_of_groups() {
    let groups = day_groups(&sample());
    assert_eq!(date_span(&groups), (ymd(2022, 6, 1), ymd(2024, 3, 5)));
    assert_eq!(date_span(&vec![]), (ymd(1970, 1, 1), ymd(1970, 1, 1)));
}

#[test]
fn filter_to_whole_year() {
    assert_eq!(filter_to_period(&sample(), 2024, None), vec![0, 2, 3, 5]);
    assert_eq!(filter_to_period(&sample(), 2021, None), Vec::<usize>::new());
}

#[test]
fn filter_to_month_compares_number_with_zero_based_month() {
    // A date in month number n is kept for the month whose 0-based position is n.
    assert_eq!(filter_to_period(&sample(), 2024, Some(Month::January)), Vec::<usize>::new());
    assert_eq!(filter_to_period(&sample(), 2024, Some(Month::February)), vec![2]);
    assert_eq!(filter_to_period(&sample(), 2024, Some(Month::March)), vec![5]);
    assert_eq!(filter_to_period(&sample(), 2024, Some(Month::April)), vec![0, 3]);
    assert_eq!(filter_to_period(&sample(), 2023, Some(Month::December)), Vec::<usize>::new());
}

#[test]
fn month_filter_within_year_filter() {
    let dates = sample();
    let whole = filter_to_period(&dates, 2024, None);
    for m in [Month::January, Month::February, Month::March, Month::November] {
        for i in filter_to_period(&dates, 2024, Some(m)) {
            assert!(whole.contains(&i));
        }
    }
}

#[test]
fn listed_years_have_expenses() {
    let dates = sample();
    for y in years(&dates) {
        assert!(!filter_to_period(&dates, y, None).is_empty());
    }
}

#[test]
fn pie_slices_in_order_of_first_expense() {
    let classes: Vec<String> = ["Food", "Rent", "Food", "Fun", "Rent", "Food"].iter().map(|s| s.to_string()).collect();
    let slices = pie_slices(&classes);
    assert_eq!(slices.classes, vec!["Food".to_string(), "Rent".to_string(), "Fun".to_string()]);
    assert_eq!(slices.slice_of, vec![0, 1, 0, 2, 1, 0]);
    let none = pie_slices(&vec![]);
    assert!(none.classes.is_empty() && none.slice_of.is_empty());
}

#[test]
fn span_covers_every_expense() {
    let dates = sample();
    let (start, end) = date_span(&day_groups(&dates));
    for d in &dates {
        assert!(!d.is_before(&start));
        assert!(!end.is_before(d));
    }
}

#[test]
fn years_ignore_order_and_join() {
    let mut reversed = sample();
    reversed.reverse();
    assert_eq!(years(&reversed), years(&sample()));
    let more = vec![ymd(2019, 1, 1), ymd(2023, 5, 5), ymd(2025, 8, 8)];
    let mut joined = sample();
    joined.extend(more.iter().copied());
    let mut union: Vec<i32> = years(&sample());
    union.extend(years(&more));
    union.sort();
    union.dedup();
    assert_eq!(years(&joined), union);
}

#[test]
fn filter_again_keeps_all() {
    let dates = sample();
    for month in [None, Some(Month::February), Some(Month::April)] {
        let kept = filter_to_period(&dates, 2024, month);
        let sub: Vec<Date> = kept.iter().map(|&i| dates[i]).collect();
        let again = filter_to_period(&sub, 2024, month);
        assert_eq!(again, (0..sub.len()).collect::<Vec<usize>>());
    }
}

#[test]
fn month_filters_split_year() {
    let dates = vec![ymd(2024, 1, 3), ymd(2024, 11, 30), ymd(2024, 12, 24), ymd(2024, 6, 6)];
    let whole = filter_to_period(&dates, 2024, None);
    let mut seen = vec![0usize; dates.len()];
    for m in Month::all() {
        for i in filter_to_period(&dates, 2024, Some(m)) {
            seen[i] += 1;
        }
    }
    for i in whole {
        let expected = if dates[i].month() < 12 { 1 } else { 0 };
        assert_eq!(seen[i], expected);
    }
}
