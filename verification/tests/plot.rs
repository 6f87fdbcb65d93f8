use expense_plot::plot::Plot;

#[test]
fn titles_and_labels() {
    assert_eq!(Plot::PerDay.title(), "Expenses Per Day");
    assert_eq!(Plot::Pie.title(), "Expenses Per Class");
    assert_eq!(Plot::PerDay.label(), "Per Day");
    assert_eq!(Plot::Pie.label(), "Pie");
}

#[test]
fn default_plot_is_per_day() {
    assert_eq!(Plot::default(), Plot::PerDay);
}

#[test]
fn plot_sequence() {
    assert_eq!(Plot::all(), vec![Plot::PerDay, Plot::Pie]);
    assert_eq!(Plot::CARDINALITY, 2);
    assert_eq!(Plot::first(), Plot::PerDay);
    assert_eq!(Plot::last(), Plot::Pie);
    assert_eq!(Plot::PerDay.next(), Some(Plot::Pie));
    assert_eq!(Plot::Pie.next(), None);
    assert_eq!(Plot::Pie.previous(), Some(Plot::PerDay));
    assert_eq!(Plot::PerDay.previous(), None);
    for p in Plot::all() {
        assert_eq!(Plot::from_index(p.index()), Some(p));
    }
    assert_eq!(Plot::from_index(2), None);
}

#[test]
fn selected_plot() {
    assert_eq!(Plot::selected(None), Some(Plot::PerDay));
    assert_eq!(Plot::selected(Some(1)), Some(Plot::Pie));
    assert_eq!(Plot::selected(Some(7)), None);
}
