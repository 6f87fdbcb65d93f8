use expense_plot::layout::{image_size, CHOICE_PADDING, MONTH_INPUT_WIDTH, YEAR_INPUT_WIDTH};
use expense_plot::navigation::{app_response, cycle_tab, handle_tab_key, AppControl, AppInput, TabKey, TabOutcome};

#[test]
fn cycle_tab_wraps_around() {
    assert_eq!(cycle_tab(None, 2, 1), 1);
    assert_eq!(cycle_tab(Some(1), 2, 1), 0);
    assert_eq!(cycle_tab(Some(0), 2, -1), 1);
    assert_eq!(cycle_tab(Some(0), 3, -7), 2);
    assert_eq!(cycle_tab(Some(2), 3, 7), 0);
    assert_eq!(cycle_tab(Some(5), 3, 0), 2);
    assert_eq!(cycle_tab(Some(1), 4, -4), 1);
}

#[test]
fn cycle_forward_then_back() {
    for count in 1..6usize {
        for s in 0..count {
            let forward = cycle_tab(Some(s), count, 1);
            assert_eq!(cycle_tab(Some(forward), count, -1), s);
            let back = cycle_tab(Some(s), count, -1);
            assert_eq!(cycle_tab(Some(back), count, 1), s);
            assert_eq!(cycle_tab(Some(s), count, count as isize), s);
        }
    }
}

#[test]
fn tab_keys() {
    assert_eq!(handle_tab_key(Some(0), 2, TabKey::Next), TabOutcome::Changed(1));
    assert_eq!(handle_tab_key(Some(1), 2, TabKey::Next), TabOutcome::Changed(0));
    assert_eq!(handle_tab_key(None, 2, TabKey::Previous), TabOutcome::Changed(1));
    assert_eq!(handle_tab_key(Some(1), 2, TabKey::Other), TabOutcome::Continue);
}

#[test]
fn app_inputs() {
    assert_eq!(app_response(AppInput::Quit), Some(AppControl::Quit));
    assert_eq!(app_response(AppInput::Resized), Some(AppControl::Changed));
    assert_eq!(app_response(AppInput::Other), None);
}

#[test]
fn image_sizes() {
    assert_eq!(image_size((8, 16), 80, 24), (640, 384));
    assert_eq!(image_size((65535, 65535), 65535, 65535), (4294836225, 4294836225));
    assert_eq!(image_size((10, 20), 0, 3), (0, 60));
}

#[test]
fn choice_widths() {
    assert_eq!(CHOICE_PADDING, 3);
    assert_eq!(YEAR_INPUT_WIDTH, 7);
    assert_eq!(MONTH_INPUT_WIDTH, 12);
}

#[test]
fn other_key_without_tabs_continues() {
    assert_eq!(handle_tab_key(None, 0, TabKey::Other), TabOutcome::Continue);
    assert_eq!(handle_tab_key(Some(usize::MAX), 0, TabKey::Other), TabOutcome::Continue);
}

#[test]
fn tab_then_back_tab() {
    for count in 1..6usize {
        for s in 0..count {
            let TabOutcome::Changed(t) = handle_tab_key(Some(s), count, TabKey::Next) else { panic!() };
            assert_eq!(handle_tab_key(Some(t), count, TabKey::Previous), TabOutcome::Changed(s));
            let TabOutcome::Changed(u) = handle_tab_key(Some(s), count, TabKey::Previous) else { panic!() };
            assert_eq!(handle_tab_key(Some(u), count, TabKey::Next), TabOutcome::Changed(s));
        }
    }
}

#[test]
fn full_turn_of_tab_presses() {
    for count in 1..6usize {
        for s in 0..count {
            let mut current = s;
            for _ in 0..count {
                let TabOutcome::Changed(t) = handle_tab_key(Some(current), count, TabKey::Next) else { panic!() };
                current = t;
            }
            assert_eq!(current, s);
        }
    }
}
