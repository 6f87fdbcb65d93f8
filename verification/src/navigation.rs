//! The decisions the viewer takes on keyboard input: quitting, redrawing,
//! and cycling through the plot tabs.

use vstd::arithmetic::div_mod::{
    lemma_add_mod_noop, lemma_add_mod_noop_right, lemma_fundamental_div_mod,
    lemma_fundamental_div_mod_converse, lemma_mod_bound,
};
use vstd::prelude::*;

verus! {

/// The position reached from `selected` by moving `by` tabs among
/// `tab_count`, wrapping around at both ends.
pub open spec fn cycled(selected: int, by: int, tab_count: int) -> int {
    (selected + by) % tab_count
}

/// The position of the selected tab, the first where none is selected.
pub open spec fn selected_or_first(selected: Option<usize>) -> int {
    match selected {
        Some(i) => i as int,
        None => 0,
    }
}

/// Whether moving `by` tabs from `selected` stays within the range of
/// `isize`, as the tab arithmetic is done in it.
pub open spec fn cycle_fits(selected: Option<usize>, tab_count: usize, by: isize) -> bool {
    &&& 0 < tab_count <= isize::MAX
    &&& selected_or_first(selected) <= isize::MAX
    &&& isize::MIN <= selected_or_first(selected) + by <= isize::MAX
}

/// The tab reached from the selected one (the first where none is) by
/// moving `by` tabs, wrapping around: the Euclidean remainder of the sum by
/// the number of tabs.
pub fn cycle_tab(selected: Option<usize>, tab_count: usize, by: isize) -> (r: usize)
    requires
        cycle_fits(selected, tab_count, by),
    ensures
        r == cycled(selected_or_first(selected), by as int, tab_count as int),
        r < tab_count,
{
    let current: usize = match selected {
        Some(i) => i,
        None => 0,
    };
    let ghost c: int = tab_count as int;
    let ghost s: int = current as int;
    if by >= 0 {
        let forward: usize = by as usize;
        let total: usize = current + forward;
        let r: usize = total % tab_count;
        r
    } else {
        let back: usize = (0 - (by as i128)) as usize;
        if current >= back {
            let r: usize = (current - back) % tab_count;
            r
        } else {
            let x: usize = back - current;
            let k: usize = x % tab_count;
            proof {
                let xi: int = x as int;
                lemma_fundamental_div_mod(xi, c);
                let q: int = xi / c;
                let ki: int = xi % c;
                assert(xi == c * q + ki);
                assert(s + by == -xi);
                if ki == 0 {
                    assert(-xi == (-q) * c + 0) by (nonlinear_arith)
                        requires
                            xi == c * q + ki,
                            ki == 0,
                    ;
                    lemma_fundamental_div_mod_converse(-xi, c, -q, 0);
                } else {
                    assert(-xi == (-q - 1) * c + (c - ki)) by (nonlinear_arith)
                        requires
                            xi == c * q + ki,
                    ;
                    lemma_fundamental_div_mod_converse(-xi, c, -q - 1, c - ki);
                }
            }
            if k == 0 {
                0
            } else {
                tab_count - k
            }
        }
    }
}

/// A key press as far as the tabs are concerned.
#[derive(Clone, Copy, Debug, PartialEq, Eq, Structural)]
pub enum TabKey {
    /// Tab: the next tab.
    Next,
    /// Back-tab or shift-tab: the previous tab.
    Previous,
    /// Any other input.
    Other,
}

/// What the tabs did with an input.
#[derive(Clone, Copy, Debug, PartialEq, Eq, Structural)]
pub enum TabOutcome {
    /// The tab at this position is now selected.
    Changed(usize),
    /// The input was not for the tabs.
    Continue,
}

/// The number of tabs that `key` moves by, if it moves at all.
pub open spec fn tab_step(key: TabKey) -> Option<isize> {
    match key {
        TabKey::Next => Some(1isize),
        TabKey::Previous => Some(-1isize),
        TabKey::Other => None,
    }
}

/// The tabs' answer to `key` with `selected` selected among `tab_count`
/// tabs.
pub open spec fn tab_key_outcome(selected: Option<usize>, tab_count: usize, key: TabKey) -> TabOutcome {
    match tab_step(key) {
        Some(by) => TabOutcome::Changed(
            cycled(selected_or_first(selected), by as int, tab_count as int) as usize,
        ),
        None => TabOutcome::Continue,
    }
}

/// The tabs' answer to `key`: tab and back-tab select the next and the
/// previous tab, wrapping around; any other key is passed on, whatever the
/// number of tabs. Moving needs at least one tab.
pub fn handle_tab_key(selected: Option<usize>, tab_count: usize, key: TabKey) -> (r: TabOutcome)
    requires
        key != TabKey::Other ==> 0 < tab_count <= isize::MAX && selected_or_first(selected) < isize::MAX,
    ensures
        r == tab_key_outcome(selected, tab_count, key),
{
    match key {
        TabKey::Next => TabOutcome::Changed(cycle_tab(selected, tab_count, 1)),
        TabKey::Previous => TabOutcome::Changed(cycle_tab(selected, tab_count, -1)),
        TabKey::Other => TabOutcome::Continue,
    }
}

/// An input as far as the whole viewer is concerned.
#[derive(Clone, Copy, Debug, PartialEq, Eq, Structural)]
pub enum AppInput {
    /// Control-q pressed.
    Quit,
    /// The terminal was resized.
    Resized,
    /// Any other input, for the widgets.
    Other,
}

/// What the viewer does next.
#[derive(Clone, Copy, Debug, PartialEq, Eq, Structural)]
pub enum AppControl {
    /// Leave the viewer.
    Quit,
    /// Draw the screen again.
    Changed,
}

/// The viewer's own answer to `input`, before the widgets see it:
/// control-q quits, a resize redraws, and anything else is left to the
/// widgets (`None`).
pub fn app_response(input: AppInput) -> (r: Option<AppControl>)
    ensures
        r == (match input {
            AppInput::Quit => Some(AppControl::Quit),
            AppInput::Resized => Some(AppControl::Changed),
            AppInput::Other => None,
        }),
{
    match input {
        AppInput::Quit => Some(AppControl::Quit),
        AppInput::Resized => Some(AppControl::Changed),
        AppInput::Other => None,
    }
}

/// Moving one tab forward and then one tab back returns to the tab one
/// started from.
pub proof fn law_cycle_forward_then_back(selected: int, tab_count: int)
    requires
        0 <= selected < tab_count,
    ensures
        cycled(cycled(selected, 1, tab_count), -1, tab_count) == selected,
{
    if selected + 1 < tab_count {
        lemma_fundamental_div_mod_converse(selected + 1, tab_count, 0, selected + 1);
        lemma_fundamental_div_mod_converse(selected, tab_count, 0, selected);
    } else {
        lemma_fundamental_div_mod_converse(selected + 1, tab_count, 1, 0);
        lemma_fundamental_div_mod_converse(-1, tab_count, -1, tab_count - 1);
    }
}

/// Moving one tab back and then one tab forward returns to the tab one
/// started from.
pub proof fn law_cycle_back_then_forward(selected: int, tab_count: int)
    requires
        0 <= selected < tab_count,
    ensures
        cycled(cycled(selected, -1, tab_count), 1, tab_count) == selected,
{
    if selected > 0 {
        lemma_fundamental_div_mod_converse(selected - 1, tab_count, 0, selected - 1);
        lemma_fundamental_div_mod_converse(selected, tab_count, 0, selected);
    } else {
        lemma_fundamental_div_mod_converse(-1, tab_count, -1, tab_count - 1);
        lemma_fundamental_div_mod_converse(tab_count, tab_count, 1, 0);
    }
}

/// Moving by as many tabs as there are returns to the tab one started from.
pub proof fn law_cycle_full_turn(selected: int, tab_count: int)
    requires
        0 <= selected < tab_count,
    ensures
        cycled(selected, tab_count, tab_count) == selected,
{
    lemma_fundamental_div_mod_converse(selected + tab_count, tab_count, 1, selected);
}

/// The tab selected after `presses` presses of tab, starting from `start`
/// among `tab_count` tabs.
pub open spec fn after_tab_presses(start: usize, tab_count: usize, presses: nat) -> usize
    decreases presses,
{
    if presses == 0 {
        start
    } else {
        let before = after_tab_presses(start, tab_count, (presses - 1) as nat);
        match tab_key_outcome(Some(before), tab_count, TabKey::Next) {
            TabOutcome::Changed(t) => t,
            TabOutcome::Continue => before,
        }
    }
}

/// A key that is not tab or back-tab leaves the selection alone, whatever
/// the number of tabs.
pub proof fn law_other_key_continues(selected: Option<usize>, tab_count: usize)
    ensures
        tab_key_outcome(selected, tab_count, TabKey::Other) == TabOutcome::Continue,
{
}

/// Tab followed by back-tab, and back-tab followed by tab, come back to the
/// tab one started from.
pub proof fn law_tab_then_back_tab(selected: usize, tab_count: usize)
    requires
        selected < tab_count,
    ensures
        tab_key_outcome(Some(selected), tab_count, TabKey::Next) matches TabOutcome::Changed(t)
            && tab_key_outcome(Some(t), tab_count, TabKey::Previous) == TabOutcome::Changed(selected),
        tab_key_outcome(Some(selected), tab_count, TabKey::Previous) matches TabOutcome::Changed(t)
            && tab_key_outcome(Some(t), tab_count, TabKey::Next) == TabOutcome::Changed(selected),
{
    let s: int = selected as int;
    let n: int = tab_count as int;
    lemma_mod_bound(s + 1, n);
    lemma_mod_bound(s - 1, n);
    law_cycle_forward_then_back(s, n);
    law_cycle_back_then_forward(s, n);
}

/// `presses` presses of tab move the selection by `presses` places,
/// wrapping around.
pub proof fn lemma_tab_presses(start: usize, tab_count: usize, presses: nat)
    requires
        start < tab_count,
    ensures
        after_tab_presses(start, tab_count, presses) == (start + presses) % (tab_count as int),
    decreases presses,
{
    let n: int = tab_count as int;
    if presses == 0 {
        lemma_fundamental_div_mod_converse(start as int, n, 0, start as int);
    } else {
        lemma_tab_presses(start, tab_count, (presses - 1) as nat);
        let x: int = start + presses - 1;
        let before: int = x % n;
        lemma_mod_bound(x, n);
        lemma_mod_bound(before + 1, n);
        lemma_add_mod_noop(x, 1, n);
        lemma_add_mod_noop_right(before, 1, n);
        assert(before % n == before) by {
            lemma_fundamental_div_mod_converse(before, n, 0, before);
        }
    }
}

/// As many presses of tab as there are tabs come back to the tab one
/// started from.
pub proof fn law_full_turn_of_tab_presses(start: usize, tab_count: usize)
    requires
        start < tab_count,
    ensures
        after_tab_presses(start, tab_count, tab_count as nat) == start,
{
    lemma_tab_presses(start, tab_count, tab_count as nat);
    law_cycle_full_turn(start as int, tab_count as int);
}

} // verus!
