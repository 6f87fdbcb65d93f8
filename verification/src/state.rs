//! The decisions taken when the expense list has been read: whether there
//! is anything to show, and which year to show first.

use vstd::prelude::*;

use crate::date::Date;
use crate::processing::{has_year, lists_years, strictly_increasing, years};

verus! {

/// Why the expense viewer cannot start on an expense list.
#[derive(Clone, Copy, Debug, PartialEq, Eq, Structural)]
pub enum LoadError {
    /// The list holds no expense.
    NoExpenses,
}

impl LoadError {
    /// The message shown to the user.
    pub fn message(self) -> (r: &'static str)
        ensures
            r@ == "there are no expenses to analyse"@,
    {
        "there are no expenses to analyse"
    }
}

/// The year shown first: the latest year in which an expense falls, or
/// `LoadError::NoExpenses` where there is no expense.
pub fn initial_year(dates: &Vec<Date>) -> (r: Result<i32, LoadError>)
    ensures
        r is Err <==> dates@.len() == 0,
        r matches Err(e) ==> e == LoadError::NoExpenses,
        r matches Ok(y) ==> has_year(dates@, y) && forall|i: int|
            0 <= i < dates@.len() ==> #[trigger] dates@[i]@.0 <= y,
{
    if dates.len() == 0 {
        return Err(LoadError::NoExpenses);
    }
    let all = years(dates);
    assert(has_year(dates@, dates@[0]@.0));
    assert(all@.contains(dates@[0]@.0));
    let last: i32 = all[all.len() - 1];
    assert forall|i: int| 0 <= i < dates@.len() implies #[trigger] dates@[i]@.0 <= last by {
        assert(has_year(dates@, dates@[i]@.0));
        assert(all@.contains(dates@[i]@.0));
        let w: int = choose|w: int| 0 <= w < all@.len() && all@[w] == dates@[i]@.0;
        if w < all@.len() - 1 {
            assert(strictly_increasing(all@));
            assert(all@[w] < all@[all@.len() - 1]);
        }
    }
    assert(all@.contains(last));
    Ok(last)
}

/// The year shown first is the last of the years listed.
pub proof fn law_initial_year_is_last_listed(dates: Seq<Date>, ys: Seq<i32>, year: i32)
    requires
        lists_years(dates, ys),
        has_year(dates, year),
        forall|i: int| 0 <= i < dates.len() ==> #[trigger] dates[i]@.0 <= year,
    ensures
        ys.len() > 0,
        ys.last() == year,
{
    assert(ys.contains(year));
    let w: int = choose|w: int| 0 <= w < ys.len() && ys[w] == year;
    assert(ys.contains(ys.last()));
    let i: int = choose|i: int| 0 <= i < dates.len() && #[trigger] dates[i]@.0 == ys.last();
    if w < ys.len() - 1 {
        assert(ys[w] < ys[ys.len() - 1]);
    }
}

} // verus!
