//! Grouping and filtering expenses by their dates. An expense list is given
//! by the dates of its expenses, in order; groups and filters answer with
//! positions in that list, so that the caller can add up the amounts.

use vstd::prelude::*;

use crate::date::{date_lt, month_ordinal0, months_in_order, Date, Month};

verus! {

/// Whether the day `d` is the date of some element of `s`.
pub open spec fn has_day(s: Seq<Date>, d: (i32, u32, u32)) -> bool {
    exists|i: int| 0 <= i < s.len() && #[trigger] s[i]@ == d
}

/// Whether `y` is the year of some element of `s`.
pub open spec fn has_year(s: Seq<Date>, y: i32) -> bool {
    exists|i: int| 0 <= i < s.len() && #[trigger] s[i]@.0 == y
}

/// Whether the dates of `s` come in strictly chronological order.
pub open spec fn chronological(s: Seq<Date>) -> bool {
    forall|i: int, j: int| 0 <= i < j < s.len() ==> date_lt(#[trigger] s[i]@, #[trigger] s[j]@)
}

/// Whether `s` is strictly increasing.
pub open spec fn strictly_increasing(s: Seq<i32>) -> bool {
    forall|i: int, j: int| 0 <= i < j < s.len() ==> #[trigger] s[i] < #[trigger] s[j]
}

/// Whether `s` is a strictly increasing sequence of positions.
pub open spec fn increasing_positions(s: Seq<usize>) -> bool {
    forall|i: int, j: int| 0 <= i < j < s.len() ==> #[trigger] s[i] < #[trigger] s[j]
}

/// Whether `positions` lists, in increasing order, exactly the positions `i`
/// of `dates` for which `keep(i)` holds.
pub open spec fn lists_positions(positions: Seq<usize>, len: int, keep: spec_fn(int) -> bool) -> bool {
    &&& increasing_positions(positions)
    &&& forall|k: int| 0 <= k < positions.len() ==> #[trigger] positions[k] < len
    &&& forall|k: int| 0 <= k < positions.len() ==> keep(#[trigger] positions[k] as int)
    &&& forall|i: int| 0 <= i < len && keep(i) ==> #[trigger] positions.contains(i as usize)
}

/// Whether `d` falls in `year` and, where a month is given, in the month
/// whose 0-based position (`chrono::Month` as an integer) equals the date's
/// 1-based month number.
pub open spec fn in_period(d: (i32, u32, u32), year: i32, month: Option<Month>) -> bool {
    &&& d.0 == year
    &&& match month {
        None => true,
        Some(m) => d.1 == month_ordinal0(m),
    }
}

/// The expenses dated on one day: the day, and the positions of those
/// expenses in increasing order.
pub struct DayGroup {
    pub date: Date,
    pub members: Vec<usize>,
}

/// The distinct days among `dates`, in chronological order.
pub fn distinct_days(dates: &Vec<Date>) -> (r: Vec<Date>)
    ensures
        chronological(r@),
        forall|d: (i32, u32, u32)| has_day(r@, d) <==> has_day(dates@, d),
{
    let mut out: Vec<Date> = Vec::new();
    let n: usize = dates.len();
    for i in 0..n
        invariant
            n == dates.len(),
            chronological(out@),
            forall|d: (i32, u32, u32)| has_day(out@, d) <==> has_day(dates@.take(i as int), d),
    {
        let d = dates[i];
        let mut p: usize = 0;
        while p < out.len() && out[p].is_before(&d)
            invariant
                p <= out.len(),
                forall|k: int| 0 <= k < p ==> date_lt(#[trigger] out@[k]@, d@),
            decreases out.len() - p,
        {
            p = p + 1;
        }
        let ghost before = out@;
        assert(dates@.take(i + 1) =~= dates@.take(i as int).push(d));
        if p < out.len() && out[p].same_day(&d) {
            assert forall|x: (i32, u32, u32)| has_day(out@, x) <==> has_day(dates@.take(i + 1), x) by {
                if has_day(dates@.take(i + 1), x) && !has_day(dates@.take(i as int), x) {
                    assert(x == d@);
                    assert(out@[p as int]@ == x);
                }
                if has_day(dates@.take(i as int), x) {
                    let w: int = choose|w: int| 0 <= w < i && #[trigger] dates@.take(i as int)[w]@ == x;
                    assert(dates@.take(i + 1)[w]@ == x);
                }
            }
        } else {
            out.insert(p, d);
            assert forall|a: int, b: int| 0 <= a < b < out@.len() implies date_lt(
                #[trigger] out@[a]@,
                #[trigger] out@[b]@,
            ) by {
                if b < p {
                    assert(out@[a] == before[a] && out@[b] == before[b]);
                } else if b == p {
                    assert(out@[a] == before[a]);
                } else if a < p {
                    assert(out@[a] == before[a] && out@[b] == before[b - 1]);
                    assert(date_lt(before[a]@, d@));
                    assert(date_lt(d@, before[p as int]@)) by {
                        assert(!date_lt(before[p as int]@, d@));
                        assert(before[p as int]@ != d@);
                    }
                    if b - 1 > p {
                        assert(date_lt(before[p as int]@, before[b - 1]@));
                    }
                } else if a == p {
                    assert(out@[b] == before[b - 1]);
                    assert(date_lt(d@, before[p as int]@)) by {
                        assert(!date_lt(before[p as int]@, d@));
                        assert(before[p as int]@ != d@);
                    }
                    if b - 1 > p {
                        assert(date_lt(before[p as int]@, before[b - 1]@));
                    }
                } else {
                    assert(out@[a] == before[a - 1] && out@[b] == before[b - 1]);
                }
            }
            assert forall|x: (i32, u32, u32)| has_day(out@, x) <==> has_day(dates@.take(i + 1), x) by {
                if has_day(out@, x) {
                    let w: int = choose|w: int| 0 <= w < out@.len() && #[trigger] out@[w]@ == x;
                    if w < p {
                        assert(before[w]@ == x);
                        assert(has_day(before, x));
                    } else if w == p {
                        assert(dates@.take(i + 1)[i as int]@ == x);
                    } else {
                        assert(before[w - 1]@ == x);
                        assert(has_day(before, x));
                    }
                }
                if has_day(dates@.take(i + 1), x) {
                    if x == d@ {
                        assert(out@[p as int]@ == x);
                    } else {
                        let w: int = choose|w: int| 0 <= w < i + 1 && #[trigger] dates@.take(i + 1)[w]@ == x;
                        assert(dates@.take(i as int)[w]@ == x);
                        assert(has_day(dates@.take(i as int), x));
                        assert(has_day(before, x));
                        let v: int = choose|v: int| 0 <= v < before.len() && #[trigger] before[v]@ == x;
                        if v < p {
                            assert(out@[v]@ == x);
                        } else {
                            assert(out@[v + 1]@ == x);
                        }
                    }
                }
                if has_day(dates@.take(i as int), x) {
                    let w: int = choose|w: int| 0 <= w < i && #[trigger] dates@.take(i as int)[w]@ == x;
                    assert(dates@.take(i + 1)[w]@ == x);
                }
            }
        }
    }
    assert(dates@.take(n as int) =~= dates@);
    out
}

/// The years in which the expenses fall, each once, in increasing order.
pub fn years(dates: &Vec<Date>) -> (r: Vec<i32>)
    ensures
        lists_years(dates@, r@),
{
    let days = distinct_days(dates);
    let mut out: Vec<i32> = Vec::new();
    let m: usize = days.len();
    for k in 0..m
        invariant
            m == days.len(),
            chronological(days@),
            strictly_increasing(out@),
            out.len() > 0 ==> k > 0 && out@.last() == days@[k - 1]@.0,
            k == 0 ==> out.len() == 0,
            forall|y: i32| out@.contains(y) <==> has_year(days@.take(k as int), y),
    {
        let y: i32 = days[k].year();
        let ghost before = out@;
        assert(days@.take(k + 1) =~= days@.take(k as int).push(days@[k as int]));
        if k > 0 {
            assert(date_lt(days@[k - 1]@, days@[k as int]@));
        }
        if out.len() == 0 || out[out.len() - 1] != y {
            out.push(y);
            assert forall|y2: i32| out@.contains(y2) <==> has_year(days@.take(k + 1), y2) by {
                if out@.contains(y2) {
                    let w: int = choose|w: int| 0 <= w < out@.len() && out@[w] == y2;
                    if w < before.len() {
                        assert(before.contains(y2));
                        let v: int = choose|v: int| 0 <= v < k && #[trigger] days@.take(k as int)[v]@.0 == y2;
                        assert(days@.take(k + 1)[v]@.0 == y2);
                    } else {
                        assert(days@.take(k + 1)[k as int]@.0 == y2);
                    }
                }
                if has_year(days@.take(k + 1), y2) {
                    let v: int = choose|v: int| 0 <= v < k + 1 && #[trigger] days@.take(k + 1)[v]@.0 == y2;
                    if v < k {
                        assert(days@.take(k as int)[v]@.0 == y2);
                        assert(before.contains(y2));
                        let w: int = choose|w: int| 0 <= w < before.len() && before[w] == y2;
                        assert(out@[w] == y2);
                    } else {
                        assert(out@[out@.len() - 1] == y2);
                    }
                }
            }
        } else {
            assert forall|y2: i32| out@.contains(y2) <==> has_year(days@.take(k + 1), y2) by {
                if out@.contains(y2) {
                    let v: int = choose|v: int| 0 <= v < k && #[trigger] days@.take(k as int)[v]@.0 == y2;
                    assert(days@.take(k + 1)[v]@.0 == y2);
                }
                if has_year(days@.take(k + 1), y2) {
                    let v: int = choose|v: int| 0 <= v < k + 1 && #[trigger] days@.take(k + 1)[v]@.0 == y2;
                    if v < k {
                        assert(days@.take(k as int)[v]@.0 == y2);
                    } else {
                        assert(out@[out@.len() - 1] == y2);
                    }
                }
            }
        }
    }
    assert(days@.take(m as int) =~= days@);
    assert forall|y: i32| has_year(days@, y) <==> has_year(dates@, y) by {
        if has_year(days@, y) {
            let v: int = choose|v: int| 0 <= v < days@.len() && #[trigger] days@[v]@.0 == y;
            assert(has_day(days@, days@[v]@));
            let w: int = choose|w: int| 0 <= w < dates@.len() && #[trigger] dates@[w]@ == days@[v]@;
            assert(dates@[w]@.0 == y);
        }
        if has_year(dates@, y) {
            let v: int = choose|v: int| 0 <= v < dates@.len() && #[trigger] dates@[v]@.0 == y;
            assert(has_day(dates@, dates@[v]@));
            let w: int = choose|w: int| 0 <= w < days@.len() && #[trigger] days@[w]@ == dates@[v]@;
            assert(days@[w]@.0 == y);
        }
    }
    out
}

/// The test "the expense at position `i` is dated `d`".
pub open spec fn dated(dates: Seq<Date>, d: (i32, u32, u32)) -> spec_fn(int) -> bool {
    |i: int| dates[i]@ == d
}

/// The test "the expense at position `i` falls in the period".
pub open spec fn within(dates: Seq<Date>, year: i32, month: Option<Month>) -> spec_fn(int) -> bool {
    |i: int| in_period(dates[i]@, year, month)
}

/// Whether some group of `groups` is for the day `d`.
pub open spec fn has_group(groups: Seq<DayGroup>, d: (i32, u32, u32)) -> bool {
    exists|g: int| 0 <= g < groups.len() && #[trigger] groups[g].date@ == d
}

/// Whether `ys` lists, in increasing order and each once, the years in
/// which some date of `dates` falls.
pub open spec fn lists_years(dates: Seq<Date>, ys: Seq<i32>) -> bool {
    &&& strictly_increasing(ys)
    &&& forall|y: i32| ys.contains(y) <==> has_year(dates, y)
}

/// Whether `groups` has one group per distinct day of `dates`, in
/// chronological order, each listing in increasing order the positions of
/// the dates of its day.
pub open spec fn groups_by_day(dates: Seq<Date>, groups: Seq<DayGroup>) -> bool {
    &&& forall|g: int, h: int| 0 <= g < h < groups.len() ==> date_lt(#[trigger] groups[g].date@, #[trigger] groups[h].date@)
    &&& forall|g: int| 0 <= g < groups.len() ==> has_day(dates, #[trigger] groups[g].date@)
    &&& forall|i: int| 0 <= i < dates.len() ==> has_group(groups, #[trigger] dates[i]@)
    &&& forall|g: int| 0 <= g < groups.len() ==> lists_positions(#[trigger] groups[g].members@, dates.len() as int, dated(dates, groups[g].date@))
}

/// The positions of the expenses dated `day`, in increasing order.
fn positions_on_day(dates: &Vec<Date>, day: &Date) -> (r: Vec<usize>)
    ensures
        lists_positions(r@, dates@.len() as int, dated(dates@, day@)),
{
    let mut out: Vec<usize> = Vec::new();
    let n: usize = dates.len();
    for i in 0..n
        invariant
            n == dates.len(),
            lists_positions(out@, i as int, dated(dates@, day@)),
    {
        let ghost before = out@;
        if dates[i].same_day(day) {
            out.push(i);
            assert forall|j: int| 0 <= j < i + 1 && dated(dates@, day@)(j) implies #[trigger] out@.contains(j as usize) by {
                if j < i {
                    assert(before.contains(j as usize));
                    let w: int = choose|w: int| 0 <= w < before.len() && before[w] == j as usize;
                    assert(out@[w] == j as usize);
                } else {
                    assert(out@[out@.len() - 1] == j as usize);
                }
            }
        } else {
            assert forall|j: int| 0 <= j < i + 1 && dated(dates@, day@)(j) implies #[trigger] out@.contains(j as usize) by {
                if j < i {
                } else {
                    assert(dates@[j]@ == day@);
                }
            }
        }
    }
    out
}

/// The expenses grouped by day: one group per distinct day, in
/// chronological order, each with the positions of the expenses of that day
/// in increasing order.
pub fn day_groups(dates: &Vec<Date>) -> (r: Vec<DayGroup>)
    ensures
        groups_by_day(dates@, r@),
{
    let days = distinct_days(dates);
    let mut out: Vec<DayGroup> = Vec::new();
    let m: usize = days.len();
    for k in 0..m
        invariant
            m == days.len(),
            chronological(days@),
            forall|d: (i32, u32, u32)| has_day(days@, d) <==> has_day(dates@, d),
            out@.len() == k,
            forall|g: int| 0 <= g < k ==> #[trigger] out@[g].date@ == days@[g]@,
            forall|g: int| 0 <= g < k ==> lists_positions(#[trigger] out@[g].members@, dates@.len() as int, dated(dates@, out@[g].date@)),
    {
        let day = days[k];
        let members = positions_on_day(dates, &day);
        out.push(DayGroup { date: day, members });
    }
    assert forall|g: int| 0 <= g < out@.len() implies has_day(dates@, #[trigger] out@[g].date@) by {
        assert(days@[g]@ == out@[g].date@);
        assert(has_day(days@, days@[g]@));
    }
    assert forall|i: int| 0 <= i < dates@.len() implies has_group(out@, #[trigger] dates@[i]@) by {
        assert(has_day(dates@, dates@[i]@));
        let w: int = choose|w: int| 0 <= w < days@.len() && #[trigger] days@[w]@ == dates@[i]@;
        assert(out@[w].date@ == dates@[i]@);
    }
    assert forall|g: int, h: int| 0 <= g < h < out@.len() implies date_lt(#[trigger] out@[g].date@, #[trigger] out@[h].date@) by {
        assert(date_lt(days@[g]@, days@[h]@));
    }
    out
}

/// The positions of the expenses that fall in `year` and, where `month` is
/// given, whose month number equals the month's 0-based position, in
/// increasing order.
pub fn filter_to_period(dates: &Vec<Date>, year: i32, month: Option<Month>) -> (r: Vec<usize>)
    ensures
        lists_positions(r@, dates@.len() as int, within(dates@, year, month)),
{
    let mut out: Vec<usize> = Vec::new();
    let n: usize = dates.len();
    for i in 0..n
        invariant
            n == dates.len(),
            lists_positions(out@, i as int, within(dates@, year, month)),
    {
        let ghost before = out@;
        let d = dates[i];
        let keep = d.year() == year && match month {
            None => true,
            Some(m) => d.month() == m.ordinal0(),
        };
        if keep {
            out.push(i);
            assert forall|j: int| 0 <= j < i + 1 && within(dates@, year, month)(j) implies #[trigger] out@.contains(j as usize) by {
                if j < i {
                    assert(before.contains(j as usize));
                    let w: int = choose|w: int| 0 <= w < before.len() && before[w] == j as usize;
                    assert(out@[w] == j as usize);
                } else {
                    assert(out@[out@.len() - 1] == j as usize);
                }
            }
        } else {
            assert forall|j: int| 0 <= j < i + 1 && within(dates@, year, month)(j) implies #[trigger] out@.contains(j as usize) by {
                if j < i {
                } else {
                    assert(in_period(dates@[j]@, year, month));
                }
            }
        }
    }
    out
}

/// The first and the last day of the groups, each the first of January 1970
/// where there are no groups (as a default `chrono::NaiveDate`).
pub fn date_span(groups: &Vec<DayGroup>) -> (r: (Date, Date))
    ensures
        r.0@ == (if groups@.len() > 0 { groups@[0].date@ } else { (1970i32, 1u32, 1u32) }),
        r.1@ == (if groups@.len() > 0 { groups@.last().date@ } else { (1970i32, 1u32, 1u32) }),
{
    if groups.len() > 0 {
        (groups[0].date, groups[groups.len() - 1].date)
    } else {
        (Date::default(), Date::default())
    }
}

/// The slices of a pie of expenses by class: the distinct classes in the
/// order of their first expense, and for each expense the position of its
/// class among them.
pub struct Slices {
    pub classes: Vec<String>,
    pub slice_of: Vec<usize>,
}

/// Whether `slices` and `slice_of` group the expenses whose classes are
/// `classes` by class, the classes in the order of their first expense.
pub open spec fn groups_by_class(classes: Seq<Seq<char>>, slices: Seq<Seq<char>>, slice_of: Seq<usize>) -> bool {
    &&& slice_of.len() == classes.len()
    &&& forall|i: int| 0 <= i < classes.len() ==> #[trigger] slice_of[i] < slices.len()
    &&& forall|i: int| 0 <= i < classes.len() ==> slices[#[trigger] slice_of[i] as int] == classes[i]
    &&& forall|k: int, l: int| 0 <= k < l < slices.len() ==> #[trigger] slices[k] != #[trigger] slices[l]
    &&& forall|k: int| 0 <= k < slices.len() ==> #[trigger] slice_of.contains(k as usize)
    &&& forall|i: int| 0 <= i < classes.len() && #[trigger] slice_of[i] > 0 ==> slice_of.take(i).contains((slice_of[i] - 1) as usize)
}

/// The pie slices of the expenses whose classes are `classes`: one slice
/// per distinct class, in the order of the class's first expense.
pub fn pie_slices(classes: &Vec<String>) -> (r: Slices)
    ensures
        groups_by_class(classes@.map_values(|c: String| c@), r.classes@.map_values(|c: String| c@), r.slice_of@),
{
    let ghost input = classes@.map_values(|c: String| c@);
    let mut names: Vec<String> = Vec::new();
    let mut slice_of: Vec<usize> = Vec::new();
    let n: usize = classes.len();
    for i in 0..n
        invariant
            n == classes.len(),
            input == classes@.map_values(|c: String| c@),
            groups_by_class(input.take(i as int), names@.map_values(|c: String| c@), slice_of@),
    {
        let ghost old_names = names@.map_values(|c: String| c@);
        let ghost old_slice_of = slice_of@;
        let mut p: usize = 0;
        while p < names.len() && names[p] != classes[i]
            invariant
                p <= names.len(),
                i < classes.len(),
                forall|k: int| 0 <= k < p ==> names@[k]@ != classes@[i as int]@,
            decreases names.len() - p,
        {
            p = p + 1;
        }
        assert(input.take(i + 1) =~= input.take(i as int).push(input[i as int]));
        if p < names.len() {
            slice_of.push(p);
            let ghost new_names = names@.map_values(|c: String| c@);
            assert(new_names =~= old_names);
            assert(old_slice_of.contains(p)) by {
                let pi: int = p as int;
                assert(0 <= pi < old_names.len());
                assert(old_slice_of.contains(pi as usize));
            }
            assert forall|k: int| 0 <= k < new_names.len() implies #[trigger] slice_of@.contains(k as usize) by {
                assert(old_slice_of.contains(k as usize));
                let w: int = choose|w: int| 0 <= w < old_slice_of.len() && old_slice_of[w] == k as usize;
                assert(slice_of@[w] == k as usize);
            }
            assert forall|j: int| 0 <= j < i + 1 && #[trigger] slice_of@[j] > 0 implies slice_of@.take(j).contains((slice_of@[j] - 1) as usize) by {
                if j < i {
                    assert(slice_of@.take(j) =~= old_slice_of.take(j));
                } else {
                    let w: int = choose|w: int| 0 <= w < old_slice_of.len() && old_slice_of[w] == p;
                    assert(old_slice_of[w] > 0);
                    let v: int = choose|v: int| 0 <= v < w && old_slice_of.take(w)[v] == (p - 1) as usize;
                    assert(slice_of@.take(j)[v] == (p - 1) as usize);
                }
            }
            assert forall|j: int| 0 <= j < i + 1 implies new_names[#[trigger] slice_of@[j] as int] == input.take(i + 1)[j] by {
                if j < i {
                    assert(old_names[old_slice_of[j] as int] == input.take(i as int)[j]);
                } else {
                    assert(new_names[p as int] == names@[p as int]@);
                }
            }
        } else {
            let name = classes[i].clone();
            names.push(name);
            slice_of.push(p);
            let ghost new_names = names@.map_values(|c: String| c@);
            assert(new_names =~= old_names.push(classes@[i as int]@));
            assert forall|k: int| 0 <= k < new_names.len() implies #[trigger] slice_of@.contains(k as usize) by {
                if k < old_names.len() {
                    assert(old_slice_of.contains(k as usize));
                    let w: int = choose|w: int| 0 <= w < old_slice_of.len() && old_slice_of[w] == k as usize;
                    assert(slice_of@[w] == k as usize);
                } else {
                    assert(slice_of@[i as int] == k as usize);
                }
            }
            assert forall|j: int| 0 <= j < i + 1 && #[trigger] slice_of@[j] > 0 implies slice_of@.take(j).contains((slice_of@[j] - 1) as usize) by {
                if j < i {
                    assert(slice_of@.take(j) =~= old_slice_of.take(j));
                } else {
                    assert(old_slice_of.contains((p - 1) as usize));
                    let w: int = choose|w: int| 0 <= w < old_slice_of.len() && old_slice_of[w] == (p - 1) as usize;
                    assert(slice_of@.take(j)[w] == (p - 1) as usize);
                }
            }
            assert forall|j: int| 0 <= j < i + 1 implies new_names[#[trigger] slice_of@[j] as int] == input.take(i + 1)[j] by {
                if j < i {
                    assert(old_names[old_slice_of[j] as int] == input.take(i as int)[j]);
                }
            }
            assert forall|k: int, l: int| 0 <= k < l < new_names.len() implies #[trigger] new_names[k] != #[trigger] new_names[l] by {
                if l == old_names.len() {
                    assert(names@[k]@ != classes@[i as int]@);
                }
            }
        }
    }
    assert(input.take(n as int) =~= input);
    Slices { classes: names, slice_of }
}

/// Every expense lies in exactly one day group: the group of its date.
pub proof fn law_each_expense_in_one_day_group(dates: Seq<Date>, groups: Seq<DayGroup>, i: int)
    requires
        groups_by_day(dates, groups),
        0 <= i < dates.len(),
    ensures
        exists|g: int| 0 <= g < groups.len() && #[trigger] groups[g].members@.contains(i as usize),
        forall|g: int, h: int|
            0 <= g < groups.len() && 0 <= h < groups.len() && #[trigger] groups[g].members@.contains(i as usize)
                && #[trigger] groups[h].members@.contains(i as usize) ==> g == h,
{
    assert(has_group(groups, dates[i]@));
    let g: int = choose|g: int| 0 <= g < groups.len() && #[trigger] groups[g].date@ == dates[i]@;
    assert(lists_positions(groups[g].members@, dates.len() as int, dated(dates, groups[g].date@)));
    assert(dated(dates, groups[g].date@)(i));
    assert(groups[g].members@.contains(i as usize));
    assert forall|g1: int, h1: int|
        0 <= g1 < groups.len() && 0 <= h1 < groups.len() && #[trigger] groups[g1].members@.contains(i as usize)
            && #[trigger] groups[h1].members@.contains(i as usize) implies g1 == h1 by {
        assert(lists_positions(groups[g1].members@, dates.len() as int, dated(dates, groups[g1].date@)));
        assert(lists_positions(groups[h1].members@, dates.len() as int, dated(dates, groups[h1].date@)));
        let a: int = choose|a: int| 0 <= a < groups[g1].members@.len() && groups[g1].members@[a] == i as usize;
        let b: int = choose|b: int| 0 <= b < groups[h1].members@.len() && groups[h1].members@[b] == i as usize;
        assert(dated(dates, groups[g1].date@)(groups[g1].members@[a] as int));
        assert(dated(dates, groups[h1].date@)(groups[h1].members@[b] as int));
        if g1 < h1 {
            assert(date_lt(groups[g1].date@, groups[h1].date@));
        } else if h1 < g1 {
            assert(date_lt(groups[h1].date@, groups[g1].date@));
        }
    }
}

/// The expenses of a year and month are among the expenses of that year.
pub proof fn law_month_within_year(dates: Seq<Date>, year: i32, month: Month, of_month: Seq<usize>, of_year: Seq<usize>)
    requires
        lists_positions(of_month, dates.len() as int, within(dates, year, Some(month))),
        lists_positions(of_year, dates.len() as int, within(dates, year, None)),
    ensures
        forall|k: int| 0 <= k < of_month.len() ==> of_year.contains(#[trigger] of_month[k]),
{
    assert forall|k: int| 0 <= k < of_month.len() implies of_year.contains(#[trigger] of_month[k]) by {
        assert(within(dates, year, Some(month))(of_month[k] as int));
        let i: int = of_month[k] as int;
        assert(within(dates, year, None)(i));
        assert(0 <= i < dates.len());
        assert(of_year.contains(i as usize));
    }
}

/// Each year that `years` lists has at least one expense in it.
pub proof fn law_listed_year_has_expenses(dates: Seq<Date>, ys: Seq<i32>, year: i32, of_year: Seq<usize>)
    requires
        lists_years(dates, ys),
        ys.contains(year),
        lists_positions(of_year, dates.len() as int, within(dates, year, None)),
    ensures
        of_year.len() > 0,
{
    let i: int = choose|i: int| 0 <= i < dates.len() && #[trigger] dates[i]@.0 == year;
    assert(within(dates, year, None)(i));
    assert(of_year.contains(i as usize));
}

/// The span of the day groups covers the date of every expense: none comes
/// before the first group's day or after the last group's day.
pub proof fn law_span_covers_every_expense(dates: Seq<Date>, groups: Seq<DayGroup>, i: int)
    requires
        groups_by_day(dates, groups),
        0 <= i < dates.len(),
    ensures
        groups.len() > 0,
        !date_lt(dates[i]@, groups[0].date@),
        !date_lt(groups.last().date@, dates[i]@),
{
    assert(has_group(groups, dates[i]@));
    let g: int = choose|g: int| 0 <= g < groups.len() && #[trigger] groups[g].date@ == dates[i]@;
    if g > 0 {
        assert(date_lt(groups[0].date@, groups[g].date@));
    }
    if g < groups.len() - 1 {
        assert(date_lt(groups[g].date@, groups[groups.len() - 1].date@));
    }
}

/// Two strictly increasing sequences with the same elements are equal: a
/// list of years is determined by the set of its years.
pub proof fn law_increasing_determined_by_elements(a: Seq<i32>, b: Seq<i32>)
    requires
        strictly_increasing(a),
        strictly_increasing(b),
        forall|y: i32| a.contains(y) <==> b.contains(y),
    ensures
        a == b,
    decreases a.len(),
{
    if a.len() == 0 {
        if b.len() > 0 {
            assert(b.contains(b[0]));
        }
        assert(a =~= b);
    } else {
        assert(a.contains(a[0]));
        assert(b.len() > 0);
        assert(b.contains(b[0]));
        let i: int = choose|i: int| 0 <= i < b.len() && b[i] == a[0];
        let j: int = choose|j: int| 0 <= j < a.len() && a[j] == b[0];
        if i > 0 {
            assert(b[0] < b[i]);
        }
        if j > 0 {
            assert(a[0] < a[j]);
        }
        assert(a[0] == b[0]);
        let a1 = a.drop_first();
        let b1 = b.drop_first();
        assert forall|y: i32| a1.contains(y) <==> b1.contains(y) by {
            if a1.contains(y) {
                let k: int = choose|k: int| 0 <= k < a1.len() && a1[k] == y;
                assert(a[k + 1] == y);
                assert(a[0] < a[k + 1]);
                assert(a.contains(y));
                let m: int = choose|m: int| 0 <= m < b.len() && b[m] == y;
                assert(m != 0);
                assert(b1[m - 1] == y);
            }
            if b1.contains(y) {
                let k: int = choose|k: int| 0 <= k < b1.len() && b1[k] == y;
                assert(b[k + 1] == y);
                assert(b[0] < b[k + 1]);
                assert(b.contains(y));
                let m: int = choose|m: int| 0 <= m < a.len() && a[m] == y;
                assert(m != 0);
                assert(a1[m - 1] == y);
            }
        }
        assert forall|p: int, q: int| 0 <= p < q < a1.len() implies #[trigger] a1[p] < #[trigger] a1[q] by {
            assert(a[p + 1] < a[q + 1]);
        }
        assert forall|p: int, q: int| 0 <= p < q < b1.len() implies #[trigger] b1[p] < #[trigger] b1[q] by {
            assert(b[p + 1] < b[q + 1]);
        }
        law_increasing_determined_by_elements(a1, b1);
        assert(a =~= b) by {
            assert forall|k: int| 0 <= k < a.len() implies a[k] == b[k] by {
                if k > 0 {
                    assert(a[k] == a1[k - 1]);
                    assert(b[k] == b1[k - 1]);
                }
            }
        }
    }
}

/// The years of a list of expenses do not depend on the order of the list.
pub proof fn law_years_ignore_order(xs: Seq<Date>, ys: Seq<Date>, a: Seq<i32>, b: Seq<i32>)
    requires
        xs.to_multiset() =~= ys.to_multiset(),
        lists_years(xs, a),
        lists_years(ys, b),
    ensures
        a == b,
{
    broadcast use vstd::seq_lib::group_to_multiset_ensures;
    assert forall|y: i32| a.contains(y) <==> b.contains(y) by {
        if has_year(xs, y) {
            let i: int = choose|i: int| 0 <= i < xs.len() && #[trigger] xs[i]@.0 == y;
            assert(xs.contains(xs[i]));
            assert(xs.to_multiset().count(xs[i]) > 0);
            assert(ys.to_multiset().count(xs[i]) > 0);
            assert(ys.contains(xs[i]));
            let j: int = choose|j: int| 0 <= j < ys.len() && ys[j] == xs[i];
            assert(ys[j]@.0 == y);
        }
        if has_year(ys, y) {
            let i: int = choose|i: int| 0 <= i < ys.len() && #[trigger] ys[i]@.0 == y;
            assert(ys.contains(ys[i]));
            assert(ys.to_multiset().count(ys[i]) > 0);
            assert(xs.to_multiset().count(ys[i]) > 0);
            assert(xs.contains(ys[i]));
            let j: int = choose|j: int| 0 <= j < xs.len() && xs[j] == ys[i];
            assert(xs[j]@.0 == y);
        }
    }
    law_increasing_determined_by_elements(a, b);
}

/// The years of two lists put together are the years of either, in
/// increasing order and each once: the sorted union of the two lists of
/// years (which `law_increasing_determined_by_elements` makes unique).
pub proof fn law_years_of_concatenation(xs: Seq<Date>, zs: Seq<Date>, a: Seq<i32>, b: Seq<i32>, c: Seq<i32>)
    requires
        lists_years(xs, a),
        lists_years(zs, b),
        lists_years(xs + zs, c),
    ensures
        strictly_increasing(c),
        forall|y: i32| c.contains(y) <==> a.contains(y) || b.contains(y),
{
    let all = xs + zs;
    assert forall|y: i32| c.contains(y) <==> a.contains(y) || b.contains(y) by {
        if has_year(all, y) {
            let i: int = choose|i: int| 0 <= i < all.len() && #[trigger] all[i]@.0 == y;
            if i < xs.len() {
                assert(xs[i]@.0 == y);
            } else {
                assert(zs[i - xs.len()]@.0 == y);
            }
        }
        if has_year(xs, y) {
            let i: int = choose|i: int| 0 <= i < xs.len() && #[trigger] xs[i]@.0 == y;
            assert(all[i]@.0 == y);
        }
        if has_year(zs, y) {
            let i: int = choose|i: int| 0 <= i < zs.len() && #[trigger] zs[i]@.0 == y;
            assert(all[i + xs.len()]@.0 == y);
        }
    }
}

/// A strictly increasing list of positions below `len` in which every
/// position below `len` occurs is the list of all positions below `len`.
pub proof fn lemma_all_positions(q: Seq<usize>, len: int)
    requires
        0 <= len <= usize::MAX,
        increasing_positions(q),
        forall|k: int| 0 <= k < q.len() ==> #[trigger] q[k] < len,
        forall|i: int| 0 <= i < len ==> #[trigger] q.contains(i as usize),
    ensures
        q == Seq::new(len as nat, |k: int| k as usize),
{
    if q.len() > 0 {
        lemma_positions_are_indices(q, len, q.len() - 1);
        assert(q[q.len() - 1] == q.len() - 1);
        assert(q.len() <= len);
    }
    if len > 0 {
        assert(q.contains((len - 1) as usize));
        let j: int = choose|j: int| 0 <= j < q.len() && q[j] == (len - 1) as usize;
        assert(q[j] == j);
        assert(q.len() >= len);
    }
    assert(q.len() == len);
    assert forall|k: int| 0 <= k < len implies q[k] == Seq::new(len as nat, |k: int| k as usize)[k] by {
        assert(q[k] == k);
    }
    assert(q =~= Seq::new(len as nat, |k: int| k as usize));
}

/// Under the assumptions of `lemma_all_positions`, the first `k + 1`
/// positions are 0 to `k`.
proof fn lemma_positions_are_indices(q: Seq<usize>, len: int, k: int)
    requires
        0 <= len <= usize::MAX,
        increasing_positions(q),
        forall|j: int| 0 <= j < q.len() ==> #[trigger] q[j] < len,
        forall|i: int| 0 <= i < len ==> #[trigger] q.contains(i as usize),
        0 <= k < q.len(),
    ensures
        forall|j: int| 0 <= j <= k ==> #[trigger] q[j] == j,
    decreases k,
{
    if k > 0 {
        lemma_positions_are_indices(q, len, k - 1);
        assert(q[k - 1] < q[k]);
    }
    assert(q[k] >= k);
    assert(q.contains(k as usize));
    let j: int = choose|j: int| 0 <= j < q.len() && q[j] == k as usize;
    if j < k {
        assert(q[j] == j);
    } else if j > k {
        assert(q[k] < q[j]);
    }
}

/// Filtering the expenses of a period again with the same period keeps
/// them all.
pub proof fn law_filter_again_keeps_all(
    dates: Seq<Date>,
    year: i32,
    month: Option<Month>,
    kept: Seq<usize>,
    again: Seq<usize>,
)
    requires
        kept.len() <= usize::MAX,
        lists_positions(kept, dates.len() as int, within(dates, year, month)),
        lists_positions(again, kept.len() as int, within(kept.map_values(|i: usize| dates[i as int]), year, month)),
    ensures
        again == Seq::new(kept.len(), |k: int| k as usize),
{
    let sub = kept.map_values(|i: usize| dates[i as int]);
    assert forall|k: int| 0 <= k < kept.len() implies #[trigger] again.contains(k as usize) by {
        assert(within(dates, year, month)(kept[k] as int));
        assert(sub[k] == dates[kept[k] as int]);
        assert(within(sub, year, month)(k));
    }
    lemma_all_positions(again, kept.len() as int);
}

/// Over the twelve months, the month filters split a year's expenses: an
/// expense of the year whose month number is below 12 is kept by exactly
/// one month's filter, the month whose 0-based position is that number;
/// one whose month number is 12 (December) is kept by none.
pub proof fn law_month_filters_split_year(dates: Seq<Date>, year: i32, i: int)
    requires
        0 <= i < dates.len(),
        in_period(dates[i]@, year, None),
    ensures
        dates[i]@.1 < 12 ==> in_period(dates[i]@, year, Some(months_in_order()[dates[i]@.1 as int])),
        forall|m1: Month, m2: Month|
            #[trigger] in_period(dates[i]@, year, Some(m1)) && #[trigger] in_period(dates[i]@, year, Some(m2))
                ==> m1 == m2,
        dates[i]@.1 >= 12 ==> forall|m: Month| !#[trigger] in_period(dates[i]@, year, Some(m)),
{
    let k: int = dates[i]@.1 as int;
    if k < 12 {
        assert(month_ordinal0(months_in_order()[k]) == k);
    }
}

/// Every expense kept by a period filter falls in the chosen year, whatever
/// the month; with no month, every expense of the year is kept.
pub proof fn law_filter_keeps_the_year(dates: Seq<Date>, year: i32, month: Option<Month>, kept: Seq<usize>)
    requires
        lists_positions(kept, dates.len() as int, within(dates, year, month)),
    ensures
        forall|k: int| 0 <= k < kept.len() ==> #[trigger] dates[kept[k] as int]@.0 == year,
        month is None ==> forall|i: int|
            0 <= i < dates.len() && #[trigger] dates[i]@.0 == year ==> kept.contains(i as usize),
{
    assert forall|k: int| 0 <= k < kept.len() implies #[trigger] dates[kept[k] as int]@.0 == year by {
        assert(within(dates, year, month)(kept[k] as int));
    }
    if month is None {
        assert forall|i: int| 0 <= i < dates.len() && #[trigger] dates[i]@.0 == year implies kept.contains(i as usize) by {
            assert(within(dates, year, month)(i));
        }
    }
}

/// The day groups come in chronological order: by year, then month, then
/// day of the month; so the span runs from the earliest day to the latest.
pub proof fn law_day_groups_chronological(dates: Seq<Date>, groups: Seq<DayGroup>, g: int, h: int)
    requires
        groups_by_day(dates, groups),
        0 <= g < h < groups.len(),
    ensures
        groups[g].date@.0 <= groups[h].date@.0,
        groups[g].date@.0 == groups[h].date@.0 ==> groups[g].date@.1 <= groups[h].date@.1,
        groups[g].date@.0 == groups[h].date@.0 && groups[g].date@.1 == groups[h].date@.1
            ==> groups[g].date@.2 < groups[h].date@.2,
{
    assert(date_lt(groups[g].date@, groups[h].date@));
}

} // verus!
