//! The plots that the viewer offers, in the order of its tabs.

use vstd::prelude::*;

verus! {

/// A kind of plot of the expenses.
#[derive(Clone, Copy, Debug, PartialEq, Eq, Structural)]
pub enum Plot {
    /// The sum of the expenses of each day, as a line.
    PerDay,
    /// The share of each class of expense, as a pie.
    Pie,
}

/// Every plot, once, in the order of the tabs.
pub open spec fn plot_order() -> Seq<Plot> {
    seq![Plot::PerDay, Plot::Pie]
}

/// The position of `p` in `plot_order()`.
pub open spec fn plot_index(p: Plot) -> int {
    match p {
        Plot::PerDay => 0,
        Plot::Pie => 1,
    }
}

/// The heading shown above the plot `p`.
pub open spec fn plot_title(p: Plot) -> &'static str {
    match p {
        Plot::PerDay => "Expenses Per Day",
        Plot::Pie => "Expenses Per Class",
    }
}

/// The label of the tab of the plot `p`.
pub open spec fn plot_label(p: Plot) -> &'static str {
    match p {
        Plot::PerDay => "Per Day",
        Plot::Pie => "Pie",
    }
}

impl Default for Plot {
    /// The plot shown first.
    fn default() -> (r: Plot)
        ensures
            r == Plot::PerDay,
    {
        Plot::PerDay
    }
}

impl Plot {
    /// The number of plots.
    pub const CARDINALITY: usize = 2;

    /// The heading shown above the plot.
    pub fn title(self) -> (r: &'static str)
        ensures
            r == plot_title(self),
    {
        match self {
            Plot::PerDay => "Expenses Per Day",
            Plot::Pie => "Expenses Per Class",
        }
    }

    /// The label of the plot's tab.
    pub fn label(self) -> (r: String)
        ensures
            r@ == plot_label(self)@,
    {
        match self {
            Plot::PerDay => "Per Day".to_owned(),
            Plot::Pie => "Pie".to_owned(),
        }
    }

    /// Every plot, once, in the order of the tabs.
    pub fn all() -> (r: Vec<Plot>)
        ensures
            r@ == plot_order(),
    {
        let r = vec![Plot::PerDay, Plot::Pie];
        assert(r@ =~= plot_order());
        r
    }

    /// The position of the plot among the tabs.
    pub fn index(self) -> (r: usize)
        ensures
            r == plot_index(self),
    {
        match self {
            Plot::PerDay => 0,
            Plot::Pie => 1,
        }
    }

    /// The plot at position `index` among the tabs, or `None` past the last.
    pub fn from_index(index: usize) -> (r: Option<Plot>)
        ensures
            r is Some <==> index < Self::CARDINALITY,
            r matches Some(p) ==> p == plot_order()[index as int],
    {
        if index == 0 {
            Some(Plot::PerDay)
        } else if index == 1 {
            Some(Plot::Pie)
        } else {
            None
        }
    }

    /// The first plot.
    pub fn first() -> (r: Plot)
        ensures
            r == plot_order()[0],
    {
        Plot::PerDay
    }

    /// The last plot.
    pub fn last() -> (r: Plot)
        ensures
            r == plot_order().last(),
    {
        Plot::Pie
    }

    /// The plot after this one, or `None` for the last.
    pub fn next(self) -> (r: Option<Plot>)
        ensures
            r is Some <==> plot_index(self) + 1 < plot_order().len(),
            r matches Some(p) ==> p == plot_order()[plot_index(self) + 1],
    {
        match self {
            Plot::PerDay => Some(Plot::Pie),
            Plot::Pie => None,
        }
    }

    /// The plot before this one, or `None` for the first.
    pub fn previous(self) -> (r: Option<Plot>)
        ensures
            r is Some <==> plot_index(self) > 0,
            r matches Some(p) ==> p == plot_order()[plot_index(self) - 1],
    {
        match self {
            Plot::PerDay => None,
            Plot::Pie => Some(Plot::PerDay),
        }
    }

    /// The plot of the selected tab, the first where no tab is selected, or
    /// `None` where the selection is past the last plot.
    pub fn selected(selection: Option<usize>) -> (r: Option<Plot>)
        ensures
            r == (match selection {
                None => Some(Plot::PerDay),
                Some(i) => if i < Self::CARDINALITY { Some(plot_order()[i as int]) } else { None },
            }),
    {
        let index: usize = match selection {
            Some(i) => i,
            None => 0,
        };
        Self::from_index(index)
    }
}

/// The tabs list every plot exactly once, each at its own position.
pub proof fn law_plot_order(p: Plot, q: Plot)
    ensures
        0 <= plot_index(p) < plot_order().len(),
        plot_order()[plot_index(p)] == p,
        plot_index(p) == plot_index(q) ==> p == q,
        plot_order().len() == Plot::CARDINALITY,
{
}

/// `q` follows `p` exactly when `p` precedes `q`.
pub proof fn law_next_previous(p: Plot, q: Plot)
    ensures
        (plot_index(p) + 1 < plot_order().len() && plot_order()[plot_index(p) + 1] == q) <==> (
        plot_index(q) > 0 && plot_order()[plot_index(q) - 1] == p),
{
}

/// Different plots have different titles and different tab labels.
pub proof fn law_titles_distinct(p: Plot, q: Plot)
    requires
        p != q,
    ensures
        plot_title(p)@ != plot_title(q)@,
        plot_label(p)@ != plot_label(q)@,
{
    reveal_strlit("Expenses Per Day");
    reveal_strlit("Expenses Per Class");
    reveal_strlit("Per Day");
    reveal_strlit("Pie");
    assert("Expenses Per Day"@[15] != "Expenses Per Class"@[15]);
    assert("Per Day"@.len() != "Pie"@.len());
}

} // verus!
