//! The series that the plot shows: each keeps its newest values, up to a
//! fixed number.

use crate::fixed::Fixed;
use vstd::prelude::*;

verus! {

pub struct PlotData {
    n_data_points: usize,
    n_plots: usize,
    data_points: Vec<Vec<Fixed>>,
}

/// A series after one more value: the value goes to the end, and where that
/// makes more than `capacity` values the oldest leaves.
pub open spec fn appended(series: Seq<Fixed>, value: Fixed, capacity: nat) -> Seq<Fixed> {
    if series.len() + 1 > capacity {
        series.push(value).remove(0)
    } else {
        series.push(value)
    }
}

impl PlotData {
    /// The number of values that a series keeps.
    pub closed spec fn capacity(self) -> nat {
        self.n_data_points as nat
    }

    /// The number of series that are drawn.
    pub closed spec fn plots(self) -> nat {
        self.n_plots as nat
    }

    /// The number of series.
    pub closed spec fn series_count(self) -> nat {
        self.data_points@.len()
    }

    /// Series `i`, oldest value first.
    pub closed spec fn series(self, i: int) -> Seq<Fixed> {
        self.data_points@[i]@
    }

    /// `n` empty series that keep `n` values each, three of them drawn.
    pub fn new(n: i32) -> (p: PlotData)
        requires
            n >= 0,
        ensures
            p.capacity() == n,
            p.plots() == 3,
            p.series_count() == n,
            forall|i: int| 0 <= i < n ==> p.series(i) == Seq::<Fixed>::empty(),
    {
        let mut data_points: Vec<Vec<Fixed>> = Vec::new();
        let mut i: i32 = 0;
        while i < n
            invariant
                0 <= i <= n,
                data_points.len() == i,
                forall|k: int| 0 <= k < i ==> (#[trigger] data_points@[k])@ == Seq::<Fixed>::empty(),
            decreases n - i,
        {
            data_points.push(Vec::new());
            i = i + 1;
        }
        PlotData { n_data_points: n as usize, n_plots: 3, data_points }
    }

    /// Adds a value to series `n`.
    pub fn new_data(&mut self, data_point: Fixed, n: i32)
        requires
            0 <= n < old(self).series_count(),
        ensures
            final(self).capacity() == old(self).capacity(),
            final(self).plots() == old(self).plots(),
            final(self).series_count() == old(self).series_count(),
            final(self).series(n as int) == appended(
                old(self).series(n as int),
                data_point,
                old(self).capacity(),
            ),
            forall|i: int|
                0 <= i < old(self).series_count() && i != n
                    ==> final(self).series(i) == old(self).series(i),
    {
        let series: &mut Vec<Fixed> = &mut self.data_points[n as usize];
        series.push(data_point);
        if series.len() > self.n_data_points {
            series.remove(0);
        }
    }

    /// The values of series `i`, oldest first.
    pub fn get_series(&self, i: usize) -> (s: &Vec<Fixed>)
        requires
            i < self.series_count(),
        ensures
            s@ == self.series(i as int),
    {
        &self.data_points[i]
    }
}

} // verus!
