//! The numbers behind the chart: the x-axis bound and the y-axis range with
//! its one-tenth margin, computed exactly in tenths of a kilobyte so that no
//! rounding enters before the renderer is handed its values.
//!
//! A value of `t` tenth-kilobytes is `t / 10240` megabytes.

use vstd::prelude::*;

use crate::stats::{last_time_spec, max_spec, memory_values, min_spec, MemoryStats};

verus! {

/// Lower bound of the y axis in tenths of a kilobyte: the smallest value
/// minus one tenth of the spread, clamped at zero.
pub open spec fn y_low_spec(min_kb: int, max_kb: int) -> int {
    if 10 * min_kb >= max_kb - min_kb {
        10 * min_kb - (max_kb - min_kb)
    } else {
        0
    }
}

/// Upper bound of the y axis in tenths of a kilobyte: the largest value plus
/// one tenth of the spread.
pub open spec fn y_high_spec(min_kb: int, max_kb: int) -> int {
    10 * max_kb + (max_kb - min_kb)
}

/// Axis bounds for rendering a non-empty series.
#[derive(Clone, Copy, PartialEq, Eq, Structural, Debug)]
pub struct ChartBounds {
    /// The x axis runs from 0 to the final sample's elapsed time.
    pub x_max_ms: u64,
    pub y_low_tenth_kb: u128,
    pub y_high_tenth_kb: u128,
}

/// The smallest value never exceeds the largest in a non-empty sequence.
pub proof fn lemma_min_le_max(vals: Seq<u64>)
    requires
        vals.len() > 0,
    ensures
        min_spec(vals) <= max_spec(vals),
    decreases vals.len(),
{
    if vals.len() > 1 {
        lemma_min_le_max(vals.drop_last());
    }
}

impl MemoryStats {
    /// The axis bounds the renderer is handed, derived from the series alone.
    pub fn chart_bounds(&self) -> (b: ChartBounds)
        requires
            self@.len() > 0,
        ensures
            b.x_max_ms == last_time_spec(self@),
            b.y_low_tenth_kb == y_low_spec(
                min_spec(memory_values(self@)) as int,
                max_spec(memory_values(self@)) as int,
            ),
            b.y_high_tenth_kb == y_high_spec(
                min_spec(memory_values(self@)) as int,
                max_spec(memory_values(self@)) as int,
            ),
    {
        let max_kb = self.max();
        let min_kb = self.min();
        proof {
            lemma_min_le_max(memory_values(self@));
        }
        let spread = (max_kb as u128) - (min_kb as u128);
        let low = if 10 * (min_kb as u128) >= spread {
            10 * (min_kb as u128) - spread
        } else {
            0
        };
        let high = 10 * (max_kb as u128) + spread;
        ChartBounds { x_max_ms: self.last_elapsed_ms(), y_low_tenth_kb: low, y_high_tenth_kb: high }
    }
}

/// A single-sample series is degenerate on purpose: the smallest and largest
/// values coincide, the margin is zero, and the y range collapses to a single
/// point rather than failing.
pub proof fn lemma_single_sample_degenerate(vals: Seq<u64>)
    requires
        vals.len() == 1,
    ensures
        min_spec(vals) == max_spec(vals),
        y_low_spec(min_spec(vals) as int, max_spec(vals) as int) == 10 * min_spec(vals),
        y_high_spec(min_spec(vals) as int, max_spec(vals) as int) == 10 * min_spec(vals),
{
    assert(vals.drop_last().len() == 0);
    assert(max_spec(vals.drop_last()) == 0);
}

} // verus!
