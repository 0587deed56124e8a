//! The sampling state machine: each tick it decides whether the run is over
//! (configured duration reached, or the target's memory could not be read)
//! and otherwise appends the reading to the series.

use vstd::prelude::*;

use crate::stats::{MemoryStats, RunResult, Sample};
use crate::status::ReadError;

verus! {

/// Where a run stands: still sampling, or stopped by one of the two terminal
/// transitions.
#[derive(Clone, Copy, PartialEq, Eq, Structural, Debug)]
pub enum RunState {
    Running,
    StoppedByDuration,
    StoppedByTargetGone,
}

/// What a run was asked to do. The paths are carried for the reporting step;
/// a `None` maximum duration means the run lasts until the target disappears.
#[derive(Debug)]
pub struct RunConfig {
    pub pid: u32,
    pub interval_ms: u64,
    pub max_duration_ms: Option<u64>,
    pub chart_path: String,
    pub csv_path: Option<String>,
}

/// Whether a configured maximum duration has been reached at `elapsed_ms`.
pub open spec fn duration_reached(max_duration_ms: Option<u64>, elapsed_ms: u64) -> bool {
    match max_duration_ms {
        Option::Some(d) => elapsed_ms >= d,
        Option::None => false,
    }
}

/// One monitoring run: its configuration, the series collected so far, and
/// the state machine's current state.
pub struct Controller {
    pub config: RunConfig,
    pub stats: MemoryStats,
    pub state: RunState,
}

impl Controller {
    /// A run starts `Running` with an empty series.
    pub fn new(config: RunConfig) -> (c: Controller)
        ensures
            c.state == RunState::Running,
            c.stats@ == Seq::<Sample>::empty(),
            c.config == config,
    {
        Controller { config, stats: MemoryStats::new(), state: RunState::Running }
    }

    pub fn is_running(&self) -> (r: bool)
        ensures
            r == (self.state == RunState::Running),
    {
        self.state == RunState::Running
    }

    /// The first check of a tick. If a maximum duration is configured and has
    /// elapsed, the run stops by `StoppedByDuration` and no further sample is
    /// taken: the series is left exactly as it was.
    pub fn check_duration(&mut self, elapsed_ms: u64) -> (stop: bool)
        requires
            old(self).state == RunState::Running,
        ensures
            stop == duration_reached(old(self).config.max_duration_ms, elapsed_ms),
            final(self).config == old(self).config,
            final(self).stats@ == old(self).stats@,
            final(self).state == if stop {
                RunState::StoppedByDuration
            } else {
                RunState::Running
            },
    {
        let stop = match self.config.max_duration_ms {
            Option::Some(d) => elapsed_ms >= d,
            Option::None => false,
        };
        if stop {
            self.state = RunState::StoppedByDuration;
        }
        stop
    }

    /// The second step of a tick, once the duration check has passed. A
    /// successful reading is appended and the run keeps going; either kind of
    /// read failure is collapsed into the same terminal transition,
    /// `StoppedByTargetGone`, with the series left as it was.
    pub fn record_reading(&mut self, elapsed_ms: u64, reading: Result<u64, ReadError>)
        requires
            old(self).state == RunState::Running,
        ensures
            final(self).config == old(self).config,
            match reading {
                Result::Ok(kb) => final(self).state == RunState::Running && final(self).stats@
                    == old(self).stats@.push(Sample { time_ms: elapsed_ms, memory_kb: kb }),
                Result::Err(_) => final(self).state == RunState::StoppedByTargetGone
                    && final(self).stats@ == old(self).stats@,
            },
    {
        match reading {
            Result::Ok(kb) => {
                self.stats.add_sample(elapsed_ms, kb);
            },
            Result::Err(_) => {
                self.state = RunState::StoppedByTargetGone;
            },
        }
    }

    /// The finishing sequence's statistics, computed even for zero samples.
    pub fn finish(&self) -> (r: RunResult)
        ensures
            r.count == self.stats@.len(),
            r.mean == self.stats.mean_spec(),
            r.median == self.stats.median_spec(),
            r.max_kb == crate::stats::max_spec(crate::stats::memory_values(self.stats@)),
            r.min_kb == crate::stats::min_spec(crate::stats::memory_values(self.stats@)),
    {
        self.stats.summary()
    }
}

} // verus!
