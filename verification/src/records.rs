//! Statistics of a run and the best results over all runs.

use vstd::prelude::*;

verus! {

/// What a run achieved.
#[derive(Clone, Copy, Debug, Default, PartialEq, Eq, Structural)]
pub struct RunStats {
    pub time_survived_secs: u64,
    pub loops_completed: u32,
    pub blocks_mined: u32,
}

/// The best results over all runs, and how many runs ended.
#[derive(Clone, Copy, Debug, Default, PartialEq, Eq, Structural)]
pub struct MetaRecords {
    pub best_time_secs: u64,
    pub best_loops: u32,
    pub best_blocks_mined: u32,
    pub total_runs: u64,
}

/// The names of the records that `stats` beats, in the order time, loops, blocks.
pub open spec fn beaten_records(r: MetaRecords, stats: RunStats) -> Seq<Seq<char>> {
    let a: Seq<Seq<char>> = if stats.time_survived_secs > r.best_time_secs { seq!["time"@] } else { seq![] };
    let b: Seq<Seq<char>> = if stats.loops_completed > r.best_loops { seq!["loops"@] } else { seq![] };
    let c: Seq<Seq<char>> = if stats.blocks_mined > r.best_blocks_mined { seq!["blocks"@] } else { seq![] };
    a + b + c
}

pub open spec fn max_u64(a: u64, b: u64) -> u64 {
    if a >= b { a } else { b }
}

pub open spec fn max_u32(a: u32, b: u32) -> u32 {
    if a >= b { a } else { b }
}

impl MetaRecords {
    /// Counts one more run and raises each best result that `stats` beats;
    /// returns the names of the records beaten ("time", "loops", "blocks").
    pub fn update_from_stats(&mut self, stats: &RunStats) -> (new_records: Vec<&'static str>)
        requires
            old(self).total_runs < u64::MAX,
        ensures
            final(self).total_runs == old(self).total_runs + 1,
            final(self).best_time_secs == max_u64(old(self).best_time_secs, stats.time_survived_secs),
            final(self).best_loops == max_u32(old(self).best_loops, stats.loops_completed),
            final(self).best_blocks_mined == max_u32(old(self).best_blocks_mined, stats.blocks_mined),
            new_records@.map_values(|s: &'static str| s@) == beaten_records(*old(self), *stats),
    {
        let ghost before = *self;
        let mut new_records: Vec<&'static str> = Vec::new();
        self.total_runs += 1;
        if stats.time_survived_secs > self.best_time_secs {
            self.best_time_secs = stats.time_survived_secs;
            new_records.push("time");
        }
        let ghost after_time = new_records@;
        if stats.loops_completed > self.best_loops {
            self.best_loops = stats.loops_completed;
            new_records.push("loops");
        }
        let ghost after_loops = new_records@;
        if stats.blocks_mined > self.best_blocks_mined {
            self.best_blocks_mined = stats.blocks_mined;
            new_records.push("blocks");
        }
        assert(new_records@.map_values(|s: &'static str| s@) =~= beaten_records(before, *stats));
        new_records
    }
}

} // verus!
