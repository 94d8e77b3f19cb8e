//! Counters for diagnostics.

use vstd::prelude::*;

use crate::compound::Compound;

verus! {

/// Counters for the compounds sent and the round trips made.
#[derive(Debug, Clone, Copy, PartialEq, Eq, Structural)]
pub struct Stats {
    /// Compounds sent.
    pub compounds: u64,
    /// Operations in them, the implicit SEQUENCE included.
    pub operations: u64,
    /// Encoded request bytes, as far as they were counted.
    pub bytes: u64,
    /// The most operations in one compound.
    pub max_operations: u64,
    /// Round trips made.
    pub calls: u64,
    /// Microseconds spent in them.
    pub time_us: u64,
}

/// A counter that starts again at zero beyond its largest value.
pub open spec fn counted(counter: u64, n: u64) -> u64 {
    ((counter + n) % 0x1_0000_0000_0000_0000) as u64
}

impl Stats {
    /// Nothing was counted.
    pub fn new() -> (r: Stats)
        ensures
            r == (Stats {
                compounds: 0,
                operations: 0,
                bytes: 0,
                max_operations: 0,
                calls: 0,
                time_us: 0,
            }),
    {
        Stats { compounds: 0, operations: 0, bytes: 0, max_operations: 0, calls: 0, time_us: 0 }
    }

    /// Counts a compound that was answered after this time. `bytes` is its
    /// encoded size where that is known.
    pub fn record(&mut self, sent: &Compound, bytes: Option<u64>, time_us: u64)
        ensures
            *final(self) == (Stats {
                compounds: counted(old(self).compounds, 1),
                operations: counted(old(self).operations, sent@.ops.len() as u64),
                bytes: match bytes {
                    Some(n) => counted(old(self).bytes, n),
                    None => old(self).bytes,
                },
                max_operations: if sent@.ops.len() > old(self).max_operations {
                    sent@.ops.len() as u64
                } else {
                    old(self).max_operations
                },
                calls: counted(old(self).calls, 1),
                time_us: counted(old(self).time_us, time_us),
            }),
    {
        let n: usize = sent.ops.len();
        let operations: u64 = n as u64;
        self.compounds = self.compounds.wrapping_add(1);
        self.operations = self.operations.wrapping_add(operations);
        if let Some(b) = bytes {
            self.bytes = self.bytes.wrapping_add(b);
        }
        if operations > self.max_operations {
            self.max_operations = operations;
        }
        self.calls = self.calls.wrapping_add(1);
        self.time_us = self.time_us.wrapping_add(time_us);
    }

    /// Aggregate compound statistics (compounds, operations, bytes and the most
    /// operations in one), resetting the counters.
    pub fn compound_stats(&mut self) -> (r: (u64, u64, u64, u64))
        ensures
            r == (
                old(self).compounds,
                old(self).operations,
                old(self).bytes,
                old(self).max_operations,
            ),
            *final(self) == (Stats {
                compounds: 0,
                operations: 0,
                bytes: 0,
                max_operations: 0,
                ..*old(self)
            }),
    {
        let r = (self.compounds, self.operations, self.bytes, self.max_operations);
        self.compounds = 0;
        self.operations = 0;
        self.bytes = 0;
        self.max_operations = 0;
        r
    }

    /// Aggregate round trips and their time, resetting the counters.
    pub fn rpc_stats(&mut self) -> (r: (u64, u64))
        ensures
            r == (old(self).calls, old(self).time_us),
            *final(self) == (Stats { calls: 0, time_us: 0, ..*old(self) }),
    {
        let r = (self.calls, self.time_us);
        self.calls = 0;
        self.time_us = 0;
        r
    }
}

} // verus!
