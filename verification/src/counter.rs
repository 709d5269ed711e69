//! The process-wide visit counter.
//!
//! One counter value is shared by every request handler for the life of
//! the process. Handlers touch it only through `increment` and `read`;
//! `increment` adds exactly one, so bursts of increments are never lost,
//! and no sequence of operations can make `read` go backwards.

use vstd::prelude::*;

verus! {

/// A non-negative hit counter, created once at startup with value zero.
pub struct HitCount {
    count: usize,
}

impl View for HitCount {
    type V = nat;

    closed spec fn view(&self) -> nat {
        self.count as nat
    }
}

/// The counter value after `n` further increments from `c`.
pub open spec fn after_increments(c: nat, n: nat) -> nat
    decreases n,
{
    if n == 0 {
        c
    } else {
        after_increments(c, (n - 1) as nat) + 1
    }
}

impl HitCount {
    /// A fresh counter reading zero.
    pub fn new() -> (c: HitCount)
        ensures
            c@ == 0,
    {
        HitCount { count: 0 }
    }

    /// Record one visit: the stored value grows by exactly one,
    /// so no increment is ever lost.
    pub fn increment(&mut self)
        requires
            old(self)@ < usize::MAX,
        ensures
            final(self)@ == old(self)@ + 1,
    {
        self.count = self.count + 1;
    }

    /// The current value, without changing it.
    pub fn read(&self) -> (n: usize)
        ensures
            n as nat == self@,
    {
        self.count
    }
}

/// A burst of `n` increments grows the counter by exactly `n`,
/// however the increments are interleaved: each one adds one,
/// and none is lost.
pub proof fn lemma_increment_burst(c: nat, n: nat)
    ensures
        after_increments(c, n) == c + n,
    decreases n,
{
    if n > 0 {
        lemma_increment_burst(c, (n - 1) as nat);
    }
}

/// An operation on the counter: `true` is an increment, `false` a read.
/// Reads leave the value alone, so this is what a whole history does to it.
pub open spec fn after_ops(c: nat, ops: Seq<bool>) -> nat
    decreases ops.len(),
{
    if ops.len() == 0 {
        c
    } else if ops[0] {
        after_ops(c + 1, ops.skip(1))
    } else {
        after_ops(c, ops.skip(1))
    }
}

/// Monotonicity: across any sequence of increments and reads, the value
/// a read observes never decreases below any earlier value.
pub proof fn lemma_read_monotonic(c: nat, ops: Seq<bool>)
    ensures
        after_ops(c, ops) >= c,
    decreases ops.len(),
{
    if ops.len() > 0 {
        if ops[0] {
            lemma_read_monotonic(c + 1, ops.skip(1));
        } else {
            lemma_read_monotonic(c, ops.skip(1));
        }
    }
}

} // verus!
