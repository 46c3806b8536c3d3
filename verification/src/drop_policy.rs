//! Which received datagrams a node throws away on purpose.

use crate::net::ipv4::Ipv4Info;
use vstd::prelude::*;

verus! {

/// A rule that says of each received datagram whether it is dropped.
pub trait DropPolicy {
    /// What the rule will say of the next datagram, in its present state.
    spec fn drops_next(&self, ip_header: Ipv4Info) -> bool;

    /// Says whether the datagram with this header is dropped.
    fn should_drop(&mut self, ip_header: &Ipv4Info) -> (drop: bool)
        ensures
            drop == old(self).drops_next(*ip_header),
    ;
}

/// Drops nothing.
#[derive(Default)]
pub struct NeverDrop;

impl DropPolicy for NeverDrop {
    open spec fn drops_next(&self, ip_header: Ipv4Info) -> bool {
        false
    }

    #[inline]
    fn should_drop(&mut self, _ip_header: &Ipv4Info) -> (drop: bool) {
        false
    }
}

/// Drops one datagram in every `factor`: the first it sees, and then every
/// `factor`-th after it.
pub struct DropFactor {
    never_drop: bool,
    factor: usize,
    count: usize,
}

impl DropFactor {
    /// Whether nothing is ever dropped.
    pub closed spec fn never_drop(&self) -> bool {
        self.never_drop
    }

    /// The period: one datagram in this many is dropped.
    pub closed spec fn factor(&self) -> usize {
        self.factor
    }

    /// How many datagrams the rule has seen, modulo the machine's word.
    pub closed spec fn count(&self) -> usize {
        self.count
    }

    /// The period is at least one.
    pub closed spec fn wf(&self) -> bool {
        self.factor >= 1
    }

    /// A rule that drops one datagram in every `factor`.
    pub fn every(factor: usize) -> (r: Self)
        requires
            factor >= 1,
        ensures
            r.wf(),
            !r.never_drop(),
            r.factor() == factor,
            r.count() == 0,
    {
        DropFactor { never_drop: false, factor, count: 0 }
    }

    /// A rule that drops nothing.
    pub fn never() -> (r: Self)
        ensures
            r.wf(),
            r.never_drop(),
            r.count() == 0,
    {
        DropFactor { never_drop: true, factor: usize::MAX, count: 0 }
    }
}

/// How many of the datagrams numbered `from`, `from + 1`, .., `from + n - 1`
/// a rule with period `factor` drops.
pub open spec fn drops_between(factor: int, from: int, n: nat) -> nat
    decreases n,
{
    if n == 0 {
        0
    } else {
        drops_between(factor, from, (n - 1) as nat) + if (from + n - 1) % factor == 0 {
            1nat
        } else {
            0nat
        }
    }
}

/// Counted from the start, a rule with period `factor` has dropped one
/// datagram for every `factor` seen, rounded up: the first, and every
/// `factor`-th after it.
pub proof fn lemma_drop_rate(factor: int, n: nat)
    requires
        factor >= 1,
    ensures
        drops_between(factor, 0, n) == (n + factor - 1) / factor,
    decreases n,
{
    if n > 0 {
        lemma_drop_rate(factor, (n - 1) as nat);
        let m = n - 1;
        assert((m + factor) / factor == (m + factor - 1) / factor + if m % factor == 0 {
            1int
        } else {
            0int
        }) by (nonlinear_arith)
            requires
                factor >= 1,
                m >= 0,
        ;
    } else {
        assert((factor - 1) / factor == 0) by (nonlinear_arith)
            requires
                factor >= 1,
        ;
    }
}

impl DropPolicy for DropFactor {
    open spec fn drops_next(&self, ip_header: Ipv4Info) -> bool {
        self.wf() && !self.never_drop() && self.count() % self.factor() == 0
    }

    #[inline]
    fn should_drop(&mut self, _ip_header: &Ipv4Info) -> (drop: bool)
        ensures
            final(self).never_drop() == old(self).never_drop(),
            final(self).factor() == old(self).factor(),
            final(self).count() == if old(self).never_drop() || !old(self).wf() {
                old(self).count()
            } else if old(self).count() == usize::MAX {
                0
            } else {
                (old(self).count() + 1) as usize
            },
    {
        if self.never_drop || self.factor == 0 {
            return false;
        }
        let count = self.count;
        self.count = self.count.wrapping_add(1);
        count % self.factor == 0
    }
}

} // verus!
