//! The round-trip estimator and the retransmission timeout.
//!
//! Times are whole milliseconds. The smoothing keeps seven eighths of the
//! smoothed round trip and three quarters of its variation, as usual; the
//! divisions round down.

use vstd::prelude::*;

verus! {

/// The timeout before any round trip has been measured, in milliseconds.
pub const INITIAL_RTO: u64 = 1000;

/// The smallest timeout, in milliseconds.
pub const MIN_RTO: u64 = 200;

/// The largest timeout, in milliseconds.
pub const MAX_RTO: u64 = 60000;

/// The estimator of one connection.
#[derive(Clone, Copy, Debug, PartialEq, Eq, Structural)]
pub struct RttEstimator {
    /// The smoothed round trip, once one has been measured.
    pub srtt: Option<u64>,
    /// The smoothed variation of the round trip.
    pub rttvar: u64,
    /// The retransmission timeout.
    pub rto: u64,
}

/// `v`, kept between the smallest and the largest timeout.
pub open spec fn clamp_rto(v: int) -> u64 {
    if v < MIN_RTO {
        MIN_RTO
    } else if v > MAX_RTO {
        MAX_RTO
    } else {
        v as u64
    }
}

/// The distance between two times.
pub open spec fn abs_diff(a: int, b: int) -> int {
    if a >= b {
        a - b
    } else {
        b - a
    }
}

/// The estimator after the round trip `r` has been measured.
pub open spec fn spec_sample(e: RttEstimator, r: u64) -> RttEstimator {
    match e.srtt {
        None => RttEstimator {
            srtt: Some(r),
            rttvar: r / 2,
            rto: clamp_rto(r + 4 * (r / 2)),
        },
        Some(srtt) => {
            let rttvar = (3 * e.rttvar + abs_diff(srtt as int, r as int)) / 4;
            let srtt = (7 * srtt + r) / 8;
            RttEstimator {
                srtt: Some(srtt as u64),
                rttvar: rttvar as u64,
                rto: clamp_rto(srtt + 4 * rttvar),
            }
        },
    }
}

/// The estimator after a retransmission: the timeout doubles, up to the
/// largest.
pub open spec fn spec_backoff(e: RttEstimator) -> RttEstimator {
    RttEstimator { rto: clamp_rto(2 * e.rto), ..e }
}

impl RttEstimator {
    /// The timeout lies between the smallest and the largest.
    pub open spec fn wf(&self) -> bool {
        MIN_RTO <= self.rto <= MAX_RTO
    }

    /// The estimator of a fresh connection: nothing measured, a timeout of
    /// one second.
    pub fn new() -> (e: Self)
        ensures
            e == (RttEstimator { srtt: None, rttvar: 0, rto: INITIAL_RTO }),
            e.wf(),
    {
        RttEstimator { srtt: None, rttvar: 0, rto: INITIAL_RTO }
    }

    fn clamp(v: u128) -> (r: u64)
        ensures
            r == clamp_rto(v as int),
    {
        if v < MIN_RTO as u128 {
            MIN_RTO
        } else if v > MAX_RTO as u128 {
            MAX_RTO
        } else {
            v as u64
        }
    }

    /// Takes the measured round trip `r` into the estimate.
    pub fn sample(&mut self, r: u64)
        ensures
            *final(self) == spec_sample(*old(self), r),
            final(self).wf(),
    {
        match self.srtt {
            None => {
                self.srtt = Some(r);
                self.rttvar = r / 2;
                self.rto = Self::clamp(r as u128 + 4 * (r / 2) as u128);
            },
            Some(srtt) => {
                let diff: u128 = if srtt >= r {
                    (srtt - r) as u128
                } else {
                    (r - srtt) as u128
                };
                let rttvar: u128 = (3 * self.rttvar as u128 + diff) / 4;
                let srtt: u128 = (7 * srtt as u128 + r as u128) / 8;
                self.srtt = Some(srtt as u64);
                self.rttvar = rttvar as u64;
                self.rto = Self::clamp(srtt + 4 * rttvar);
            },
        }
    }

    /// Doubles the timeout after a retransmission, up to the largest.
    pub fn backoff(&mut self)
        ensures
            *final(self) == spec_backoff(*old(self)),
            final(self).wf(),
    {
        self.rto = Self::clamp(2 * self.rto as u128);
    }
}

/// The timeout never leaves its bounds, whatever is measured.
pub proof fn lemma_rto_bounds(e: RttEstimator, r: u64)
    ensures
        MIN_RTO <= spec_sample(e, r).rto <= MAX_RTO,
        MIN_RTO <= spec_backoff(e).rto <= MAX_RTO,
{
}

} // verus!
