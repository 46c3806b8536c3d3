//! The retransmission queue: what is in flight, when it was sent, and how
//! often.

use crate::protocol::tcp::buf::{seq_add, seq_offset};
use vstd::prelude::*;

verus! {

/// After this many transmissions of one segment without an acknowledgment
/// the connection is given up.
pub const MAX_TRANSMISSIONS: u32 = 5;

/// One segment in flight.
#[derive(Clone, Copy, Debug, PartialEq, Eq, Structural)]
pub struct RtxEntry {
    /// The sequence number of its first octet.
    pub seq: u32,
    /// How much sequence space it takes: its payload, and one for a SYN or FIN.
    pub len: u32,
    pub first_tx_time: u64,
    pub last_tx_time: u64,
    pub tx_count: u32,
}

/// The queue, oldest segment first.
pub struct RetransmissionQueue {
    pub entries: Vec<RtxEntry>,
}

/// Whether the acknowledgment `ack` covers all of the segment `e`.
pub open spec fn covered(e: RtxEntry, ack: u32) -> bool {
    seq_offset(seq_add(e.seq, e.len as int), ack) >= 0
}

/// How many segments at the head of the queue `ack` covers.
pub open spec fn covered_prefix(entries: Seq<RtxEntry>, ack: u32) -> nat
    decreases entries.len(),
{
    if entries.len() > 0 && covered(entries[0], ack) {
        1 + covered_prefix(entries.skip(1), ack)
    } else {
        0
    }
}

/// The round trip that an acknowledgment at time `now` measures on the queue
/// `entries`: the age of the oldest segment, where the acknowledgment covers
/// it and it was sent only once. A segment that was sent again measures
/// nothing, since the acknowledgment may answer either transmission.
pub open spec fn spec_rtt_sample(entries: Seq<RtxEntry>, ack: u32, now: u64) -> Option<u64> {
    if entries.len() > 0 && covered(entries[0], ack) && entries[0].tx_count == 1 && now
        >= entries[0].first_tx_time {
        Some((now - entries[0].first_tx_time) as u64)
    } else {
        None
    }
}

/// Whether the oldest segment has waited out the timeout `rto` at time `now`.
pub open spec fn spec_due(entries: Seq<RtxEntry>, now: u64, rto: u64) -> bool {
    entries.len() > 0 && entries[0].last_tx_time + rto <= now
}

pub proof fn lemma_covered_prefix(entries: Seq<RtxEntry>, ack: u32)
    ensures
        covered_prefix(entries, ack) <= entries.len(),
        forall|i: int| 0 <= i < covered_prefix(entries, ack)
            ==> covered(#[trigger] entries[i], ack),
        covered_prefix(entries, ack) < entries.len() ==> !covered(
            entries[covered_prefix(entries, ack) as int],
            ack,
        ),
    decreases entries.len(),
{
    if entries.len() > 0 && covered(entries[0], ack) {
        let rest = entries.skip(1);
        lemma_covered_prefix(rest, ack);
        assert forall|i: int| 0 <= i < covered_prefix(entries, ack) implies covered(
            #[trigger] entries[i],
            ack,
        ) by {
            if i > 0 {
                assert(entries[i] == rest[i - 1]);
            }
        }
        if covered_prefix(entries, ack) < entries.len() {
            assert(entries[covered_prefix(entries, ack) as int] == rest[covered_prefix(rest, ack) as int]);
        }
    }
}

/// What an acknowledgment leaves in the queue it leaves there when it
/// comes again, and it measures nothing the second time.
pub proof fn lemma_queue_ack_again(entries: Seq<RtxEntry>, ack: u32, now: u64)
    ensures
        covered_prefix(entries.skip(covered_prefix(entries, ack) as int), ack) == 0,
        spec_rtt_sample(entries.skip(covered_prefix(entries, ack) as int), ack, now) is None,
{
    lemma_covered_prefix(entries, ack);
    let n = covered_prefix(entries, ack) as int;
    let rest = entries.skip(n);
    if rest.len() > 0 {
        assert(rest[0] == entries[n]);
    }
}

impl RetransmissionQueue {
    pub fn new() -> (q: Self)
        ensures
            q.entries@ == Seq::<RtxEntry>::empty(),
    {
        RetransmissionQueue { entries: Vec::new() }
    }

    /// Notes a segment sent for the first time at `now`.
    pub fn push(&mut self, seq: u32, len: u32, now: u64)
        ensures
            final(self).entries@ == old(self).entries@.push(
                RtxEntry { seq, len, first_tx_time: now, last_tx_time: now, tx_count: 1 },
            ),
    {
        self.entries.push(
            RtxEntry { seq, len, first_tx_time: now, last_tx_time: now, tx_count: 1 },
        );
    }

    /// Takes an acknowledgment: the segments at the head that it covers
    /// leave the queue. Gives the round trip that it measures, if any.
    pub fn on_ack(&mut self, ack: u32, now: u64) -> (sample: Option<u64>)
        ensures
            final(self).entries@ == old(self).entries@.skip(
                covered_prefix(old(self).entries@, ack) as int,
            ),
            sample == spec_rtt_sample(old(self).entries@, ack, now),
    {
        let sample = if self.entries.len() > 0 && Self::covers(&self.entries[0], ack)
            && self.entries[0].tx_count == 1 && now >= self.entries[0].first_tx_time {
            Some(now - self.entries[0].first_tx_time)
        } else {
            None
        };
        let mut n: usize = 0;
        proof {
            lemma_covered_prefix(self.entries@, ack);
        }
        while n < self.entries.len() && Self::covers(&self.entries[n], ack)
            invariant
                n <= covered_prefix(self.entries@, ack) <= self.entries@.len(),
                self.entries@ == old(self).entries@,
                forall|i: int|
                    0 <= i < covered_prefix(self.entries@, ack) ==> covered(
                        #[trigger] self.entries@[i],
                        ack,
                    ),
                covered_prefix(self.entries@, ack) < self.entries@.len() ==> !covered(
                    self.entries@[covered_prefix(self.entries@, ack) as int],
                    ack,
                ),
            decreases self.entries@.len() - n,
        {
            n += 1;
        }
        let rest = self.entries.split_off(n);
        self.entries = rest;
        assert(old(self).entries@.subrange(n as int, old(self).entries@.len() as int) == old(
            self,
        ).entries@.skip(n as int));
        sample
    }

    fn covers(e: &RtxEntry, ack: u32) -> (b: bool)
        ensures
            b == covered(*e, ack),
    {
        ack.wrapping_sub(e.seq.wrapping_add(e.len)) < 0x8000_0000
    }

    /// Whether the oldest segment is due to be sent again.
    pub fn due(&self, now: u64, rto: u64) -> (b: bool)
        ensures
            b == spec_due(self.entries@, now, rto),
    {
        self.entries.len() > 0 && match self.entries[0].last_tx_time.checked_add(rto) {
            Some(t) => t <= now,
            None => false,
        }
    }

    /// Notes that the oldest segment is sent again at `now`, and gives it
    /// as it stood before. `None` on an empty queue.
    pub fn retransmit(&mut self, now: u64) -> (r: Option<RtxEntry>)
        ensures
            old(self).entries@.len() == 0 ==> r is None && final(self).entries@ == old(
                self,
            ).entries@,
            old(self).entries@.len() > 0 ==> r == Some(old(self).entries@[0])
                && final(self).entries@ == old(self).entries@.update(
                0,
                RtxEntry {
                    last_tx_time: now,
                    tx_count: if old(self).entries@[0].tx_count == u32::MAX {
                        u32::MAX
                    } else {
                        (old(self).entries@[0].tx_count + 1) as u32
                    },
                    ..old(self).entries@[0]
                },
            ),
    {
        if self.entries.len() == 0 {
            return None;
        }
        let e = self.entries[0];
        self.entries.set(
            0,
            RtxEntry { last_tx_time: now, tx_count: e.tx_count.saturating_add(1), ..e },
        );
        Some(e)
    }
}

} // verus!
