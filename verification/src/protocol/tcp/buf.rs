//! The sliding-window buffers of a connection.
//!
//! The send buffer holds the bytes that the user has handed over and the
//! peer has not yet acknowledged; the receive buffer holds what has arrived
//! and the user has not yet read, with room for segments that arrive ahead
//! of a gap. Sequence numbers are 32-bit and wrap around.

use crate::protocol::tcp::{MAX_SEGMENT_SZ, TCP_DEFAULT_WINDOW_SZ};
use vstd::prelude::*;
use vstd::slice::{slice_subrange, slice_to_vec};

verus! {

/// The size of each buffer, and so the largest window, in octets.
pub const CAPACITY: usize = TCP_DEFAULT_WINDOW_SZ;

/// The largest payload of one segment.
pub const SEGMENT_SIZE: usize = MAX_SEGMENT_SZ;

/// The sequence number `n` after `seq`, around the wrap.
pub open spec fn seq_add(seq: u32, n: int) -> u32 {
    ((seq + n) % 0x1_0000_0000) as u32
}

/// How far `to` lies after `from`, around the wrap: between 0 and 2^32 - 1.
pub open spec fn seq_distance(from: u32, to: u32) -> int {
    (to - from) % 0x1_0000_0000
}

/// How far `to` lies from `from`, taken as the nearer way round: from
/// -2^31 (behind) to 2^31 - 1 (ahead).
pub open spec fn seq_offset(from: u32, to: u32) -> int {
    let d = seq_distance(from, to);
    if d < 0x8000_0000 {
        d
    } else {
        d - 0x1_0000_0000
    }
}

/// Going `n` on from `seq` and measuring back gives `n`.
pub proof fn lemma_seq_add_distance(seq: u32, n: int)
    requires
        0 <= n < 0x1_0000_0000,
    ensures
        seq_distance(seq, seq_add(seq, n)) == n,
{
}

/// The send buffer.
pub struct SendBuf {
    /// The oldest sequence number not yet acknowledged (`snd_una`).
    pub una: u32,
    /// The bytes from `una` on: first those in flight, then those not yet sent.
    pub data: Vec<u8>,
    /// How many of `data` are in flight: `snd_nxt` is `una + sent`.
    pub sent: usize,
    /// The window that the peer last advertised (`snd_wnd`).
    pub wnd: u16,
}

/// A segment of payload with the sequence number of its first octet.
pub struct Chunk {
    pub seq: u32,
    pub payload: Vec<u8>,
}

/// The send buffer as contracts speak of it.
pub struct SendView {
    pub una: u32,
    pub data: Seq<u8>,
    pub sent: int,
    pub wnd: u16,
}

/// The next sequence number to send.
pub open spec fn view_snd_nxt(v: SendView) -> u32 {
    seq_add(v.una, v.sent)
}

/// The right edge of what may be in flight, as an index into the data.
pub open spec fn view_send_limit(v: SendView) -> int {
    if v.wnd as int <= v.data.len() {
        v.wnd as int
    } else {
        v.data.len() as int
    }
}

/// How many of `n` offered octets a writer gets rid of.
pub open spec fn spec_taken(v: SendView, n: int) -> int {
    if n <= CAPACITY - v.data.len() {
        n
    } else {
        CAPACITY - v.data.len()
    }
}

/// The buffer after a write of `bytes`.
pub open spec fn spec_write(v: SendView, bytes: Seq<u8>) -> SendView {
    SendView { data: v.data + bytes.take(spec_taken(v, bytes.len() as int)), ..v }
}

/// How many octets the next segment carries: what the window and the
/// buffer leave, up to `SEGMENT_SIZE`.
pub open spec fn spec_next_len(v: SendView) -> int {
    if v.sent >= view_send_limit(v) {
        0
    } else if view_send_limit(v) - v.sent <= SEGMENT_SIZE {
        view_send_limit(v) - v.sent
    } else {
        SEGMENT_SIZE as int
    }
}

/// The buffer after the next segment has been cut.
pub open spec fn spec_after_segment(v: SendView) -> SendView {
    SendView { sent: v.sent + spec_next_len(v), ..v }
}

/// The buffer after a probe of a closed window.
pub open spec fn spec_after_probe(v: SendView) -> SendView {
    if v.wnd == 0 && v.data.len() > 0 && v.sent == 0 {
        SendView { sent: 1, ..v }
    } else {
        v
    }
}

/// How many octets the acknowledgment `ack` newly covers.
pub open spec fn view_newly_acked(v: SendView, ack: u32) -> int {
    let k = seq_distance(v.una, ack);
    if k <= v.sent {
        k
    } else {
        0
    }
}

/// The buffer after the acknowledgment `ack` with the window `window`.
pub open spec fn spec_on_ack(v: SendView, ack: u32, window: u16) -> SendView {
    let k = view_newly_acked(v, ack);
    SendView { una: seq_add(v.una, k), data: v.data.skip(k), sent: v.sent - k, wnd: window }
}

impl SendBuf {
    pub open spec fn view(&self) -> SendView {
        SendView { una: self.una, data: self.data@, sent: self.sent as int, wnd: self.wnd }
    }

    /// The buffer never holds more than its capacity, and no more is in
    /// flight than it holds.
    pub open spec fn wf(&self) -> bool {
        &&& self.data@.len() <= CAPACITY
        &&& self.sent <= self.data@.len()
    }

    /// The next sequence number to send (`snd_nxt`).
    pub open spec fn snd_nxt(&self) -> u32 {
        seq_add(self.una, self.sent as int)
    }

    /// How many octets a writer may still hand over.
    pub open spec fn free(&self) -> int {
        CAPACITY - self.data@.len()
    }

    /// The right edge of what may be in flight, as an index into `data`:
    /// the peer's window, but no more than the buffer holds.
    pub open spec fn send_limit(&self) -> int {
        if self.wnd as int <= self.data@.len() {
            self.wnd as int
        } else {
            self.data@.len() as int
        }
    }

    /// An empty buffer whose first octet will have the sequence number `first`.
    pub fn new(first: u32, wnd: u16) -> (b: Self)
        ensures
            b.wf(),
            b.una == first,
            b.data@ == Seq::<u8>::empty(),
            b.sent == 0,
            b.wnd == wnd,
    {
        SendBuf { una: first, data: Vec::new(), sent: 0, wnd }
    }

    /// Takes as many of `bytes` as there is room for, in order, and says how
    /// many were taken.
    pub fn write(&mut self, bytes: &[u8]) -> (n: usize)
        requires
            old(self).wf(),
        ensures
            final(self).wf(),
            n == if bytes@.len() <= old(self).free() {
                bytes@.len() as int
            } else {
                old(self).free()
            },
            final(self).data@ == old(self).data@ + bytes@.take(n as int),
            final(self).una == old(self).una,
            final(self).sent == old(self).sent,
            final(self).wnd == old(self).wnd,
            n == spec_taken(old(self)@, bytes@.len() as int),
            final(self)@ == spec_write(old(self)@, bytes@),
    {
        let free = CAPACITY - self.data.len();
        let n = if bytes.len() <= free {
            bytes.len()
        } else {
            free
        };
        let part = slice_subrange(bytes, 0, n);
        assert(part@ == bytes@.take(n as int));
        self.data.extend_from_slice(part);
        assert(self@.data =~= spec_write(old(self)@, bytes@).data);
        n
    }

    /// The sequence number that comes `n` after `seq`.
    pub fn seq_after(seq: u32, n: usize) -> (r: u32)
        requires
            n <= 0xffff_ffff,
        ensures
            r == seq_add(seq, n as int),
    {
        seq.wrapping_add(n as u32)
    }

    /// Cuts the next segment from what is not yet sent: at most
    /// `SEGMENT_SIZE` octets, and none beyond the peer's window. `None`
    /// where the window or the buffer is used up.
    pub fn next_segment(&mut self) -> (r: Option<Chunk>)
        requires
            old(self).wf(),
        ensures
            final(self).wf(),
            final(self).una == old(self).una,
            final(self).data@ == old(self).data@,
            final(self).wnd == old(self).wnd,
            final(self)@ == spec_after_segment(old(self)@),
            r is Some <==> spec_next_len(old(self)@) > 0,
            r is None <==> old(self).sent >= old(self).send_limit(),
            r is None ==> final(self).sent == old(self).sent,
            r is Some ==> {
                &&& r->0.seq == old(self).snd_nxt()
                &&& r->0.payload@ == old(self).data@.subrange(
                    old(self).sent as int,
                    final(self).sent as int,
                )
                &&& final(self).sent == if old(self).send_limit() - old(self).sent
                    <= SEGMENT_SIZE {
                    old(self).send_limit()
                } else {
                    old(self).sent + SEGMENT_SIZE
                }
            },
    {
        let limit = if (self.wnd as usize) <= self.data.len() {
            self.wnd as usize
        } else {
            self.data.len()
        };
        if self.sent >= limit {
            return None;
        }
        let n = if limit - self.sent <= SEGMENT_SIZE {
            limit - self.sent
        } else {
            SEGMENT_SIZE
        };
        let payload = slice_to_vec(slice_subrange(self.data.as_slice(), self.sent, self.sent + n));
        let seq = Self::seq_after(self.una, self.sent);
        self.sent = self.sent + n;
        Some(Chunk { seq, payload })
    }

    /// The probe for a closed window: one octet at `snd_una`, where the
    /// peer advertises no window and there is something to send. The octet
    /// counts as in flight from then on.
    pub fn probe(&mut self) -> (r: Option<Chunk>)
        requires
            old(self).wf(),
        ensures
            final(self).wf(),
            final(self).una == old(self).una,
            final(self).data@ == old(self).data@,
            final(self).wnd == old(self).wnd,
            final(self)@ == spec_after_probe(old(self)@),
            r is Some <==> old(self).wnd == 0 && old(self).data@.len() > 0,
            r is None ==> final(self).sent == old(self).sent,
            r is Some ==> {
                &&& r->0.seq == old(self).una
                &&& r->0.payload@ == old(self).data@.subrange(0, 1)
                &&& final(self).sent == if old(self).sent == 0 {
                    1
                } else {
                    old(self).sent
                }
            },
    {
        if self.wnd != 0 || self.data.len() == 0 {
            return None;
        }
        let payload = slice_to_vec(slice_subrange(self.data.as_slice(), 0, 1));
        if self.sent == 0 {
            self.sent = 1;
        }
        Some(Chunk { seq: self.una, payload })
    }

    /// How many octets the acknowledgment `ack` newly covers: its distance
    /// from `snd_una` where that is within what is in flight, else nothing.
    pub open spec fn newly_acked(&self, ack: u32) -> int {
        let k = seq_distance(self.una, ack);
        if k <= self.sent {
            k
        } else {
            0
        }
    }

    /// Takes an acknowledgment and a window from a received segment:
    /// `snd_una` moves up to `ack` where `ack` covers something in flight
    /// and stays otherwise, the octets before it leave the buffer, and the
    /// window is the peer's. Says how many octets were newly acknowledged.
    pub fn on_ack(&mut self, ack: u32, window: u16) -> (k: usize)
        requires
            old(self).wf(),
        ensures
            final(self).wf(),
            k == old(self).newly_acked(ack),
            final(self).una == seq_add(old(self).una, k as int),
            final(self).data@ == old(self).data@.skip(k as int),
            final(self).sent == old(self).sent - k,
            final(self).wnd == window,
            final(self).snd_nxt() == old(self).snd_nxt(),
            k == view_newly_acked(old(self)@, ack),
            final(self)@ == spec_on_ack(old(self)@, ack, window),
    {
        self.wnd = window;
        let k = ack.wrapping_sub(self.una) as usize;
        if k == 0 || k > self.sent {
            assert(self.data@.skip(0) == self.data@);
            return 0;
        }
        let rest = self.data.split_off(k);
        self.data = rest;
        self.sent = self.sent - k;
        self.una = ack;
        k
    }

    /// Takes back what counts as in flight, so that it is cut into
    /// segments afresh. This is for the octet of a window probe that the
    /// peer did not take.
    pub fn rewind(&mut self)
        requires
            old(self).wf(),
        ensures
            final(self).wf(),
            final(self)@ == (SendView { sent: 0, ..old(self)@ }),
    {
        self.sent = 0;
    }

    /// The payload of a segment in flight, for sending it again: the `len`
    /// octets from sequence number `seq` on, where all of them are in flight.
    pub fn segment_at(&self, seq: u32, len: usize) -> (r: Option<Vec<u8>>)
        requires
            self.wf(),
        ensures
            r is Some <==> seq_distance(self.una, seq) + len <= self.sent,
            r is Some ==> r->0@ == self.data@.subrange(
                seq_distance(self.una, seq),
                seq_distance(self.una, seq) + len,
            ),
    {
        let off = seq.wrapping_sub(self.una) as usize;
        if off > self.sent || len > self.sent - off {
            return None;
        }
        Some(slice_to_vec(slice_subrange(self.data.as_slice(), off, off + len)))
    }
}

/// The receive buffer: a ring of `CAPACITY` slots. Slot `start` holds the
/// oldest octet that the user has not read; the first `avail` octets from
/// there on arrived in order; behind them, octets that arrived ahead of a
/// gap wait in their places.
pub struct RecvBuf {
    /// The next sequence number expected in order (`rcv_nxt`).
    pub nxt: u32,
    /// How many octets are ready to be read.
    pub avail: usize,
    /// The slot of the oldest unread octet.
    pub start: usize,
    pub cells: Vec<u8>,
    pub full: Vec<bool>,
}

/// The receive buffer as contracts speak of it: `window[i]` is the octet
/// that stands `i` places after the oldest unread one, if it has arrived.
pub struct RecvView {
    pub nxt: u32,
    pub avail: int,
    pub window: Seq<Option<u8>>,
}

/// The first place at or after `from` where nothing has arrived, or the
/// length of the window.
pub open spec fn run_end(window: Seq<Option<u8>>, from: int) -> int
    decreases window.len() - from,
{
    if from < 0 || from >= window.len() {
        window.len() as int
    } else if window[from] is None {
        from
    } else {
        run_end(window, from + 1)
    }
}

/// `window` with `data` put down from place `at` on, as far as it lies at
/// or after `lo` and inside the window.
pub open spec fn place(window: Seq<Option<u8>>, lo: int, at: int, data: Seq<u8>) -> Seq<
    Option<u8>,
> {
    Seq::new(
        window.len(),
        |i: int|
            if lo <= i && at <= i < at + data.len() {
                Some(data[i - at])
            } else {
                window[i]
            },
    )
}

/// The buffer after a segment with sequence number `seq` and payload
/// `data`: the octets at or after `rcv_nxt` that fit the window are put
/// down, and `rcv_nxt` moves over every octet that now stands in order.
pub open spec fn spec_on_segment(b: RecvView, seq: u32, data: Seq<u8>) -> RecvView {
    let at = b.avail + seq_offset(b.nxt, seq);
    let window = place(b.window, b.avail, at, data);
    let avail = run_end(window, b.avail);
    RecvView { nxt: seq_add(b.nxt, avail - b.avail), avail, window }
}

/// The buffer after the user has read `k` octets.
pub open spec fn spec_after_read(b: RecvView, k: int) -> RecvView {
    RecvView {
        nxt: b.nxt,
        avail: b.avail - k,
        window: b.window.skip(k) + Seq::new(k as nat, |i: int| None::<u8>),
    }
}

/// The octets that stand in the first `k` places of a window.
pub open spec fn front(window: Seq<Option<u8>>, k: int) -> Seq<u8> {
    Seq::new(k as nat, |i: int| window[i]->0)
}

pub proof fn lemma_run_end(window: Seq<Option<u8>>, from: int)
    requires
        0 <= from <= window.len(),
    ensures
        from <= run_end(window, from) <= window.len(),
        forall|i: int| from <= i < run_end(window, from) ==> (#[trigger] window[i]) is Some,
        run_end(window, from) < window.len() ==> window[run_end(window, from)] is None,
    decreases window.len() - from,
{
    if from < window.len() && window[from] is Some {
        lemma_run_end(window, from + 1);
    }
}

impl RecvBuf {
    /// The slot of the place `i`.
    pub open spec fn slot(&self, i: int) -> int {
        if self.start + i < CAPACITY {
            self.start + i
        } else {
            self.start + i - CAPACITY
        }
    }

    /// What stands at place `i`.
    pub open spec fn at(&self, i: int) -> Option<u8> {
        if self.full@[self.slot(i)] {
            Some(self.cells@[self.slot(i)])
        } else {
            None
        }
    }

    pub open spec fn window(&self) -> Seq<Option<u8>> {
        Seq::new(CAPACITY as nat, |i: int| self.at(i))
    }

    pub open spec fn view(&self) -> RecvView {
        RecvView { nxt: self.nxt, avail: self.avail as int, window: self.window() }
    }

    /// The ring has its size, what is ready to be read has arrived, and the
    /// place after it is a gap.
    pub open spec fn wf(&self) -> bool {
        &&& self.cells@.len() == CAPACITY
        &&& self.full@.len() == CAPACITY
        &&& self.start < CAPACITY
        &&& self.avail <= CAPACITY
        &&& forall|i: int| 0 <= i < self.avail ==> (#[trigger] self.at(i)) is Some
        &&& self.avail < CAPACITY ==> self.at(self.avail as int) is None
    }

    /// The window to advertise: the room between `rcv_nxt` and the end of
    /// the buffer.
    pub open spec fn free(&self) -> int {
        CAPACITY - self.avail
    }

    /// An empty buffer that expects `first` as the next sequence number.
    pub fn new(first: u32) -> (b: Self)
        ensures
            b.wf(),
            b.nxt == first,
            b.avail == 0,
            b.window() == Seq::new(CAPACITY as nat, |i: int| None::<u8>),
    {
        let mut cells: Vec<u8> = Vec::new();
        let mut full: Vec<bool> = Vec::new();
        let mut i: usize = 0;
        while i < CAPACITY
            invariant
                i <= CAPACITY,
                cells@.len() == i,
                full@.len() == i,
                forall|k: int| 0 <= k < i ==> !(#[trigger] full@[k]),
            decreases CAPACITY - i,
        {
            cells.push(0);
            full.push(false);
            i += 1;
        }
        let b = RecvBuf { nxt: first, avail: 0, start: 0, cells, full };
        assert(b.window() =~= Seq::new(CAPACITY as nat, |i: int| None::<u8>));
        b
    }

    /// The acknowledgment that answers any segment in the buffer's present
    /// state: `rcv_nxt` and the free window.
    pub fn ack(&self) -> (r: (u32, u16))
        requires
            self.wf(),
        ensures
            r.0 == self.nxt,
            r.1 == self.free(),
    {
        (self.nxt, (CAPACITY - self.avail) as u16)
    }

    fn slot_of(&self, i: usize) -> (s: usize)
        requires
            self.start < CAPACITY,
            i < CAPACITY,
        ensures
            s == self.slot(i as int),
            s < CAPACITY,
    {
        if self.start + i < CAPACITY {
            self.start + i
        } else {
            self.start + i - CAPACITY
        }
    }

    /// Moves `rcv_nxt` over the peer's FIN, which takes one sequence number
    /// and no room.
    pub fn skip_fin(&mut self)
        requires
            old(self).wf(),
        ensures
            final(self).wf(),
            final(self)@ == (RecvView { nxt: seq_add(old(self).nxt, 1), ..old(self)@ }),
    {
        self.nxt = self.nxt.wrapping_add(1);
        assert forall|i: int| 0 <= i < CAPACITY implies #[trigger] self.at(i)
            == old(self).at(i) by {}
        assert(self.window() =~= old(self).window());
    }

    /// Takes the payload of a received segment. Octets before `rcv_nxt`
    /// are duplicates and are passed over; octets beyond the window are
    /// let go; the others are put in their places, and `rcv_nxt` moves over
    /// all that now stands in order. Says how many octets became ready.
    #[verifier::rlimit(40)]
    pub fn on_segment(&mut self, seq: u32, payload: &[u8]) -> (ready: usize)
        requires
            old(self).wf(),
            payload@.len() <= 0xffff,
        ensures
            final(self).wf(),
            final(self)@ == spec_on_segment(old(self)@, seq, payload@),
            ready == final(self).avail - old(self).avail,
    {
        let d = seq.wrapping_sub(self.nxt);
        let avail_before = self.avail;
        let ghost at = self.avail + seq_offset(self.nxt, seq);
        let ghost before = self.window();
        // the first octet of the payload to use, and the place it goes to
        let (skip, first): (usize, usize) = if d < 0x8000_0000 {
            if d as usize >= CAPACITY - self.avail {
                (payload.len(), 0)
            } else {
                (0, self.avail + d as usize)
            }
        } else {
            let behind = self.nxt.wrapping_sub(seq);
            if behind as usize >= payload.len() {
                (payload.len(), 0)
            } else {
                (behind as usize, self.avail)
            }
        };
        let mut j: usize = skip;
        while j < payload.len() && first + (j - skip) < CAPACITY
            invariant
                skip <= j <= payload@.len(),
                j > skip ==> first + (j - skip) <= CAPACITY,
                skip < payload@.len() ==> first == at + skip && first >= self.avail,
                self.cells@.len() == CAPACITY,
                self.full@.len() == CAPACITY,
                self.start == old(self).start,
                self.avail == old(self).avail,
                self.nxt == old(self).nxt,
                self.start < CAPACITY,
                forall|i: int|
                    0 <= i < CAPACITY ==> #[trigger] self.at(i) == if first <= i < first + (j
                        - skip) {
                        Some(payload@[i - first + skip])
                    } else {
                        before[i]
                    },
            decreases payload@.len() - j,
        {
            let i = first + (j - skip);
            let s = self.slot_of(i);
            let ghost prev = *self;
            self.cells.set(s, payload[j]);
            self.full.set(s, true);
            assert forall|m: int| 0 <= m < CAPACITY implies #[trigger] self.at(m) == if first <= m
                < first + (j + 1 - skip) {
                Some(payload@[m - first + skip])
            } else {
                before[m]
            } by {
                if m != i {
                    assert(self.slot(m) != s);
                    assert(self.at(m) == prev.at(m));
                }
            }
            j += 1;
        }
        let ghost placed = place(before, old(self).avail as int, at, payload@);
        assert(self.window() =~= placed);
        let ghost stop = run_end(placed, old(self).avail as int);
        proof {
            lemma_run_end(placed, old(self).avail as int);
            assert forall|i: int| 0 <= i < old(self).avail implies (#[trigger] placed[i]) is Some by {
                assert(old(self).at(i) is Some);
            }
        }
        while self.avail < CAPACITY && self.full[self.slot_of(self.avail)]
            invariant
                old(self).avail <= self.avail <= stop,
                stop == run_end(placed, old(self).avail as int),
                stop <= CAPACITY,
                forall|i: int| old(self).avail <= i < stop ==> (#[trigger] placed[i]) is Some,
                stop < CAPACITY ==> placed[stop] is None,
                self.window() == placed,
                self.cells@.len() == CAPACITY,
                self.full@.len() == CAPACITY,
                self.start < CAPACITY,
                self.nxt == seq_add(old(self).nxt, self.avail - old(self).avail),
            decreases CAPACITY - self.avail,
        {
            assert(self.window()[self.avail as int] == self.at(self.avail as int));
            self.avail = self.avail + 1;
            self.nxt = self.nxt.wrapping_add(1);
        }
        proof {
            if self.avail < CAPACITY {
                assert(self.window()[self.avail as int] == self.at(self.avail as int));
            }
            assert(self.avail == stop);
            assert forall|i: int| 0 <= i < self.avail implies (#[trigger] self.at(i)) is Some by {
                assert(self.window()[i] == self.at(i));
            }
        }
        self.avail - avail_before
    }

    /// Hands the user up to `n` octets, oldest first, and frees their
    /// room.
    #[verifier::rlimit(40)]
    pub fn read(&mut self, n: usize) -> (out: Vec<u8>)
        requires
            old(self).wf(),
        ensures
            final(self).wf(),
            out@.len() == if n <= old(self).avail {
                n
            } else {
                old(self).avail
            },
            out@ == front(old(self).window(), out@.len() as int),
            final(self)@ == spec_after_read(old(self)@, out@.len() as int),
    {
        let k = if n <= self.avail {
            n
        } else {
            self.avail
        };
        let ghost before = self.window();
        let mut out: Vec<u8> = Vec::new();
        let mut i: usize = 0;
        while i < k
            invariant
                i <= k <= old(self).avail,
                old(self).wf(),
                self.cells@.len() == CAPACITY,
                self.full@.len() == CAPACITY,
                self.start == old(self).start,
                self.avail == old(self).avail,
                self.nxt == old(self).nxt,
                before == old(self).window(),
                out@ == front(before, i as int),
                forall|m: int|
                    0 <= m < CAPACITY ==> #[trigger] self.at(m) == if m < i {
                        None
                    } else {
                        before[m]
                    },
            decreases k - i,
        {
            let s = self.slot_of(i);
            let ghost prev = *self;
            assert(before[i as int] == old(self).at(i as int));
            assert(self.at(i as int) is Some);
            out.push(self.cells[s]);
            self.full.set(s, false);
            assert forall|m: int| 0 <= m < CAPACITY implies #[trigger] self.at(m) == if m < i + 1 {
                None
            } else {
                before[m]
            } by {
                if m != i {
                    assert(self.slot(m) != s);
                    assert(self.at(m) == prev.at(m));
                }
            }
            i += 1;
            assert(out@ =~= front(before, i as int));
        }
        let ghost mid = *self;
        if k < CAPACITY {
            self.start = self.slot_of(k);
        }
        self.avail = self.avail - k;
        proof {
            assert forall|m: int| 0 <= m < CAPACITY implies #[trigger] self.at(m) == if m + k
                < CAPACITY {
                before[m + k]
            } else {
                None
            } by {
                if m + k < CAPACITY {
                    assert(self.slot(m) == mid.slot(m + k));
                    assert(self.at(m) == mid.at(m + k));
                } else {
                    assert(self.slot(m) == mid.slot(m + k - CAPACITY));
                    assert(self.at(m) == mid.at(m + k - CAPACITY));
                }
            }
            assert(self.window() =~= spec_after_read(old(self)@, k as int).window);
            assert forall|m: int| 0 <= m < self.avail implies (#[trigger] self.at(m)) is Some by {
                assert(old(self).at(m + k) is Some);
                assert(before[m + k] == old(self).at(m + k));
            }
            if self.avail < CAPACITY {
                if old(self).avail < CAPACITY {
                    assert(before[old(self).avail as int] == old(self).at(old(self).avail as int));
                }
            }
        }
        out
    }
}

/// Whether a view is one that a well-formed buffer can have.
pub open spec fn view_wf(b: RecvView) -> bool {
    &&& b.window.len() == CAPACITY
    &&& 0 <= b.avail <= CAPACITY
    &&& forall|i: int| 0 <= i < b.avail ==> (#[trigger] b.window[i]) is Some
    &&& b.avail < CAPACITY ==> b.window[b.avail] is None
}

/// Taking a segment keeps a buffer well-formed.
pub proof fn lemma_on_segment_wf(b: RecvView, seq: u32, data: Seq<u8>)
    requires
        view_wf(b),
    ensures
        view_wf(spec_on_segment(b, seq, data)),
        spec_on_segment(b, seq, data).avail >= b.avail,
{
    let at = b.avail + seq_offset(b.nxt, seq);
    let window = place(b.window, b.avail, at, data);
    lemma_run_end(window, b.avail);
}

/// A duplicate changes nothing: after a segment has been taken, taking the
/// same segment again leaves the buffer as it is, so the acknowledgment
/// that answers the duplicate (`rcv_nxt` and the free window) is the one
/// that answered the first copy.
#[verifier::rlimit(40)]
pub proof fn lemma_duplicate_segment(b: RecvView, seq: u32, data: Seq<u8>)
    requires
        view_wf(b),
        data.len() <= 0xffff,
    ensures
        spec_on_segment(spec_on_segment(b, seq, data), seq, data) == spec_on_segment(b, seq, data),
{
    let at = b.avail + seq_offset(b.nxt, seq);
    let w1 = place(b.window, b.avail, at, data);
    let b1 = spec_on_segment(b, seq, data);
    lemma_run_end(w1, b.avail);
    let a = b1.avail - b.avail;
    let at1 = b1.avail + seq_offset(b1.nxt, seq);
    if a > 0 {
        assert(b.window[b.avail] is None);
        assert(w1[b.avail] is Some);
        assert(at <= b.avail < at + data.len());
        assert(at1 == at);
    } else {
        assert(b1.nxt == b.nxt);
    }
    let w2 = place(w1, b1.avail, at1, data);
    assert(w2 =~= w1);
    lemma_run_end(w1, b1.avail);
    if b1.avail < CAPACITY {
        assert(w1[b1.avail] is None);
    }
    assert(run_end(w1, b1.avail) == b1.avail);
    assert(seq_add(b1.nxt, 0) == b1.nxt);
}

/// A duplicate changes nothing for a reader that lets everything go: where
/// nothing waits to be read, and what a segment makes ready is let go at
/// once, the same segment finds nothing to add when it comes again.
pub proof fn lemma_drained_duplicate(b: RecvView, seq: u32, data: Seq<u8>)
    requires
        view_wf(b),
        b.avail == 0,
        data.len() <= 0xffff,
    ensures
        ({
            let taken = spec_on_segment(b, seq, data);
            let kept = spec_after_read(taken, taken.avail);
            &&& view_wf(kept)
            &&& kept.avail == 0
            &&& spec_on_segment(kept, seq, data) == kept
            &&& spec_after_read(kept, 0) == kept
        }),
{
    let at = seq_offset(b.nxt, seq);
    let w1 = place(b.window, 0, at, data);
    let taken = spec_on_segment(b, seq, data);
    let a = taken.avail;
    let kept = spec_after_read(taken, a);
    lemma_run_end(w1, 0);
    lemma_on_segment_wf(b, seq, data);
    assert(kept.window.len() == CAPACITY);
    assert forall|i: int| 0 <= i < CAPACITY implies #[trigger] kept.window[i] == if i + a < CAPACITY {
        w1[i + a]
    } else {
        None
    } by {}
    assert(kept.window[0] is None) by {
        if a < CAPACITY {
            assert(w1[a] is None);
        }
    }
    assert(kept.window.skip(0) + Seq::new(0, |i: int| None::<u8>) =~= kept.window);
    if a == 0 {
        lemma_duplicate_segment(b, seq, data);
        assert(kept.window =~= w1);
        assert(kept == taken);
    } else {
        // the segment reached the place that was expected next, so all of
        // it that is new stands in order and was let go
        assert(b.window[0] is None);
        assert(w1[0] is Some);
        assert(at <= 0 < at + data.len());
        assert forall|i: int| 0 <= i < at + data.len() implies (#[trigger] w1[i]) is Some by {}
        assert(a >= at + data.len()) by {
            if a < at + data.len() {
                assert(w1[a] is Some);
            }
        }
        let at2 = seq_offset(kept.nxt, seq);
        assert(at2 == at - a);
        let w2 = place(kept.window, 0, at2, data);
        assert(w2 =~= kept.window);
        lemma_run_end(kept.window, 0);
        assert(run_end(kept.window, 0) == 0);
        assert(seq_add(kept.nxt, 0) == kept.nxt);
    }
}

/// Whether all that stands in the buffer is what the stream `stream` has
/// in those places, where the user has read `read` octets of it so far.
pub open spec fn agrees(b: RecvView, stream: Seq<u8>, read: int) -> bool {
    forall|i: int|
        0 <= i < b.window.len() && (#[trigger] b.window[i]) is Some ==> read + i < stream.len()
            && b.window[i]->0 == stream[read + i]
}

/// Whether a segment carries what the stream has at the places that the
/// segment claims: every octet of it that lies at or after `rcv_nxt`.
pub open spec fn true_to_stream(
    b: RecvView,
    stream: Seq<u8>,
    read: int,
    seq: u32,
    data: Seq<u8>,
) -> bool {
    let at = b.avail + seq_offset(b.nxt, seq);
    forall|j: int|
        0 <= j < data.len() && at + j >= b.avail
            ==> read + at + j < stream.len() && #[trigger] data[j]
            == stream[read + at + j]
}

/// Segments that are true to the stream keep the buffer in agreement with
/// it, in whatever order they come, however often, and with whatever gaps.
pub proof fn lemma_segment_keeps_agreement(
    b: RecvView,
    stream: Seq<u8>,
    read: int,
    seq: u32,
    data: Seq<u8>,
)
    requires
        view_wf(b),
        agrees(b, stream, read),
        true_to_stream(b, stream, read, seq, data),
    ensures
        agrees(spec_on_segment(b, seq, data), stream, read),
{
    let at = b.avail + seq_offset(b.nxt, seq);
    let w1 = place(b.window, b.avail, at, data);
    assert forall|i: int| 0 <= i < w1.len() && (#[trigger] w1[i]) is Some implies read + i
        < stream.len() && w1[i]->0 == stream[read + i] by {
        if b.avail <= i && at <= i < at + data.len() {
            assert(data[i - at] == stream[read + at + (i - at)]);
        } else {
            assert(b.window[i] is Some);
        }
    }
}

/// What the user reads is the stream: from a buffer that agrees with the
/// stream, reading `k` octets gives the `k` octets of the stream that follow
/// those read before, and the buffer goes on agreeing.
pub proof fn lemma_read_is_stream(b: RecvView, stream: Seq<u8>, read: int, k: int)
    requires
        view_wf(b),
        agrees(b, stream, read),
        0 <= read <= stream.len(),
        0 <= k <= b.avail,
    ensures
        read + k <= stream.len(),
        front(b.window, k) == stream.subrange(read, read + k),
        agrees(spec_after_read(b, k), stream, read + k),
        view_wf(spec_after_read(b, k)),
{
    if k > 0 {
        assert(b.window[k - 1] is Some);
    }
    assert forall|i: int| 0 <= i < k implies front(b.window, k)[i] == stream[read + i] by {
        assert(b.window[i] is Some);
    }
    assert(front(b.window, k) =~= stream.subrange(read, read + k));
    let after = spec_after_read(b, k);
    assert forall|i: int| 0 <= i < after.window.len()
        && (#[trigger] after.window[i]) is Some implies read
        + k + i < stream.len() && after.window[i]->0 == stream[read + k + i] by {
        assert(after.window[i] == b.window[i + k]);
    }
    assert forall|i: int| 0 <= i < after.avail implies (#[trigger] after.window[i]) is Some by {
        assert(after.window[i] == b.window[i + k]);
    }
    if after.avail < CAPACITY {
        if b.avail < CAPACITY {
            assert(after.window[after.avail] == b.window[b.avail]);
        }
    }
}

impl SendBuf {
    /// Whether the buffer holds the part of `stream` that follows the
    /// `acked` octets already acknowledged.
    pub open spec fn holds(&self, stream: Seq<u8>, acked: int) -> bool {
        &&& 0 <= acked
        &&& acked + self.data@.len() == stream.len()
        &&& self.data@ == stream.subrange(acked, stream.len() as int)
    }
}

/// Writing appends to the stream: where the buffer held `stream`, after a
/// write of `bytes` of which `n` were taken it holds `stream` and then
/// the first `n` of `bytes`.
pub proof fn lemma_write_extends_stream(
    before: SendBuf,
    after: SendBuf,
    stream: Seq<u8>,
    acked: int,
    bytes: Seq<u8>,
    n: int,
)
    requires
        before.holds(stream, acked),
        0 <= n <= bytes.len(),
        after.data@ == before.data@ + bytes.take(n),
    ensures
        after.holds(stream + bytes.take(n), acked),
{
    assert(after.data@ =~= (stream + bytes.take(n)).subrange(
        acked,
        (stream + bytes.take(n)).len() as int,
    ));
}

/// An acknowledgment moves along the stream: where the buffer held `stream`
/// after `acked` octets, after `k` octets more are acknowledged it holds
/// `stream` after `acked + k`.
pub proof fn lemma_ack_advances_stream(
    before: SendBuf,
    after: SendBuf,
    stream: Seq<u8>,
    acked: int,
    k: int,
)
    requires
        before.holds(stream, acked),
        0 <= k <= before.data@.len(),
        after.data@ == before.data@.skip(k),
    ensures
        after.holds(stream, acked + k),
{
    assert(after.data@ =~= stream.subrange(acked + k, stream.len() as int));
}

/// What is sent is what is read. A sender holds `stream` with `acked`
/// octets acknowledged; a receiver agrees with `stream`, its user has read
/// `read` octets, and its `rcv_nxt` is the sequence number that the sender
/// gives to the octet `read + avail` of the stream. Then every segment that
/// the sender has in flight or cuts next (`len` octets from the `off`-th of
/// its buffer on) is true to the stream at the receiver, so the receiver
/// goes on agreeing with `stream` when it takes it.
#[verifier::rlimit(40)]
pub proof fn lemma_sent_segment_true_to_stream(
    s: SendBuf,
    b: RecvView,
    stream: Seq<u8>,
    acked: int,
    read: int,
    off: int,
    len: int,
)
    requires
        s.wf(),
        s.holds(stream, acked),
        view_wf(b),
        0 <= read,
        0 <= off,
        0 <= len,
        off + len <= s.data@.len(),
        b.nxt == seq_add(s.una, read + b.avail - acked),
        0 <= read + b.avail - acked <= s.data@.len(),
    ensures
        true_to_stream(
            b,
            stream,
            read,
            seq_add(s.una, off),
            s.data@.subrange(off, off + len),
        ),
{
    let seq = seq_add(s.una, off);
    let data = s.data@.subrange(off, off + len);
    let at = b.avail + seq_offset(b.nxt, seq);
    assert(seq_offset(b.nxt, seq) == off - (read + b.avail - acked));
    assert(read + at == acked + off);
    assert forall|j: int| 0 <= j < data.len() && at + j >= b.avail implies read + at + j
        < stream.len() && #[trigger] data[j] == stream[read + at + j] by {
        assert(data[j] == s.data@[off + j]);
        assert(s.data@[off + j] == stream[acked + off + j]);
    }
}

/// Whether a view is one that a well-formed send buffer can have.
pub open spec fn send_view_wf(v: SendView) -> bool {
    0 <= v.sent <= v.data.len() <= CAPACITY
}

/// An acknowledgment that has been taken covers nothing new when it comes
/// again, and neither does the acknowledgment one after it where nothing is
/// left in flight.
pub proof fn lemma_on_ack_again(v: SendView, ack: u32, window: u16)
    requires
        send_view_wf(v),
    ensures
        spec_on_ack(spec_on_ack(v, ack, window), ack, window) == spec_on_ack(v, ack, window),
        view_newly_acked(v, ack) == v.sent ==> spec_on_ack(
            spec_on_ack(v, ack, window),
            seq_add(ack, 1),
            window,
        ) == spec_on_ack(v, ack, window),
{
    let v1 = spec_on_ack(v, ack, window);
    let k = view_newly_acked(v, ack);
    lemma_seq_add_distance(v.una, k);
    assert(v1.data.skip(0) =~= v1.data);
    assert(seq_add(v1.una, 0) == v1.una);
    if k > 0 {
        assert(v1.una == ack);
    }
    assert(view_newly_acked(v1, ack) == 0);
    if k == v.sent {
        assert(v1.sent == 0);
        assert(view_newly_acked(v1, seq_add(ack, 1)) == 0);
    }
}

/// An acknowledgment that covers nothing of a buffer covers nothing of the
/// buffer with nothing in flight either.
pub proof fn lemma_on_ack_again_rewound(v: SendView, ack: u32, window: u16)
    requires
        send_view_wf(v),
        v.wnd == window,
        view_newly_acked(v, ack) == 0,
    ensures
        spec_on_ack(SendView { sent: 0, ..v }, ack, window) == (SendView { sent: 0, ..v }),
{
    let r = SendView { sent: 0, ..v };
    assert(view_newly_acked(r, ack) == 0);
    assert(r.data.skip(0) =~= r.data);
    assert(seq_add(r.una, 0) == r.una);
}

/// A connection begins in agreement: a send buffer that has taken nothing
/// holds the empty stream, and a receive buffer in which nothing has arrived
/// agrees with whatever the peer is going to send.
pub proof fn lemma_fresh_buffers_agree(s: SendBuf, b: RecvView, stream: Seq<u8>)
    requires
        s.data@.len() == 0,
        forall|i: int| 0 <= i < b.window.len() ==> (#[trigger] b.window[i]) is None,
    ensures
        s.holds(Seq::empty(), 0),
        agrees(b, stream, 0),
{
    assert(s.data@ =~= Seq::<u8>::empty().subrange(0, 0));
}

/// All that was sent is all that is read: where a reader has read the
/// first part of the stream `x` so far, from a buffer that agrees with `x`,
/// and now reads as much again as `x` is long, what it has read in all is
/// `x`.
pub proof fn lemma_all_read_is_all_sent(b: RecvView, x: Seq<u8>, got: Seq<u8>, k: int)
    requires
        view_wf(b),
        got.len() <= x.len(),
        got == x.subrange(0, got.len() as int),
        agrees(b, x, got.len() as int),
        0 <= k <= b.avail,
        got.len() + k == x.len(),
    ensures
        got + front(b.window, k) == x,
{
    lemma_read_is_stream(b, x, got.len() as int, k);
    assert(got + front(b.window, k) =~= x);
}

/// Whether a sender and a receiver are in step: the receiver expects next
/// the octet of the stream that follows those that have arrived in order,
/// by the sequence number that the sender gives to it, and no more has
/// arrived than the sender has taken. `acked` octets have been acknowledged
/// to the sender; the receiver's user has read `read` octets.
pub open spec fn in_step(s: SendView, acked: int, b: RecvView, read: int) -> bool {
    &&& 0 <= read + b.avail - acked <= s.data.len()
    &&& b.nxt == seq_add(s.una, read + b.avail - acked)
}

/// Going on in two steps is going on by their sum.
pub proof fn lemma_seq_add_add(seq: u32, a: int, b: int)
    requires
        0 <= a < 0x1_0000_0000,
        0 <= b < 0x1_0000_0000,
    ensures
        seq_add(seq_add(seq, a), b) == seq_add(seq, a + b),
{
}

/// The two ends stay in step when a segment arrives that is true to the
/// stream. With `lemma_fresh_buffers_agree` for the beginning,
/// `lemma_sent_segment_true_to_stream` for what travels and the three
/// lemmas after this one for all else that happens, this is why what is
/// read is what was sent.
#[verifier::rlimit(40)]
pub proof fn lemma_in_step_after_segment(
    s: SendView,
    acked: int,
    b: RecvView,
    read: int,
    stream: Seq<u8>,
    seq: u32,
    data: Seq<u8>,
)
    requires
        send_view_wf(s),
        view_wf(b),
        in_step(s, acked, b, read),
        agrees(b, stream, read),
        true_to_stream(b, stream, read, seq, data),
        0 <= acked,
        0 <= read,
        stream.len() == acked + s.data.len(),
    ensures
        in_step(s, acked, spec_on_segment(b, seq, data), read),
{
    let after = spec_on_segment(b, seq, data);
    lemma_on_segment_wf(b, seq, data);
    lemma_segment_keeps_agreement(b, stream, read, seq, data);
    if after.avail > 0 {
        assert(after.window[after.avail - 1] is Some);
        assert(read + (after.avail - 1) < stream.len());
    }
    let d = read + b.avail - acked;
    let grown = after.avail - b.avail;
    lemma_seq_add_add(s.una, d, grown);
    assert(after.nxt == seq_add(b.nxt, grown));
}

/// The two ends stay in step when the reader reads.
pub proof fn lemma_in_step_after_read(s: SendView, acked: int, b: RecvView, read: int, k: int)
    requires
        in_step(s, acked, b, read),
        0 <= k <= b.avail,
    ensures
        in_step(s, acked, spec_after_read(b, k), read + k),
{
}

/// The two ends stay in step when an acknowledgment of `k` octets that
/// have arrived comes back to the sender.
#[verifier::rlimit(40)]
pub proof fn lemma_in_step_after_ack(s: SendView, acked: int, b: RecvView, read: int, k: int)
    requires
        send_view_wf(s),
        in_step(s, acked, b, read),
        0 <= k <= read + b.avail - acked,
        k <= s.sent,
    ensures
        in_step(spec_on_ack(s, seq_add(s.una, k), s.wnd), acked + k, b, read),
{
    lemma_seq_add_distance(s.una, k);
    let after = spec_on_ack(s, seq_add(s.una, k), s.wnd);
    assert(view_newly_acked(s, seq_add(s.una, k)) == k);
    assert(after.una == seq_add(s.una, k));
    assert(after.data.len() == s.data.len() - k);
    lemma_seq_add_add(s.una, k, read + b.avail - acked - k);
}

/// The two ends stay in step when the writer hands over more.
pub proof fn lemma_in_step_after_write(
    s: SendView,
    acked: int,
    b: RecvView,
    read: int,
    bytes: Seq<u8>,
)
    requires
        send_view_wf(s),
        in_step(s, acked, b, read),
    ensures
        in_step(spec_write(s, bytes), acked, b, read),
{
}

/// Whether a segment carries a piece of a stream: the octets from the
/// `o`-th on, under the sequence number that belongs to the `o`-th octet
/// where the first octet of the stream has the sequence number `first`.
pub open spec fn piece_of_stream(stream: Seq<u8>, first: u32, o: int, seq: u32, data: Seq<u8>) -> bool {
    &&& 0 <= o
    &&& o + data.len() <= stream.len()
    &&& seq == seq_add(first, o)
    &&& data == stream.subrange(o, o + data.len())
}

/// Whether a receiver counts as the sender does: it expects next the
/// sequence number of the octet that follows all that has arrived in order,
/// where its user has read `read` octets.
pub open spec fn in_line(b: RecvView, first: u32, read: int) -> bool {
    0 <= read && b.nxt == seq_add(first, read + b.avail)
}

/// The same for a sender, of whose stream `acked` octets have been
/// acknowledged.
pub open spec fn sender_in_line(s: SendView, first: u32, acked: int) -> bool {
    0 <= acked && s.una == seq_add(first, acked)
}

/// A piece of a stream is a piece of the stream still when the stream has
/// grown, and a buffer that agrees with a stream agrees with it still.
pub proof fn lemma_stream_grows(
    stream: Seq<u8>,
    more: Seq<u8>,
    first: u32,
    o: int,
    seq: u32,
    data: Seq<u8>,
    b: RecvView,
    read: int,
)
    ensures
        piece_of_stream(stream, first, o, seq, data) ==> piece_of_stream(
            stream + more,
            first,
            o,
            seq,
            data,
        ),
        agrees(b, stream, read) && 0 <= read ==> agrees(b, stream + more, read),
{
    if piece_of_stream(stream, first, o, seq, data) {
        assert(stream.subrange(o, o + data.len()) =~= (stream + more).subrange(o, o + data.len()));
    }
    if agrees(b, stream, read) && 0 <= read {
        assert forall|i: int| 0 <= i < b.window.len() && (#[trigger] b.window[i]) is Some implies read
            + i < (stream + more).len() && b.window[i]->0 == (stream + more)[read + i] by {
            assert(read + i < stream.len());
            assert((stream + more)[read + i] == stream[read + i]);
        }
    }
}

/// Whatever the sender has in its buffer is a piece of the stream that it
/// holds: the `len` octets from the `off`-th of the buffer on, under the
/// sequence number that comes `off` after `snd_una`.
pub proof fn lemma_buffered_is_piece(
    s: SendView,
    stream: Seq<u8>,
    acked: int,
    first: u32,
    off: int,
    len: int,
)
    requires
        send_view_wf(s),
        sender_in_line(s, first, acked),
        acked + s.data.len() == stream.len(),
        s.data == stream.subrange(acked, stream.len() as int),
        0 <= off,
        0 <= len,
        off + len <= s.data.len(),
    ensures
        piece_of_stream(
            stream,
            first,
            acked + off,
            seq_add(s.una, off),
            s.data.subrange(off, off + len),
        ),
{
    assert(s.data.subrange(off, off + len) =~= stream.subrange(acked + off, acked + off + len));
    lemma_seq_add_sum(first, acked, off);
}

/// Going on in two steps is going on by their sum, however far.
pub proof fn lemma_seq_add_sum(seq: u32, a: int, b: int)
    requires
        0 <= a,
        0 <= b,
    ensures
        seq_add(seq_add(seq, a), b) == seq_add(seq, a + b),
{
    let m = 0x1_0000_0000int;
    let x = (seq + a) % m;
    assert((x + b) % m == (seq + a + b) % m) by {
        assert(seq + a == m * ((seq + a) / m) + x);
        vstd::arithmetic::div_mod::lemma_mod_multiples_vanish((seq + a) / m, x + b, m);
    }
}

/// What is read is what was written, whatever the wire does. A receiver
/// that agrees with the sender's stream and counts as the sender does takes
/// a segment that carries any piece of the stream: one that was just sent,
/// one that was sent again, one that comes a second time or out of order.
/// Then it agrees with the stream still and counts as the sender does still.
/// This is of segments that come less than 2^31 octets before or after what
/// the receiver expects; within that distance a sequence number stands for
/// one place in the stream only.
#[verifier::rlimit(40)]
pub proof fn lemma_piece_keeps_agreement(
    b: RecvView,
    stream: Seq<u8>,
    read: int,
    first: u32,
    o: int,
    seq: u32,
    data: Seq<u8>,
)
    requires
        view_wf(b),
        agrees(b, stream, read),
        in_line(b, first, read),
        piece_of_stream(stream, first, o, seq, data),
        -0x8000_0000 <= o - (read + b.avail) < 0x8000_0000,
    ensures
        view_wf(spec_on_segment(b, seq, data)),
        agrees(spec_on_segment(b, seq, data), stream, read),
        in_line(spec_on_segment(b, seq, data), first, read),
{
    let expected = read + b.avail;
    let m = 0x1_0000_0000int;
    assert(seq_offset(b.nxt, seq) == o - expected) by {
        let x = (first + expected) % m;
        let y = (first + o) % m;
        assert(first + expected == m * ((first + expected) / m) + x);
        assert(first + o == m * ((first + o) / m) + y);
        let q = (first + o) / m - (first + expected) / m;
        assert(y - x == (o - expected) - m * q);
        vstd::arithmetic::div_mod::lemma_mod_multiples_vanish(-q, o - expected, m);
        assert(((o - expected) + m * (-q)) % m == (o - expected) % m);
        assert((y - x) % m == (o - expected) % m);
    }
    let at = b.avail + seq_offset(b.nxt, seq);
    assert(read + at == o);
    assert forall|j: int| 0 <= j < data.len() && at + j >= b.avail implies read + at + j
        < stream.len() && #[trigger] data[j] == stream[read + at + j] by {
        assert(data[j] == stream.subrange(o, o + data.len())[j]);
    }
    lemma_on_segment_wf(b, seq, data);
    lemma_segment_keeps_agreement(b, stream, read, seq, data);
    let after = spec_on_segment(b, seq, data);
    lemma_seq_add_sum(first, expected, after.avail - b.avail);
}

/// The receiver counts as the sender does still after its user has read,
/// and what the user gets are the next octets of the stream.
pub proof fn lemma_read_keeps_line(b: RecvView, stream: Seq<u8>, read: int, first: u32, k: int)
    requires
        view_wf(b),
        agrees(b, stream, read),
        in_line(b, first, read),
        read <= stream.len(),
        0 <= k <= b.avail,
    ensures
        read + k <= stream.len(),
        front(b.window, k) == stream.subrange(read, read + k),
        view_wf(spec_after_read(b, k)),
        agrees(spec_after_read(b, k), stream, read + k),
        in_line(spec_after_read(b, k), first, read + k),
{
    lemma_read_is_stream(b, stream, read, k);
}

/// The sender holds its stream and counts as before after an
/// acknowledgment, whatever number the acknowledgment carries: what leaves
/// the buffer is the beginning of what it held, and `snd_una` moves with it.
pub proof fn lemma_ack_keeps_line(
    s: SendView,
    stream: Seq<u8>,
    acked: int,
    first: u32,
    ack: u32,
    window: u16,
)
    requires
        send_view_wf(s),
        sender_in_line(s, first, acked),
        acked + s.data.len() == stream.len(),
        s.data == stream.subrange(acked, stream.len() as int),
    ensures
        ({
            let after = spec_on_ack(s, ack, window);
            let k = view_newly_acked(s, ack);
            &&& send_view_wf(after)
            &&& sender_in_line(after, first, acked + k)
            &&& acked + k + after.data.len() == stream.len()
            &&& after.data == stream.subrange(acked + k, stream.len() as int)
        }),
{
    let k = view_newly_acked(s, ack);
    lemma_seq_add_sum(first, acked, k);
    assert(s.data.skip(k) =~= stream.subrange(acked + k, stream.len() as int));
}

/// What is in flight never exceeds the largest window: `snd_nxt` lies at or
/// after `snd_una`, and at most `CAPACITY` after it.
pub proof fn lemma_send_window(b: SendBuf)
    requires
        b.wf(),
    ensures
        0 <= seq_distance(b.una, b.snd_nxt()) <= CAPACITY,
        seq_distance(b.una, b.snd_nxt()) == b.sent,
{
}

} // verus!
