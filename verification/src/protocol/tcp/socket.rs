//! The states of a socket and what moves it from one to the next.

use crate::addr::VirtualIp;
use crate::protocol::tcp::buf::{
    front, lemma_drained_duplicate, lemma_duplicate_segment, lemma_on_ack_again,
    lemma_on_ack_again_rewound, lemma_on_segment_wf, lemma_seq_add_add, lemma_seq_add_distance, seq_add, seq_distance,
    spec_after_probe, spec_after_read, spec_after_segment, spec_next_len, spec_on_ack,
    spec_on_segment, spec_taken, spec_write, view_newly_acked, view_send_limit, view_snd_nxt,
    view_wf, RecvBuf, RecvView, SendBuf, SendView, CAPACITY,
};
use crate::protocol::tcp::prelude::{Port, SocketDescriptor, SocketId};
use crate::protocol::tcp::rtt::{spec_backoff, spec_sample, RttEstimator};
use crate::protocol::tcp::rtx::{
    covered_prefix, lemma_queue_ack_again, spec_due, spec_rtt_sample, RetransmissionQueue, RtxEntry,
    MAX_TRANSMISSIONS,
};
use crate::protocol::tcp::segment::{SegmentHeader, TcpMessage};
use crate::protocol::tcp::{TcpCloseError, TcpReadError, TcpSendError, TIME_WAIT_DURATION};
use rand::Rng;
use vstd::prelude::*;
use vstd::std_specs::convert::FromSpecImpl;

verus! {

/// The window that a socket advertises before it has a receive buffer.
pub const INITIAL_WINDOW: u16 = 65535;

/// A handle on a connection: it holds the connection's identity and finds
/// the socket anew on each use, so it stays good while the table changes.
#[derive(Copy, Clone, Debug, PartialEq, Eq, Structural)]
pub struct TcpConn {
    pub id: SocketId,
}

/// A handle on a listening port.
#[derive(Copy, Clone, Debug, PartialEq, Eq, Structural)]
pub struct TcpListener {
    pub port: u16,
}

impl TcpConn {
    pub fn new(id: SocketId) -> (c: Self)
        ensures
            c.id == id,
    {
        TcpConn { id }
    }

    /// The identity of the connection's socket.
    pub fn socket_id(&self) -> (id: SocketId)
        ensures
            id == self.id,
    {
        self.id
    }
}

impl TcpListener {
    /// Creates a new TcpListener.
    ///
    /// The listener can be used to accept incoming connections.
    pub fn new(port: u16) -> (l: Self)
        ensures
            l.port == port,
    {
        Self { port }
    }
}

/// The name of a socket's state.
#[derive(Copy, Clone, Debug, PartialEq, Eq, Structural)]
pub enum SocketStatus {
    Closed,
    Listen,
    SynSent,
    SynReceived,
    Established,
    FinWait1,
    FinWait2,
    CloseWait,
    Closing,
    LastAck,
    TimeWait,
}

/// A socket that is not in use: all it has is the sequence number that it
/// would open a connection with.
#[derive(Copy, Clone, Debug, PartialEq, Eq, Structural)]
pub struct Closed {
    pub seq_no: u32,
}

/// A socket that waits for connection requests on a port.
#[derive(Copy, Clone, Debug, PartialEq, Eq, Structural)]
pub struct Listen {
    pub port: Port,
    pub seq_no: u32,
}

/// A socket that has asked for a connection and waits for the answer.
#[derive(Copy, Clone, Debug, PartialEq, Eq, Structural)]
pub struct SynSent {
    pub seq_no: u32,
    pub src_port: Port,
    pub dest_ip: VirtualIp,
    pub dest_port: Port,
}

/// A socket that has answered a connection request and waits for the
/// acknowledgment of its answer.
#[derive(Copy, Clone, Debug, PartialEq, Eq, Structural)]
pub struct SynReceived {
    pub seq_no: u32,
    pub src_port: Port,
    pub dest_ip: VirtualIp,
    pub dest_port: Port,
    /// The peer's initial sequence number.
    pub irs: u32,
    /// The window that the peer advertised with its request.
    pub peer_window: u16,
}

/// Draws the initial sequence number of a fresh socket: `rand::Rng::gen`
/// for a `u32`, on the thread's generator. Any 32-bit number may come, so
/// nothing is said of the result.
#[verifier::external_body]
fn gen_rand_seq_no() -> (seq: u32) {
    rand::thread_rng().gen::<u32>()
}

/// The header of a segment without payload-independent extras: the given
/// ports, numbers and flags, and the window `window`.
pub open spec fn control_header(
    src_port: Port,
    dest_port: Port,
    seq: u32,
    ack_no: Option<u32>,
    syn: bool,
    fin: bool,
    window: u16,
) -> SegmentHeader {
    SegmentHeader {
        source_port: src_port.0,
        destination_port: dest_port.0,
        sequence_number: seq,
        acknowledgment_number: match ack_no {
            Some(a) => a,
            None => 0,
        },
        syn,
        ack: ack_no is Some,
        fin,
        rst: false,
        window_size: window,
    }
}

/// Builds the header of a control segment.
pub fn make_header(
    src_port: Port,
    dest_port: Port,
    seq: u32,
    ack_no: Option<u32>,
    syn: bool,
    fin: bool,
    window: u16,
) -> (h: SegmentHeader)
    ensures
        h == control_header(src_port, dest_port, seq, ack_no, syn, fin, window),
{
    SegmentHeader {
        source_port: src_port.0,
        destination_port: dest_port.0,
        sequence_number: seq,
        acknowledgment_number: match ack_no {
            Some(a) => a,
            None => 0,
        },
        syn,
        ack: ack_no.is_some(),
        fin,
        rst: false,
        window_size: window,
    }
}

impl Closed {
    /// A closed socket with a sequence number drawn afresh from all 32-bit
    /// numbers. `with_seq_no` is the same for a number that is given.
    pub fn new() -> (c: Self) {
        Self::with_seq_no(gen_rand_seq_no())
    }

    /// A closed socket with the given sequence number.
    pub fn with_seq_no(seq_no: u32) -> (c: Self)
        ensures
            c.seq_no == seq_no,
    {
        Closed { seq_no }
    }

    /// The connection request that this socket sends from `src_port` to
    /// `dest_port`: a SYN with the socket's sequence number.
    pub fn make_syn_packet(&self, src_port: Port, dest_port: Port) -> (m: TcpMessage)
        ensures
            m.header == control_header(
                src_port,
                dest_port,
                self.seq_no,
                None,
                true,
                false,
                INITIAL_WINDOW,
            ),
            m.payload@ == Seq::<u8>::empty(),
    {
        TcpMessage {
            header: make_header(src_port, dest_port, self.seq_no, None, true, false, INITIAL_WINDOW),
            payload: Vec::new(),
        }
    }

    /// Opens a connection actively: gives the state that waits for the
    /// answer, and the request to send to `dest`.
    pub fn connect(self, src_port: Port, dest: (VirtualIp, Port)) -> (r: (SynSent, TcpMessage))
        ensures
            r.0 == (SynSent {
                seq_no: self.seq_no,
                src_port,
                dest_ip: dest.0,
                dest_port: dest.1,
            }),
            r.1.header == control_header(
                src_port,
                dest.1,
                self.seq_no,
                None,
                true,
                false,
                INITIAL_WINDOW,
            ),
            r.1.payload@ == Seq::<u8>::empty(),
    {
        let (dest_ip, dest_port) = dest;
        let syn_pkt = self.make_syn_packet(src_port, dest_port);
        (SynSent { src_port, dest_port, dest_ip, seq_no: self.seq_no }, syn_pkt)
    }

    /// Opens a socket passively on `port`.
    pub fn listen(self, port: Port) -> (l: Listen)
        ensures
            l == (Listen { port, seq_no: self.seq_no }),
    {
        Listen { port, seq_no: self.seq_no }
    }
}

impl Listen {
    /// The answer to the connection request `syn`, sent with the initial
    /// sequence number `iss`: a SYN that acknowledges the request.
    pub fn make_syn_ack_packet(&self, syn_packet: &SegmentHeader, iss: u32) -> (m: TcpMessage)
        ensures
            m.header == control_header(
                self.port,
                Port(syn_packet.source_port),
                iss,
                Some(seq_add(syn_packet.sequence_number, 1)),
                true,
                false,
                INITIAL_WINDOW,
            ),
            m.payload@ == Seq::<u8>::empty(),
    {
        TcpMessage {
            header: make_header(
                self.port,
                Port(syn_packet.source_port),
                iss,
                Some(syn_packet.sequence_number.wrapping_add(1)),
                true,
                false,
                INITIAL_WINDOW,
            ),
            payload: Vec::new(),
        }
    }

    /// Takes a connection request from `remote_ip` with the initial
    /// sequence number `iss` for the new connection: gives the state of the
    /// new connection's socket and the answer to send. The listener itself
    /// stays as it is.
    pub fn accept_request(&self, remote_ip: VirtualIp, syn_packet: &SegmentHeader, iss: u32) -> (r: (
        SynReceived,
        TcpMessage,
    ))
        requires
            syn_packet.syn,
        ensures
            r.0 == (SynReceived {
                seq_no: iss,
                src_port: self.port,
                dest_ip: remote_ip,
                dest_port: Port(syn_packet.source_port),
                irs: syn_packet.sequence_number,
                peer_window: syn_packet.window_size,
            }),
            r.1.header == control_header(
                self.port,
                Port(syn_packet.source_port),
                iss,
                Some(seq_add(syn_packet.sequence_number, 1)),
                true,
                false,
                INITIAL_WINDOW,
            ),
            r.1.payload@ == Seq::<u8>::empty(),
    {
        let ack_pkt = self.make_syn_ack_packet(syn_packet, iss);
        (
            SynReceived {
                seq_no: iss,
                src_port: self.port,
                dest_ip: remote_ip,
                dest_port: Port(syn_packet.source_port),
                irs: syn_packet.sequence_number,
                peer_window: syn_packet.window_size,
            },
            ack_pkt,
        )
    }

    /// Takes a connection request, drawing a fresh initial sequence number
    /// for the new connection. Whatever number is drawn, the result is what
    /// `accept_request` gives for it.
    pub fn handle_connection_request(&self, remote_ip: VirtualIp, syn_packet: &SegmentHeader) -> (r: (
        SynReceived,
        TcpMessage,
    ))
        requires
            syn_packet.syn,
        ensures
            r.0 == (SynReceived {
                seq_no: r.0.seq_no,
                src_port: self.port,
                dest_ip: remote_ip,
                dest_port: Port(syn_packet.source_port),
                irs: syn_packet.sequence_number,
                peer_window: syn_packet.window_size,
            }),
            r.1.header == control_header(
                self.port,
                Port(syn_packet.source_port),
                r.0.seq_no,
                Some(seq_add(syn_packet.sequence_number, 1)),
                true,
                false,
                INITIAL_WINDOW,
            ),
            r.1.payload@ == Seq::<u8>::empty(),
    {
        self.accept_request(remote_ip, syn_packet, gen_rand_seq_no())
    }
}

/// A connection whose two ends have agreed on their sequence numbers: the
/// block that every state from `Established` on works with.
pub struct Established {
    /// This end's initial sequence number.
    pub seq_no: u32,
    pub src_port: Port,
    pub dest_ip: VirtualIp,
    pub dest_port: Port,
    /// The peer's initial sequence number.
    pub irs: u32,
    pub send: SendBuf,
    pub recv: RecvBuf,
    pub rtx: RetransmissionQueue,
    pub rtt: RttEstimator,
    /// The user has closed the write half: a FIN follows the data.
    pub write_closed: bool,
    /// The sequence number of this end's FIN, once it has been sent.
    pub fin_seq: Option<u32>,
    /// The peer has acknowledged this end's FIN.
    pub fin_acked: bool,
    /// The peer's FIN has arrived in order.
    pub fin_received: bool,
    /// The user has shut down reading: what arrives is acknowledged and let go.
    pub read_closed: bool,
    /// When the window was last probed.
    pub last_probe: u64,
}

/// A connection block as contracts speak of it.
pub struct ConnView {
    pub seq_no: u32,
    pub src_port: Port,
    pub dest_ip: VirtualIp,
    pub dest_port: Port,
    pub irs: u32,
    pub send: SendView,
    pub recv: RecvView,
    pub rtx: Seq<RtxEntry>,
    pub rtt: RttEstimator,
    pub write_closed: bool,
    pub fin_seq: Option<u32>,
    pub fin_acked: bool,
    pub fin_received: bool,
    pub read_closed: bool,
    pub last_probe: u64,
}

/// What the socket table must do after a socket has handled a segment.
#[derive(Copy, Clone, Debug, PartialEq, Eq, Structural)]
pub enum UpdateAction {
    /// A listener took a connection request: a socket for the new
    /// connection joins the table.
    NewSynReceivedSocket(SynReceived),
    /// The socket has reached `Closed`: it leaves the table.
    CloseSocket(SocketId),
}

/// What handling a segment or a timer means for those who wait on the socket.
#[derive(Copy, Clone, Debug, PartialEq, Eq, Structural)]
pub struct Signals {
    /// The state that the socket is in afterwards.
    pub status: SocketStatus,
    /// How many octets of the user's data were newly acknowledged: writers
    /// that wait for room may go on.
    pub acked: usize,
    /// How many octets became ready to be read.
    pub ready: usize,
    /// The peer's FIN arrived: readers see the end.
    pub eof: bool,
    /// This end's FIN was acknowledged.
    pub fin_acked: bool,
    /// The peer reset the connection, or it was given up.
    pub reset: bool,
    /// An active open completed: the caller of `connect` may go on.
    pub connected: bool,
    /// A passive open completed: the connection joins its listener's queue.
    pub accepted: bool,
    /// What the socket table must do.
    pub update: Option<UpdateAction>,
}

/// What a socket does about a received segment.
pub struct Reaction {
    /// The segment to send back, if any.
    pub reply: Option<TcpMessage>,
    pub signals: Signals,
}

/// Signals that say that nothing happened but that the socket is in `status`.
pub open spec fn quiet(status: SocketStatus) -> Signals {
    Signals {
        status,
        acked: 0,
        ready: 0,
        eof: false,
        fin_acked: false,
        reset: false,
        connected: false,
        accepted: false,
        update: None,
    }
}

/// The state after a segment, by what the segment brought: the
/// acknowledgment of this end's FIN, the peer's FIN, both or neither.
pub open spec fn next_status(status: SocketStatus, fin_acked: bool, fin_received: bool) -> SocketStatus {
    match status {
        SocketStatus::Established => if fin_received {
            SocketStatus::CloseWait
        } else {
            SocketStatus::Established
        },
        SocketStatus::FinWait1 => if fin_acked && fin_received {
            SocketStatus::TimeWait
        } else if fin_acked {
            SocketStatus::FinWait2
        } else if fin_received {
            SocketStatus::Closing
        } else {
            SocketStatus::FinWait1
        },
        SocketStatus::FinWait2 => if fin_received {
            SocketStatus::TimeWait
        } else {
            SocketStatus::FinWait2
        },
        SocketStatus::Closing => if fin_acked {
            SocketStatus::TimeWait
        } else {
            SocketStatus::Closing
        },
        SocketStatus::LastAck => if fin_acked {
            SocketStatus::Closed
        } else {
            SocketStatus::LastAck
        },
        other => other,
    }
}

/// The state after the user closes the write half, where that is possible.
pub open spec fn status_after_close(status: SocketStatus) -> Option<SocketStatus> {
    match status {
        SocketStatus::Established => Some(SocketStatus::FinWait1),
        SocketStatus::CloseWait => Some(SocketStatus::LastAck),
        _ => None,
    }
}

/// The next sequence number that this end sends: behind its data, and
/// behind its FIN once that is out.
pub open spec fn conn_snd_nxt(c: ConnView) -> u32 {
    match c.fin_seq {
        Some(f) => seq_add(f, 1),
        None => view_snd_nxt(c.send),
    }
}

/// Whether the acknowledgment `ack` is the first to cover this end's FIN.
pub open spec fn acks_fin(c: ConnView, ack: u32) -> bool {
    c.fin_seq is Some && !c.fin_acked && ack == seq_add(c.fin_seq->0, 1)
}

/// The block after the acknowledgment `ack` with the window `window` has
/// been taken at time `now`: `snd_una` and the window move, what is covered
/// leaves the retransmission queue, the round trip is measured where the
/// oldest segment was sent only once, and what is left in flight without a
/// place in the queue (the octet of a window probe) is taken back.
pub open spec fn spec_take_ack(c: ConnView, ack: u32, window: u16, now: u64) -> ConnView {
    let fin_now = acks_fin(c, ack);
    let data_ack = if fin_now {
        c.fin_seq->0
    } else {
        ack
    };
    let send = spec_on_ack(c.send, data_ack, window);
    let rtx = c.rtx.skip(covered_prefix(c.rtx, ack) as int);
    ConnView {
        send: if rtx.len() == 0 && c.fin_seq is None {
            SendView { sent: 0, ..send }
        } else {
            send
        },
        rtx,
        rtt: match spec_rtt_sample(c.rtx, ack, now) {
            Some(r) => spec_sample(c.rtt, r),
            None => c.rtt,
        },
        fin_acked: c.fin_acked || fin_now,
        ..c
    }
}

/// Whether the segment brings the peer's FIN in order: the FIN is set, no
/// FIN came before, and after the payload has been taken `rcv_nxt` stands
/// right behind the payload.
pub open spec fn brings_fin(c: ConnView, seq: u32, payload: Seq<u8>, fin: bool) -> bool {
    fin && !c.fin_received && spec_on_segment(c.recv, seq, payload).nxt == seq_add(
        seq,
        payload.len() as int,
    )
}

/// The block after the payload of a segment has been taken. After the
/// peer's FIN nothing more is taken. Where the user has shut down reading,
/// what becomes ready is let go at once.
pub open spec fn spec_take_data(c: ConnView, seq: u32, payload: Seq<u8>, fin: bool) -> ConnView {
    if c.fin_received {
        c
    } else {
        let taken = spec_on_segment(c.recv, seq, payload);
        let kept = if c.read_closed {
            spec_after_read(taken, taken.avail)
        } else {
            taken
        };
        if brings_fin(c, seq, payload, fin) {
            ConnView {
                recv: RecvView { nxt: seq_add(kept.nxt, 1), ..kept },
                fin_received: true,
                ..c
            }
        } else {
            ConnView { recv: kept, ..c }
        }
    }
}

/// The header of a segment that this end sends in its present state: its
/// next sequence number, an acknowledgment of all that has arrived in order,
/// and its free window.
pub open spec fn conn_header(c: ConnView, seq: u32, fin: bool) -> SegmentHeader {
    control_header(
        c.src_port,
        c.dest_port,
        seq,
        Some(c.recv.nxt),
        false,
        fin,
        (CAPACITY - c.recv.avail) as u16,
    )
}

impl Established {
    pub open spec fn view(&self) -> ConnView {
        ConnView {
            seq_no: self.seq_no,
            src_port: self.src_port,
            dest_ip: self.dest_ip,
            dest_port: self.dest_port,
            irs: self.irs,
            send: self.send@,
            recv: self.recv@,
            rtx: self.rtx.entries@,
            rtt: self.rtt,
            write_closed: self.write_closed,
            fin_seq: self.fin_seq,
            fin_acked: self.fin_acked,
            fin_received: self.fin_received,
            read_closed: self.read_closed,
            last_probe: self.last_probe,
        }
    }

    /// The buffers are well-formed; this end's FIN, once sent, stands right
    /// behind its data, all of which is then in flight, and leaves room for
    /// itself in the window; and where the user has shut down reading,
    /// nothing waits to be read.
    pub open spec fn wf(&self) -> bool {
        &&& self.send.wf()
        &&& self.recv.wf()
        &&& self.fin_seq is Some ==> self.write_closed && self.send.sent == self.send.data@.len()
            && self.send.sent < CAPACITY && self.fin_seq->0 == self.send.snd_nxt()
        &&& self.fin_acked ==> self.fin_seq is Some && self.send.data@.len() == 0
        &&& self.read_closed ==> self.recv.avail == 0
    }

    /// How much sequence space is in flight: the data that was sent and
    /// not acknowledged, and one for a FIN in the same condition.
    pub open spec fn in_flight(&self) -> int {
        self.send.sent + if self.fin_seq is Some && !self.fin_acked {
            1int
        } else {
            0int
        }
    }

    /// The block of a connection that has just been established: this end
    /// began at `iss`, the peer at `irs` and advertised `window`.
    pub fn open(
        src_port: Port,
        dest_ip: VirtualIp,
        dest_port: Port,
        iss: u32,
        irs: u32,
        window: u16,
        now: u64,
    ) -> (c: Self)
        ensures
            c.wf(),
            c.seq_no == iss,
            c.irs == irs,
            c.src_port == src_port,
            c.dest_ip == dest_ip,
            c.dest_port == dest_port,
            c.send@ == (SendView {
                una: seq_add(iss, 1),
                data: Seq::<u8>::empty(),
                sent: 0,
                wnd: window,
            }),
            c.recv.nxt == seq_add(irs, 1),
            c.recv.avail == 0,
            c.recv.window() == Seq::new(CAPACITY as nat, |i: int| None::<u8>),
            c.rtx.entries@ == Seq::<RtxEntry>::empty(),
            c.rtt == (RttEstimator { srtt: None, rttvar: 0, rto: 1000 }),
            !c.write_closed && c.fin_seq is None && !c.fin_acked && !c.fin_received
                && !c.read_closed,
            c.last_probe == now,
    {
        Established {
            seq_no: iss,
            src_port,
            dest_ip,
            dest_port,
            irs,
            send: SendBuf::new(iss.wrapping_add(1), window),
            recv: RecvBuf::new(irs.wrapping_add(1)),
            rtx: RetransmissionQueue::new(),
            rtt: RttEstimator::new(),
            write_closed: false,
            fin_seq: None,
            fin_acked: false,
            fin_received: false,
            read_closed: false,
            last_probe: now,
        }
    }

    /// Takes the acknowledgment and the window of a received segment. Says
    /// how many octets of data were newly acknowledged and whether this
    /// end's FIN was.
    #[verifier::rlimit(30)]
    pub fn take_ack(&mut self, ack: u32, window: u16, now: u64) -> (r: (usize, bool))
        requires
            old(self).wf(),
        ensures
            final(self).wf(),
            final(self)@ == spec_take_ack(old(self)@, ack, window, now),
            r.1 == acks_fin(old(self)@, ack),
            r.0 == old(self).send@.data.len() - final(self).send@.data.len(),
    {
        let (fin_now, data_ack) = self.ack_target(ack);
        let k = self.send.on_ack(data_ack, window);
        let sample = self.rtx.on_ack(ack, now);
        self.note_sample(sample);
        if self.rtx.entries.len() == 0 && self.fin_seq.is_none() {
            self.send.rewind();
        }
        if fin_now {
            self.fin_acked = true;
        }
        (k, fin_now)
    }

    /// Whether `ack` is the first acknowledgment of this end's FIN, and the
    /// acknowledgment that it is for the data: `ack` itself, but without the
    /// one that the FIN takes.
    fn ack_target(&self, ack: u32) -> (r: (bool, u32))
        requires
            self.wf(),
        ensures
            r.0 == acks_fin(self@, ack),
            r.1 == if r.0 {
                self.fin_seq->0
            } else {
                ack
            },
            r.0 ==> view_newly_acked(self.send@, r.1) == self.send.sent,
    {
        match self.fin_seq {
            Some(f) => {
                if !self.fin_acked && ack == f.wrapping_add(1) {
                    proof {
                        lemma_seq_add_distance(self.send.una, self.send.sent as int);
                    }
                    (true, f)
                } else {
                    (false, ack)
                }
            },
            None => (false, ack),
        }
    }

    /// Takes a measured round trip, if there is one, into the estimate.
    fn note_sample(&mut self, sample: Option<u64>)
        ensures
            final(self).rtt == match sample {
                Some(r) => spec_sample(old(self).rtt, r),
                None => old(self).rtt,
            },
            final(self).send == old(self).send,
            final(self).recv == old(self).recv,
            final(self).rtx == old(self).rtx,
            final(self).seq_no == old(self).seq_no,
            final(self).src_port == old(self).src_port,
            final(self).dest_ip == old(self).dest_ip,
            final(self).dest_port == old(self).dest_port,
            final(self).irs == old(self).irs,
            final(self).write_closed == old(self).write_closed,
            final(self).fin_seq == old(self).fin_seq,
            final(self).fin_acked == old(self).fin_acked,
            final(self).fin_received == old(self).fin_received,
            final(self).read_closed == old(self).read_closed,
            final(self).last_probe == old(self).last_probe,
    {
        match sample {
            Some(r) => {
                self.rtt.sample(r);
            },
            None => {},
        }
    }

    /// Takes the payload of a received segment, and the peer's FIN where
    /// it comes in order. Says how many octets became ready to be read and
    /// whether the FIN was taken.
    #[verifier::rlimit(40)]
    pub fn take_data(&mut self, seq: u32, payload: &[u8], fin: bool) -> (r: (usize, bool))
        requires
            old(self).wf(),
            payload@.len() <= 0xffff,
        ensures
            final(self).wf(),
            final(self)@ == spec_take_data(old(self)@, seq, payload@, fin),
            r.1 == (!old(self).fin_received && brings_fin(old(self)@, seq, payload@, fin)),
            r.0 == if old(self).fin_received || old(self).read_closed {
                0
            } else {
                spec_on_segment(old(self).recv@, seq, payload@).avail - old(self).recv.avail
            },
    {
        if self.fin_received {
            return (0, false);
        }
        let mut ready = self.recv.on_segment(seq, payload);
        if self.read_closed {
            let n = self.recv.avail;
            let _ = self.recv.read(n);
            ready = 0;
        }
        let fin_now = fin && self.recv.nxt == seq.wrapping_add(payload.len() as u32);
        if fin_now {
            self.recv.skip_fin();
            self.fin_received = true;
        }
        (ready, fin_now)
    }

    fn header(&self, seq: u32, fin: bool) -> (h: SegmentHeader)
        requires
            self.wf(),
        ensures
            h == conn_header(self@, seq, fin),
    {
        let (ack_no, window) = self.recv.ack();
        make_header(self.src_port, self.dest_port, seq, Some(ack_no), false, fin, window)
    }

    /// The next sequence number that this end sends.
    pub fn snd_nxt(&self) -> (seq: u32)
        requires
            self.wf(),
        ensures
            seq == conn_snd_nxt(self@),
    {
        match self.fin_seq {
            Some(f) => f.wrapping_add(1),
            None => SendBuf::seq_after(self.send.una, self.send.sent),
        }
    }

    /// The acknowledgment that this end sends in its present state: for the
    /// answer to a segment, and to tell the peer of room that a reader has
    /// made.
    pub fn ack_segment(&self) -> (m: TcpMessage)
        requires
            self.wf(),
        ensures
            m@ == ack_message(self@),
    {
        TcpMessage { header: self.header(self.snd_nxt(), false), payload: Vec::new() }
    }

    /// Takes a received segment in the state `status`. A reset closes the
    /// connection and changes nothing else. Otherwise the acknowledgment is
    /// taken, then payload and FIN; the state moves by what the segment
    /// brought; and a segment that takes sequence space is answered with an
    /// acknowledgment of all that has arrived in order.
    #[verifier::rlimit(40)]
    pub fn on_segment(&mut self, status: SocketStatus, h: &SegmentHeader, payload: &[u8], now: u64) -> (r:
        Reaction)
        requires
            old(self).wf(),
            payload@.len() <= 0xffff,
        ensures
            final(self).wf(),
            final(self)@ == spec_conn_after(old(self)@, *h, payload@, now),
            r.signals == spec_conn_signals(old(self)@, status, *h, payload@, now),
            message_view(r.reply) == spec_conn_reply(old(self)@, *h, payload@, now),
    {
        if h.rst {
            return Reaction {
                reply: None,
                signals: Signals {
                    status: SocketStatus::Closed,
                    acked: 0,
                    ready: 0,
                    eof: false,
                    fin_acked: false,
                    reset: true,
                    connected: false,
                    accepted: false,
                    update: None,
                },
            };
        }
        let (acked, fin_acked) = if h.ack {
            self.take_ack(h.acknowledgment_number, h.window_size, now)
        } else {
            (0, false)
        };
        let (ready, eof) = self.take_data(h.sequence_number, payload, h.fin);
        let status = Self::status_after(status, fin_acked, eof);
        let reply = if payload.len() > 0 || h.fin || h.syn {
            Some(TcpMessage { header: self.header(self.snd_nxt(), false), payload: Vec::new() })
        } else {
            None
        };
        Reaction {
            reply,
            signals: Signals {
                status,
                acked,
                ready,
                eof,
                fin_acked,
                reset: false,
                connected: false,
                accepted: false,
                update: None,
            },
        }
    }

    /// The state after a segment, by what the segment brought.
    pub fn status_after(status: SocketStatus, fin_acked: bool, fin_received: bool) -> (s: SocketStatus)
        ensures
            s == next_status(status, fin_acked, fin_received),
    {
        match status {
            SocketStatus::Established => if fin_received {
                SocketStatus::CloseWait
            } else {
                SocketStatus::Established
            },
            SocketStatus::FinWait1 => if fin_acked && fin_received {
                SocketStatus::TimeWait
            } else if fin_acked {
                SocketStatus::FinWait2
            } else if fin_received {
                SocketStatus::Closing
            } else {
                SocketStatus::FinWait1
            },
            SocketStatus::FinWait2 => if fin_received {
                SocketStatus::TimeWait
            } else {
                SocketStatus::FinWait2
            },
            SocketStatus::Closing => if fin_acked {
                SocketStatus::TimeWait
            } else {
                SocketStatus::Closing
            },
            SocketStatus::LastAck => if fin_acked {
                SocketStatus::Closed
            } else {
                SocketStatus::LastAck
            },
            other => other,
        }
    }

    /// The user closes the write half: from `Established` the socket goes
    /// to `FinWait1`, from `CloseWait` to `LastAck`, and a FIN follows the
    /// data that is still to be sent. In any other state the write half is
    /// closed already.
    pub fn close(&mut self, status: SocketStatus) -> (r: Result<SocketStatus, TcpCloseError>)
        requires
            old(self).wf(),
        ensures
            final(self).wf(),
            match status_after_close(status) {
                Some(s) => r == Ok::<SocketStatus, TcpCloseError>(s) && final(self)@ == (ConnView {
                    write_closed: true,
                    ..old(self)@
                }),
                None => r == Err::<SocketStatus, TcpCloseError>(TcpCloseError::AlreadyClosed)
                    && final(self)@ == old(self)@,
            },
    {
        let next = match status {
            SocketStatus::Established => SocketStatus::FinWait1,
            SocketStatus::CloseWait => SocketStatus::LastAck,
            _ => {
                return Err(TcpCloseError::AlreadyClosed);
            },
        };
        self.write_closed = true;
        Ok(next)
    }

    /// The user shuts down reading: what has arrived and what still comes
    /// is let go. Nothing goes out on the wire.
    pub fn close_read(&mut self)
        requires
            old(self).wf(),
        ensures
            final(self).wf(),
            final(self)@ == (ConnView {
                read_closed: true,
                recv: spec_after_read(old(self).recv@, old(self).recv@.avail),
                ..old(self)@
            }),
    {
        let n = self.recv.avail;
        let _ = self.recv.read(n);
        self.read_closed = true;
    }

    /// Takes data from the user: as much of `bytes` as the send buffer has
    /// room for. A connection whose write half is closed takes none.
    pub fn write(&mut self, status: SocketStatus, bytes: &[u8]) -> (r: Result<usize, TcpSendError>)
        requires
            old(self).wf(),
        ensures
            final(self).wf(),
            can_write(status, old(self)@) ==> r == Ok::<usize, TcpSendError>(
                spec_taken(old(self).send@, bytes@.len() as int) as usize,
            ) && final(self)@ == (ConnView {
                send: spec_write(old(self).send@, bytes@),
                ..old(self)@
            }),
            !can_write(status, old(self)@) ==> r == Err::<usize, TcpSendError>(
                TcpSendError::ConnClosed,
            ) && final(self)@ == old(self)@,
    {
        let open = match status {
            SocketStatus::Established => true,
            SocketStatus::CloseWait => true,
            _ => false,
        };
        if !open || self.write_closed {
            return Err(TcpSendError::ConnClosed);
        }
        Ok(self.send.write(bytes))
    }

    /// One attempt of a reader to get up to `n` octets: what is ready, up
    /// to `n`; the end, where the peer's FIN has arrived and nothing is left
    /// or the user has shut down reading; or nothing yet.
    pub fn read_step(&mut self, n: usize) -> (r: ReadStep)
        requires
            old(self).wf(),
        ensures
            final(self).wf(),
            r@ == spec_read_step(old(self)@, n),
            final(self)@ == spec_after_read_step(old(self)@, n),
    {
        if self.read_closed {
            ReadStep::Eof
        } else if self.recv.avail > 0 {
            ReadStep::Data(self.recv.read(n))
        } else if self.fin_received {
            ReadStep::Eof
        } else {
            ReadStep::Wait
        }
    }

    /// Emits the next segment of the output path at `now`, if there is one:
    /// data as far as the peer's window and the buffer allow, then the FIN
    /// where the user has closed. What is emitted joins the retransmission
    /// queue.
    #[verifier::rlimit(40)]
    pub fn next_output(&mut self, now: u64) -> (r: Option<TcpMessage>)
        requires
            old(self).wf(),
        ensures
            final(self).wf(),
            message_view(r) == spec_next_output(old(self)@),
            final(self)@ == spec_after_output(old(self)@, now),
    {
        let header = self.header(SendBuf::seq_after(self.send.una, self.send.sent), false);
        match self.send.next_segment() {
            Some(chunk) => {
                self.rtx.push(chunk.seq, chunk.payload.len() as u32, now);
                Some(TcpMessage { header, payload: chunk.payload })
            },
            None => {
                if self.write_closed && self.fin_seq.is_none() && self.send.sent
                    == self.send.data.len() && self.send.sent < CAPACITY {
                    let seq = SendBuf::seq_after(self.send.una, self.send.sent);
                    self.fin_seq = Some(seq);
                    self.rtx.push(seq, 1, now);
                    Some(TcpMessage { header: self.header(seq, true), payload: Vec::new() })
                } else {
                    None
                }
            },
        }
    }

    /// Serves the retransmission timer at `now`.
    #[verifier::rlimit(40)]
    pub fn on_timer(&mut self, now: u64) -> (r: TimerAction)
        requires
            old(self).wf(),
        ensures
            final(self).wf(),
            r@ == spec_timer_action(old(self)@, now),
            final(self)@ == spec_after_timer(old(self)@, now),
    {
        if self.rtx.due(now, self.rtt.rto) {
            let e = self.rtx.entries[0];
            if e.tx_count >= MAX_TRANSMISSIONS {
                return TimerAction::Abort;
            }
            let is_fin = match self.fin_seq {
                Some(f) => f == e.seq,
                None => false,
            };
            let payload = if is_fin {
                Vec::new()
            } else {
                match self.send.segment_at(e.seq, e.len as usize) {
                    Some(p) => p,
                    None => {
                        return TimerAction::Idle;
                    },
                }
            };
            let header = self.header(e.seq, is_fin);
            let _ = self.rtx.retransmit(now);
            self.rtt.backoff();
            TimerAction::Retransmit(TcpMessage { header, payload })
        } else if self.send.wnd == 0 && self.send.data.len() > 0 && self.rtx.entries.len() == 0
            && match self.last_probe.checked_add(self.rtt.rto) {
            Some(t) => t <= now,
            None => false,
        } {
            let header = self.header(self.send.una, false);
            match self.send.probe() {
                Some(chunk) => {
                    self.last_probe = now;
                    TimerAction::Probe(TcpMessage { header, payload: chunk.payload })
                },
                None => TimerAction::Idle,
            }
        } else {
            TimerAction::Idle
        }
    }
}

/// A segment as contracts speak of it: its header and its payload.
pub struct MessageView {
    pub header: SegmentHeader,
    pub payload: Seq<u8>,
}

impl View for TcpMessage {
    type V = MessageView;

    open spec fn view(&self) -> MessageView {
        MessageView { header: self.header, payload: self.payload@ }
    }
}

/// The view of an optional segment.
pub open spec fn message_view(m: Option<TcpMessage>) -> Option<MessageView> {
    match m {
        Some(m) => Some(m@),
        None => None,
    }
}

/// Whether a segment calls for an acknowledgment: it takes sequence space,
/// by payload, SYN or FIN. A bare acknowledgment is not answered.
pub open spec fn wants_ack(h: SegmentHeader, payload: Seq<u8>) -> bool {
    payload.len() > 0 || h.fin || h.syn
}

/// The block after the acknowledgment of a segment has been taken, where
/// the segment has one.
pub open spec fn spec_conn_acked(c: ConnView, h: SegmentHeader, now: u64) -> ConnView {
    if h.ack {
        spec_take_ack(c, h.acknowledgment_number, h.window_size, now)
    } else {
        c
    }
}

/// The block after a segment has been taken at time `now`: first its
/// acknowledgment, where it has one, then its payload and FIN. A reset
/// leaves the block as it is.
pub open spec fn spec_conn_after(c: ConnView, h: SegmentHeader, payload: Seq<u8>, now: u64) -> ConnView {
    if h.rst {
        c
    } else {
        spec_take_data(spec_conn_acked(c, h, now), h.sequence_number, payload, h.fin)
    }
}

/// Whether a segment brings the peer's FIN in order.
pub open spec fn segment_brings_fin(c: ConnView, h: SegmentHeader, payload: Seq<u8>, now: u64) -> bool {
    let c1 = spec_conn_acked(c, h, now);
    !c1.fin_received && brings_fin(c1, h.sequence_number, payload, h.fin)
}

/// What a segment means for those who wait on a connection in the state
/// `status`.
pub open spec fn spec_conn_signals(
    c: ConnView,
    status: SocketStatus,
    h: SegmentHeader,
    payload: Seq<u8>,
    now: u64,
) -> Signals {
    if h.rst {
        Signals { reset: true, ..quiet(SocketStatus::Closed) }
    } else {
        let c1 = spec_conn_acked(c, h, now);
        let fin_acked = h.ack && acks_fin(c, h.acknowledgment_number);
        let eof = segment_brings_fin(c, h, payload, now);
        Signals {
            status: next_status(status, fin_acked, eof),
            acked: (c.send.data.len() - c1.send.data.len()) as usize,
            ready: if c1.fin_received || c1.read_closed {
                0
            } else {
                (spec_on_segment(c1.recv, h.sequence_number, payload).avail - c1.recv.avail) as usize
            },
            eof,
            fin_acked,
            ..quiet(status)
        }
    }
}

/// The segment that answers a segment: an acknowledgment of all that has
/// arrived in order, where the segment takes sequence space.
pub open spec fn spec_conn_reply(c: ConnView, h: SegmentHeader, payload: Seq<u8>, now: u64) -> Option<
    MessageView,
> {
    if !h.rst && wants_ack(h, payload) {
        Some(ack_message(spec_conn_after(c, h, payload, now)))
    } else {
        None
    }
}

/// The acknowledgment that a connection sends in the state `c`.
pub open spec fn ack_message(c: ConnView) -> MessageView {
    MessageView { header: conn_header(c, conn_snd_nxt(c), false), payload: Seq::empty() }
}

/// Whether the user can hand data to a connection in this state.
pub open spec fn can_write(status: SocketStatus, c: ConnView) -> bool {
    (status == SocketStatus::Established || status == SocketStatus::CloseWait) && !c.write_closed
}

/// Whether this end's FIN is due: the user has closed, the FIN is not out,
/// all data is, and the window has room for the FIN.
pub open spec fn fin_due(c: ConnView) -> bool {
    c.write_closed && c.fin_seq is None && c.send.sent == c.send.data.len() && c.send.sent
        < CAPACITY
}

/// The segment that the output path emits next, if any: data as far as
/// window and buffer allow, then the FIN.
pub open spec fn spec_next_output(c: ConnView) -> Option<MessageView> {
    if spec_next_len(c.send) > 0 {
        Some(
            MessageView {
                header: conn_header(c, view_snd_nxt(c.send), false),
                payload: c.send.data.subrange(c.send.sent, c.send.sent + spec_next_len(c.send)),
            },
        )
    } else if fin_due(c) {
        Some(
            MessageView { header: conn_header(c, view_snd_nxt(c.send), true), payload: Seq::empty() },
        )
    } else {
        None
    }
}

/// The block after the output path has emitted its next segment at `now`.
pub open spec fn spec_after_output(c: ConnView, now: u64) -> ConnView {
    let entry = |len: int|
        RtxEntry {
            seq: view_snd_nxt(c.send),
            len: len as u32,
            first_tx_time: now,
            last_tx_time: now,
            tx_count: 1,
        };
    if spec_next_len(c.send) > 0 {
        ConnView {
            send: spec_after_segment(c.send),
            rtx: c.rtx.push(entry(spec_next_len(c.send))),
            ..c
        }
    } else if fin_due(c) {
        ConnView { fin_seq: Some(view_snd_nxt(c.send)), rtx: c.rtx.push(entry(1)), ..c }
    } else {
        c
    }
}

/// What the retransmission timer asks for.
pub enum TimerAction {
    /// Nothing is due.
    Idle,
    /// The oldest segment in flight is sent again.
    Retransmit(TcpMessage),
    /// The peer's closed window is probed with one octet.
    Probe(TcpMessage),
    /// The oldest segment has been sent too often: the connection is given up.
    Abort,
}

/// A timer action as contracts speak of it.
pub enum TimerActionView {
    Idle,
    Retransmit(MessageView),
    Probe(MessageView),
    Abort,
}

impl View for TimerAction {
    type V = TimerActionView;

    open spec fn view(&self) -> TimerActionView {
        match *self {
            TimerAction::Idle => TimerActionView::Idle,
            TimerAction::Retransmit(m) => TimerActionView::Retransmit(m@),
            TimerAction::Probe(m) => TimerActionView::Probe(m@),
            TimerAction::Abort => TimerActionView::Abort,
        }
    }
}

/// Whether a probe of the peer's window is due at `now`: the window is
/// closed, there is data, nothing waits to be sent again, and a timeout has
/// passed since the last probe.
pub open spec fn probe_due(c: ConnView, now: u64) -> bool {
    c.send.wnd == 0 && c.send.data.len() > 0 && c.rtx.len() == 0 && c.last_probe + c.rtt.rto
        <= now
}

/// The payload of the oldest segment in flight, where the send buffer
/// still has all of it in flight.
pub open spec fn oldest_payload(c: ConnView) -> Option<Seq<u8>> {
    let e = c.rtx[0];
    let off = seq_distance(c.send.una, e.seq);
    if off + e.len <= c.send.sent {
        Some(c.send.data.subrange(off, off + e.len))
    } else {
        None
    }
}

/// What the timer asks for at `now`.
pub open spec fn spec_timer_action(c: ConnView, now: u64) -> TimerActionView {
    if spec_due(c.rtx, now, c.rtt.rto) {
        let e = c.rtx[0];
        if e.tx_count >= MAX_TRANSMISSIONS {
            TimerActionView::Abort
        } else if c.fin_seq == Some(e.seq) {
            TimerActionView::Retransmit(
                MessageView { header: conn_header(c, e.seq, true), payload: Seq::empty() },
            )
        } else {
            match oldest_payload(c) {
                Some(p) => TimerActionView::Retransmit(
                    MessageView { header: conn_header(c, e.seq, false), payload: p },
                ),
                None => TimerActionView::Idle,
            }
        }
    } else if probe_due(c, now) {
        TimerActionView::Probe(
            MessageView {
                header: conn_header(c, c.send.una, false),
                payload: c.send.data.subrange(0, 1),
            },
        )
    } else {
        TimerActionView::Idle
    }
}

/// The block after the timer has been served at `now`: a segment that is
/// sent again is marked so and doubles the timeout; a probe counts its
/// octet as in flight.
pub open spec fn spec_after_timer(c: ConnView, now: u64) -> ConnView {
    match spec_timer_action(c, now) {
        TimerActionView::Retransmit(_) => ConnView {
            rtx: c.rtx.update(
                0,
                RtxEntry {
                    last_tx_time: now,
                    tx_count: (c.rtx[0].tx_count + 1) as u32,
                    ..c.rtx[0]
                },
            ),
            rtt: spec_backoff(c.rtt),
            ..c
        },
        TimerActionView::Probe(_) => ConnView {
            send: spec_after_probe(c.send),
            last_probe: now,
            ..c
        },
        _ => c,
    }
}

/// What a reader gets from one attempt.
pub enum ReadStep {
    /// These octets, the oldest first.
    Data(Vec<u8>),
    /// Nothing: the peer has closed and all that it sent has been read.
    Eof,
    /// Nothing yet.
    Wait,
}

/// Whether a segment is the answer that a socket in `SynSent` waits for:
/// a SYN that acknowledges the socket's own.
pub open spec fn answers_syn(s: SynSent, h: SegmentHeader) -> bool {
    h.syn && h.ack && !h.rst && h.acknowledgment_number == seq_add(s.seq_no, 1)
}

/// Whether a segment completes the handshake of a socket in `SynReceived`:
/// an acknowledgment of the socket's SYN.
pub open spec fn completes_handshake(s: SynReceived, h: SegmentHeader) -> bool {
    h.ack && !h.syn && !h.rst && h.acknowledgment_number == seq_add(s.seq_no, 1)
}

/// The block of a connection that has just been established.
pub open spec fn fresh_conn(
    src_port: Port,
    dest_ip: VirtualIp,
    dest_port: Port,
    iss: u32,
    irs: u32,
    window: u16,
    now: u64,
) -> ConnView {
    ConnView {
        seq_no: iss,
        src_port,
        dest_ip,
        dest_port,
        irs,
        send: SendView { una: seq_add(iss, 1), data: Seq::empty(), sent: 0, wnd: window },
        recv: RecvView {
            nxt: seq_add(irs, 1),
            avail: 0,
            window: Seq::new(CAPACITY as nat, |i: int| None::<u8>),
        },
        rtx: Seq::empty(),
        rtt: RttEstimator { srtt: None, rttvar: 0, rto: 1000 },
        write_closed: false,
        fin_seq: None,
        fin_acked: false,
        fin_received: false,
        read_closed: false,
        last_probe: now,
    }
}

impl SynSent {
    /// The connection request, to send it again.
    pub fn make_syn_packet(&self) -> (m: TcpMessage)
        ensures
            m@ == (MessageView {
                header: control_header(
                    self.src_port,
                    self.dest_port,
                    self.seq_no,
                    None,
                    true,
                    false,
                    INITIAL_WINDOW,
                ),
                payload: Seq::empty(),
            }),
    {
        TcpMessage {
            header: make_header(
                self.src_port,
                self.dest_port,
                self.seq_no,
                None,
                true,
                false,
                INITIAL_WINDOW,
            ),
            payload: Vec::new(),
        }
    }

    /// The acknowledgment that completes the handshake from this side.
    pub fn make_ack_packet(&self, syn_ack_packet: &SegmentHeader) -> (m: TcpMessage)
        ensures
            m@ == (MessageView {
                header: control_header(
                    self.src_port,
                    self.dest_port,
                    seq_add(self.seq_no, 1),
                    Some(seq_add(syn_ack_packet.sequence_number, 1)),
                    false,
                    false,
                    INITIAL_WINDOW,
                ),
                payload: Seq::empty(),
            }),
    {
        TcpMessage {
            header: make_header(
                self.src_port,
                self.dest_port,
                self.seq_no.wrapping_add(1),
                Some(syn_ack_packet.sequence_number.wrapping_add(1)),
                false,
                false,
                INITIAL_WINDOW,
            ),
            payload: Vec::new(),
        }
    }

    /// Takes the peer's answer. Where it is a SYN that acknowledges this
    /// socket's own, the connection is established: `snd_una` and `snd_nxt`
    /// stand one after this end's initial sequence number, `rcv_nxt` one
    /// after the peer's, the window is the peer's, and an acknowledgment
    /// goes back. Any other segment leaves the socket waiting.
    pub fn establish(self, syn_ack_packet: &SegmentHeader, now: u64) -> (r: Result<
        (Established, TcpMessage),
        SynSent,
    >)
        ensures
            answers_syn(self, *syn_ack_packet) ==> r is Ok && r->Ok_0.0.wf() && r->Ok_0.0@
                == fresh_conn(
                self.src_port,
                self.dest_ip,
                self.dest_port,
                self.seq_no,
                syn_ack_packet.sequence_number,
                syn_ack_packet.window_size,
                now,
            ) && r->Ok_0.1@ == (MessageView {
                header: control_header(
                    self.src_port,
                    self.dest_port,
                    seq_add(self.seq_no, 1),
                    Some(seq_add(syn_ack_packet.sequence_number, 1)),
                    false,
                    false,
                    INITIAL_WINDOW,
                ),
                payload: Seq::empty(),
            }),
            !answers_syn(self, *syn_ack_packet) ==> r == Err::<(Established, TcpMessage), SynSent>(
                self,
            ),
    {
        let h = syn_ack_packet;
        if !(h.syn && h.ack && !h.rst && h.acknowledgment_number == self.seq_no.wrapping_add(1)) {
            return Err(self);
        }
        let ack_pkt = self.make_ack_packet(h);
        let conn = Established::open(
            self.src_port,
            self.dest_ip,
            self.dest_port,
            self.seq_no,
            h.sequence_number,
            h.window_size,
            now,
        );
        Ok((conn, ack_pkt))
    }
}

impl SynReceived {
    /// The answer to the connection request, to send it again where the
    /// request comes again.
    pub fn make_syn_ack_packet(&self) -> (m: TcpMessage)
        ensures
            m@ == (MessageView {
                header: control_header(
                    self.src_port,
                    self.dest_port,
                    self.seq_no,
                    Some(seq_add(self.irs, 1)),
                    true,
                    false,
                    INITIAL_WINDOW,
                ),
                payload: Seq::empty(),
            }),
    {
        TcpMessage {
            header: make_header(
                self.src_port,
                self.dest_port,
                self.seq_no,
                Some(self.irs.wrapping_add(1)),
                true,
                false,
                INITIAL_WINDOW,
            ),
            payload: Vec::new(),
        }
    }

    /// Takes the acknowledgment of this socket's SYN: the connection is
    /// established. Any other segment leaves the socket waiting.
    pub fn establish(self, ack_packet: &SegmentHeader, now: u64) -> (r: Result<Established, SynReceived>)
        ensures
            completes_handshake(self, *ack_packet) ==> r is Ok && r->Ok_0.wf() && r->Ok_0@
                == fresh_conn(
                self.src_port,
                self.dest_ip,
                self.dest_port,
                self.seq_no,
                self.irs,
                ack_packet.window_size,
                now,
            ),
            !completes_handshake(self, *ack_packet) ==> r == Err::<Established, SynReceived>(self),
    {
        let h = ack_packet;
        if !(h.ack && !h.syn && !h.rst && h.acknowledgment_number == self.seq_no.wrapping_add(1)) {
            return Err(self);
        }
        Ok(
            Established::open(
                self.src_port,
                self.dest_ip,
                self.dest_port,
                self.seq_no,
                self.irs,
                h.window_size,
                now,
            ),
        )
    }
}

/// Whether the name of a connection's state fits what has happened to the
/// connection: whether its user has closed the write half, whether the peer
/// has acknowledged its FIN, and whether the peer's FIN has arrived.
pub open spec fn status_fits(status: SocketStatus, c: ConnView) -> bool {
    match status {
        SocketStatus::Established => !c.write_closed && !c.fin_received,
        SocketStatus::FinWait1 => c.write_closed && !c.fin_acked && !c.fin_received,
        SocketStatus::FinWait2 => c.write_closed && c.fin_acked && !c.fin_received,
        SocketStatus::CloseWait => !c.write_closed && c.fin_received,
        SocketStatus::Closing => c.write_closed && !c.fin_acked && c.fin_received,
        SocketStatus::LastAck => c.write_closed && !c.fin_acked && c.fin_received,
        SocketStatus::TimeWait => c.write_closed && c.fin_acked && c.fin_received,
        _ => true,
    }
}

/// Whether a state is one of a socket with the identity `id`: a listener
/// listens on the port of its identity, and a connection, from the
/// handshake on, has the two ends of its identity.
pub open spec fn state_fits(id: SocketId, s: TcpStateView) -> bool {
    match s {
        TcpStateView::Closed(_) => true,
        TcpStateView::Listen(l) => id == SocketId::Listen(l.port),
        TcpStateView::SynSent(st) => id == SocketId::Connection(st.src_port, st.dest_ip, st.dest_port),
        TcpStateView::SynReceived(st) => id == SocketId::Connection(
            st.src_port,
            st.dest_ip,
            st.dest_port,
        ),
        TcpStateView::Connected(_, c) | TcpStateView::TimeWait(c, _) => id == SocketId::Connection(
            c.src_port,
            c.dest_ip,
            c.dest_port,
        ),
    }
}

/// A connection that lingers after both ends have closed, to answer what
/// may still arrive.
pub struct TimeWait {
    pub conn: Established,
    /// When the socket leaves the table.
    pub until: u64,
}

/// The state of a socket. Each state holds what it needs and no more; a
/// transition moves the data on.
pub enum TcpState {
    Closed(Closed),
    Listen(Listen),
    SynSent(SynSent),
    SynReceived(SynReceived),
    Established(Established),
    FinWait1(Established),
    FinWait2(Established),
    CloseWait(Established),
    Closing(Established),
    LastAck(Established),
    TimeWait(TimeWait),
}

/// The state of a socket as contracts speak of it.
pub enum TcpStateView {
    Closed(Closed),
    Listen(Listen),
    SynSent(SynSent),
    SynReceived(SynReceived),
    /// One of the states from `Established` to `LastAck`.
    Connected(SocketStatus, ConnView),
    TimeWait(ConnView, u64),
}

impl TcpState {
    pub open spec fn view(&self) -> TcpStateView {
        match *self {
            TcpState::Closed(s) => TcpStateView::Closed(s),
            TcpState::Listen(s) => TcpStateView::Listen(s),
            TcpState::SynSent(s) => TcpStateView::SynSent(s),
            TcpState::SynReceived(s) => TcpStateView::SynReceived(s),
            TcpState::Established(c) => TcpStateView::Connected(SocketStatus::Established, c@),
            TcpState::FinWait1(c) => TcpStateView::Connected(SocketStatus::FinWait1, c@),
            TcpState::FinWait2(c) => TcpStateView::Connected(SocketStatus::FinWait2, c@),
            TcpState::CloseWait(c) => TcpStateView::Connected(SocketStatus::CloseWait, c@),
            TcpState::Closing(c) => TcpStateView::Connected(SocketStatus::Closing, c@),
            TcpState::LastAck(c) => TcpStateView::Connected(SocketStatus::LastAck, c@),
            TcpState::TimeWait(t) => TcpStateView::TimeWait(t.conn@, t.until),
        }
    }

    /// The connection block of a state that has one is well-formed, and
    /// the name of the state fits what has happened to the connection.
    pub open spec fn wf(&self) -> bool {
        match *self {
            TcpState::Established(c)
            | TcpState::FinWait1(c)
            | TcpState::FinWait2(c)
            | TcpState::CloseWait(c)
            | TcpState::Closing(c)
            | TcpState::LastAck(c) => c.wf() && status_fits(self.spec_status(), c@),
            TcpState::TimeWait(t) => t.conn.wf() && status_fits(SocketStatus::TimeWait, t.conn@),
            _ => true,
        }
    }

    /// The name of the state.
    pub open spec fn spec_status(&self) -> SocketStatus {
        view_status(self@)
    }

    /// The state of a fresh socket: closed, with the given sequence number.
    pub fn new(seq_no: u32) -> (s: Self)
        ensures
            s@ == TcpStateView::Closed(Closed { seq_no }),
            s.wf(),
    {
        TcpState::Closed(Closed::with_seq_no(seq_no))
    }

    /// The name of the state.
    pub fn status(&self) -> (s: SocketStatus)
        ensures
            s == self.spec_status(),
    {
        match self {
            TcpState::Closed(_) => SocketStatus::Closed,
            TcpState::Listen(_) => SocketStatus::Listen,
            TcpState::SynSent(_) => SocketStatus::SynSent,
            TcpState::SynReceived(_) => SocketStatus::SynReceived,
            TcpState::Established(_) => SocketStatus::Established,
            TcpState::FinWait1(_) => SocketStatus::FinWait1,
            TcpState::FinWait2(_) => SocketStatus::FinWait2,
            TcpState::CloseWait(_) => SocketStatus::CloseWait,
            TcpState::Closing(_) => SocketStatus::Closing,
            TcpState::LastAck(_) => SocketStatus::LastAck,
            TcpState::TimeWait(_) => SocketStatus::TimeWait,
        }
    }

    /// The state with the name `status` that holds the connection block
    /// `conn`. A connection that enters `TimeWait` lingers until `until`; one
    /// that reaches `Closed` keeps only its sequence number.
    pub fn connected(status: SocketStatus, conn: Established, until: u64) -> (s: Self)
        requires
            conn.wf(),
            status_fits(status, conn@),
        ensures
            s.wf(),
            s@ == view_connected(status, conn@, until),
    {
        match status {
            SocketStatus::Established => TcpState::Established(conn),
            SocketStatus::FinWait1 => TcpState::FinWait1(conn),
            SocketStatus::FinWait2 => TcpState::FinWait2(conn),
            SocketStatus::CloseWait => TcpState::CloseWait(conn),
            SocketStatus::Closing => TcpState::Closing(conn),
            SocketStatus::LastAck => TcpState::LastAck(conn),
            SocketStatus::TimeWait => TcpState::TimeWait(TimeWait { conn, until }),
            _ => TcpState::Closed(Closed { seq_no: conn.seq_no }),
        }
    }
}

impl From<Closed> for TcpState {
    fn from(s: Closed) -> (r: TcpState) {
        TcpState::Closed(s)
    }
}

impl FromSpecImpl<Closed> for TcpState {
    open spec fn obeys_from_spec() -> bool {
        true
    }

    open spec fn from_spec(s: Closed) -> TcpState {
        TcpState::Closed(s)
    }
}

impl From<SynSent> for TcpState {
    fn from(s: SynSent) -> (r: TcpState) {
        TcpState::SynSent(s)
    }
}

impl FromSpecImpl<SynSent> for TcpState {
    open spec fn obeys_from_spec() -> bool {
        true
    }

    open spec fn from_spec(s: SynSent) -> TcpState {
        TcpState::SynSent(s)
    }
}

impl From<SynReceived> for TcpState {
    fn from(s: SynReceived) -> (r: TcpState) {
        TcpState::SynReceived(s)
    }
}

impl FromSpecImpl<SynReceived> for TcpState {
    open spec fn obeys_from_spec() -> bool {
        true
    }

    open spec fn from_spec(s: SynReceived) -> TcpState {
        TcpState::SynReceived(s)
    }
}

impl From<Established> for TcpState {
    fn from(s: Established) -> (r: TcpState) {
        TcpState::Established(s)
    }
}

impl FromSpecImpl<Established> for TcpState {
    open spec fn obeys_from_spec() -> bool {
        true
    }

    open spec fn from_spec(s: Established) -> TcpState {
        TcpState::Established(s)
    }
}

/// The name of a state.
pub open spec fn view_status(s: TcpStateView) -> SocketStatus {
    match s {
        TcpStateView::Closed(_) => SocketStatus::Closed,
        TcpStateView::Listen(_) => SocketStatus::Listen,
        TcpStateView::SynSent(_) => SocketStatus::SynSent,
        TcpStateView::SynReceived(_) => SocketStatus::SynReceived,
        TcpStateView::Connected(status, _) => status,
        TcpStateView::TimeWait(_, _) => SocketStatus::TimeWait,
    }
}

/// The state with the name `status` around the block `c`.
pub open spec fn view_connected(status: SocketStatus, c: ConnView, until: u64) -> TcpStateView {
    match status {
        SocketStatus::Established
        | SocketStatus::FinWait1
        | SocketStatus::FinWait2
        | SocketStatus::CloseWait
        | SocketStatus::Closing
        | SocketStatus::LastAck => TcpStateView::Connected(status, c),
        SocketStatus::TimeWait => TcpStateView::TimeWait(c, until),
        _ => TcpStateView::Closed(Closed { seq_no: c.seq_no }),
    }
}

/// When a connection that enters `TimeWait` at `now` leaves the table.
pub open spec fn linger_until(now: u64) -> u64 {
    if now + TIME_WAIT_DURATION > u64::MAX {
        u64::MAX
    } else {
        (now + TIME_WAIT_DURATION) as u64
    }
}

/// The state of a socket after a segment from `remote_ip` at time `now`,
/// where it was in the state `s` before. A closed socket and a listener stay
/// as they are; a socket in the handshake goes on where the segment is the
/// one that it waits for; a connection takes the segment.
pub open spec fn spec_packet_state(
    s: TcpStateView,
    remote_ip: VirtualIp,
    h: SegmentHeader,
    payload: Seq<u8>,
    now: u64,
) -> TcpStateView {
    match s {
        TcpStateView::Closed(_) | TcpStateView::Listen(_) => s,
        TcpStateView::SynSent(st) => if answers_syn(st, h) {
            TcpStateView::Connected(
                SocketStatus::Established,
                fresh_conn(
                    st.src_port,
                    st.dest_ip,
                    st.dest_port,
                    st.seq_no,
                    h.sequence_number,
                    h.window_size,
                    now,
                ),
            )
        } else {
            s
        },
        TcpStateView::SynReceived(st) => if completes_handshake(st, h) {
            let c = fresh_conn(
                st.src_port,
                st.dest_ip,
                st.dest_port,
                st.seq_no,
                st.irs,
                h.window_size,
                now,
            );
            view_connected(
                spec_conn_signals(c, SocketStatus::Established, h, payload, now).status,
                spec_conn_after(c, h, payload, now),
                linger_until(now),
            )
        } else {
            s
        },
        TcpStateView::Connected(status, c) => view_connected(
            spec_conn_signals(c, status, h, payload, now).status,
            spec_conn_after(c, h, payload, now),
            linger_until(now),
        ),
        TcpStateView::TimeWait(c, until) => view_connected(
            spec_conn_signals(c, SocketStatus::TimeWait, h, payload, now).status,
            spec_conn_after(c, h, payload, now),
            until,
        ),
    }
}

/// The segment that a socket sends back. `iss` is the initial sequence
/// number of the connection that a listener opens on a request.
pub open spec fn spec_packet_reply(
    s: TcpStateView,
    remote_ip: VirtualIp,
    h: SegmentHeader,
    payload: Seq<u8>,
    now: u64,
    iss: u32,
) -> Option<MessageView> {
    match s {
        TcpStateView::Closed(_) => None,
        TcpStateView::Listen(l) => if h.syn && !h.ack && !h.rst {
            Some(
                MessageView {
                    header: control_header(
                        l.port,
                        Port(h.source_port),
                        iss,
                        Some(seq_add(h.sequence_number, 1)),
                        true,
                        false,
                        INITIAL_WINDOW,
                    ),
                    payload: Seq::empty(),
                },
            )
        } else {
            None
        },
        TcpStateView::SynSent(st) => if answers_syn(st, h) {
            Some(
                MessageView {
                    header: control_header(
                        st.src_port,
                        st.dest_port,
                        seq_add(st.seq_no, 1),
                        Some(seq_add(h.sequence_number, 1)),
                        false,
                        false,
                        INITIAL_WINDOW,
                    ),
                    payload: Seq::empty(),
                },
            )
        } else {
            None
        },
        TcpStateView::SynReceived(st) => if completes_handshake(st, h) {
            spec_conn_reply(
                fresh_conn(
                    st.src_port,
                    st.dest_ip,
                    st.dest_port,
                    st.seq_no,
                    st.irs,
                    h.window_size,
                    now,
                ),
                h,
                payload,
                now,
            )
        } else if h.syn && !h.ack && !h.rst {
            Some(
                MessageView {
                    header: control_header(
                        st.src_port,
                        st.dest_port,
                        st.seq_no,
                        Some(seq_add(st.irs, 1)),
                        true,
                        false,
                        INITIAL_WINDOW,
                    ),
                    payload: Seq::empty(),
                },
            )
        } else {
            None
        },
        TcpStateView::Connected(_, c) | TcpStateView::TimeWait(c, _) => spec_conn_reply(
            c,
            h,
            payload,
            now,
        ),
    }
}

/// `signals` with the order to drop the socket `id`, where the socket has
/// reached `Closed`.
pub open spec fn with_close(signals: Signals, id: SocketId) -> Signals {
    if signals.status == SocketStatus::Closed {
        Signals { update: Some(UpdateAction::CloseSocket(id)), ..signals }
    } else {
        signals
    }
}

/// What handling the segment means for those who wait on the socket and
/// for the socket table.
pub open spec fn spec_packet_signals(
    s: TcpStateView,
    id: SocketId,
    remote_ip: VirtualIp,
    h: SegmentHeader,
    payload: Seq<u8>,
    now: u64,
    iss: u32,
) -> Signals {
    match s {
        TcpStateView::Closed(_) => quiet(SocketStatus::Closed),
        TcpStateView::Listen(l) => if h.syn && !h.ack && !h.rst {
            Signals {
                update: Some(
                    UpdateAction::NewSynReceivedSocket(
                        SynReceived {
                            seq_no: iss,
                            src_port: l.port,
                            dest_ip: remote_ip,
                            dest_port: Port(h.source_port),
                            irs: h.sequence_number,
                            peer_window: h.window_size,
                        },
                    ),
                ),
                ..quiet(SocketStatus::Listen)
            }
        } else {
            quiet(SocketStatus::Listen)
        },
        TcpStateView::SynSent(st) => if answers_syn(st, h) {
            Signals { connected: true, ..quiet(SocketStatus::Established) }
        } else {
            quiet(SocketStatus::SynSent)
        },
        TcpStateView::SynReceived(st) => if completes_handshake(st, h) {
            with_close(
                Signals {
                    accepted: true,
                    ..spec_conn_signals(
                        fresh_conn(
                            st.src_port,
                            st.dest_ip,
                            st.dest_port,
                            st.seq_no,
                            st.irs,
                            h.window_size,
                            now,
                        ),
                        SocketStatus::Established,
                        h,
                        payload,
                        now,
                    )
                },
                id,
            )
        } else {
            quiet(SocketStatus::SynReceived)
        },
        TcpStateView::Connected(status, c) => with_close(
            spec_conn_signals(c, status, h, payload, now),
            id,
        ),
        TcpStateView::TimeWait(c, _) => with_close(
            spec_conn_signals(c, SocketStatus::TimeWait, h, payload, now),
            id,
        ),
    }
}

/// Only a listener that takes a connection request asks the table for a
/// new socket.
pub proof fn lemma_only_listeners_open(
    s: TcpStateView,
    id: SocketId,
    remote_ip: VirtualIp,
    h: SegmentHeader,
    payload: Seq<u8>,
    now: u64,
    iss: u32,
)
    requires
        ({
            let u = spec_packet_signals(s, id, remote_ip, h, payload, now, iss).update;
            u is Some && u->0 is NewSynReceivedSocket
        }),
    ensures
        s is Listen,
        h.syn && !h.ack && !h.rst,
{
}

/// A socket: its identity, the descriptor by which users name it, and its
/// state. The state is taken out while a segment is handled, so a socket
/// never handles two at once.
pub struct Socket {
    pub id: SocketId,
    pub descriptor: SocketDescriptor,
    pub state: Option<TcpState>,
}

/// A socket as contracts speak of it.
pub struct SocketView {
    pub id: SocketId,
    pub descriptor: SocketDescriptor,
    pub state: TcpStateView,
}

impl Socket {
    /// The socket has its state, the state is well-formed, and it is a
    /// state of a socket with this identity.
    pub open spec fn wf(&self) -> bool {
        self.state is Some && self.state->0.wf() && state_fits(self.id, self.state->0@)
    }

    pub open spec fn view(&self) -> SocketView {
        SocketView { id: self.id, descriptor: self.descriptor, state: self.state->0@ }
    }

    /// A closed socket with a freshly drawn sequence number.
    pub fn new(id: SocketId, descriptor: SocketDescriptor) -> (s: Self)
        ensures
            s.wf(),
            s.id == id,
            s.descriptor == descriptor,
            s@.state is Closed,
    {
        Self::with_seq_no(id, descriptor, Closed::new().seq_no)
    }

    /// A closed socket with the given sequence number.
    pub fn with_seq_no(id: SocketId, descriptor: SocketDescriptor, seq_no: u32) -> (s: Self)
        ensures
            s.wf(),
            s@ == (SocketView { id, descriptor, state: TcpStateView::Closed(Closed { seq_no }) }),
    {
        Socket { id, descriptor, state: Some(TcpState::new(seq_no)) }
    }

    /// A socket for the connection that a listener has opened.
    pub fn syn_received(id: SocketId, descriptor: SocketDescriptor, state: SynReceived) -> (s: Self)
        requires
            id == SocketId::Connection(state.src_port, state.dest_ip, state.dest_port),
        ensures
            s.wf(),
            s@ == (SocketView { id, descriptor, state: TcpStateView::SynReceived(state) }),
    {
        Socket { id, descriptor, state: Some(TcpState::SynReceived(state)) }
    }

    pub fn id(&self) -> (id: SocketId)
        ensures
            id == self.id,
    {
        self.id
    }

    pub fn descriptor(&self) -> (d: SocketDescriptor)
        ensures
            d == self.descriptor,
    {
        self.descriptor
    }

    /// The name of the socket's state.
    pub fn status(&self) -> (s: SocketStatus)
        requires
            self.wf(),
        ensures
            s == view_status(self@.state),
    {
        match &self.state {
            Some(s) => s.status(),
            None => SocketStatus::Closed,
        }
    }

    /// Handles a segment that arrived for this socket from `remote_ip` at
    /// time `now`. `iss` is the initial sequence number for the connection
    /// that a listener opens on a request.
    #[verifier::rlimit(40)]
    pub fn handle_packet(
        &mut self,
        remote_ip: VirtualIp,
        tcp_header: &SegmentHeader,
        payload: &[u8],
        now: u64,
        iss: u32,
    ) -> (r: Reaction)
        requires
            old(self).wf(),
            payload@.len() <= 0xffff,
        ensures
            final(self).wf(),
            final(self).id == old(self).id,
            final(self).descriptor == old(self).descriptor,
            final(self)@.state == spec_packet_state(
                old(self)@.state,
                remote_ip,
                *tcp_header,
                payload@,
                now,
            ),
            message_view(r.reply) == spec_packet_reply(
                old(self)@.state,
                remote_ip,
                *tcp_header,
                payload@,
                now,
                iss,
            ),
            r.signals == spec_packet_signals(
                old(self)@.state,
                old(self).id,
                remote_ip,
                *tcp_header,
                payload@,
                now,
                iss,
            ),
    {
        let h = tcp_header;
        let state = self.state.take().unwrap();
        let id = self.id;
        let linger = now.saturating_add(TIME_WAIT_DURATION);
        let (next, r) = match state {
            TcpState::Closed(s) => (TcpState::Closed(s), Self::nothing(SocketStatus::Closed)),
            TcpState::Listen(l) => {
                if h.syn && !h.ack && !h.rst {
                    let (child, syn_ack) = l.accept_request(remote_ip, h, iss);
                    let mut r = Self::nothing(SocketStatus::Listen);
                    r.reply = Some(syn_ack);
                    r.signals.update = Some(UpdateAction::NewSynReceivedSocket(child));
                    (TcpState::Listen(l), r)
                } else {
                    (TcpState::Listen(l), Self::nothing(SocketStatus::Listen))
                }
            },
            TcpState::SynSent(s) => match s.establish(h, now) {
                Ok((conn, ack)) => {
                    let mut r = Self::nothing(SocketStatus::Established);
                    r.reply = Some(ack);
                    r.signals.connected = true;
                    (TcpState::Established(conn), r)
                },
                Err(s) => (TcpState::SynSent(s), Self::nothing(SocketStatus::SynSent)),
            },
            TcpState::SynReceived(s) => match s.establish(h, now) {
                Ok(mut conn) => {
                    let mut r = conn.on_segment(SocketStatus::Established, h, payload, now);
                    r.signals.accepted = true;
                    Self::settle(conn, r, id, linger)
                },
                Err(s) => {
                    let mut r = Self::nothing(SocketStatus::SynReceived);
                    if h.syn && !h.ack && !h.rst {
                        r.reply = Some(s.make_syn_ack_packet());
                    }
                    (TcpState::SynReceived(s), r)
                },
            },
            TcpState::Established(mut c) => {
                let r = c.on_segment(SocketStatus::Established, h, payload, now);
                Self::settle(c, r, id, linger)
            },
            TcpState::FinWait1(mut c) => {
                let r = c.on_segment(SocketStatus::FinWait1, h, payload, now);
                Self::settle(c, r, id, linger)
            },
            TcpState::FinWait2(mut c) => {
                let r = c.on_segment(SocketStatus::FinWait2, h, payload, now);
                Self::settle(c, r, id, linger)
            },
            TcpState::CloseWait(mut c) => {
                let r = c.on_segment(SocketStatus::CloseWait, h, payload, now);
                Self::settle(c, r, id, linger)
            },
            TcpState::Closing(mut c) => {
                let r = c.on_segment(SocketStatus::Closing, h, payload, now);
                Self::settle(c, r, id, linger)
            },
            TcpState::LastAck(mut c) => {
                let r = c.on_segment(SocketStatus::LastAck, h, payload, now);
                Self::settle(c, r, id, linger)
            },
            TcpState::TimeWait(t) => {
                let mut c = t.conn;
                let r = c.on_segment(SocketStatus::TimeWait, h, payload, now);
                Self::settle(c, r, id, t.until)
            },
        };
        self.state = Some(next);
        r
    }

    /// A reaction that says that nothing happened.
    fn nothing(status: SocketStatus) -> (r: Reaction)
        ensures
            r.reply is None,
            r.signals == quiet(status),
    {
        Reaction {
            reply: None,
            signals: Signals {
                status,
                acked: 0,
                ready: 0,
                eof: false,
                fin_acked: false,
                reset: false,
                connected: false,
                accepted: false,
                update: None,
            },
        }
    }

    /// Puts a connection block into the state that its reaction names, and
    /// orders the socket dropped where that state is `Closed`.
    fn settle(conn: Established, r: Reaction, id: SocketId, until: u64) -> (out: (TcpState, Reaction))
        requires
            conn.wf(),
            status_fits(r.signals.status, conn@),
        ensures
            out.0.wf(),
            out.0@ == view_connected(r.signals.status, conn@, until),
            out.1.reply == r.reply,
            out.1.signals == with_close(r.signals, id),
    {
        let mut r = r;
        let status = r.signals.status;
        match status {
            SocketStatus::Established
            | SocketStatus::FinWait1
            | SocketStatus::FinWait2
            | SocketStatus::CloseWait
            | SocketStatus::Closing
            | SocketStatus::LastAck
            | SocketStatus::TimeWait
            | SocketStatus::Listen
            | SocketStatus::SynSent
            | SocketStatus::SynReceived => {},
            SocketStatus::Closed => {
                r.signals.update = Some(UpdateAction::CloseSocket(id));
            },
        }
        (TcpState::connected(status, conn, until), r)
    }
}

/// The connection block of a state that has one, with the state's name.
pub open spec fn view_conn(s: TcpStateView) -> Option<(SocketStatus, ConnView)> {
    match s {
        TcpStateView::Connected(status, c) => Some((status, c)),
        TcpStateView::TimeWait(c, _) => Some((SocketStatus::TimeWait, c)),
        _ => None,
    }
}

/// When a state's lingering ends; of no meaning but in `TimeWait`.
pub open spec fn view_until(s: TcpStateView) -> u64 {
    match s {
        TcpStateView::TimeWait(_, until) => until,
        _ => 0,
    }
}

/// The state `s` with its connection block replaced by `c` and its name by
/// `status`.
pub open spec fn with_conn(s: TcpStateView, status: SocketStatus, c: ConnView) -> TcpStateView {
    view_connected(status, c, view_until(s))
}

/// What the timer of a socket asks for at `now`. A socket in `TimeWait`
/// has nothing to send.
pub open spec fn spec_socket_timer(s: TcpStateView, now: u64) -> TimerActionView {
    match s {
        TcpStateView::Connected(_, c) => spec_timer_action(c, now),
        _ => TimerActionView::Idle,
    }
}

/// The state of a socket after its timer has been served at `now`: a
/// connection that is given up, and one that has lingered long enough, are
/// closed.
pub open spec fn spec_socket_after_timer(s: TcpStateView, now: u64) -> TcpStateView {
    match s {
        TcpStateView::Connected(status, c) => if spec_timer_action(c, now) is Abort {
            TcpStateView::Closed(Closed { seq_no: c.seq_no })
        } else {
            TcpStateView::Connected(status, spec_after_timer(c, now))
        },
        TcpStateView::TimeWait(c, until) => if now >= until {
            TcpStateView::Closed(Closed { seq_no: c.seq_no })
        } else {
            s
        },
        _ => s,
    }
}


/// What a reader gets from one attempt, as contracts speak of it.
pub enum ReadStepView {
    Data(Seq<u8>),
    Eof,
    Wait,
}

impl View for ReadStep {
    type V = ReadStepView;

    open spec fn view(&self) -> ReadStepView {
        match *self {
            ReadStep::Data(d) => ReadStepView::Data(d@),
            ReadStep::Eof => ReadStepView::Eof,
            ReadStep::Wait => ReadStepView::Wait,
        }
    }
}

/// What a reader gets from one attempt to read up to `n` octets from a
/// connection.
pub open spec fn spec_read_step(c: ConnView, n: usize) -> ReadStepView {
    if c.read_closed {
        ReadStepView::Eof
    } else if c.recv.avail > 0 {
        ReadStepView::Data(
            front(
                c.recv.window,
                if n <= c.recv.avail {
                    n as int
                } else {
                    c.recv.avail
                },
            ),
        )
    } else if c.fin_received {
        ReadStepView::Eof
    } else {
        ReadStepView::Wait
    }
}

/// The block after one attempt to read up to `n` octets.
pub open spec fn spec_after_read_step(c: ConnView, n: usize) -> ConnView {
    if !c.read_closed && c.recv.avail > 0 {
        ConnView {
            recv: spec_after_read(
                c.recv,
                if n <= c.recv.avail {
                    n as int
                } else {
                    c.recv.avail
                },
            ),
            ..c
        }
    } else {
        c
    }
}

/// What a socket answers to a write of `len` octets.
pub open spec fn sock_send_result(s: TcpStateView, len: int) -> Result<usize, TcpSendError> {
    match view_conn(s) {
        None => Err(TcpSendError::ConnNotEstablished),
        Some((status, c)) => if can_write(status, c) {
            Ok(spec_taken(c.send, len) as usize)
        } else {
            Err(TcpSendError::ConnClosed)
        },
    }
}

/// The state of a socket after a write of `bytes`.
pub open spec fn sock_after_send(s: TcpStateView, bytes: Seq<u8>) -> TcpStateView {
    match view_conn(s) {
        Some((status, c)) if can_write(status, c) => with_conn(
            s,
            status,
            ConnView { send: spec_write(c.send, bytes), ..c },
        ),
        _ => s,
    }
}

/// What a socket answers to an attempt to read up to `n` octets.
pub open spec fn sock_recv_result(s: TcpStateView, n: usize) -> Result<ReadStepView, TcpReadError> {
    match view_conn(s) {
        None => Err(TcpReadError::ConnNotEstablished),
        Some((_, c)) => Ok(spec_read_step(c, n)),
    }
}

/// The state of a socket after an attempt to read up to `n` octets.
pub open spec fn sock_after_recv(s: TcpStateView, n: usize) -> TcpStateView {
    match view_conn(s) {
        Some((status, c)) => with_conn(s, status, spec_after_read_step(c, n)),
        None => s,
    }
}

/// What a socket answers when the user closes the write half.
pub open spec fn sock_close_result(s: TcpStateView) -> Result<(), TcpCloseError> {
    match view_conn(s) {
        Some((status, _)) if status_after_close(status) is Some => Ok(()),
        _ => Err(TcpCloseError::AlreadyClosed),
    }
}

/// The state of a socket after the user has closed the write half.
pub open spec fn sock_after_close(s: TcpStateView) -> TcpStateView {
    match view_conn(s) {
        Some((status, c)) if status_after_close(status) is Some => with_conn(
            s,
            status_after_close(status)->0,
            ConnView { write_closed: true, ..c },
        ),
        _ => s,
    }
}

/// The state of a socket after the user has shut down reading.
pub open spec fn sock_after_close_read(s: TcpStateView) -> TcpStateView {
    match view_conn(s) {
        Some((status, c)) => with_conn(
            s,
            status,
            ConnView { read_closed: true, recv: spec_after_read(c.recv, c.recv.avail), ..c },
        ),
        None => s,
    }
}

/// The segment that the output path of a socket emits next.
pub open spec fn sock_output(s: TcpStateView) -> Option<MessageView> {
    match view_conn(s) {
        Some((_, c)) => spec_next_output(c),
        None => None,
    }
}

/// The state of a socket after its output path has emitted at `now`.
pub open spec fn sock_after_output(s: TcpStateView, now: u64) -> TcpStateView {
    match view_conn(s) {
        Some((status, c)) => with_conn(s, status, spec_after_output(c, now)),
        None => s,
    }
}

/// How many more steps the output path of a socket can take at most: one
/// for each octet that window and buffer still let out, and one for the FIN
/// as long as it is not out.
pub open spec fn output_budget(s: TcpStateView) -> nat {
    match view_conn(s) {
        Some((_, c)) => (if view_send_limit(c.send) > c.send.sent {
            (view_send_limit(c.send) - c.send.sent) as nat
        } else {
            0nat
        }) + (if c.fin_seq is None {
            1nat
        } else {
            0nat
        }),
        None => 0,
    }
}

/// Every step of the output path uses up some of its budget.
pub proof fn lemma_output_budget(s: TcpStateView, now: u64)
    requires
        sock_output(s) is Some,
    ensures
        output_budget(sock_after_output(s, now)) < output_budget(s),
{
}

/// The segments that the output path of a socket emits at `now`, first to
/// last, until it has no more to emit.
pub open spec fn drained_output(s: TcpStateView, now: u64) -> Seq<MessageView>
    decreases output_budget(s),
{
    match sock_output(s) {
        None => Seq::empty(),
        Some(m) => {
            proof {
                lemma_output_budget(s, now);
            }
            seq![m] + drained_output(sock_after_output(s, now), now)
        },
    }
}

/// The state of a socket after its output path has emitted all that it
/// has to emit at `now`.
pub open spec fn drained_state(s: TcpStateView, now: u64) -> TcpStateView
    decreases output_budget(s),
{
    if sock_output(s) is None {
        s
    } else {
        proof {
            lemma_output_budget(s, now);
        }
        drained_state(sock_after_output(s, now), now)
    }
}

/// The segments of a list as contracts speak of them.
pub open spec fn messages_view(ms: Seq<TcpMessage>) -> Seq<MessageView> {
    ms.map_values(|m: TcpMessage| m@)
}

impl Socket {
    /// Lets the output path emit all that it has to emit at `now`: data
    /// as far as the peer's window and the buffer allow, then the FIN where
    /// the user has closed. Gives the segments, first to last.
    pub fn drain_output(&mut self, now: u64) -> (out: Vec<TcpMessage>)
        requires
            old(self).wf(),
        ensures
            final(self).wf(),
            final(self).id == old(self).id,
            final(self).descriptor == old(self).descriptor,
            messages_view(out@) == drained_output(old(self)@.state, now),
            final(self)@.state == drained_state(old(self)@.state, now),
    {
        let mut out: Vec<TcpMessage> = Vec::new();
        assert(messages_view(out@) =~= Seq::empty());
        loop
            invariant
                self.wf(),
                self.id == old(self).id,
                self.descriptor == old(self).descriptor,
                messages_view(out@) + drained_output(self@.state, now) == drained_output(
                    old(self)@.state,
                    now,
                ),
                drained_state(self@.state, now) == drained_state(old(self)@.state, now),
            decreases output_budget(self@.state),
        {
            let ghost before = self@.state;
            let ghost sent = messages_view(out@);
            match self.next_output(now) {
                None => {
                    assert(sent + Seq::<MessageView>::empty() =~= sent);
                    return out;
                },
                Some(m) => {
                    proof {
                        lemma_output_budget(before, now);
                        assert(messages_view(out@.push(m)) =~= sent.push(m@));
                        assert(sent.push(m@) + drained_output(self@.state, now) =~= sent + (seq![m@]
                            + drained_output(self@.state, now)));
                    }
                    out.push(m);
                },
            }
        }
    }
}

/// What the table must do after a socket's timer has been served.
pub open spec fn sock_timer_update(s: TcpStateView, id: SocketId, now: u64) -> Option<UpdateAction> {
    if spec_socket_after_timer(s, now) is Closed && !(s is Closed) {
        Some(UpdateAction::CloseSocket(id))
    } else {
        None
    }
}

/// The view of a result that holds a read step.
pub open spec fn read_result_view(r: Result<ReadStep, TcpReadError>) -> Result<
    ReadStepView,
    TcpReadError,
> {
    match r {
        Ok(step) => Ok(step@),
        Err(e) => Err(e),
    }
}

impl TcpState {
    /// Takes a state apart: the name, the connection block and the end of
    /// lingering of a state that has a block, or the state itself.
    pub fn split(self) -> (r: Result<(SocketStatus, Established, u64), TcpState>)
        requires
            self.wf(),
        ensures
            match r {
                Ok((status, conn, until)) => conn.wf() && status_fits(status, conn@)
                    && view_conn(self@) == Some((status, conn@))
                    && until == view_until(self@) && status != SocketStatus::Closed
                    && view_connected(status, conn@, until) == self@,
                Err(s) => s == self && view_conn(self@) is None,
            },
    {
        match self {
            TcpState::Established(c) => Ok((SocketStatus::Established, c, 0)),
            TcpState::FinWait1(c) => Ok((SocketStatus::FinWait1, c, 0)),
            TcpState::FinWait2(c) => Ok((SocketStatus::FinWait2, c, 0)),
            TcpState::CloseWait(c) => Ok((SocketStatus::CloseWait, c, 0)),
            TcpState::Closing(c) => Ok((SocketStatus::Closing, c, 0)),
            TcpState::LastAck(c) => Ok((SocketStatus::LastAck, c, 0)),
            TcpState::TimeWait(t) => Ok((SocketStatus::TimeWait, t.conn, t.until)),
            other => Err(other),
        }
    }
}

impl Socket {
    /// Opens the connection that the socket's identity names: a closed
    /// socket goes to `SynSent` and gives the request to send. Any other
    /// socket, and a socket with a listener's identity, stays as it is.
    pub fn connect(&mut self) -> (r: Option<TcpMessage>)
        requires
            old(self).wf(),
        ensures
            final(self).wf(),
            final(self).id == old(self).id,
            final(self).descriptor == old(self).descriptor,
            match (old(self)@.state, old(self).id) {
                (TcpStateView::Closed(c), SocketId::Connection(local, ip, port)) => {
                    &&& final(self)@.state == TcpStateView::SynSent(
                        SynSent { seq_no: c.seq_no, src_port: local, dest_ip: ip, dest_port: port },
                    )
                    &&& message_view(r) == Some(
                        MessageView {
                            header: control_header(
                                local,
                                port,
                                c.seq_no,
                                None,
                                true,
                                false,
                                INITIAL_WINDOW,
                            ),
                            payload: Seq::empty(),
                        },
                    )
                },
                _ => final(self)@.state == old(self)@.state && r is None,
            },
    {
        let state = self.state.take().unwrap();
        match (state, self.id) {
            (TcpState::Closed(c), SocketId::Connection(local, ip, port)) => {
                let (syn_sent, syn) = c.connect(local, (ip, port));
                self.state = Some(TcpState::SynSent(syn_sent));
                Some(syn)
            },
            (state, _) => {
                self.state = Some(state);
                None
            },
        }
    }

    /// Opens the socket passively: a closed socket with a listener's
    /// identity goes to `Listen`. Says whether it did.
    pub fn listen(&mut self) -> (r: bool)
        requires
            old(self).wf(),
        ensures
            final(self).wf(),
            final(self).id == old(self).id,
            final(self).descriptor == old(self).descriptor,
            match (old(self)@.state, old(self).id) {
                (TcpStateView::Closed(c), SocketId::Listen(port)) => r && final(self)@.state
                    == TcpStateView::Listen(Listen { port, seq_no: c.seq_no }),
                _ => !r && final(self)@.state == old(self)@.state,
            },
    {
        let state = self.state.take().unwrap();
        match (state, self.id) {
            (TcpState::Closed(c), SocketId::Listen(port)) => {
                self.state = Some(TcpState::Listen(c.listen(port)));
                true
            },
            (state, _) => {
                self.state = Some(state);
                false
            },
        }
    }

    /// Takes data from the user, as much as there is room for. A socket
    /// that is not yet connected takes none, nor one whose write half is
    /// closed.
    pub fn send(&mut self, bytes: &[u8]) -> (r: Result<usize, TcpSendError>)
        requires
            old(self).wf(),
        ensures
            final(self).wf(),
            final(self).id == old(self).id,
            final(self).descriptor == old(self).descriptor,
            r == sock_send_result(old(self)@.state, bytes@.len() as int),
            final(self)@.state == sock_after_send(old(self)@.state, bytes@),
    {
        let state = self.state.take().unwrap();
        match state.split() {
            Ok((status, mut conn, until)) => {
                let r = conn.write(status, bytes);
                self.state = Some(TcpState::connected(status, conn, until));
                r
            },
            Err(state) => {
                self.state = Some(state);
                Err(TcpSendError::ConnNotEstablished)
            },
        }
    }

    /// One attempt of a reader to get up to `n` octets.
    pub fn recv(&mut self, n: usize) -> (r: Result<ReadStep, TcpReadError>)
        requires
            old(self).wf(),
        ensures
            final(self).wf(),
            final(self).id == old(self).id,
            final(self).descriptor == old(self).descriptor,
            read_result_view(r) == sock_recv_result(old(self)@.state, n),
            final(self)@.state == sock_after_recv(old(self)@.state, n),
    {
        let state = self.state.take().unwrap();
        match state.split() {
            Ok((status, mut conn, until)) => {
                let r = conn.read_step(n);
                self.state = Some(TcpState::connected(status, conn, until));
                Ok(r)
            },
            Err(state) => {
                self.state = Some(state);
                Err(TcpReadError::ConnNotEstablished)
            },
        }
    }

    /// The two windows of a connection: the room that this end
    /// advertises, and the window that the peer last advertised. `None` for
    /// a socket that is not connected.
    pub fn windows(&self) -> (r: Option<(u16, u16)>)
        requires
            self.wf(),
        ensures
            r == match view_conn(self@.state) {
                Some((_, c)) => Some(((CAPACITY - c.recv.avail) as u16, c.send.wnd)),
                None => None,
            },
    {
        match &self.state {
            Some(TcpState::Established(c))
            | Some(TcpState::FinWait1(c))
            | Some(TcpState::FinWait2(c))
            | Some(TcpState::CloseWait(c))
            | Some(TcpState::Closing(c))
            | Some(TcpState::LastAck(c)) => Some((c.recv.ack().1, c.send.wnd)),
            Some(TcpState::TimeWait(t)) => Some((t.conn.recv.ack().1, t.conn.send.wnd)),
            _ => None,
        }
    }

    /// The acknowledgment that the socket sends in its present state;
    /// `None` for a socket that is not connected.
    pub fn ack_segment(&self) -> (r: Option<TcpMessage>)
        requires
            self.wf(),
        ensures
            message_view(r) == match view_conn(self@.state) {
                Some((_, c)) => Some(ack_message(c)),
                None => None,
            },
    {
        match &self.state {
            Some(TcpState::Established(c))
            | Some(TcpState::FinWait1(c))
            | Some(TcpState::FinWait2(c))
            | Some(TcpState::CloseWait(c))
            | Some(TcpState::Closing(c))
            | Some(TcpState::LastAck(c)) => Some(c.ack_segment()),
            Some(TcpState::TimeWait(t)) => Some(t.conn.ack_segment()),
            _ => None,
        }
    }

    /// Whether the user has shut down reading; `None` for a socket that is
    /// not connected.
    pub fn is_read_closed(&self) -> (r: Option<bool>)
        requires
            self.wf(),
        ensures
            r == match view_conn(self@.state) {
                Some((_, c)) => Some(c.read_closed),
                None => None,
            },
    {
        match &self.state {
            Some(TcpState::Established(c))
            | Some(TcpState::FinWait1(c))
            | Some(TcpState::FinWait2(c))
            | Some(TcpState::CloseWait(c))
            | Some(TcpState::Closing(c))
            | Some(TcpState::LastAck(c)) => Some(c.read_closed),
            Some(TcpState::TimeWait(t)) => Some(t.conn.read_closed),
            _ => None,
        }
    }

    /// The user closes the write half. From `Established` the socket goes
    /// to `FinWait1`, from `CloseWait` to `LastAck`; the FIN goes out with the
    /// output path. In any other state there is nothing to close.
    pub fn close(&mut self) -> (r: Result<(), TcpCloseError>)
        requires
            old(self).wf(),
        ensures
            final(self).wf(),
            final(self).id == old(self).id,
            final(self).descriptor == old(self).descriptor,
            r == sock_close_result(old(self)@.state),
            final(self)@.state == sock_after_close(old(self)@.state),
    {
        let state = self.state.take().unwrap();
        match state.split() {
            Ok((status, mut conn, until)) => match conn.close(status) {
                Ok(next) => {
                    self.state = Some(TcpState::connected(next, conn, until));
                    Ok(())
                },
                Err(e) => {
                    self.state = Some(TcpState::connected(status, conn, until));
                    Err(e)
                },
            },
            Err(state) => {
                self.state = Some(state);
                Err(TcpCloseError::AlreadyClosed)
            },
        }
    }

    /// The user shuts down reading. Says whether there was a connection
    /// to do it on.
    pub fn close_read(&mut self) -> (r: bool)
        requires
            old(self).wf(),
        ensures
            final(self).wf(),
            final(self).id == old(self).id,
            final(self).descriptor == old(self).descriptor,
            r == (view_conn(old(self)@.state) is Some),
            final(self)@.state == sock_after_close_read(old(self)@.state),
    {
        let state = self.state.take().unwrap();
        match state.split() {
            Ok((status, mut conn, until)) => {
                conn.close_read();
                self.state = Some(TcpState::connected(status, conn, until));
                true
            },
            Err(state) => {
                self.state = Some(state);
                false
            },
        }
    }

    /// Emits the next segment of the output path at `now`, if there is one.
    pub fn next_output(&mut self, now: u64) -> (r: Option<TcpMessage>)
        requires
            old(self).wf(),
        ensures
            final(self).wf(),
            final(self).id == old(self).id,
            final(self).descriptor == old(self).descriptor,
            message_view(r) == sock_output(old(self)@.state),
            final(self)@.state == sock_after_output(old(self)@.state, now),
    {
        let state = self.state.take().unwrap();
        match state.split() {
            Ok((status, mut conn, until)) => {
                let r = conn.next_output(now);
                self.state = Some(TcpState::connected(status, conn, until));
                r
            },
            Err(state) => {
                self.state = Some(state);
                None
            },
        }
    }

    /// Serves the socket's timer at `now`: a connection sends its oldest
    /// segment again or probes a closed window; one that has sent a segment
    /// too often is given up; one that has lingered long enough is closed.
    /// Says what to send, and whether the socket has closed and leaves the
    /// table.
    pub fn on_timer(&mut self, now: u64) -> (r: (TimerAction, Option<UpdateAction>))
        requires
            old(self).wf(),
        ensures
            final(self).wf(),
            final(self).id == old(self).id,
            final(self).descriptor == old(self).descriptor,
            r.0@ == spec_socket_timer(old(self)@.state, now),
            final(self)@.state == spec_socket_after_timer(old(self)@.state, now),
            r.1 == sock_timer_update(old(self)@.state, old(self).id, now),
    {
        let state = self.state.take().unwrap();
        let id = self.id;
        match state {
            TcpState::TimeWait(t) => {
                if now >= t.until {
                    self.state = Some(TcpState::Closed(Closed { seq_no: t.conn.seq_no }));
                    (TimerAction::Idle, Some(UpdateAction::CloseSocket(id)))
                } else {
                    self.state = Some(TcpState::TimeWait(t));
                    (TimerAction::Idle, None)
                }
            },
            state => match state.split() {
                Ok((status, mut conn, until)) => {
                    let action = conn.on_timer(now);
                    match action {
                        TimerAction::Abort => {
                            self.state = Some(TcpState::Closed(Closed { seq_no: conn.seq_no }));
                            (TimerAction::Abort, Some(UpdateAction::CloseSocket(id)))
                        },
                        action => {
                            self.state = Some(TcpState::connected(status, conn, until));
                            (action, None)
                        },
                    }
                },
                Err(state) => {
                    self.state = Some(state);
                    (TimerAction::Idle, None)
                },
            },
        }
    }
}

/// What a socket sends back on a segment carries no payload.
pub proof fn lemma_reply_is_bare(
    s: TcpStateView,
    remote_ip: VirtualIp,
    h: SegmentHeader,
    payload: Seq<u8>,
    now: u64,
    iss: u32,
)
    ensures
        spec_packet_reply(s, remote_ip, h, payload, now, iss) is Some ==> spec_packet_reply(
            s,
            remote_ip,
            h,
            payload,
            now,
            iss,
        )->0.payload == Seq::<u8>::empty(),
{
}

/// The oldest sequence number of this end that the peer has not
/// acknowledged: behind the data that was acknowledged, and behind the FIN
/// once that was.
pub open spec fn conn_snd_una(c: ConnView) -> u32 {
    if c.fin_acked {
        seq_add(c.send.una, 1)
    } else {
        c.send.una
    }
}

/// The send window holds at all times: `snd_nxt` lies at or after
/// `snd_una`, and at most the largest window after it. What lies between
/// the two is what is in flight: the data that was sent and not
/// acknowledged, and one for a FIN in the same condition.
pub proof fn lemma_connection_window(c: Established)
    requires
        c.wf(),
    ensures
        seq_distance(conn_snd_una(c@), conn_snd_nxt(c@)) == c.in_flight(),
        0 <= c.in_flight() <= CAPACITY,
{
    lemma_seq_add_distance(c.send.una, c.send.sent as int);
}

/// An acknowledgment moves `snd_una` forward or not at all: to the
/// acknowledged number where that lies behind `snd_una` and not behind
/// `snd_nxt`, which is the later of the two; and nowhere where the number
/// lies elsewhere, be it old or beyond all that was sent. So `snd_una`
/// never goes back and never passes `snd_nxt`.
pub proof fn lemma_ack_moves_una(c: Established, ack: u32, window: u16, now: u64)
    requires
        c.wf(),
    ensures
        ({
            let after = spec_take_ack(c@, ack, window, now);
            let d = seq_distance(conn_snd_una(c@), ack);
            &&& conn_snd_una(after) == if d <= c.in_flight() {
                ack
            } else {
                conn_snd_una(c@)
            }
            &&& seq_distance(conn_snd_una(c@), conn_snd_una(after)) <= c.in_flight()
            &&& seq_distance(conn_snd_una(after), conn_snd_nxt(c@)) == c.in_flight() - seq_distance(
                conn_snd_una(c@),
                conn_snd_una(after),
            )
        }),
{
    let v = c@;
    let after = spec_take_ack(v, ack, window, now);
    lemma_seq_add_distance(v.send.una, v.send.sent);
    lemma_connection_window(c);
    if acks_fin(v, ack) {
        let f = v.fin_seq->0;
        assert(view_newly_acked(v.send, f) == v.send.sent);
        assert(after.send.una == f);
        lemma_seq_add_distance(v.send.una, v.send.sent + 1);
        lemma_seq_add_add(v.send.una, v.send.sent, 1);
    } else {
        let k = view_newly_acked(v.send, ack);
        lemma_seq_add_distance(v.send.una, k);
        if v.fin_acked {
            lemma_seq_add_add(v.send.una, 0, 1);
        }
    }
}

/// An acknowledgment that has been taken changes nothing when it comes
/// again.
#[verifier::rlimit(30)]
pub proof fn lemma_ack_again(c: Established, ack: u32, window: u16, t1: u64, t2: u64)
    requires
        c.wf(),
    ensures
        spec_take_ack(spec_take_ack(c@, ack, window, t1), ack, window, t2) == spec_take_ack(
            c@,
            ack,
            window,
            t1,
        ),
{
    let v = c@;
    let c1 = spec_take_ack(v, ack, window, t1);
    let c2 = spec_take_ack(c1, ack, window, t2);
    lemma_queue_ack_again(v.rtx, ack, t2);
    assert(c1.rtx.skip(0) =~= c1.rtx);
    assert(c2.rtx == c1.rtx);
    assert(c2.rtt == c1.rtt);
    assert(!acks_fin(c1, ack));
    assert(c2.fin_acked == c1.fin_acked);
    if acks_fin(v, ack) {
        let f = v.fin_seq->0;
        lemma_seq_add_distance(v.send.una, v.send.sent);
        assert(view_newly_acked(v.send, f) == v.send.sent);
        lemma_on_ack_again(v.send, f, window);
        assert(c1.send == spec_on_ack(v.send, f, window));
        assert(c2.send == spec_on_ack(c1.send, ack, window));
    } else {
        lemma_on_ack_again(v.send, ack, window);
        let s1 = spec_on_ack(v.send, ack, window);
        assert(spec_on_ack(s1, ack, window) == s1);
        assert(spec_on_ack(SendView { sent: 0, ..s1 }, ack, window) == (SendView { sent: 0, ..s1 }))
            by {
            lemma_on_ack_again_rewound(s1, ack, window);
        }
    }
    assert(c2.send == c1.send);
}

/// A duplicate is answered as the first copy was: after a segment has been
/// taken, taking the same segment again leaves the connection as it is, so
/// the answer to the duplicate is the answer to the first copy.
#[verifier::rlimit(30)]
pub proof fn lemma_duplicate_same_ack(c: Established, h: SegmentHeader, payload: Seq<u8>, t1: u64, t2: u64)
    requires
        c.wf(),
        payload.len() <= 0xffff,
    ensures
        spec_conn_after(spec_conn_after(c@, h, payload, t1), h, payload, t2) == spec_conn_after(
            c@,
            h,
            payload,
            t1,
        ),
        spec_conn_reply(spec_conn_after(c@, h, payload, t1), h, payload, t2) == spec_conn_reply(
            c@,
            h,
            payload,
            t1,
        ),
{
    if !h.rst {
        let a1 = spec_conn_acked(c@, h, t1);
        let c1 = spec_conn_after(c@, h, payload, t1);
        if h.ack {
            lemma_ack_again(c, h.acknowledgment_number, h.window_size, t1, t2);
        }
        // the acknowledgment does not touch what the payload touches
        assert(a1.recv == c@.recv);
        assert(c1.send == a1.send && c1.rtx == a1.rtx && c1.rtt == a1.rtt && c1.fin_seq
            == a1.fin_seq && c1.fin_acked == a1.fin_acked && c1.write_closed == a1.write_closed);
        let a2 = spec_conn_acked(c1, h, t2);
        assert(spec_conn_acked(a1, h, t2) == a1);
        assert(a2.send == a1.send && a2.rtx == a1.rtx && a2.rtt == a1.rtt && a2.fin_acked
            == a1.fin_acked);
        assert(a2 == c1);
        if !a1.fin_received {
            lemma_on_segment_wf(a1.recv, h.sequence_number, payload);
            lemma_duplicate_segment(a1.recv, h.sequence_number, payload);
            if a1.read_closed {
                lemma_drained_duplicate(a1.recv, h.sequence_number, payload);
            }
        }
    }
}

/// The end comes after the data: a reader sees the end only when nothing
/// is left to read, and, unless the user shut down reading, only after the
/// peer's FIN has arrived; and the FIN is taken only in order, when all
/// that the peer sent before it has arrived.
pub proof fn lemma_end_after_data(c: ConnView, n: usize, seq: u32, payload: Seq<u8>, fin: bool)
    requires
        view_wf(c.recv),
    ensures
        spec_read_step(c, n) is Eof && !c.read_closed ==> c.recv.avail == 0 && c.fin_received,
        c.recv.avail > 0 && !c.read_closed ==> spec_read_step(c, n) is Data,
        brings_fin(c, seq, payload, fin) ==> spec_on_segment(c.recv, seq, payload).nxt == seq_add(
            seq,
            payload.len() as int,
        ) && spec_take_data(c, seq, payload, fin).fin_received && spec_take_data(
            c,
            seq,
            payload,
            fin,
        ).recv.nxt == seq_add(seq_add(seq, payload.len() as int), 1),
{
}

} // verus!
