//! The byte stream between the two ends of a connection: why what is read
//! at one end is what was written at the other, in order and whole, whatever
//! the wire between them loses, repeats or puts out of order.
//!
//! The laws here speak of one direction: of the end that writes (`tx`), the
//! end that reads (`rx`), and the stream of all octets that the writer's
//! send buffer has taken so far. First come the laws of each thing that can
//! happen while the stream is open, then those of its end, then the three
//! steps of the handshake that opens it, then the law of all that happens
//! from the handshake to the end of the stream. They hold as long as the
//! reader's user has not shut down reading, and of segments that arrive less
//! than 2^31 octets away from what the reader expects.

use crate::addr::VirtualIp;
use crate::protocol::tcp::buf::{
    agrees, in_line, lemma_ack_keeps_line, lemma_buffered_is_piece, lemma_piece_keeps_agreement,
    lemma_read_is_stream, lemma_read_keeps_line, lemma_run_end, lemma_seq_add_distance,
    lemma_seq_add_sum, lemma_stream_grows,
    piece_of_stream, send_view_wf, sender_in_line, seq_add, seq_distance, spec_next_len,
    spec_on_segment, spec_taken, spec_write, view_newly_acked, view_wf, CAPACITY,
};
use crate::protocol::tcp::prelude::{Port, SocketId};
use crate::protocol::tcp::segment::SegmentHeader;
use crate::protocol::tcp::socket::{
    acks_fin, conn_snd_nxt, conn_snd_una, control_header, fin_due, fresh_conn, spec_after_output,
    spec_after_read_step, spec_after_timer, spec_conn_acked, spec_conn_after, spec_next_output,
    spec_packet_reply, spec_packet_signals, spec_packet_state, spec_read_step, spec_take_ack,
    spec_timer_action, ConnView, Listen, MessageView, ReadStepView, SocketStatus, SynReceived,
    SynSent, TcpStateView, TimerActionView, UpdateAction, INITIAL_WINDOW,
};
use vstd::prelude::*;

verus! {

/// The sequence number of the first octet that `tx` sends: one after its
/// initial sequence number, which the SYN takes.
pub open spec fn first_seq(tx: ConnView) -> u32 {
    seq_add(tx.seq_no, 1)
}

/// Whether the two ends are in order about the stream from `tx` to `rx`:
/// the writer holds the part of `stream` that follows the `acked` octets
/// that were acknowledged to it; the reader's buffer agrees with `stream`,
/// its user has read `read` octets of it; and both count sequence numbers
/// from the writer's first.
pub open spec fn ends_agree(tx: ConnView, rx: ConnView, stream: Seq<u8>, acked: int, read: int) -> bool {
    &&& send_view_wf(tx.send)
    &&& view_wf(rx.recv)
    &&& sender_in_line(tx.send, first_seq(tx), acked)
    &&& acked + tx.send.data.len() == stream.len()
    &&& tx.send.data == stream.subrange(acked, stream.len() as int)
    &&& in_line(rx.recv, first_seq(tx), read)
    &&& read <= stream.len()
    &&& agrees(rx.recv, stream, read)
    &&& !rx.fin_received
    &&& !rx.read_closed
}

/// A connection begins in order: after the handshake, with nothing
/// written and nothing read, the two ends agree about the empty stream.
pub proof fn lemma_ends_agree_at_first(
    iss: u32,
    tx_port: Port,
    tx_ip: VirtualIp,
    rx_port: Port,
    rx_ip: VirtualIp,
    rx_iss: u32,
    tx_irs: u32,
    w1: u16,
    w2: u16,
    t1: u64,
    t2: u64,
)
    ensures
        ends_agree(
            fresh_conn(tx_port, rx_ip, rx_port, iss, tx_irs, w1, t1),
            fresh_conn(rx_port, tx_ip, tx_port, rx_iss, iss, w2, t2),
            Seq::empty(),
            0,
            0,
        ),
{
    let tx = fresh_conn(tx_port, rx_ip, rx_port, iss, tx_irs, w1, t1);
    assert(seq_add(first_seq(tx), 0) == first_seq(tx));
    assert(tx.send.data =~= Seq::<u8>::empty().subrange(0, 0));
}

/// Writing appends to the stream and changes nothing else between the ends.
pub proof fn lemma_written(
    tx: ConnView,
    rx: ConnView,
    stream: Seq<u8>,
    acked: int,
    read: int,
    bytes: Seq<u8>,
)
    requires
        ends_agree(tx, rx, stream, acked, read),
    ensures
        ends_agree(
            ConnView { send: spec_write(tx.send, bytes), ..tx },
            rx,
            stream + bytes.take(spec_taken(tx.send, bytes.len() as int)),
            acked,
            read,
        ),
{
    let n = spec_taken(tx.send, bytes.len() as int);
    let more = bytes.take(n);
    lemma_stream_grows(stream, more, 0, 0, 0, Seq::empty(), rx.recv, read);
    assert(tx.send.data + more =~= (stream + more).subrange(acked, (stream + more).len() as int));
}

/// Whatever the writer puts on the wire with payload is a piece of the
/// stream: the next segment of its output path, the segment that its timer
/// sends again, and the probe of a closed window.
pub proof fn lemma_emitted_is_piece(
    tx: ConnView,
    rx: ConnView,
    stream: Seq<u8>,
    acked: int,
    read: int,
    now: u64,
)
    requires
        ends_agree(tx, rx, stream, acked, read),
    ensures
        spec_next_output(tx) matches Some(m) ==> !m.header.fin ==> piece_of_stream(
            stream,
            first_seq(tx),
            acked + tx.send.sent,
            m.header.sequence_number,
            m.payload,
        ),
        spec_timer_action(tx, now) matches TimerActionView::Retransmit(m) ==> !m.header.fin
            ==> piece_of_stream(
            stream,
            first_seq(tx),
            acked + seq_distance(tx.send.una, m.header.sequence_number),
            m.header.sequence_number,
            m.payload,
        ),
        spec_timer_action(tx, now) matches TimerActionView::Probe(m) ==> piece_of_stream(
            stream,
            first_seq(tx),
            acked,
            m.header.sequence_number,
            m.payload,
        ),
{
    let first = first_seq(tx);
    match spec_next_output(tx) {
        Some(m) => {
            if !m.header.fin {
                lemma_buffered_is_piece(
                    tx.send,
                    stream,
                    acked,
                    first,
                    tx.send.sent,
                    spec_next_len(tx.send),
                );
            }
        },
        None => {},
    }
    match spec_timer_action(tx, now) {
        TimerActionView::Retransmit(m) => {
            if !m.header.fin {
                let e = tx.rtx[0];
                let off = seq_distance(tx.send.una, e.seq);
                lemma_buffered_is_piece(tx.send, stream, acked, first, off, e.len as int);
                assert(seq_add(tx.send.una, off) == e.seq);
            }
        },
        TimerActionView::Probe(m) => {
            lemma_buffered_is_piece(tx.send, stream, acked, first, 0, 1);
            assert(seq_add(tx.send.una, 0) == tx.send.una);
        },
        _ => {},
    }
}

/// The reader takes a segment that carries a piece of the stream, be it
/// new, old, a duplicate or ahead of a gap: the two ends agree still. What
/// the segment acknowledges of the reader's own stream has no part in this.
pub proof fn lemma_piece_taken(
    tx: ConnView,
    rx: ConnView,
    stream: Seq<u8>,
    acked: int,
    read: int,
    h: SegmentHeader,
    payload: Seq<u8>,
    o: int,
    now: u64,
)
    requires
        ends_agree(tx, rx, stream, acked, read),
        piece_of_stream(stream, first_seq(tx), o, h.sequence_number, payload),
        -0x8000_0000 <= o - (read + rx.recv.avail) < 0x8000_0000,
        !h.rst,
        !h.fin,
    ensures
        ends_agree(tx, spec_conn_after(rx, h, payload, now), stream, acked, read),
{
    let a = spec_conn_acked(rx, h, now);
    assert(a.recv == rx.recv && a.fin_received == rx.fin_received && a.read_closed
        == rx.read_closed);
    lemma_piece_keeps_agreement(rx.recv, stream, read, first_seq(tx), o, h.sequence_number, payload);
}

/// How many octets a reader gets that asks for `n`: what is ready, up to `n`.
pub open spec fn read_count(rx: ConnView, n: usize) -> int {
    if n <= rx.recv.avail {
        n as int
    } else {
        rx.recv.avail
    }
}

/// The reader reads: it gets the octets of the stream that follow those
/// that it has read before, as many as are ready and asked for, and the two
/// ends agree still. It is not told of an end while the writer's FIN has not
/// arrived.
pub proof fn lemma_read(tx: ConnView, rx: ConnView, stream: Seq<u8>, acked: int, read: int, n: usize)
    requires
        ends_agree(tx, rx, stream, acked, read),
    ensures
        rx.recv.avail > 0 ==> spec_read_step(rx, n) == ReadStepView::Data(
            stream.subrange(read, read + read_count(rx, n)),
        ),
        rx.recv.avail == 0 ==> spec_read_step(rx, n) is Wait,
        ends_agree(tx, spec_after_read_step(rx, n), stream, acked, read + read_count(rx, n)),
{
    let k = read_count(rx, n);
    lemma_read_keeps_line(rx.recv, stream, read, first_seq(tx), k);
    if rx.recv.avail == 0 {
        assert(spec_after_read_step(rx, n) == rx);
    }
}

/// Whether the stream from the writer has come to its end at the reader:
/// the writer's FIN has arrived in order, so all of `stream` has arrived,
/// and what the reader's user has not read yet waits in the buffer.
pub open spec fn stream_ended(rx: ConnView, stream: Seq<u8>, read: int) -> bool {
    &&& view_wf(rx.recv)
    &&& 0 <= read
    &&& read + rx.recv.avail == stream.len()
    &&& agrees(rx.recv, stream, read)
    &&& rx.fin_received
    &&& !rx.read_closed
}

/// The writer's FIN stands right behind the last octet of the stream. The
/// reader takes it only there: while octets of the stream are missing, the
/// two ends go on as they were; once all have arrived, the stream has ended
/// at the reader, with all that was not read still in the buffer.
pub proof fn lemma_fin_taken(
    tx: ConnView,
    rx: ConnView,
    stream: Seq<u8>,
    acked: int,
    read: int,
    h: SegmentHeader,
    now: u64,
)
    requires
        ends_agree(tx, rx, stream, acked, read),
        h.fin,
        !h.rst,
        h.sequence_number == seq_add(first_seq(tx), stream.len() as int),
        stream.len() - (read + rx.recv.avail) < 0x8000_0000,
    ensures
        read + rx.recv.avail == stream.len() ==> stream_ended(
            spec_conn_after(rx, h, Seq::empty(), now),
            stream,
            read,
        ),
        read + rx.recv.avail < stream.len() ==> ends_agree(
            tx,
            spec_conn_after(rx, h, Seq::empty(), now),
            stream,
            acked,
            read,
        ),
{
    let a = spec_conn_acked(rx, h, now);
    assert(a.recv == rx.recv && a.fin_received == rx.fin_received && a.read_closed
        == rx.read_closed);
    let o = stream.len() as int;
    let empty = Seq::<u8>::empty();
    assert(empty =~= stream.subrange(o, o));
    if rx.recv.avail > 0 {
        assert(rx.recv.window[rx.recv.avail - 1] is Some);
    }
    assert(read + rx.recv.avail <= stream.len());
    lemma_piece_keeps_agreement(rx.recv, stream, read, first_seq(tx), o, h.sequence_number, empty);
    let taken = spec_on_segment(rx.recv, h.sequence_number, empty);
    assert(taken.window =~= rx.recv.window);
    lemma_run_end(rx.recv.window, rx.recv.avail);
    assert(taken.avail == rx.recv.avail);
    assert(seq_add(rx.recv.nxt, 0) == rx.recv.nxt);
    assert(taken == rx.recv);
    assert(seq_add(h.sequence_number, 0) == h.sequence_number);
    if read + rx.recv.avail < stream.len() {
        let gap = stream.len() - (read + rx.recv.avail);
        lemma_seq_add_sum(first_seq(tx), read + rx.recv.avail, gap);
        lemma_seq_add_distance(rx.recv.nxt, gap);
        assert(rx.recv.nxt != h.sequence_number);
    }
}

/// After the end of the stream has arrived, the reader gets what is left
/// of the stream, in order, and is told of the end only when it has read
/// the last octet.
pub proof fn lemma_read_to_the_end(rx: ConnView, stream: Seq<u8>, read: int, n: usize)
    requires
        stream_ended(rx, stream, read),
    ensures
        rx.recv.avail > 0 ==> spec_read_step(rx, n) == ReadStepView::Data(
            stream.subrange(read, read + read_count(rx, n)),
        ),
        rx.recv.avail == 0 ==> spec_read_step(rx, n) is Eof && read == stream.len(),
        stream_ended(spec_after_read_step(rx, n), stream, read + read_count(rx, n)),
{
    let k = read_count(rx, n);
    lemma_read_is_stream(rx.recv, stream, read, k);
    if rx.recv.avail == 0 {
        assert(spec_after_read_step(rx, n) == rx);
    }
}

/// The block of a connection after the user has written the chunks
/// `chunks`, one after another.
pub open spec fn after_writes(c: ConnView, chunks: Seq<Seq<u8>>) -> ConnView
    decreases chunks.len(),
{
    if chunks.len() == 0 {
        c
    } else {
        let before = after_writes(c, chunks.drop_last());
        ConnView { send: spec_write(before.send, chunks.last()), ..before }
    }
}

/// Writing moves neither end of the send window: however much the user
/// hands over, and in however many steps, `snd_una` and `snd_nxt` stay
/// where they are, nothing more is in flight than before, and the buffer
/// never holds more than the largest window. All that is taken together is
/// no more than the largest window less what is in flight; what does not
/// fit waits with the writer. The window moves only when the output path
/// sends and when an acknowledgment arrives.
pub proof fn lemma_writes_leave_window(c: ConnView, chunks: Seq<Seq<u8>>)
    requires
        send_view_wf(c.send),
    ensures
        conn_snd_una(after_writes(c, chunks)) == conn_snd_una(c),
        conn_snd_nxt(after_writes(c, chunks)) == conn_snd_nxt(c),
        after_writes(c, chunks).send.sent == c.send.sent,
        send_view_wf(after_writes(c, chunks).send),
        c.send.data.len() <= after_writes(c, chunks).send.data.len() <= CAPACITY,
        after_writes(c, chunks).send.data.len() - c.send.data.len() <= CAPACITY - c.send.sent,
    decreases chunks.len(),
{
    if chunks.len() > 0 {
        lemma_writes_leave_window(c, chunks.drop_last());
    }
}

/// Whether the writer is in order about the stream: it holds the part of
/// `stream` that follows the `acked` octets that were acknowledged to it and
/// counts sequence numbers from its first; its FIN, once out, stands right
/// behind the last octet of the stream, after the user has closed and all
/// data has gone out; and the FIN is acknowledged only after all data.
pub open spec fn writer_in_order(tx: ConnView, stream: Seq<u8>, acked: int) -> bool {
    &&& send_view_wf(tx.send)
    &&& sender_in_line(tx.send, first_seq(tx), acked)
    &&& acked + tx.send.data.len() == stream.len()
    &&& tx.send.data == stream.subrange(acked, stream.len() as int)
    &&& tx.fin_seq is Some ==> tx.write_closed && tx.send.sent == tx.send.data.len()
        && tx.fin_seq->0 == seq_add(first_seq(tx), stream.len() as int)
    &&& tx.fin_acked ==> tx.fin_seq is Some && tx.send.data.len() == 0
}

/// The number up to which the acknowledgment `ack` covers the writer's
/// data: one that covers the FIN covers the data up to the FIN.
pub open spec fn data_acked(tx: ConnView, ack: u32) -> u32 {
    if acks_fin(tx, ack) {
        tx.fin_seq->0
    } else {
        ack
    }
}

/// The writer takes an acknowledgment, whatever its number, also after its
/// FIN is out: what leaves its buffer is the beginning of what it held, and
/// it is in order still.
pub proof fn lemma_ack_keeps_writer(
    tx: ConnView,
    stream: Seq<u8>,
    acked: int,
    ack: u32,
    window: u16,
    now: u64,
)
    requires
        writer_in_order(tx, stream, acked),
    ensures
        writer_in_order(
            spec_take_ack(tx, ack, window, now),
            stream,
            acked + view_newly_acked(tx.send, data_acked(tx, ack)),
        ),
{
    let d = data_acked(tx, ack);
    lemma_ack_keeps_line(tx.send, stream, acked, first_seq(tx), d, window);
    if acks_fin(tx, ack) {
        lemma_seq_add_distance(tx.send.una, tx.send.sent);
        lemma_seq_add_sum(first_seq(tx), acked, tx.send.sent);
        assert(view_newly_acked(tx.send, d) == tx.send.sent);
    }
}

/// The connection request that a socket in `SynSent` has sent.
pub open spec fn request_of(a: SynSent) -> MessageView {
    MessageView {
        header: control_header(a.src_port, a.dest_port, a.seq_no, None, true, false, INITIAL_WINDOW),
        payload: Seq::empty(),
    }
}

/// The socket that a listener opens for the request of `a`, which comes
/// from `a_ip`, with the initial sequence number `iss`.
pub open spec fn answering(a: SynSent, a_ip: VirtualIp, iss: u32) -> SynReceived {
    SynReceived {
        seq_no: iss,
        src_port: a.dest_port,
        dest_ip: a_ip,
        dest_port: a.src_port,
        irs: a.seq_no,
        peer_window: INITIAL_WINDOW,
    }
}

/// The answer to the request of `a`: a SYN with the initial sequence number
/// `iss` that acknowledges the request.
pub open spec fn answer_to(a: SynSent, iss: u32) -> MessageView {
    MessageView {
        header: control_header(
            a.dest_port,
            a.src_port,
            iss,
            Some(seq_add(a.seq_no, 1)),
            true,
            false,
            INITIAL_WINDOW,
        ),
        payload: Seq::empty(),
    }
}

/// The acknowledgment by which `a` completes the handshake.
pub open spec fn completion_of(a: SynSent, iss: u32) -> MessageView {
    MessageView {
        header: control_header(
            a.src_port,
            a.dest_port,
            seq_add(a.seq_no, 1),
            Some(seq_add(iss, 1)),
            false,
            false,
            INITIAL_WINDOW,
        ),
        payload: Seq::empty(),
    }
}

/// The first step of the handshake: a listener on the port that `a` asks
/// for takes the request at `t`. It stays as it is, asks the table for the
/// socket of the new connection and answers.
pub proof fn lemma_request_taken(a: SynSent, a_ip: VirtualIp, l: Listen, iss: u32, t: u64)
    requires
        a.dest_port == l.port,
    ensures
        ({
            let syn = request_of(a);
            let listening = TcpStateView::Listen(l);
            &&& spec_packet_signals(
                listening,
                SocketId::Listen(l.port),
                a_ip,
                syn.header,
                syn.payload,
                t,
                iss,
            ).update == Some(UpdateAction::NewSynReceivedSocket(answering(a, a_ip, iss)))
            &&& spec_packet_state(listening, a_ip, syn.header, syn.payload, t) == listening
            &&& spec_packet_reply(listening, a_ip, syn.header, syn.payload, t, iss) == Some(
                answer_to(a, iss),
            )
        }),
{
}

/// The second step: `a` takes the answer at `t`. It is established, with
/// a fresh connection block that holds the peer's initial sequence number,
/// its waiting user is woken, and it acknowledges the answer.
pub proof fn lemma_answer_taken(a: SynSent, iss: u32, t: u64, any: u32)
    ensures
        ({
            let answer = answer_to(a, iss);
            let asking = TcpStateView::SynSent(a);
            &&& spec_packet_state(asking, a.dest_ip, answer.header, answer.payload, t)
                == TcpStateView::Connected(
                SocketStatus::Established,
                fresh_conn(a.src_port, a.dest_ip, a.dest_port, a.seq_no, iss, INITIAL_WINDOW, t),
            )
            &&& spec_packet_signals(
                asking,
                SocketId::Connection(a.src_port, a.dest_ip, a.dest_port),
                a.dest_ip,
                answer.header,
                answer.payload,
                t,
                any,
            ).connected
            &&& spec_packet_reply(asking, a.dest_ip, answer.header, answer.payload, t, any) == Some(
                completion_of(a, iss),
            )
        }),
{
}

/// A fresh connection block that takes the acknowledgment of its SYN, with
/// nothing else in the segment, is as it was.
proof fn lemma_fresh_takes_bare_ack(c: ConnView, h: SegmentHeader, t: u64)
    requires
        c == fresh_conn(c.src_port, c.dest_ip, c.dest_port, c.seq_no, c.irs, h.window_size, t),
        h.ack && !h.syn && !h.rst && !h.fin,
        h.acknowledgment_number == seq_add(c.seq_no, 1),
        h.sequence_number == seq_add(c.irs, 1),
    ensures
        spec_conn_after(c, h, Seq::empty(), t) == c,
        spec_conn_acked(c, h, t) == c,
{
    let acked = spec_take_ack(c, h.acknowledgment_number, h.window_size, t);
    lemma_seq_add_distance(c.send.una, 0);
    assert(seq_add(c.send.una, 0) == c.send.una);
    assert(view_newly_acked(c.send, h.acknowledgment_number) == 0);
    assert(c.send.data.skip(0) =~= c.send.data);
    assert(c.rtx.skip(0) =~= c.rtx);
    assert(acked == c);
    let taken = spec_on_segment(c.recv, h.sequence_number, Seq::empty());
    assert(c.recv.window[0] is None);
    lemma_run_end(c.recv.window, 0);
    assert(taken.window =~= c.recv.window);
    assert(taken.avail == 0);
    assert(seq_add(c.recv.nxt, 0) == c.recv.nxt);
    assert(taken == c.recv);
}

/// The third step: the socket that the listener has opened takes the
/// acknowledgment at `t`. It is established, with a fresh connection block
/// that holds the peer's initial sequence number, and joins those that wait
/// to be accepted. It answers nothing.
pub proof fn lemma_completion_taken(a: SynSent, a_ip: VirtualIp, iss: u32, t: u64, any: u32)
    ensures
        ({
            let ack = completion_of(a, iss);
            let b = answering(a, a_ip, iss);
            let answered = TcpStateView::SynReceived(b);
            let signals = spec_packet_signals(
                answered,
                SocketId::Connection(b.src_port, b.dest_ip, b.dest_port),
                a_ip,
                ack.header,
                ack.payload,
                t,
                any,
            );
            &&& spec_packet_state(answered, a_ip, ack.header, ack.payload, t)
                == TcpStateView::Connected(
                SocketStatus::Established,
                fresh_conn(b.src_port, b.dest_ip, b.dest_port, iss, a.seq_no, INITIAL_WINDOW, t),
            )
            &&& signals.accepted
            &&& signals.status == SocketStatus::Established
            &&& signals.update is None
            &&& spec_packet_reply(answered, a_ip, ack.header, ack.payload, t, any) is None
        }),
{
    let ack = completion_of(a, iss);
    let b = answering(a, a_ip, iss);
    let c = fresh_conn(b.src_port, b.dest_ip, b.dest_port, iss, a.seq_no, INITIAL_WINDOW, t);
    lemma_fresh_takes_bare_ack(c, ack.header, t);
    assert(ack.payload == Seq::<u8>::empty());
}

/// The two ends of one direction of a connection, with the stream between
/// them: all octets that the writer's buffer has taken so far, how many of
/// them have been acknowledged to the writer and how many the reader's user
/// has read, and what that user has got.
pub struct Ends {
    pub tx: ConnView,
    pub rx: ConnView,
    pub stream: Seq<u8>,
    pub acked: int,
    pub read: int,
    pub got: Seq<u8>,
}

/// One thing that happens at one of the two ends.
pub enum Happening {
    /// The writer's user hands over these octets.
    Written(Seq<u8>),
    /// The writer's user closes the write half.
    Closed,
    /// The writer's output path emits its next segment at this time.
    Emitted(u64),
    /// The writer's timer is served at this time.
    Timed(u64),
    /// The wire hands the reader a segment: one that holds the octets of
    /// the stream from the `o`-th on, or the writer's FIN.
    Delivered { h: SegmentHeader, payload: Seq<u8>, o: int, now: u64 },
    /// The reader's user reads up to so many octets.
    Taken(usize),
    /// The wire hands the writer an acknowledgment, whatever its number.
    Acknowledged { ack: u32, window: u16, now: u64 },
}

/// Whether the two ends are in order: the writer is; the reader's buffer
/// agrees with the stream and counts as the writer does, or, once the
/// writer's FIN has arrived, holds all of the stream that was not read; and
/// the reader's user has got the beginning of the stream, as far as it has
/// read.
pub open spec fn in_order(e: Ends) -> bool {
    &&& writer_in_order(e.tx, e.stream, e.acked)
    &&& !e.rx.read_closed
    &&& if e.rx.fin_received {
        e.tx.fin_seq is Some && stream_ended(e.rx, e.stream, e.read)
    } else {
        ends_agree(e.tx, e.rx, e.stream, e.acked, e.read)
    }
    &&& e.got == e.stream.subrange(0, e.read)
}

/// Whether `ev` can happen at the ends `e`. A user writes only while it has
/// not closed. The wire may lose segments, repeat them and hand them over in
/// any order and at any time: so any piece of the stream may arrive at the
/// reader, the writer's FIN once it is out, and any acknowledgment at the
/// writer. A segment arrives less than 2^31 octets away from what the
/// reader expects.
pub open spec fn may_happen(e: Ends, ev: Happening) -> bool {
    match ev {
        Happening::Written(_) => !e.tx.write_closed,
        Happening::Delivered { h, payload, o, now } => {
            &&& !h.rst
            &&& if h.fin {
                &&& e.tx.fin_seq == Some(h.sequence_number)
                &&& payload.len() == 0
                &&& e.stream.len() - (e.read + e.rx.recv.avail) < 0x8000_0000
            } else {
                &&& piece_of_stream(e.stream, first_seq(e.tx), o, h.sequence_number, payload)
                &&& -0x8000_0000 <= o - (e.read + e.rx.recv.avail) < 0x8000_0000
            }
        },
        _ => true,
    }
}

/// What the reader's user gets from an attempt to read up to `n` octets.
pub open spec fn octets_read(rx: ConnView, n: usize) -> Seq<u8> {
    match spec_read_step(rx, n) {
        ReadStepView::Data(d) => d,
        _ => Seq::empty(),
    }
}

/// The ends after `ev` has happened.
pub open spec fn after_one(e: Ends, ev: Happening) -> Ends {
    match ev {
        Happening::Written(bytes) => Ends {
            tx: ConnView { send: spec_write(e.tx.send, bytes), ..e.tx },
            stream: e.stream + bytes.take(spec_taken(e.tx.send, bytes.len() as int)),
            ..e
        },
        Happening::Closed => Ends { tx: ConnView { write_closed: true, ..e.tx }, ..e },
        Happening::Emitted(now) => Ends { tx: spec_after_output(e.tx, now), ..e },
        Happening::Timed(now) => Ends { tx: spec_after_timer(e.tx, now), ..e },
        Happening::Delivered { h, payload, o, now } => Ends {
            rx: spec_conn_after(e.rx, h, payload, now),
            ..e
        },
        Happening::Taken(n) => Ends {
            rx: spec_after_read_step(e.rx, n),
            read: e.read + read_count(e.rx, n),
            got: e.got + octets_read(e.rx, n),
            ..e
        },
        Happening::Acknowledged { ack, window, now } => Ends {
            tx: spec_take_ack(e.tx, ack, window, now),
            acked: e.acked + view_newly_acked(e.tx.send, data_acked(e.tx, ack)),
            ..e
        },
    }
}

/// The ends after all of `events` have happened, in order.
pub open spec fn after_all(e: Ends, events: Seq<Happening>) -> Ends
    decreases events.len(),
{
    if events.len() == 0 {
        e
    } else {
        after_one(after_all(e, events.drop_last()), events.last())
    }
}

/// Whether each of `events` can happen when its turn comes.
pub open spec fn all_may_happen(e: Ends, events: Seq<Happening>) -> bool
    decreases events.len(),
{
    events.len() == 0 || (all_may_happen(e, events.drop_last()) && may_happen(
        after_all(e, events.drop_last()),
        events.last(),
    ))
}

/// A connection begins in order: after the handshake nothing is written,
/// nothing read and nothing got.
pub proof fn lemma_in_order_at_first(
    iss: u32,
    tx_port: Port,
    tx_ip: VirtualIp,
    rx_port: Port,
    rx_ip: VirtualIp,
    rx_iss: u32,
    tx_irs: u32,
    w1: u16,
    w2: u16,
    t1: u64,
    t2: u64,
)
    ensures
        in_order(
            Ends {
                tx: fresh_conn(tx_port, rx_ip, rx_port, iss, tx_irs, w1, t1),
                rx: fresh_conn(rx_port, tx_ip, tx_port, rx_iss, iss, w2, t2),
                stream: Seq::empty(),
                acked: 0,
                read: 0,
                got: Seq::empty(),
            },
        ),
{
    lemma_ends_agree_at_first(iss, tx_port, tx_ip, rx_port, rx_ip, rx_iss, tx_irs, w1, w2, t1, t2);
    assert(Seq::<u8>::empty().subrange(0, 0) =~= Seq::<u8>::empty());
}

/// What happens at the writer leaves the writer in order.
proof fn lemma_writer_keeps_order(e: Ends, ev: Happening)
    requires
        in_order(e),
        may_happen(e, ev),
    ensures
        writer_in_order(after_one(e, ev).tx, after_one(e, ev).stream, after_one(e, ev).acked),
        e.tx.fin_seq is Some ==> after_one(e, ev).tx.fin_seq is Some && after_one(e, ev).stream
            == e.stream,
        first_seq(after_one(e, ev).tx) == first_seq(e.tx),
{
    let a = after_one(e, ev);
    match ev {
        Happening::Written(bytes) => {
            let more = bytes.take(spec_taken(e.tx.send, bytes.len() as int));
            assert(e.tx.send.data + more =~= (e.stream + more).subrange(
                e.acked,
                (e.stream + more).len() as int,
            ));
        },
        Happening::Closed => {},
        Happening::Emitted(now) => {
            if spec_next_len(e.tx.send) <= 0 && fin_due(e.tx) {
                lemma_seq_add_sum(first_seq(e.tx), e.acked, e.tx.send.sent);
            }
        },
        Happening::Timed(now) => {},
        Happening::Delivered { h, payload, o, now } => {},
        Happening::Taken(n) => {},
        Happening::Acknowledged { ack, window, now } => {
            lemma_ack_keeps_writer(e.tx, e.stream, e.acked, ack, window, now);
        },
    }
}

/// After the handshake both streams are open: the two blocks that the
/// handshake leaves are in order about the stream from the end that asked
/// to the end that listened, and about the stream the other way.
pub proof fn lemma_handshake_opens_the_streams(a: SynSent, a_ip: VirtualIp, iss: u32, t2: u64, t3: u64)
    ensures
        ({
            let b = answering(a, a_ip, iss);
            let at_a = fresh_conn(a.src_port, a.dest_ip, a.dest_port, a.seq_no, iss, INITIAL_WINDOW, t2);
            let at_b = fresh_conn(b.src_port, b.dest_ip, b.dest_port, iss, a.seq_no, INITIAL_WINDOW, t3);
            &&& in_order(
                Ends {
                    tx: at_a,
                    rx: at_b,
                    stream: Seq::empty(),
                    acked: 0,
                    read: 0,
                    got: Seq::empty(),
                },
            )
            &&& in_order(
                Ends {
                    tx: at_b,
                    rx: at_a,
                    stream: Seq::empty(),
                    acked: 0,
                    read: 0,
                    got: Seq::empty(),
                },
            )
        }),
{
    lemma_in_order_at_first(
        a.seq_no,
        a.src_port,
        a_ip,
        a.dest_port,
        a.dest_ip,
        iss,
        iss,
        INITIAL_WINDOW,
        INITIAL_WINDOW,
        t2,
        t3,
    );
    lemma_in_order_at_first(
        iss,
        a.dest_port,
        a.dest_ip,
        a.src_port,
        a_ip,
        a.seq_no,
        a.seq_no,
        INITIAL_WINDOW,
        INITIAL_WINDOW,
        t3,
        t2,
    );
}

/// The reader takes a segment, and the two ends are in order still.
proof fn lemma_delivered_keeps_order(e: Ends, h: SegmentHeader, payload: Seq<u8>, o: int, now: u64)
    requires
        in_order(e),
        may_happen(e, Happening::Delivered { h, payload, o, now }),
    ensures
        in_order(Ends { rx: spec_conn_after(e.rx, h, payload, now), ..e }),
{
    let acked = spec_conn_acked(e.rx, h, now);
    assert(acked.recv == e.rx.recv && acked.fin_received == e.rx.fin_received && acked.read_closed
        == e.rx.read_closed);
    if e.rx.fin_received {
        assert(spec_conn_after(e.rx, h, payload, now) == acked);
    } else if h.fin {
        assert(payload =~= Seq::<u8>::empty());
        lemma_fin_taken(e.tx, e.rx, e.stream, e.acked, e.read, h, now);
    } else {
        lemma_piece_taken(e.tx, e.rx, e.stream, e.acked, e.read, h, payload, o, now);
    }
}

/// The reader's user reads, and the two ends are in order still.
proof fn lemma_taken_keeps_order(e: Ends, n: usize)
    requires
        in_order(e),
    ensures
        in_order(
            Ends {
                rx: spec_after_read_step(e.rx, n),
                read: e.read + read_count(e.rx, n),
                got: e.got + octets_read(e.rx, n),
                ..e
            },
        ),
        0 <= read_count(e.rx, n),
{
    let k = read_count(e.rx, n);
    if e.rx.fin_received {
        lemma_read_to_the_end(e.rx, e.stream, e.read, n);
    } else {
        lemma_read(e.tx, e.rx, e.stream, e.acked, e.read, n);
    }
    assert(e.stream.subrange(0, e.read) + e.stream.subrange(e.read, e.read + k)
        =~= e.stream.subrange(0, e.read + k));
    assert(e.stream.subrange(0, e.read) + Seq::<u8>::empty() =~= e.stream.subrange(0, e.read));
}

/// The writer's user writes, and the two ends are in order still.
proof fn lemma_written_keeps_order(e: Ends, bytes: Seq<u8>)
    requires
        in_order(e),
        !e.tx.write_closed,
    ensures
        in_order(after_one(e, Happening::Written(bytes))),
        after_one(e, Happening::Written(bytes)).stream.subrange(0, e.stream.len() as int)
            == e.stream,
{
    let a = after_one(e, Happening::Written(bytes));
    lemma_writer_keeps_order(e, Happening::Written(bytes));
    lemma_written(e.tx, e.rx, e.stream, e.acked, e.read, bytes);
    assert(a.stream.subrange(0, e.stream.len() as int) =~= e.stream);
    assert(a.stream.subrange(0, e.read) =~= e.stream.subrange(0, e.read));
}

/// What the writer does by itself, and what it takes from the wire, leaves
/// the two ends in order.
proof fn lemma_writer_moves_keep_order(e: Ends, ev: Happening)
    requires
        in_order(e),
        ev is Closed || ev is Emitted || ev is Timed || ev is Acknowledged,
    ensures
        in_order(after_one(e, ev)),
        after_one(e, ev).stream == e.stream,
        after_one(e, ev).read == e.read,
        e.tx.write_closed ==> after_one(e, ev).tx.write_closed,
{
    lemma_writer_keeps_order(e, ev);
    let a = after_one(e, ev);
    assert(a.rx == e.rx && a.stream == e.stream && a.read == e.read && a.got == e.got);
    if !e.rx.fin_received {
        assert(ends_agree(a.tx, a.rx, a.stream, a.acked, a.read));
    }
}

/// One thing that happens leaves the two ends in order, and the stream
/// grows at its end only.
pub proof fn lemma_one_keeps_order(e: Ends, ev: Happening)
    requires
        in_order(e),
        may_happen(e, ev),
    ensures
        in_order(after_one(e, ev)),
        e.stream.len() <= after_one(e, ev).stream.len(),
        after_one(e, ev).stream.subrange(0, e.stream.len() as int) == e.stream,
        e.read <= after_one(e, ev).read,
        e.tx.write_closed ==> after_one(e, ev).tx.write_closed && after_one(e, ev).stream
            == e.stream,
{
    assert(e.stream.subrange(0, e.stream.len() as int) =~= e.stream);
    match ev {
        Happening::Written(bytes) => {
            lemma_written_keeps_order(e, bytes);
        },
        Happening::Delivered { h, payload, o, now } => {
            lemma_delivered_keeps_order(e, h, payload, o, now);
        },
        Happening::Taken(n) => {
            lemma_taken_keeps_order(e, n);
        },
        _ => {
            lemma_writer_moves_keep_order(e, ev);
        },
    }
}

/// What is read at one end is what was written at the other, in order and
/// whole: whatever happens at the two ends, in whatever order, and whatever
/// the wire loses, repeats or delays, the reader's user has got the
/// beginning of the stream that the writer's buffer has taken, no octet
/// lost, none twice and none out of its place. Once it has read as many
/// octets as were taken, it has got them all. And once the writer's FIN has
/// arrived, the reader holds all of the stream that was not read, so that
/// its user is told of the end only behind the last octet.
pub proof fn lemma_what_is_read_was_written(e: Ends, events: Seq<Happening>)
    requires
        in_order(e),
        all_may_happen(e, events),
    ensures
        in_order(after_all(e, events)),
        after_all(e, events).got == after_all(e, events).stream.subrange(
            0,
            after_all(e, events).read,
        ),
        after_all(e, events).read == after_all(e, events).stream.len() ==> after_all(e, events).got
            == after_all(e, events).stream,
        after_all(e, events).rx.fin_received ==> stream_ended(
            after_all(e, events).rx,
            after_all(e, events).stream,
            after_all(e, events).read,
        ),
        e.stream.len() <= after_all(e, events).stream.len(),
        after_all(e, events).stream.subrange(0, e.stream.len() as int) == e.stream,
        e.read <= after_all(e, events).read <= after_all(e, events).stream.len(),
        e.tx.write_closed ==> after_all(e, events).stream == e.stream,
    decreases events.len(),
{
    let a = after_all(e, events);
    if events.len() == 0 {
        assert(e.stream.subrange(0, e.stream.len() as int) =~= e.stream);
    } else {
        let before = after_all(e, events.drop_last());
        lemma_what_is_read_was_written(e, events.drop_last());
        lemma_one_keeps_order(before, events.last());
        lemma_closed_stays_closed(e, events.drop_last());
        assert(a.stream.subrange(0, e.stream.len() as int) =~= before.stream.subrange(
            0,
            before.stream.len() as int,
        ).subrange(0, e.stream.len() as int));
    }
    assert(a.stream.subrange(0, a.stream.len() as int) =~= a.stream);
}

/// A write half that is closed stays closed.
proof fn lemma_closed_stays_closed(e: Ends, events: Seq<Happening>)
    requires
        in_order(e),
        all_may_happen(e, events),
    ensures
        in_order(after_all(e, events)),
        e.tx.write_closed ==> after_all(e, events).tx.write_closed,
    decreases events.len(),
{
    if events.len() > 0 {
        lemma_closed_stays_closed(e, events.drop_last());
        lemma_one_keeps_order(after_all(e, events.drop_last()), events.last());
    }
}

} // verus!
