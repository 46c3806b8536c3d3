//! A node: the forwarding plane, the routing protocol and the transport,
//! put together. Each function here is one step of the node; the caller
//! owns the datagram sockets, the clock and the tasks.

use crate::addr::VirtualIp;
use crate::drop_policy::DropPolicy;
use crate::ip::link::TTL;
use crate::net::ipv4::{encode_datagram, spec_datagram, spec_read_datagram, Ipv4Info};
use crate::net::{spec_out_link, spec_receive, DropReason, Inbound, InboundView, Net, SendError};
use crate::protocol::rip::{message_bytes, spec_parse_rip, ParseRipError, RipCommand, RipMessage};
use crate::protocol::tcp::prelude::{Port, Remote, SocketDescriptor, SocketId};
use crate::protocol::tcp::segment::{
    encode_segment, segment_payload, spec_read_segment, spec_segment, TcpMessage,
};
use crate::protocol::tcp::socket::{
    lemma_reply_is_bare, message_view, messages_view, MessageView, SocketView, TcpConn, TimerAction,
    TimerActionView,
};
use crate::protocol::tcp::{
    actions_view, emitted_view, flushed_segments, flushed_socket, lemma_find_from,
    read_all_stepped, read_all_stepped_by_descriptor, segment_handled, spec_target,
    spec_window_update, syn_message, timer_actions, timer_survivors, Delivery, SocketBuilder, Tcp,
    TcpConnError, TcpReadError, TransportError,
};
use crate::protocol::Protocol;
use crate::route::{
    lemma_local_routes_stay, spec_apply_update, spec_expire, spec_is_local, spec_snapshot,
    spec_update_changed,
};
use vstd::prelude::*;

verus! {

/// How often a node says its table to its neighbours, in milliseconds.
pub const RIP_UPDATE_INTERVAL: u64 = 5000;

/// How long an entry of the routing table lasts without being refreshed,
/// in milliseconds.
pub const ROUTING_ENTRY_MAX_AGE: u64 = 12000;

/// The largest payload of a segment that still fits one datagram.
pub const MAX_SEGMENT_PAYLOAD: usize = 65495;

/// A datagram to hand to a link.
pub struct Outgoing {
    pub link: usize,
    pub datagram: Vec<u8>,
}

/// A node.
pub struct Node {
    pub net: Net,
    pub tcp: Tcp,
    /// How long an entry of the routing table lasts without being refreshed.
    pub max_age: u64,
}

/// What a node did with a received datagram.
pub enum Handled {
    /// It let the datagram go.
    Dropped(DropReason),
    /// It sends the datagram on.
    Forwarded(Outgoing),
    /// The datagram brought a test message for this node.
    Test(Vec<u8>),
    /// The datagram brought a routing message that cannot be read.
    BadRip(ParseRipError),
    /// The datagram brought a request for the routing table: the answer
    /// goes back on the link that the request came on.
    RipRequest(Outgoing),
    /// The datagram brought entries for the routing table; `changed` says
    /// whether the cost to any destination changed.
    RipResponse { changed: bool },
    /// The datagram brought a segment for the transport. `out` is the
    /// datagram of the answer, where there is an answer and a route for it.
    Tcp { delivery: Delivery, out: Option<Outgoing> },
}

/// The datagram that carries the segment `m` to `remote_ip` from the
/// address `src`.
pub open spec fn segment_datagram(src: VirtualIp, remote_ip: VirtualIp, m: MessageView) -> Seq<u8> {
    spec_datagram(src, remote_ip, 6, TTL, spec_segment(src, remote_ip, m.header, m.payload))
}

/// The datagram that says the routing table `routes` on the link `link`
/// of `net`.
pub open spec fn advertisement(net: Net, link: usize) -> Seq<u8> {
    spec_datagram(
        net.links@[link as int].src_virtual_ip,
        net.links@[link as int].dest_virtual_ip,
        200,
        TTL,
        message_bytes(RipCommand::Response, spec_snapshot(net.routes.routes@, link)),
    )
}

impl Node {
    /// The parts are well-formed.
    pub open spec fn wf(&self) -> bool {
        self.net.wf() && self.tcp.wf()
    }

    /// A node without links, routes or sockets: nobody waits to be
    /// accepted, no descriptor names anything, and the first connection will
    /// go out from port 1024 under the descriptor 0.
    pub fn new(max_age: u64) -> (n: Self)
        ensures
            n.wf(),
            n.max_age == max_age,
            n.net.links@.len() == 0,
            n.net.routes.routes@.len() == 0,
            n.tcp.sockets.socket_map@.len() == 0,
            n.tcp.sockets.socket_id_map@.len() == 0,
            n.tcp.sockets.socket_builder.next_port == 1024,
            n.tcp.sockets.socket_builder.next_socket_descriptor == 0,
            n.tcp.accept_queue@.len() == 0,
    {
        Node { net: Net::new(), tcp: Tcp::new(), max_age }
    }

    /// Builds the datagram that carries the segment `m` to `remote_ip`. The
    /// segment's checksum is computed with the address of the outbound link
    /// as the source, which is the source of the datagram.
    pub fn send_segment(&self, remote_ip: VirtualIp, m: &TcpMessage) -> (r: Result<Outgoing, SendError>)
        requires
            m.payload@.len() <= MAX_SEGMENT_PAYLOAD,
        ensures
            match spec_out_link(self.net, remote_ip) {
                Err(e) => r is Err && r->Err_0 == e,
                Ok(link) => r is Ok && r->Ok_0.link == link && r->Ok_0.datagram@
                    == segment_datagram(self.net.links@[link as int].src_virtual_ip, remote_ip, m@),
            },
    {
        let link = match self.net.out_link(remote_ip) {
            Ok(link) => link,
            Err(e) => {
                return Err(e);
            },
        };
        let src = self.net.links[link].src_virtual_ip;
        let segment = encode_segment(src, remote_ip, &m.header, m.payload.as_slice());
        proof {
            crate::protocol::tcp::segment::lemma_header_bytes(m.header, 0);
        }
        let datagram = encode_datagram(src, remote_ip, 6, TTL, segment.as_slice());
        Ok(Outgoing { link, datagram })
    }

    /// Opens a connection to `remote`. Where the routing table has no way
    /// to `remote`, or the link is down, nothing changes and the destination
    /// is reported as unreachable, whatever the socket table holds. Else a
    /// socket for the connection joins the table, for which a port and a
    /// descriptor must be left, and the datagram of the connection request
    /// is given with the handle of the connection.
    pub fn connect(&mut self, remote: Remote) -> (r: Result<(TcpConn, Outgoing), TcpConnError>)
        requires
            old(self).wf(),
            spec_out_link(old(self).net, remote.ip) is Ok ==> old(self).tcp.sockets.socket_builder
                .has_room(),
        ensures
            final(self).wf(),
            final(self).net == old(self).net,
            final(self).max_age == old(self).max_age,
            spec_out_link(old(self).net, remote.ip) is Err ==> r is Err && r->Err_0
                == TcpConnError::Transport(TransportError::DestUnreachable(remote.ip))
                    && final(self).tcp == old(self).tcp,
            spec_out_link(old(self).net, remote.ip) is Ok ==> ({
                let b = old(self).tcp.sockets.socket_builder;
                let names = old(self).tcp.sockets.socket_id_map@;
                &&& final(self).tcp.accept_queue == old(self).tcp.accept_queue
                &&& final(self).tcp.sockets.socket_builder == (SocketBuilder {
                    next_port: (b.next_port + 1) as u16,
                    next_socket_descriptor: (b.next_socket_descriptor + 1) as usize,
                })
                &&& final(self).tcp.sockets.socket_id_map@ == if r is Ok {
                    names.push(
                        (
                            SocketDescriptor(b.next_socket_descriptor as u16),
                            SocketId::Connection(Port(b.next_port), remote.ip, remote.port),
                        ),
                    )
                } else {
                    names
                }
            }),
            spec_out_link(old(self).net, remote.ip) is Ok ==> ({
                let local = Port(old(self).tcp.sockets.socket_builder.next_port);
                let id = SocketId::Connection(local, remote.ip, remote.port);
                match old(self).tcp.sockets.spec_index(id) {
                    Some(_) => r is Err && r->Err_0 == TcpConnError::ConnectionExists(remote),
                    None => {
                        let sockets = final(self).tcp.sockets.socket_map@;
                        &&& r is Ok
                        &&& r->Ok_0.0.id == id
                        &&& r->Ok_0.1.link == spec_out_link(old(self).net, remote.ip)->Ok_0
                        &&& sockets.len() == old(self).tcp.sockets.socket_map@.len() + 1
                        &&& sockets.drop_last() == old(self).tcp.sockets.socket_map@
                        &&& sockets.last().id == id
                        &&& sockets.last().descriptor == SocketDescriptor(
                            old(self).tcp.sockets.socket_builder.next_socket_descriptor as u16,
                        )
                        &&& sockets.last()@.state is SynSent
                        &&& r->Ok_0.1.datagram@ == segment_datagram(
                            old(self).net.links@[r->Ok_0.1.link as int].src_virtual_ip,
                            remote.ip,
                            syn_message(local, remote, sockets.last()@.state->SynSent_0.seq_no),
                        )
                    },
                }
            }),
    {
        if self.net.out_link(remote.ip).is_err() {
            return Err(TcpConnError::Transport(TransportError::DestUnreachable(remote.ip)));
        }
        let (conn, syn) = match self.tcp.connect(remote) {
            Ok(r) => r,
            Err(e) => {
                return Err(e);
            },
        };
        match self.send_segment(remote.ip, &syn) {
            Ok(out) => Ok((conn, out)),
            Err(_) => Err(TcpConnError::Transport(TransportError::DestUnreachable(remote.ip))),
        }
    }

    /// The datagram that says the routing table on the link `link`: every
    /// entry at its cost, but at 16 what was learned on that link. `None`
    /// for a link that is not there or is down.
    pub fn advertise(&self, link: usize) -> (r: Option<Outgoing>)
        requires
            self.wf(),
        ensures
            match r {
                Some(out) => link < self.net.links@.len() && self.net.links@[link as int].up
                    && out.link == link && out.datagram@ == advertisement(self.net, link),
                None => link >= self.net.links@.len() || !self.net.links@[link as int].up,
            },
    {
        if link >= self.net.links.len() || !self.net.links[link].up {
            return None;
        }
        let l = self.net.links[link];
        let m = RipMessage { command: RipCommand::Response, entries: self.net.routes.snapshot_for(link) };
        let bytes = m.to_bytes();
        proof {
            crate::protocol::rip::lemma_entries_bytes_len(m.entries@);
            assert(bytes@.len() == 4 + 12 * m.entries@.len());
        }
        Some(
            Outgoing {
                link,
                datagram: encode_datagram(
                    l.src_virtual_ip,
                    l.dest_virtual_ip,
                    200,
                    TTL,
                    bytes.as_slice(),
                ),
            },
        )
    }

    /// Sweeps the routing table at `now`.
    pub fn sweep(&mut self, now: u64)
        requires
            old(self).wf(),
        ensures
            final(self).wf(),
            final(self).tcp == old(self).tcp,
            final(self).net.links == old(self).net.links,
            final(self).max_age == old(self).max_age,
            final(self).net.routes.routes@ == spec_expire(
                old(self).net.routes.routes@,
                now,
                old(self).max_age,
            ),
    {
        proof {
            assert forall|i: int| 0 <= i < self.net.links@.len() implies spec_is_local(
                spec_expire(self.net.routes.routes@, now, self.max_age),
                (#[trigger] self.net.links@[i]).src_virtual_ip,
            ) by {
                let vip = self.net.links@[i].src_virtual_ip;
                lemma_local_routes_stay(
                    self.net.routes.routes@,
                    vip,
                    0,
                    vip,
                    Seq::empty(),
                    now,
                    self.max_age,
                    vip,
                );
            }
        }
        self.net.routes.expire(now, self.max_age);
    }

    /// Takes a routing message that arrived on `link` from `from`.
    fn on_rip(&mut self, link: usize, from: VirtualIp, payload: &[u8], now: u64) -> (r: Handled)
        requires
            old(self).wf(),
            link < old(self).net.links@.len(),
            old(self).net.links@[link as int].up,
        ensures
            final(self).wf(),
            final(self).tcp == old(self).tcp,
            final(self).net.links == old(self).net.links,
            final(self).max_age == old(self).max_age,
            match spec_parse_rip(payload@) {
                Err(e) => r matches Handled::BadRip(err) && err == e && final(self).net.routes
                    == old(self).net.routes,
                Ok((RipCommand::Request, _)) => r matches Handled::RipRequest(out) && out.link
                    == link
                        && out.datagram@ == advertisement(old(self).net, link)
                        && final(self).net.routes == old(self).net.routes,
                Ok((RipCommand::Response, entries)) => r is RipResponse && r->changed
                    == spec_update_changed(
                    old(self).net.routes.routes@,
                    link,
                    from,
                    entries,
                    now,
                    old(self).max_age,
                ) && final(self).net.routes.routes@ == spec_apply_update(
                    old(self).net.routes.routes@,
                    link,
                    from,
                    entries,
                    now,
                    old(self).max_age,
                ),
            },
    {
        let m = match RipMessage::from_bytes(payload) {
            Ok(m) => m,
            Err(e) => {
                return Handled::BadRip(e);
            },
        };
        match m.command {
            RipCommand::Request => match self.advertise(link) {
                Some(out) => Handled::RipRequest(out),
                None => Handled::Dropped(DropReason::InterfaceDown),
            },
            RipCommand::Response => {
                proof {
                    assert forall|i: int| 0 <= i < self.net.links@.len() implies spec_is_local(
                        spec_apply_update(
                            self.net.routes.routes@,
                            link,
                            from,
                            m.entries@,
                            now,
                            self.max_age,
                        ),
                        (#[trigger] self.net.links@[i]).src_virtual_ip,
                    ) by {
                        let vip = self.net.links@[i].src_virtual_ip;
                        lemma_local_routes_stay(
                            self.net.routes.routes@,
                            vip,
                            link,
                            from,
                            m.entries@,
                            now,
                            self.max_age,
                            vip,
                        );
                    }
                }
                let changed = self.net.routes.apply_update(
                    link,
                    from,
                    m.entries.as_slice(),
                    now,
                    self.max_age,
                );
                Handled::RipResponse { changed }
            },
        }
    }
}

/// What the drop policy `p` says of the datagram `datagram` that arrived
/// on `link`; it is asked only about a datagram that can be read and came
/// in on an interface that is up.
pub open spec fn policy_verdict<DP: DropPolicy>(p: DP, net: Net, link: usize, datagram: Seq<u8>) -> bool {
    if spec_read_datagram(datagram) is Ok && link < net.links@.len() && net.links@[link as int].up {
        p.drops_next(spec_read_datagram(datagram)->Ok_0)
    } else {
        false
    }
}

/// The datagram of the answer `reply` to a segment from `remote_ip`, where
/// there is an answer and a way to send it.
pub open spec fn reply_datagram(net: Net, remote_ip: VirtualIp, reply: Option<MessageView>) -> Option<
    (usize, Seq<u8>),
> {
    match (reply, spec_out_link(net, remote_ip)) {
        (Some(m), Ok(link)) => Some(
            (link, segment_datagram(net.links@[link as int].src_virtual_ip, remote_ip, m)),
        ),
        _ => None,
    }
}

/// The view of an optional outgoing datagram.
pub open spec fn outgoing_view(o: Option<Outgoing>) -> Option<(usize, Seq<u8>)> {
    match o {
        Some(o) => Some((o.link, o.datagram@)),
        None => None,
    }
}

impl Node {
    /// Takes a segment that arrived in a datagram with the header `info`.
    fn on_tcp(&mut self, info: &Ipv4Info, payload: &[u8], now: u64, iss: u32) -> (r: Handled)
        requires
            old(self).wf(),
        ensures
            final(self).wf(),
            final(self).net == old(self).net,
            final(self).max_age == old(self).max_age,
            r is Tcp,
            segment_handled(
                old(self).tcp,
                final(self).tcp,
                r->Tcp_delivery,
                info.source,
                info.destination,
                payload@,
                now,
                iss,
            ),
            outgoing_view(r->Tcp_out) == reply_datagram(
                old(self).net,
                info.source,
                message_view(r->Tcp_delivery.reply),
            ),
    {
        let delivery = self.tcp.handle_segment(info.source, info.destination, payload, now, iss);
        let out = match &delivery.reply {
            Some(m) => {
                proof {
                    let h = spec_read_segment(info.source, info.destination, payload@)->Ok_0;
                    let i = spec_target(old(self).tcp.sockets.socket_map@, h, info.source)->0;
                    lemma_reply_is_bare(
                        old(self).tcp@[i].state,
                        info.source,
                        h,
                        segment_payload(payload@),
                        now,
                        iss,
                    );
                }
                match self.send_segment(info.source, m) {
                    Ok(out) => Some(out),
                    Err(_) => None,
                }
            },
            None => None,
        };
        Handled::Tcp { delivery, out }
    }

    /// Handles a datagram that arrived on the link `link` at time `now`.
    /// `iss` is the initial sequence number for a connection that a listener
    /// opens.
    ///
    /// The forwarding plane decides first: the datagram is let go, sent on,
    /// or delivered to its protocol. A test message is handed up as it is.
    /// A routing message is read: a request is answered with the table as
    /// it is said on that link, and the entries of a response go into the
    /// table as learned on that link from the datagram's source. A segment
    /// goes to the transport, and the transport's answer is put into a
    /// datagram for the segment's source.
    pub fn on_datagram<DP: DropPolicy>(
        &mut self,
        drop_policy: &mut DP,
        link: usize,
        datagram: &[u8],
        now: u64,
        iss: u32,
    ) -> (r: Handled)
        requires
            old(self).wf(),
        ensures
            final(self).wf(),
            final(self).net.links == old(self).net.links,
            final(self).max_age == old(self).max_age,
            match spec_receive(
                old(self).net,
                link,
                policy_verdict(*old(drop_policy), old(self).net, link, datagram@),
                datagram@,
            ) {
                InboundView::Drop(why) => r is Dropped && r->Dropped_0 == why && *final(self)
                    == *old(self),
                InboundView::Forward { link: out, datagram: bytes } => r is Forwarded
                    && r->Forwarded_0.link == out
                        && r->Forwarded_0.datagram@ == bytes
                        && *final(self) == *old(self),
                InboundView::Deliver { protocol: Protocol::Test, info, payload } => r is Test
                    && r->Test_0@ == payload && *final(self) == *old(self),
                InboundView::Deliver { protocol: Protocol::Rip, info, payload } => final(self).tcp
                    == old(self).tcp && match spec_parse_rip(payload) {
                    Err(e) => r is BadRip
                        && r->BadRip_0 == e
                        && final(self).net.routes == old(self).net.routes,
                    Ok((RipCommand::Request, _)) => r is RipRequest && r->RipRequest_0.link == link
                        && r->RipRequest_0.datagram@ == advertisement(old(self).net, link)
                        && final(self).net.routes == old(self).net.routes,
                    Ok((RipCommand::Response, entries)) => r is RipResponse && r->changed
                    == spec_update_changed(
                    old(self).net.routes.routes@,
                    link,
                    info.source,
                    entries,
                    now,
                    old(self).max_age,
                ) && final(self).net.routes.routes@ == spec_apply_update(
                        old(self).net.routes.routes@,
                        link,
                        info.source,
                        entries,
                        now,
                        old(self).max_age,
                    ),
                },
                InboundView::Deliver { protocol: Protocol::Tcp, info, payload } => r is Tcp
                    && final(self).net == old(self).net && segment_handled(
                    old(self).tcp,
                    final(self).tcp,
                    r->Tcp_delivery,
                    info.source,
                    info.destination,
                    payload,
                    now,
                    iss,
                ) && outgoing_view(r->Tcp_out) == reply_datagram(
                    old(self).net,
                    info.source,
                    message_view(r->Tcp_delivery.reply),
                ),
            },
    {
        match self.net.receive(drop_policy, link, datagram) {
            Inbound::Drop(why) => Handled::Dropped(why),
            Inbound::Forward { link: out, datagram: bytes } => Handled::Forwarded(
                Outgoing { link: out, datagram: bytes },
            ),
            Inbound::Deliver { protocol, info, payload } => match protocol {
                Protocol::Test => Handled::Test(payload),
                Protocol::Rip => self.on_rip(link, info.source, payload.as_slice(), now),
                Protocol::Tcp => self.on_tcp(&info, payload.as_slice(), now, iss),
            },
        }
    }
}

/// The datagram that carries the segment `m` of the socket `id` to the
/// socket's far end, where the socket has a far end, the segment fits a
/// datagram and there is a way to send it.
pub open spec fn datagram_of(net: Net, id: SocketId, m: MessageView) -> Option<(usize, Seq<u8>)> {
    match id {
        SocketId::Connection(_, ip, _) => if m.payload.len() <= MAX_SEGMENT_PAYLOAD {
            reply_datagram(net, ip, Some(m))
        } else {
            None
        },
        SocketId::Listen(_) => None,
    }
}

/// The datagram of an optional datagram, as a list.
pub open spec fn as_list(d: Option<(usize, Seq<u8>)>) -> Seq<(usize, Seq<u8>)> {
    match d {
        Some(d) => seq![d],
        None => Seq::empty(),
    }
}

/// The datagrams of the segments `msgs` of the socket `id`, in order;
/// segments that cannot be sent are passed over.
pub open spec fn wrapped(net: Net, id: SocketId, msgs: Seq<MessageView>) -> Seq<(usize, Seq<u8>)>
    decreases msgs.len(),
{
    if msgs.len() == 0 {
        Seq::empty()
    } else {
        wrapped(net, id, msgs.drop_last()) + as_list(datagram_of(net, id, msgs.last()))
    }
}

/// The datagrams of the segments of several sockets, socket by socket.
pub open spec fn wrapped_all(net: Net, lists: Seq<(SocketId, Seq<MessageView>)>) -> Seq<
    (usize, Seq<u8>),
>
    decreases lists.len(),
{
    if lists.len() == 0 {
        Seq::empty()
    } else {
        wrapped_all(net, lists.drop_last()) + wrapped(net, lists.last().0, lists.last().1)
    }
}

/// The segment that a timer asks to send, if it asks for one.
pub open spec fn timer_segment(a: TimerActionView) -> Option<MessageView> {
    match a {
        TimerActionView::Retransmit(m) => Some(m),
        TimerActionView::Probe(m) => Some(m),
        _ => None,
    }
}

/// The datagrams of what the timers ask to send, in order.
pub open spec fn timer_datagrams(net: Net, acts: Seq<(SocketId, TimerActionView)>) -> Seq<
    (usize, Seq<u8>),
>
    decreases acts.len(),
{
    if acts.len() == 0 {
        Seq::empty()
    } else {
        timer_datagrams(net, acts.drop_last()) + match timer_segment(acts.last().1) {
            Some(m) => as_list(datagram_of(net, acts.last().0, m)),
            None => Seq::empty(),
        }
    }
}

/// The sockets whose connections the timers give up, in order.
pub open spec fn given_up(acts: Seq<(SocketId, TimerActionView)>) -> Seq<SocketId>
    decreases acts.len(),
{
    if acts.len() == 0 {
        Seq::empty()
    } else if acts.last().1 is Abort {
        given_up(acts.drop_last()).push(acts.last().0)
    } else {
        given_up(acts.drop_last())
    }
}

/// What the node says on its first `n` links: on each link that is up,
/// the routing table as it is said on that link.
pub open spec fn advertisements(net: Net, n: int) -> Seq<(usize, Seq<u8>)>
    decreases n,
{
    if n <= 0 {
        Seq::empty()
    } else if net.links@[n - 1].up {
        advertisements(net, n - 1).push(((n - 1) as usize, advertisement(net, (n - 1) as usize)))
    } else {
        advertisements(net, n - 1)
    }
}

/// Datagrams to send, as contracts speak of them.
pub open spec fn outgoing_views(outs: Seq<Outgoing>) -> Seq<(usize, Seq<u8>)> {
    outs.map_values(|o: Outgoing| (o.link, o.datagram@))
}

impl Node {
    /// Puts a segment of the socket `id` into a datagram for the socket's
    /// far end. `None` for a listener, for a segment that does not fit a
    /// datagram, and where there is no way to the far end.
    pub fn wrap(&self, id: SocketId, m: &TcpMessage) -> (r: Option<Outgoing>)
        ensures
            outgoing_view(r) == datagram_of(self.net, id, m@),
    {
        match id {
            SocketId::Connection(_, ip, _) => {
                if m.payload.len() > MAX_SEGMENT_PAYLOAD {
                    return None;
                }
                match self.send_segment(ip, m) {
                    Ok(out) => Some(out),
                    Err(_) => None,
                }
            },
            SocketId::Listen(_) => None,
        }
    }

    /// Appends the datagram of a segment, where it has one.
    fn push_wrapped(&self, outs: &mut Vec<Outgoing>, id: SocketId, m: &TcpMessage)
        ensures
            outgoing_views(final(outs)@) == outgoing_views(old(outs)@) + as_list(
                datagram_of(self.net, id, m@),
            ),
    {
        match self.wrap(id, m) {
            Some(o) => {
                assert(outgoing_views(outs@.push(o)) =~= outgoing_views(outs@).push(
                    (o.link, o.datagram@),
                ));
                assert(outgoing_views(outs@).push((o.link, o.datagram@))
                    =~= outgoing_views(outs@) + seq![(o.link, o.datagram@)]);
                outs.push(o);
            },
            None => {
                assert(outgoing_views(outs@) + Seq::<(usize, Seq<u8>)>::empty() =~= outgoing_views(
                    outs@,
                ));
            },
        }
    }

    /// Lets every connection send what it may at `now`: data as far as
    /// the peer's window and the buffer allow, then the FIN where the user
    /// has closed. Gives the datagrams to hand to the links, socket by socket
    /// in the order of the table. A segment for which there is no way out
    /// counts as sent all the same; the retransmission timer brings it again.
    pub fn flush(&mut self, now: u64) -> (outs: Vec<Outgoing>)
        requires
            old(self).wf(),
        ensures
            final(self).wf(),
            final(self).net == old(self).net,
            final(self).max_age == old(self).max_age,
            final(self).tcp.accept_queue == old(self).tcp.accept_queue,
            final(self).tcp.sockets.socket_id_map@ == old(self).tcp.sockets.socket_id_map@,
            final(self).tcp.sockets.socket_builder == old(self).tcp.sockets.socket_builder,
            final(self).tcp@ == old(self).tcp@.map_values(|s: SocketView| flushed_socket(s, now)),
            outgoing_views(outs@) == wrapped_all(
                old(self).net,
                old(self).tcp@.map_values(|s: SocketView| flushed_segments(s, now)),
            ),
    {
        let emitted = self.tcp.flush(now);
        let ghost lists = emitted_view(emitted@);
        let mut outs: Vec<Outgoing> = Vec::new();
        let mut i: usize = 0;
        assert(outgoing_views(outs@) =~= Seq::empty());
        assert(lists.take(0) =~= Seq::empty());
        while i < emitted.len()
            invariant
                i <= emitted@.len(),
                lists == emitted_view(emitted@),
                outgoing_views(outs@) == wrapped_all(self.net, lists.take(i as int)),
            decreases emitted@.len() - i,
        {
            let id = emitted[i].0;
            let segments = &emitted[i].1;
            let ghost msgs = messages_view(segments@);
            let ghost base = outgoing_views(outs@);
            assert(lists[i as int] == (id, msgs));
            let mut k: usize = 0;
            assert(msgs.take(0) =~= Seq::empty());
            assert(base + Seq::<(usize, Seq<u8>)>::empty() =~= base);
            while k < segments.len()
                invariant
                    k <= segments@.len(),
                    msgs == messages_view(segments@),
                    outgoing_views(outs@) == base + wrapped(self.net, id, msgs.take(k as int)),
                decreases segments@.len() - k,
            {
                let ghost sofar = wrapped(self.net, id, msgs.take(k as int));
                self.push_wrapped(&mut outs, id, &segments[k]);
                proof {
                    assert(msgs.take(k + 1).drop_last() =~= msgs.take(k as int));
                    assert(msgs.take(k + 1).last() == segments@[k as int]@);
                    let d = as_list(datagram_of(self.net, id, segments@[k as int]@));
                    assert((base + sofar) + d =~= base + (sofar + d));
                }
                k += 1;
            }
            proof {
                assert(msgs.take(k as int) =~= msgs);
                assert(lists.take(i + 1).drop_last() =~= lists.take(i as int));
                assert(lists.take(i + 1).last() == lists[i as int]);
            }
            i += 1;
        }
        assert(lists.take(i as int) =~= lists);
        outs
    }

    /// Serves the timer of every socket at `now`: what is due is sent
    /// again, a closed window is probed, a connection that has sent a segment
    /// too often is given up, and a socket that has lingered long enough
    /// leaves the table. Gives the datagrams to hand to the links and the
    /// sockets whose connections were given up.
    pub fn serve_timers(&mut self, now: u64) -> (r: (Vec<Outgoing>, Vec<SocketId>))
        requires
            old(self).wf(),
        ensures
            final(self).wf(),
            final(self).net == old(self).net,
            final(self).max_age == old(self).max_age,
            final(self).tcp.accept_queue == old(self).tcp.accept_queue,
            final(self).tcp.sockets.socket_id_map@ == old(self).tcp.sockets.socket_id_map@,
            final(self).tcp.sockets.socket_builder == old(self).tcp.sockets.socket_builder,
            final(self).tcp@ == timer_survivors(old(self).tcp@, now),
            outgoing_views(r.0@) == timer_datagrams(
                old(self).net,
                timer_actions(old(self).tcp@, now),
            ),
            r.1@ == given_up(timer_actions(old(self).tcp@, now)),
    {
        let actions = self.tcp.serve_timers(now);
        let ghost acts = actions_view(actions@);
        let mut outs: Vec<Outgoing> = Vec::new();
        let mut gone: Vec<SocketId> = Vec::new();
        let mut i: usize = 0;
        assert(outgoing_views(outs@) =~= Seq::empty());
        assert(acts.take(0) =~= Seq::empty());
        while i < actions.len()
            invariant
                i <= actions@.len(),
                acts == actions_view(actions@),
                outgoing_views(outs@) == timer_datagrams(self.net, acts.take(i as int)),
                gone@ == given_up(acts.take(i as int)),
            decreases actions@.len() - i,
        {
            let id = actions[i].0;
            let ghost base = outgoing_views(outs@);
            proof {
                assert(acts[i as int] == (id, actions@[i as int].1@));
                assert(acts.take(i + 1).drop_last() =~= acts.take(i as int));
                assert(acts.take(i + 1).last() == acts[i as int]);
                assert(base + Seq::<(usize, Seq<u8>)>::empty() =~= base);
            }
            match &actions[i].1 {
                TimerAction::Retransmit(m) => {
                    self.push_wrapped(&mut outs, id, m);
                },
                TimerAction::Probe(m) => {
                    self.push_wrapped(&mut outs, id, m);
                },
                TimerAction::Abort => {
                    gone.push(id);
                },
                TimerAction::Idle => {},
            }
            i += 1;
        }
        assert(acts.take(i as int) =~= acts);
        (outs, gone)
    }

    /// What the node says to its neighbours: on every link that is up, in
    /// the order of the links, the routing table as it is said on that link.
    pub fn advertise_all(&self) -> (outs: Vec<Outgoing>)
        requires
            self.wf(),
        ensures
            outgoing_views(outs@) == advertisements(self.net, self.net.links@.len() as int),
    {
        let mut outs: Vec<Outgoing> = Vec::new();
        let mut link: usize = 0;
        assert(outgoing_views(outs@) =~= Seq::empty());
        while link < self.net.links.len()
            invariant
                link <= self.net.links@.len(),
                self.wf(),
                outgoing_views(outs@) == advertisements(self.net, link as int),
            decreases self.net.links@.len() - link,
        {
            match self.advertise(link) {
                Some(o) => {
                    assert(outgoing_views(outs@.push(o)) =~= outgoing_views(outs@).push(
                        (o.link, o.datagram@),
                    ));
                    outs.push(o);
                },
                None => {},
            }
            link += 1;
        }
        outs
    }
}

/// The datagram by which the connection `id` tells its peer of its window
/// as it stands, where there is a way to send it.
pub open spec fn window_update_of(node: Node, id: SocketId) -> Option<(usize, Seq<u8>)> {
    match spec_window_update(node.tcp, id) {
        Some(m) => datagram_of(node.net, id, m),
        None => None,
    }
}

impl Node {
    /// One step of reading `want` octets in all from the connection `id`
    /// into `out`, as `Tcp::read_all_step`. Where the step has read anything,
    /// the peer is told of the room that it has made: the datagram to send
    /// comes with the answer.
    pub fn read_all_step(&mut self, id: SocketId, out: &mut Vec<u8>, want: usize) -> (r: (
        Result<bool, TcpReadError>,
        Option<Outgoing>,
    ))
        requires
            old(self).wf(),
            old(out)@.len() <= want,
        ensures
            final(self).wf(),
            final(self).net == old(self).net,
            final(self).max_age == old(self).max_age,
            final(out)@.len() <= want,
            read_all_stepped(old(self).tcp, final(self).tcp, id, old(out)@, final(out)@, want, r.0),
            outgoing_view(r.1) == if final(out)@.len() > old(out)@.len() {
                window_update_of(*final(self), id)
            } else {
                None
            },
    {
        let before = out.len();
        let r = self.tcp.read_all_step(id, out, want);
        let update = if out.len() > before {
            match self.tcp.window_update(id) {
                Some(m) => self.wrap(id, &m),
                None => None,
            }
        } else {
            None
        };
        (r, update)
    }

    /// The same for the socket that the descriptor `d` names, as
    /// `Tcp::read_all_step_by_descriptor`.
    pub fn read_all_step_by_descriptor(&mut self, d: SocketDescriptor, out: &mut Vec<u8>, want: usize) -> (r:
        (Result<bool, TcpReadError>, Option<Outgoing>))
        requires
            old(self).wf(),
            old(out)@.len() <= want,
        ensures
            final(self).wf(),
            final(self).net == old(self).net,
            final(self).max_age == old(self).max_age,
            final(out)@.len() <= want,
            read_all_stepped_by_descriptor(
                old(self).tcp,
                final(self).tcp,
                d,
                old(out)@,
                final(out)@,
                want,
                r.0,
            ),
            outgoing_view(r.1) == if final(out)@.len() > old(out)@.len() {
                match final(self).tcp.sockets.spec_socket_of(d) {
                    Some(i) => window_update_of(*final(self), final(self).tcp@[i].id),
                    None => None,
                }
            } else {
                None
            },
    {
        let before = out.len();
        let r = self.tcp.read_all_step_by_descriptor(d, out, want);
        let update = if out.len() > before {
            self.window_update_by_descriptor(d)
        } else {
            None
        };
        (r, update)
    }

    /// The datagram by which the socket that the descriptor `d` names tells
    /// its peer of its window.
    fn window_update_by_descriptor(&self, d: SocketDescriptor) -> (r: Option<Outgoing>)
        requires
            self.wf(),
        ensures
            outgoing_view(r) == match self.tcp.sockets.spec_socket_of(d) {
                Some(i) => window_update_of(*self, self.tcp@[i].id),
                None => None,
            },
    {
        match self.tcp.get_socket_by_descriptor(d) {
            Some(s) => {
                let id = s.id();
                proof {
                    let i = self.tcp.sockets.spec_socket_of(d)->0;
                    lemma_find_from(
                        self.tcp.sockets.socket_map@,
                        self.tcp.sockets.spec_id_of(d)->0,
                        0,
                    );
                    assert(self.tcp@[i] == self.tcp.sockets.socket_map@[i]@);
                }
                match self.tcp.window_update(id) {
                    Some(m) => self.wrap(id, &m),
                    None => None,
                }
            },
            None => None,
        }
    }
}

} // verus!
