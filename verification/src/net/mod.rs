//! The forwarding plane: datagrams in, datagrams out.

pub mod ipv4;

use crate::addr::VirtualIp;
use crate::drop_policy::DropPolicy;
use crate::ip::link::{Link, LinkDefinition, TTL};
use crate::net::ipv4::{
    datagram_payload, encode_datagram, lemma_datagram_round_trip, lemma_with_ttl_keeps_datagram,
    lemma_with_ttl_of_fresh, payload_of, read_datagram, spec_datagram, spec_read_datagram,
    spec_with_ttl, with_ttl, DatagramError, Ipv4Info, MAX_PAYLOAD_LEN,
};
use crate::protocol::{number_of_protocol, protocol_of_number, Protocol};
use crate::route::{
    lemma_added_is_local, lemma_local_routes_stay, lemma_route_from, route_index, spec_add_local,
    spec_is_local, spec_lookup, without_link, Route, RouteTable, MAX_ROUTES,
};
use vstd::prelude::*;
use vstd::slice::slice_to_vec;

verus! {

/// Why a datagram could not be sent.
#[derive(Clone, Copy, Debug, PartialEq, Eq, Structural)]
pub enum SendError {
    NoRoute,
    LinkDown,
}

/// Why a received datagram was let go.
#[derive(Clone, Copy, Debug, PartialEq, Eq, Structural)]
pub enum DropReason {
    /// It arrived on an interface that is down.
    InterfaceDown,
    /// The bytes do not begin with a well-formed header, or end too early.
    Malformed,
    BadChecksum,
    /// The drop policy asked for it.
    Policy,
    TtlExpired,
    NoRoute,
    LinkDown,
    /// It is for this node, but for a protocol that the node does not know.
    UnknownProtocol,
}

/// What becomes of a received datagram.
pub enum Inbound {
    /// It is let go.
    Drop(DropReason),
    /// It is for this node: the payload goes to the handler of the protocol.
    Deliver { protocol: Protocol, info: Ipv4Info, payload: Vec<u8> },
    /// It is for another node: the datagram, one hop older, goes out on
    /// the link.
    Forward { link: usize, datagram: Vec<u8> },
}

/// What becomes of a received datagram, as contracts speak of it.
pub enum InboundView {
    Drop(DropReason),
    Deliver { protocol: Protocol, info: Ipv4Info, payload: Seq<u8> },
    Forward { link: usize, datagram: Seq<u8> },
}

impl View for Inbound {
    type V = InboundView;

    open spec fn view(&self) -> InboundView {
        match *self {
            Inbound::Drop(r) => InboundView::Drop(r),
            Inbound::Deliver { protocol, info, payload } => InboundView::Deliver {
                protocol,
                info,
                payload: payload@,
            },
            Inbound::Forward { link, datagram } => InboundView::Forward { link, datagram: datagram@ },
        }
    }
}

/// The links of a node and its routing table.
pub struct Net {
    pub links: Vec<Link>,
    pub routes: RouteTable,
}

/// Whether `dst` is the address of one of the interfaces.
pub open spec fn is_interface(links: Seq<Link>, dst: VirtualIp) -> bool {
    exists|i: int| 0 <= i < links.len() && (#[trigger] links[i]).src_virtual_ip == dst
}

/// Whether the table holds, for each interface, the local route of its
/// address.
pub open spec fn interfaces_routed(links: Seq<Link>, routes: Seq<Route>) -> bool {
    forall|i: int| 0 <= i < links.len() ==> spec_is_local(routes, (#[trigger] links[i]).src_virtual_ip)
}

/// Whether the table can take a local route to `vip`: it has a route to
/// that address already, or room for one more.
pub open spec fn spec_has_room(routes: Seq<Route>, vip: VirtualIp) -> bool {
    route_index(routes, vip) is Some || routes.len() < MAX_ROUTES
}

/// The link on which a datagram for `dst` goes out: the one that the
/// routing table names, where it is up.
pub open spec fn spec_out_link(net: Net, dst: VirtualIp) -> Result<usize, SendError> {
    match spec_lookup(net.routes.routes@, dst) {
        None => Err(SendError::NoRoute),
        Some((link, _)) => if link >= net.links@.len() {
            Err(SendError::NoRoute)
        } else if !net.links@[link as int].up {
            Err(SendError::LinkDown)
        } else {
            Ok(link)
        },
    }
}

/// What becomes of the datagram `datagram` that arrived on the link
/// `link`, where the drop policy says `drops` of it.
pub open spec fn spec_receive(net: Net, link: usize, drops: bool, datagram: Seq<u8>) -> InboundView {
    if link >= net.links@.len() || !net.links@[link as int].up {
        InboundView::Drop(DropReason::InterfaceDown)
    } else {
        match spec_read_datagram(datagram) {
            Err(DatagramError::BadChecksum) => InboundView::Drop(DropReason::BadChecksum),
            Err(_) => InboundView::Drop(DropReason::Malformed),
            Ok(info) => if drops {
                InboundView::Drop(DropReason::Policy)
            } else if info.ttl <= 1 {
                InboundView::Drop(DropReason::TtlExpired)
            } else if is_interface(net.links@, info.destination) {
                match protocol_of_number(info.protocol) {
                    Ok(protocol) => InboundView::Deliver {
                        protocol,
                        info: Ipv4Info { ttl: (info.ttl - 1) as u8, ..info },
                        payload: payload_of(datagram),
                    },
                    Err(_) => InboundView::Drop(DropReason::UnknownProtocol),
                }
            } else {
                match spec_out_link(net, info.destination) {
                    Ok(out) => InboundView::Forward {
                        link: out,
                        datagram: spec_with_ttl(datagram, (info.ttl - 1) as u8),
                    },
                    Err(SendError::NoRoute) => InboundView::Drop(DropReason::NoRoute),
                    Err(SendError::LinkDown) => InboundView::Drop(DropReason::LinkDown),
                }
            },
        }
    }
}

impl Net {
    /// The routing table is well-formed, and holds the route of every
    /// interface.
    pub open spec fn wf(&self) -> bool {
        &&& self.routes.wf()
        &&& interfaces_routed(self.links@, self.routes.routes@)
    }

    /// A net without links.
    pub fn new() -> (net: Self)
        ensures
            net.wf(),
            net.links@.len() == 0,
            net.routes.routes@.len() == 0,
    {
        Net { links: Vec::new(), routes: RouteTable::new() }
    }

    /// Adds the interface that `def` names; it starts up, and its address
    /// becomes a local route. Gives the index of the link. Where the routing
    /// table has no room for the route, nothing changes and there is no link.
    pub fn add_link(&mut self, def: LinkDefinition, now: u64) -> (index: Option<usize>)
        requires
            old(self).wf(),
        ensures
            final(self).wf(),
            spec_has_room(old(self).routes.routes@, def.interface_ip) ==> index == Some(
                old(self).links@.len() as usize,
            ) && final(self).links@ == old(self).links@.push(
                Link {
                    dest_port: def.dest_port,
                    dest_virtual_ip: def.dest_ip,
                    src_virtual_ip: def.interface_ip,
                    up: true,
                },
            ) && final(self).routes.routes@ == spec_add_local(
                old(self).routes.routes@,
                def.interface_ip,
                now,
            ),
            !spec_has_room(old(self).routes.routes@, def.interface_ip) ==> index is None
                && final(self).links@ == old(self).links@
                && final(self).routes.routes@ == old(self).routes.routes@,
    {
        proof {
            assert forall|i: int| 0 <= i < self.links@.len() implies spec_is_local(
                spec_add_local(self.routes.routes@, def.interface_ip, now),
                (#[trigger] self.links@[i]).src_virtual_ip,
            ) by {
                lemma_local_routes_stay(
                    self.routes.routes@,
                    self.links@[i].src_virtual_ip,
                    0,
                    def.interface_ip,
                    Seq::empty(),
                    now,
                    0,
                    def.interface_ip,
                );
            }
        }
        let ghost before = self.routes.routes@;
        if !self.routes.add_local(def.interface_ip, now) {
            return None;
        }
        proof {
            lemma_added_is_local(before, def.interface_ip, now);
        }
        self.links.push(def.into_link());
        Some(self.links.len() - 1)
    }

    /// Whether `dst` is the address of one of the interfaces.
    pub fn is_local(&self, dst: VirtualIp) -> (r: bool)
        ensures
            r == is_interface(self.links@, dst),
    {
        let mut i: usize = 0;
        while i < self.links.len()
            invariant
                i <= self.links@.len(),
                forall|k: int| 0 <= k < i ==> (#[trigger] self.links@[k]).src_virtual_ip != dst,
            decreases self.links@.len() - i,
        {
            if self.links[i].src_virtual_ip == dst {
                return true;
            }
            i += 1;
        }
        false
    }

    /// The link on which a datagram for `dst` goes out.
    pub fn out_link(&self, dst: VirtualIp) -> (r: Result<usize, SendError>)
        ensures
            r == spec_out_link(*self, dst),
    {
        match self.routes.lookup(dst) {
            None => Err(SendError::NoRoute),
            Some((link, _)) => {
                if link >= self.links.len() {
                    Err(SendError::NoRoute)
                } else if !self.links[link].up {
                    Err(SendError::LinkDown)
                } else {
                    Ok(link)
                }
            },
        }
    }

    /// Builds the datagram that carries `payload` to `dst_vip`: a header
    /// with a time to live of 16 and the address of the outbound link as the
    /// source. Gives the link to hand the bytes to.
    pub fn send(&self, payload: &[u8], proto: Protocol, dst_vip: VirtualIp) -> (r: Result<
        (usize, Vec<u8>),
        SendError,
    >)
        requires
            payload@.len() <= MAX_PAYLOAD_LEN,
        ensures
            match spec_out_link(*self, dst_vip) {
                Err(e) => r == Err::<(usize, Vec<u8>), SendError>(e),
                Ok(link) => r is Ok && r->Ok_0.0 == link && r->Ok_0.1@ == spec_datagram(
                    self.links@[link as int].src_virtual_ip,
                    dst_vip,
                    number_of_protocol(proto),
                    TTL,
                    payload@,
                ),
            },
    {
        let link = match self.out_link(dst_vip) {
            Ok(link) => link,
            Err(e) => {
                return Err(e);
            },
        };
        let src = self.links[link].src_virtual_ip;
        Ok((link, encode_datagram(src, dst_vip, proto.number(), TTL, payload)))
    }

    /// Decides what becomes of a datagram that arrived on the link `link`.
    ///
    /// A datagram that arrives on an interface that is down, is malformed
    /// or fails its checksum is let go; so is one that the drop policy asks
    /// for, and one whose time to live runs out with this hop. Of the others,
    /// one for an interface of this node is delivered to its protocol, and
    /// one for another node goes out, one hop older and from its first
    /// source, on the link that the routing table names.
    pub fn receive<DP: DropPolicy>(&self, drop_policy: &mut DP, link: usize, datagram: &[u8]) -> (r:
        Inbound)
        ensures
            spec_read_datagram(datagram@) is Ok && link < self.links@.len()
                && self.links@[link as int].up ==> r@ == spec_receive(
                *self,
                link,
                old(drop_policy).drops_next(spec_read_datagram(datagram@)->Ok_0),
                datagram@,
            ),
            !(spec_read_datagram(datagram@) is Ok && link < self.links@.len()
                && self.links@[link as int].up) ==> r@ == spec_receive(
                *self,
                link,
                false,
                datagram@,
            ) && *final(drop_policy) == *old(drop_policy),
    {
        if link >= self.links.len() || !self.links[link].up {
            return Inbound::Drop(DropReason::InterfaceDown);
        }
        let info = match read_datagram(datagram) {
            Ok(info) => info,
            Err(DatagramError::BadChecksum) => {
                return Inbound::Drop(DropReason::BadChecksum);
            },
            Err(_) => {
                return Inbound::Drop(DropReason::Malformed);
            },
        };
        if drop_policy.should_drop(&info) {
            return Inbound::Drop(DropReason::Policy);
        }
        if info.ttl <= 1 {
            return Inbound::Drop(DropReason::TtlExpired);
        }
        let ttl = info.ttl - 1;
        if self.is_local(info.destination) {
            match Protocol::try_from(info.protocol) {
                Ok(protocol) => Inbound::Deliver {
                    protocol,
                    info: Ipv4Info { ttl, ..info },
                    payload: slice_to_vec(datagram_payload(datagram, &info)),
                },
                Err(_) => Inbound::Drop(DropReason::UnknownProtocol),
            }
        } else {
            match self.out_link(info.destination) {
                Ok(out) => Inbound::Forward { link: out, datagram: with_ttl(datagram, ttl) },
                Err(SendError::NoRoute) => Inbound::Drop(DropReason::NoRoute),
                Err(SendError::LinkDown) => Inbound::Drop(DropReason::LinkDown),
            }
        }
    }

    /// Brings the interface `link` up. Says whether there is such a link.
    pub fn activate(&mut self, link: usize) -> (found: bool)
        requires
            old(self).wf(),
        ensures
            final(self).wf(),
            final(self).routes == old(self).routes,
            found == (link < old(self).links@.len()),
            found ==> final(self).links@ == old(self).links@.update(
                link as int,
                Link { up: true, ..old(self).links@[link as int] },
            ),
            !found ==> final(self).links@ == old(self).links@,
    {
        if link >= self.links.len() {
            return false;
        }
        let l = self.links[link];
        self.links.set(link, Link { up: true, ..l });
        true
    }

    /// Takes the interface `link` down: nothing goes out on it or is taken
    /// from it, and what the routing table learned on it becomes unreachable
    /// at once. Says whether there is such a link.
    pub fn deactivate(&mut self, link: usize) -> (found: bool)
        requires
            old(self).wf(),
        ensures
            final(self).wf(),
            found == (link < old(self).links@.len()),
            found ==> final(self).links@ == old(self).links@.update(
                link as int,
                Link { up: false, ..old(self).links@[link as int] },
            ) && final(self).routes.routes@ == old(self).routes.routes@.map_values(
                |r: Route| without_link(r, link),
            ),
            !found
                ==> final(self).links@ == old(self).links@
                    && final(self).routes == old(self).routes,
    {
        if link >= self.links.len() {
            return false;
        }
        let l = self.links[link];
        proof {
            assert forall|i: int| 0 <= i < self.links@.len() implies spec_is_local(
                self.routes.routes@.map_values(|r: Route| without_link(r, link)),
                (#[trigger] self.links@[i]).src_virtual_ip,
            ) by {
                lemma_local_routes_stay(
                    self.routes.routes@,
                    self.links@[i].src_virtual_ip,
                    link,
                    l.src_virtual_ip,
                    Seq::empty(),
                    0,
                    0,
                    l.src_virtual_ip,
                );
            }
        }
        self.links.set(link, Link { up: false, ..l });
        self.routes.link_down(link);
        true
    }
}

/// Every hop makes a datagram older: where a received datagram is sent on,
/// what goes out is a well-formed datagram whose time to live is one less
/// than that of the datagram that came in, with the same source,
/// destination, protocol and payload.
pub proof fn lemma_forward_lowers_ttl(net: Net, link: usize, drops: bool, datagram: Seq<u8>)
    requires
        spec_receive(net, link, drops, datagram) is Forward,
    ensures
        spec_read_datagram(datagram) is Ok,
        spec_read_datagram(spec_receive(net, link, drops, datagram)->Forward_datagram) is Ok,
        ({
            let before = spec_read_datagram(datagram)->Ok_0;
            let after = spec_read_datagram(
                spec_receive(net, link, drops, datagram)->Forward_datagram,
            )->Ok_0;
            &&& after.ttl == before.ttl - 1
            &&& after.ttl < before.ttl
            &&& after.ttl >= 1
            &&& after.source == before.source
            &&& after.destination == before.destination
            &&& after.protocol == before.protocol
        }),
        payload_of(spec_receive(net, link, drops, datagram)->Forward_datagram) == payload_of(
            datagram,
        ),
{
    let info = spec_read_datagram(datagram)->Ok_0;
    lemma_with_ttl_keeps_datagram(datagram, (info.ttl - 1) as u8);
}

/// Every interface has its row in the table of routes: for the address
/// of each link the routing table holds exactly one entry, and that entry
/// is the local route of the address, at cost 0.
pub proof fn lemma_interfaces_have_routes(net: Net, i: int)
    requires
        net.wf(),
        0 <= i < net.links@.len(),
    ensures
        route_index(net.routes.routes@, net.links@[i].src_virtual_ip) is Some,
        ({
            let k = route_index(net.routes.routes@, net.links@[i].src_virtual_ip)->0;
            let r = net.routes.routes@[k];
            &&& 0 <= k < net.routes.routes@.len()
            &&& r.dst == net.links@[i].src_virtual_ip
            &&& r.is_local
            &&& r.cost == 0
            &&& forall|j: int|
                0 <= j < net.routes.routes@.len() && j != k ==> (#[trigger] net.routes.routes@[j]).dst
                    != r.dst
        }),
{
    let routes = net.routes.routes@;
    let vip = net.links@[i].src_virtual_ip;
    assert(spec_is_local(routes, vip));
    lemma_route_from(routes, vip, 0);
    let k = route_index(routes, vip)->0;
    assert(routes[k].cost <= 16);
    assert forall|j: int| 0 <= j < routes.len() && j != k implies (#[trigger] routes[j]).dst
        != routes[k].dst by {
        if j < k {
            assert(routes[j].dst != routes[k].dst);
        } else {
            assert(routes[k].dst != routes[j].dst);
        }
    }
}

/// A hop, exactly: a node that is not the destination of a datagram with
/// a time to live above 1, and has a way to the destination, sends on the
/// datagram that was sent, with a time to live one less; with a time to
/// live of 1 or 0 it sends nothing on.
pub proof fn lemma_hop(
    net: Net,
    link: usize,
    src: VirtualIp,
    dst: VirtualIp,
    protocol: u8,
    ttl: u8,
    payload: Seq<u8>,
)
    requires
        payload.len() <= MAX_PAYLOAD_LEN,
        link < net.links@.len(),
        net.links@[link as int].up,
        !is_interface(net.links@, dst),
        spec_out_link(net, dst) is Ok,
    ensures
        ttl > 1 ==> spec_receive(net, link, false, spec_datagram(src, dst, protocol, ttl, payload))
            == (InboundView::Forward {
            link: spec_out_link(net, dst)->Ok_0,
            datagram: spec_datagram(src, dst, protocol, (ttl - 1) as u8, payload),
        }),
        ttl <= 1 ==> spec_receive(net, link, false, spec_datagram(src, dst, protocol, ttl, payload))
            == InboundView::Drop(DropReason::TtlExpired),
{
    lemma_datagram_round_trip(src, dst, protocol, ttl, payload);
    if ttl > 1 {
        lemma_with_ttl_of_fresh(src, dst, protocol, ttl, payload, (ttl - 1) as u8);
    }
}

} // verus!
