//! The tables that the listing commands show: a line of headings, then one
//! line for each entry, the fields parted by tabs.

use crate::addr::ip_text;
use crate::ip::link::Link;
use crate::protocol::tcp::socket::{view_conn, view_status, SocketStatus, SocketView};
use crate::protocol::tcp::buf::CAPACITY;
use crate::protocol::tcp::Tcp;
use crate::route::{Route, RouteTable};
use crate::text::{digits_of, push_decimal, push_text, string_of};
use vstd::prelude::*;

verus! {

/// The name of a state.
pub open spec fn status_name(s: SocketStatus) -> Seq<char> {
    match s {
        SocketStatus::Closed => "Closed"@,
        SocketStatus::Listen => "Listen"@,
        SocketStatus::SynSent => "SynSent"@,
        SocketStatus::SynReceived => "SynReceived"@,
        SocketStatus::Established => "Established"@,
        SocketStatus::FinWait1 => "FinWait1"@,
        SocketStatus::FinWait2 => "FinWait2"@,
        SocketStatus::CloseWait => "CloseWait"@,
        SocketStatus::Closing => "Closing"@,
        SocketStatus::LastAck => "LastAck"@,
        SocketStatus::TimeWait => "TimeWait"@,
    }
}

/// The name of a state.
pub fn status_text(s: SocketStatus) -> (r: &'static str)
    ensures
        r@ == status_name(s),
{
    match s {
        SocketStatus::Closed => "Closed",
        SocketStatus::Listen => "Listen",
        SocketStatus::SynSent => "SynSent",
        SocketStatus::SynReceived => "SynReceived",
        SocketStatus::Established => "Established",
        SocketStatus::FinWait1 => "FinWait1",
        SocketStatus::FinWait2 => "FinWait2",
        SocketStatus::CloseWait => "CloseWait",
        SocketStatus::Closing => "Closing",
        SocketStatus::LastAck => "LastAck",
        SocketStatus::TimeWait => "TimeWait",
    }
}

/// The line of a route: destination, next hop and cost.
pub open spec fn route_row(r: Route) -> Seq<char> {
    ip_text(r.dst) + "\t"@ + ip_text(r.next_hop) + "\t"@ + digits_of(r.cost as nat) + "\n"@
}

/// The lines of the routes `routes`.
pub open spec fn route_rows(routes: Seq<Route>) -> Seq<char>
    decreases routes.len(),
{
    if routes.len() == 0 {
        Seq::empty()
    } else {
        route_rows(routes.drop_last()) + route_row(routes.last())
    }
}

/// The table of routes.
pub open spec fn spec_routes_table(routes: Seq<Route>) -> Seq<char> {
    "dst\tnext\tcost\n"@ + route_rows(routes)
}

/// The line of the interface with the number `id`: number, state, this
/// side's address, the peer's address and the peer's port.
pub open spec fn interface_row(id: nat, l: Link) -> Seq<char> {
    digits_of(id) + "\t"@ + (if l.up {
        "up"@
    } else {
        "down"@
    }) + "\t"@ + ip_text(l.src_virtual_ip) + "\t"@ + ip_text(l.dest_virtual_ip) + "\t"@ + digits_of(
        l.dest_port as nat,
    ) + "\n"@
}

/// The lines of the interfaces `links`, numbered from 0.
pub open spec fn interface_rows(links: Seq<Link>) -> Seq<char>
    decreases links.len(),
{
    if links.len() == 0 {
        Seq::empty()
    } else {
        interface_rows(links.drop_last()) + interface_row((links.len() - 1) as nat, links.last())
    }
}

/// The table of interfaces.
pub open spec fn spec_interfaces_table(links: Seq<Link>) -> Seq<char> {
    "id\tstate\tlocal\t\tremote\tport\n"@ + interface_rows(links)
}

/// The room that a socket advertises; 0 for a socket without a connection.
pub open spec fn local_window(s: SocketView) -> nat {
    match view_conn(s.state) {
        Some((_, c)) => (CAPACITY - c.recv.avail) as u16 as nat,
        None => 0,
    }
}

/// The window that the peer of a socket last advertised; 0 for a socket
/// without a connection.
pub open spec fn remote_window(s: SocketView) -> nat {
    match view_conn(s.state) {
        Some((_, c)) => c.send.wnd as nat,
        None => 0,
    }
}

/// The line of a socket: descriptor, state and the two windows.
pub open spec fn socket_row(s: SocketView) -> Seq<char> {
    digits_of(s.descriptor.0 as nat) + "\t"@ + status_name(view_status(s.state)) + "\t"@
        + digits_of(local_window(s)) + "\t"@ + digits_of(remote_window(s)) + "\n"@
}

/// The lines of the sockets `sockets`.
pub open spec fn socket_rows(sockets: Seq<SocketView>) -> Seq<char>
    decreases sockets.len(),
{
    if sockets.len() == 0 {
        Seq::empty()
    } else {
        socket_rows(sockets.drop_last()) + socket_row(sockets.last())
    }
}

/// The table of sockets.
pub open spec fn spec_sockets_table(sockets: Seq<SocketView>) -> Seq<char> {
    "id\tstate\tlocal window size\tremote window size\n"@ + socket_rows(sockets)
}

/// Appends the line of a route.
fn push_route_row(out: &mut Vec<char>, r: &Route)
    ensures
        final(out)@ == old(out)@ + route_row(*r),
{
    let ghost start = out@;
    let ghost a = ip_text(r.dst);
    let ghost b = a + "\t"@;
    let ghost c = b + ip_text(r.next_hop);
    let ghost d = c + "\t"@;
    let ghost e = d + digits_of(r.cost as nat);
    r.dst.push_to(out);
    assert(out@ =~= start + a);
    push_text(out, "\t");
    assert(out@ =~= start + b);
    r.next_hop.push_to(out);
    assert(out@ =~= start + c);
    push_text(out, "\t");
    assert(out@ =~= start + d);
    push_decimal(out, r.cost as u64);
    assert(out@ =~= start + e);
    push_text(out, "\n");
    assert(out@ =~= start + (e + "\n"@));
}

/// Appends the line of the interface with the number `id`.
#[verifier::rlimit(40)]
fn push_interface_row(out: &mut Vec<char>, id: usize, l: &Link)
    ensures
        final(out)@ == old(out)@ + interface_row(id as nat, *l),
{
    let ghost start = out@;
    let ghost a = digits_of(id as nat);
    let ghost b = a + "\t"@;
    let ghost c = b + (if l.up {
        "up"@
    } else {
        "down"@
    });
    let ghost d = c + "\t"@;
    let ghost e = d + ip_text(l.src_virtual_ip);
    let ghost f = e + "\t"@;
    let ghost g = f + ip_text(l.dest_virtual_ip);
    let ghost h = g + "\t"@;
    let ghost k = h + digits_of(l.dest_port as nat);
    push_decimal(out, id as u64);
    assert(out@ =~= start + a);
    push_text(out, "\t");
    assert(out@ =~= start + b);
    if l.up {
        push_text(out, "up");
    } else {
        push_text(out, "down");
    }
    assert(out@ =~= start + c);
    push_text(out, "\t");
    assert(out@ =~= start + d);
    l.src_virtual_ip.push_to(out);
    assert(out@ =~= start + e);
    push_text(out, "\t");
    assert(out@ =~= start + f);
    l.dest_virtual_ip.push_to(out);
    assert(out@ =~= start + g);
    push_text(out, "\t");
    assert(out@ =~= start + h);
    push_decimal(out, l.dest_port as u64);
    assert(out@ =~= start + k);
    push_text(out, "\n");
    assert(out@ =~= start + (k + "\n"@));
}

/// Appends the line of a socket.
fn push_socket_row(out: &mut Vec<char>, s: &crate::protocol::tcp::socket::Socket)
    requires
        s.wf(),
    ensures
        final(out)@ == old(out)@ + socket_row(s@),
{
    let ghost start = out@;
    let ghost a = digits_of(s@.descriptor.0 as nat);
    let ghost b = a + "\t"@;
    let ghost c = b + status_name(view_status(s@.state));
    let ghost d = c + "\t"@;
    let ghost e = d + digits_of(local_window(s@));
    let ghost f = e + "\t"@;
    let ghost g = f + digits_of(remote_window(s@));
    let (local, remote) = match s.windows() {
        Some(w) => w,
        None => (0, 0),
    };
    push_decimal(out, s.descriptor().0 as u64);
    assert(out@ =~= start + a);
    push_text(out, "\t");
    assert(out@ =~= start + b);
    push_text(out, status_text(s.status()));
    assert(out@ =~= start + c);
    push_text(out, "\t");
    assert(out@ =~= start + d);
    push_decimal(out, local as u64);
    assert(out@ =~= start + e);
    push_text(out, "\t");
    assert(out@ =~= start + f);
    push_decimal(out, remote as u64);
    assert(out@ =~= start + g);
    push_text(out, "\n");
    assert(out@ =~= start + (g + "\n"@));
}

/// The table of routes: a heading, then destination, next hop and cost of
/// each entry on a line of its own.
pub fn routes_table(table: &RouteTable) -> (r: String)
    ensures
        r@ == spec_routes_table(table.routes@),
{
    let mut out: Vec<char> = Vec::new();
    push_text(&mut out, "dst\tnext\tcost\n");
    let ghost head = out@;
    let mut i: usize = 0;
    assert(table.routes@.take(0) =~= Seq::empty());
    while i < table.routes.len()
        invariant
            i <= table.routes@.len(),
            out@ == head + route_rows(table.routes@.take(i as int)),
        decreases table.routes@.len() - i,
    {
        let r = table.routes[i];
        let ghost before = out@;
        push_route_row(&mut out, &r);
        i += 1;
        proof {
            assert(table.routes@.take(i as int).drop_last() == table.routes@.take(i - 1));
            assert(table.routes@.take(i as int).last() == r);
            assert(out@ =~= head + route_rows(table.routes@.take(i as int)));
        }
    }
    assert(table.routes@.take(i as int) == table.routes@);
    string_of(out.as_slice())
}

/// The table of interfaces: a heading, then one line for each interface.
pub fn interfaces_table(links: &[Link]) -> (r: String)
    ensures
        r@ == spec_interfaces_table(links@),
{
    let mut out: Vec<char> = Vec::new();
    push_text(&mut out, "id\tstate\tlocal\t\tremote\tport\n");
    let ghost head = out@;
    let mut i: usize = 0;
    assert(links@.take(0) =~= Seq::empty());
    while i < links.len()
        invariant
            i <= links@.len(),
            out@ == head + interface_rows(links@.take(i as int)),
        decreases links@.len() - i,
    {
        let l = links[i];
        let ghost before = out@;
        push_interface_row(&mut out, i, &l);
        i += 1;
        proof {
            assert(links@.take(i as int).drop_last() == links@.take(i - 1));
            assert(links@.take(i as int).last() == l);
            assert(out@ =~= head + interface_rows(links@.take(i as int)));
        }
    }
    assert(links@.take(i as int) == links@);
    string_of(out.as_slice())
}

/// The table of sockets: a heading, then descriptor, state and the two
/// windows of each socket on a line of its own.
pub fn sockets_table(tcp: &Tcp) -> (r: String)
    requires
        tcp.wf(),
    ensures
        r@ == spec_sockets_table(tcp@),
{
    let mut out: Vec<char> = Vec::new();
    push_text(&mut out, "id\tstate\tlocal window size\tremote window size\n");
    let ghost head = out@;
    let mut i: usize = 0;
    assert(tcp@.take(0) =~= Seq::empty());
    while i < tcp.sockets.socket_map.len()
        invariant
            i <= tcp.sockets.socket_map@.len(),
            tcp.wf(),
            out@ == head + socket_rows(tcp@.take(i as int)),
        decreases tcp.sockets.socket_map@.len() - i,
    {
        let s = &tcp.sockets.socket_map[i];
        assert(s.wf());
        assert(tcp@[i as int] == s@);
        let ghost before = out@;
        push_socket_row(&mut out, s);
        i += 1;
        proof {
            assert(tcp@.take(i as int).drop_last() == tcp@.take(i - 1));
            assert(tcp@.take(i as int).last() == s@);
            assert(out@ =~= head + socket_rows(tcp@.take(i as int)));
        }
    }
    assert(tcp@.take(i as int) == tcp@);
    string_of(out.as_slice())
}

} // verus!
