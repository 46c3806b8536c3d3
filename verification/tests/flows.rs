use std::collections::VecDeque;

use ip_tcp::addr::VirtualIp;
use ip_tcp::cli::TcpShutdownKind;
use ip_tcp::drop_policy::DropFactor;
use ip_tcp::ip::link::LinkDefinition;
use ip_tcp::net::ipv4::{encode_datagram, read_datagram};
use ip_tcp::net::{DropReason, Net, SendError};
use ip_tcp::node::{Handled, Node, Outgoing, ROUTING_ENTRY_MAX_AGE};
use ip_tcp::protocol::rip::RipEntry;
use ip_tcp::protocol::tcp::prelude::{Port, Remote, SocketDescriptor, SocketId};
use ip_tcp::protocol::tcp::socket::{Established, ReadStep, Socket, SocketStatus, TcpConn, TcpState};
use ip_tcp::protocol::tcp::{
    AddSocketError, SocketTable, Tcp, TcpCloseError, TcpConnError, TcpListenError, TcpReadError,
    TcpSendError, TransportError,
};
use ip_tcp::protocol::Protocol;

/// One node of a simulated net with what waits to be taken in by it.
struct Host {
    node: Node,
    policy: DropFactor,
    inbox: VecDeque<(usize, Vec<u8>)>,
    dropped: usize,
    aborted: bool,
}

/// Nodes in a row: each is linked to the next. Time moves only when
/// nothing else does.
struct Sim {
    hosts: Vec<Host>,
    now: u64,
}

fn ip(host: usize, link: usize) -> VirtualIp {
    VirtualIp::new(10, 0, host as u8, link as u8)
}

impl Sim {
    /// A row of nodes with the given drop policies, with routes settled.
    fn new(policies: Vec<DropFactor>) -> Sim {
        let n = policies.len();
        let mut hosts: Vec<Host> = policies
            .into_iter()
            .map(|policy| Host {
                node: Node::new(ROUTING_ENTRY_MAX_AGE),
                policy,
                inbox: VecDeque::new(),
                dropped: 0,
                aborted: false,
            })
            .collect();
        for h in 0..n {
            // link 0 leads to the left neighbour, link 1 to the right one
            if h > 0 {
                let def = LinkDefinition { dest_port: 5000, interface_ip: ip(h, 0), dest_ip: ip(h - 1, 1) };
                hosts[h].node.net.add_link(def, 0).unwrap();
            } else {
                let def = LinkDefinition { dest_port: 5000, interface_ip: ip(h, 0), dest_ip: ip(250, 0) };
                let link = hosts[h].node.net.add_link(def, 0).unwrap();
                hosts[h].node.net.deactivate(link);
            }
            if h + 1 < n {
                let def = LinkDefinition { dest_port: 5000, interface_ip: ip(h, 1), dest_ip: ip(h + 1, 0) };
                hosts[h].node.net.add_link(def, 0).unwrap();
            }
        }
        let mut sim = Sim { hosts, now: 0 };
        for _ in 0..(2 * n + 2) {
            sim.advertise();
            sim.deliver_all();
        }
        sim
    }

    fn pair(a: DropFactor, b: DropFactor) -> Sim {
        Sim::new(vec![a, b])
    }

    /// Hands a datagram that `from` puts on its link `link` to the node at
    /// the other end.
    fn put(&mut self, from: usize, out: Outgoing) {
        let (to, link) = if out.link == 0 { (from - 1, 1) } else { (from + 1, 0) };
        self.hosts[to].inbox.push_back((link, out.datagram));
    }

    fn advertise(&mut self) {
        for h in 0..self.hosts.len() {
            for out in self.hosts[h].node.advertise_all() {
                self.put(h, out);
            }
        }
    }

    /// Lets every node take in what waits for it. Says whether anything did.
    fn deliver_all(&mut self) -> bool {
        let mut moved = false;
        for h in 0..self.hosts.len() {
            while let Some((link, datagram)) = self.hosts[h].inbox.pop_front() {
                moved = true;
                let host = &mut self.hosts[h];
                let handled = host.node.on_datagram(&mut host.policy, link, &datagram, self.now, 7000);
                match handled {
                    Handled::Dropped(_) => host.dropped += 1,
                    Handled::Forwarded(out) | Handled::RipRequest(out) => self.put(h, out),
                    Handled::Tcp { out: Some(out), .. } => self.put(h, out),
                    _ => {}
                }
            }
        }
        moved
    }

    /// Lets every connection send what it may. Says whether anything went out.
    fn output_all(&mut self) -> bool {
        let mut moved = false;
        for h in 0..self.hosts.len() {
            for out in self.hosts[h].node.flush(self.now) {
                moved = true;
                self.put(h, out);
            }
        }
        moved
    }

    fn send(&mut self, h: usize, id: SocketId, m: &ip_tcp::protocol::tcp::segment::TcpMessage) {
        if let Some(out) = self.hosts[h].node.wrap(id, m) {
            self.put(h, out);
        }
    }

    /// Serves every timer. Says whether anything went out.
    fn timers(&mut self) -> bool {
        let mut moved = false;
        for h in 0..self.hosts.len() {
            let (outs, given_up) = self.hosts[h].node.serve_timers(self.now);
            if !given_up.is_empty() {
                self.hosts[h].aborted = true;
            }
            for out in outs {
                moved = true;
                self.put(h, out);
            }
        }
        moved
    }

    /// Runs the net until nothing moves any more without time passing.
    fn settle(&mut self) {
        loop {
            let a = self.output_all();
            let b = self.deliver_all();
            self.check_sockets();
            if !a && !b {
                break;
            }
        }
    }

    /// Every socket is in a state of a socket with its identity, and the
    /// name of the state fits what has happened to the connection.
    fn check_sockets(&self) {
        for host in &self.hosts {
            for s in &host.node.tcp.sockets.socket_map {
                check_socket(s);
            }
        }
    }

    /// Lets `ms` milliseconds pass, serving the timers every 50.
    fn wait(&mut self, ms: u64) {
        let until = self.now + ms;
        while self.now < until {
            self.now += 50;
            self.timers();
            self.settle();
        }
    }

    fn status(&self, h: usize, id: SocketId) -> Option<SocketStatus> {
        self.hosts[h].node.tcp.get_socket(id).map(|s| s.status())
    }

    /// Opens a connection from `from` to the port `port` of `to`, on which
    /// `to` listens, and gives both ends.
    fn connect(&mut self, from: usize, to: usize, port: u16) -> (TcpConn, TcpConn) {
        let remote_ip = ip(to, if to > from { 0 } else { 1 });
        self.hosts[to].node.tcp.listen(Port(port)).unwrap();
        let mut tries = 0;
        let conn = loop {
            let (conn, syn) = self.hosts[from].node.connect(Remote::new(remote_ip, Port(port))).unwrap();
            self.put(from, syn);
            self.settle();
            if self.status(from, conn.socket_id()) == Some(SocketStatus::Established) {
                break conn;
            }
            // the request or its answer was lost: give up as a caller does in time
            self.hosts[from].node.tcp.remove_socket(conn.socket_id());
            self.wait(2000);
            tries += 1;
            assert!(tries < 10);
        };
        let mut accepted = self.hosts[to].node.tcp.accept(Port(port));
        let mut waited = 0;
        while accepted.is_none() {
            // the last step of the handshake was lost; data or a timer brings it again
            self.hosts[from].node.tcp.send_on_socket(conn.socket_id(), &[]).unwrap();
            if let Some(m) = self.hosts[from].node.tcp.window_update(conn.socket_id()) {
                self.send(from, conn.socket_id(), &m);
            }
            self.settle();
            self.wait(200);
            accepted = self.hosts[to].node.tcp.accept(Port(port));
            waited += 1;
            assert!(waited < 50);
        }
        (conn, accepted.unwrap())
    }

    /// Moves `a_data` from `a` to `b` and `b_data` from `b` to `a` at once,
    /// and gives what each end read.
    fn exchange(
        &mut self,
        a: (usize, TcpConn),
        b: (usize, TcpConn),
        a_data: &[u8],
        b_data: &[u8],
    ) -> (Vec<u8>, Vec<u8>) {
        let ends = [a, b];
        let data = [a_data, b_data];
        let mut written = [0usize; 2];
        let mut read: [Vec<u8>; 2] = [Vec::with_capacity(b_data.len()), Vec::with_capacity(a_data.len())];
        let mut idle = 0;
        while read[0].len() < b_data.len() || read[1].len() < a_data.len() {
            let mut moved = false;
            for e in 0..2 {
                let (h, conn) = ends[e];
                let id = conn.socket_id();
                if written[e] < data[e].len() {
                    let n = self.hosts[h].node.tcp.send_on_socket(id, &data[e][written[e]..]).unwrap();
                    written[e] += n;
                    moved |= n > 0;
                }
                let want = data[1 - e].len() - read[e].len();
                if want > 0 {
                    match self.hosts[h].node.tcp.read_on_socket(id, want).unwrap() {
                        ReadStep::Data(d) => {
                            moved |= !d.is_empty();
                            read[e].extend_from_slice(&d);
                            if let Some(m) = self.hosts[h].node.tcp.window_update(id) {
                                self.send(h, id, &m);
                            }
                        }
                        ReadStep::Wait => {}
                        ReadStep::Eof => panic!("the stream ended early"),
                    }
                }
            }
            moved |= self.output_all();
            moved |= self.deliver_all();
            if moved {
                idle = 0;
            } else {
                idle += 1;
                assert!(idle < 10_000, "the transfer came to a halt");
                self.now += 50;
                self.timers();
            }
            assert!(!self.hosts.iter().any(|h| h.aborted), "a connection was given up");
        }
        let [r0, r1] = read;
        (r1, r0)
    }
}

fn check_conn(s: &Socket, c: &Established, closed: bool, acked: bool, received: bool) {
    assert_eq!(s.id(), SocketId::Connection(c.src_port, c.dest_ip, c.dest_port));
    assert_eq!((c.write_closed, c.fin_received), (closed, received), "{:?}", s.status());
    if closed {
        assert_eq!(c.fin_acked, acked, "{:?}", s.status());
    }
    assert!(!c.fin_acked || c.fin_seq.is_some());
    assert!(c.fin_seq.is_none() || c.write_closed);
}

fn check_socket(s: &Socket) {
    match s.state.as_ref().unwrap() {
        TcpState::Closed(_) => {}
        TcpState::Listen(l) => assert_eq!(s.id(), SocketId::Listen(l.port)),
        TcpState::SynSent(st) => {
            assert_eq!(s.id(), SocketId::Connection(st.src_port, st.dest_ip, st.dest_port))
        }
        TcpState::SynReceived(st) => {
            assert_eq!(s.id(), SocketId::Connection(st.src_port, st.dest_ip, st.dest_port))
        }
        TcpState::Established(c) => check_conn(s, c, false, false, false),
        TcpState::FinWait1(c) => check_conn(s, c, true, false, false),
        TcpState::FinWait2(c) => check_conn(s, c, true, true, false),
        TcpState::CloseWait(c) => check_conn(s, c, false, false, true),
        TcpState::Closing(c) => check_conn(s, c, true, false, true),
        TcpState::LastAck(c) => check_conn(s, c, true, false, true),
        TcpState::TimeWait(t) => check_conn(s, &t.conn, true, true, true),
    }
}

fn make_in_mem_test_file(size: usize) -> Vec<u8> {
    let base_data = [1, 2, 3, 4, 5, 6, 7, 8, 9, 10];
    base_data.into_iter().cycle().take(size).collect()
}

fn test_send_recv(
    payload1: Vec<u8>,
    payload2: Vec<u8>,
    n1_drop_policy: DropFactor,
    n2_drop_policy: DropFactor,
) -> Sim {
    let mut sim = Sim::pair(n1_drop_policy, n2_drop_policy);
    let (a, b) = sim.connect(0, 1, 5656);
    let (at_b, at_a) = sim.exchange((0, a), (1, b), &payload1, &payload2);
    assert!(at_b == payload1);
    assert!(at_a == payload2);
    sim
}

#[test]
fn routes_settle_along_a_row() {
    let sim = Sim::new(vec![DropFactor::never(), DropFactor::never(), DropFactor::never()]);
    // the far end of the row is two hops away, by way of the middle
    assert_eq!(sim.hosts[0].node.net.routes.lookup(ip(2, 0)), Some((1, ip(1, 0))));
    assert_eq!(sim.hosts[2].node.net.routes.lookup(ip(0, 1)), Some((0, ip(1, 1))));
    let cost = |h: usize, dst: VirtualIp| {
        sim.hosts[h].node.net.routes.routes.iter().find(|r| r.dst == dst).map(|r| r.cost)
    };
    assert_eq!(cost(0, ip(0, 1)), Some(0));
    assert_eq!(cost(0, ip(1, 0)), Some(1));
    assert_eq!(cost(0, ip(1, 1)), Some(1));
    assert_eq!(cost(0, ip(2, 0)), Some(2));
    assert_eq!(cost(1, ip(2, 0)), Some(1));
    // nothing is learned twice
    for h in &sim.hosts {
        let mut dsts: Vec<_> = h.node.net.routes.routes.iter().map(|r| (r.dst.2, r.dst.3)).collect();
        let n = dsts.len();
        dsts.sort();
        dsts.dedup();
        assert_eq!(dsts.len(), n);
    }
}

#[test]
fn a_link_that_goes_down_is_withdrawn_everywhere() {
    let mut sim = Sim::new(vec![DropFactor::never(), DropFactor::never(), DropFactor::never()]);
    // the middle node loses its link to the right
    assert!(sim.hosts[1].node.net.deactivate(1));
    assert_eq!(sim.hosts[1].node.net.routes.lookup(ip(2, 0)), None);
    // the left node hears of it with the next advertisement
    sim.advertise();
    sim.deliver_all();
    assert_eq!(sim.hosts[0].node.net.routes.lookup(ip(2, 0)), None);
    let r = sim.hosts[0].node.net.routes.routes.iter().find(|r| r.dst == ip(2, 0)).unwrap();
    assert_eq!(r.cost, 16);
    // the right node hears nothing any more, and lets go by age
    sim.now = ROUTING_ENTRY_MAX_AGE + 1;
    sim.hosts[2].node.sweep(sim.now);
    assert_eq!(sim.hosts[2].node.net.routes.lookup(ip(0, 1)), None);
    assert_eq!(sim.hosts[2].node.net.routes.lookup(ip(1, 1)), None);
}

#[test]
fn datagrams_are_forwarded_one_hop_older() {
    let mut sim = Sim::new(vec![DropFactor::never(), DropFactor::never(), DropFactor::never()]);
    let (link, datagram) = sim.hosts[0]
        .node
        .net
        .send(b"ping", Protocol::Test, ip(2, 0))
        .unwrap();
    assert_eq!(link, 1);
    assert_eq!(read_datagram(&datagram).unwrap().ttl, 16);
    assert_eq!(read_datagram(&datagram).unwrap().source, ip(0, 1));
    let mut policy = DropFactor::never();
    match sim.hosts[1].node.on_datagram(&mut policy, 0, &datagram, 0, 1) {
        Handled::Forwarded(out) => {
            assert_eq!(out.link, 1);
            let info = read_datagram(&out.datagram).unwrap();
            assert_eq!(info.ttl, 15);
            assert_eq!(info.source, ip(0, 1));
            assert_eq!(info.destination, ip(2, 0));
            // octet for octet the datagram that was sent, one hop older
            assert_eq!(out.datagram, encode_datagram(ip(0, 1), ip(2, 0), 0, 15, b"ping"));
            match sim.hosts[2].node.on_datagram(&mut policy, 0, &out.datagram, 0, 1) {
                Handled::Test(payload) => assert_eq!(payload, b"ping"),
                _ => panic!("the datagram should be delivered"),
            }
        }
        _ => panic!("the datagram should be forwarded"),
    }
}

#[test]
fn datagrams_that_cannot_go_on_are_let_go() {
    let mut sim = Sim::new(vec![DropFactor::never(), DropFactor::never(), DropFactor::never()]);
    let expect = |sim: &mut Sim, link: usize, d: &[u8], why: DropReason| {
        let mut policy = DropFactor::never();
        match sim.hosts[1].node.on_datagram(&mut policy, link, d, 0, 1) {
            Handled::Dropped(r) => assert_eq!(r, why),
            _ => panic!("the datagram should be let go"),
        }
    };
    let through = encode_datagram(ip(0, 1), ip(2, 0), 0, 2, b"x");
    let dying = encode_datagram(ip(0, 1), ip(2, 0), 0, 1, b"x");
    let dead = encode_datagram(ip(0, 1), ip(2, 0), 0, 0, b"x");
    let dying_here = encode_datagram(ip(0, 1), ip(1, 0), 0, 1, b"x");
    let nowhere = encode_datagram(ip(0, 1), ip(9, 9), 0, 16, b"x");
    let unknown = encode_datagram(ip(0, 1), ip(1, 0), 17, 16, b"x");
    let mut broken = through.clone();
    broken[10] ^= 0xff;
    expect(&mut sim, 0, &dying, DropReason::TtlExpired);
    expect(&mut sim, 0, &dead, DropReason::TtlExpired);
    expect(&mut sim, 0, &dying_here, DropReason::TtlExpired);
    expect(&mut sim, 0, &nowhere, DropReason::NoRoute);
    expect(&mut sim, 0, &unknown, DropReason::UnknownProtocol);
    expect(&mut sim, 0, &broken, DropReason::BadChecksum);
    expect(&mut sim, 0, &through[..12], DropReason::Malformed);
    expect(&mut sim, 5, &through, DropReason::InterfaceDown);
    let mut policy = DropFactor::never();
    assert!(matches!(
        sim.hosts[1].node.on_datagram(&mut policy, 0, &through, 0, 1),
        Handled::Forwarded(_)
    ));
    sim.hosts[1].node.net.deactivate(1);
    expect(&mut sim, 0, &through, DropReason::NoRoute);
    expect(&mut sim, 1, &through, DropReason::InterfaceDown);
    let mut all = DropFactor::every(1);
    match sim.hosts[1].node.on_datagram(&mut all, 0, &unknown, 0, 1) {
        Handled::Dropped(r) => assert_eq!(r, DropReason::Policy),
        _ => panic!("the policy should have its way"),
    }
}

#[test]
fn hello_world() {
    // A minimal test case that establishes TCP connection and sends some bytes.
    let payload: Vec<u8> = String::from("hello world!").as_bytes().into();
    let sim = test_send_recv(payload, vec![], DropFactor::never(), DropFactor::never());
    assert!(sim.now <= 1000);
}

#[test]
fn send_file() {
    let test_file_size = 1_000_000;
    let sim = test_send_recv(
        make_in_mem_test_file(test_file_size),
        vec![],
        DropFactor::never(),
        DropFactor::never(),
    );
    assert!(sim.now <= 8000);
}

#[test]
fn lossy_send_file() {
    let test_file_size = 1_500_000;
    let sim = test_send_recv(
        make_in_mem_test_file(test_file_size),
        vec![],
        DropFactor::never(),
        DropFactor::every((1.0 / 0.05f32) as usize),
    );
    assert!(sim.hosts[1].dropped >= 1_500_000 / 1024 / 20);
}

#[test]
fn bidirectional_send_file() {
    let test_file_size = 10_000_000;
    test_send_recv(
        make_in_mem_test_file(test_file_size),
        make_in_mem_test_file(test_file_size),
        DropFactor::never(),
        DropFactor::never(),
    );
}

#[test]
fn lossy_bidirectional_send_file() {
    let test_file_size = 2_000_000;
    let sim = test_send_recv(
        make_in_mem_test_file(test_file_size),
        make_in_mem_test_file(test_file_size),
        DropFactor::every((1.0 / 0.05f32) as usize),
        DropFactor::every((1.0 / 0.05f32) as usize),
    );
    assert!(sim.hosts[0].dropped > 100);
    assert!(sim.hosts[1].dropped > 100);
}

#[test]
fn transfer_across_a_forwarding_node() {
    let mut sim = Sim::new(vec![DropFactor::never(), DropFactor::never(), DropFactor::never()]);
    let (a, c) = sim.connect(0, 2, 80);
    let there = make_in_mem_test_file(200_000);
    let back: Vec<u8> = (0..100_000u32).map(|i| (i % 256) as u8).collect();
    let (at_c, at_a) = sim.exchange((0, a), (2, c), &there, &back);
    assert!(at_c == there);
    assert!(at_a == back);
    assert!(sim.hosts[1].node.tcp.socket_ids().is_empty());
}

#[test]
fn close_conn() {
    let payload: Vec<u8> = "hello world!".as_bytes().into();
    let mut sim = Sim::pair(DropFactor::never(), DropFactor::never());
    let recv_listen_port = 5656;
    let (conn, peer) = sim.connect(0, 1, recv_listen_port);
    let (at_b, _) = sim.exchange((0, conn), (1, peer), &payload, &[]);
    assert!(at_b == payload);

    let socket_id = conn.socket_id();
    sim.hosts[0].node.tcp.close(socket_id).unwrap();

    // test closed socket cannot be written into
    let r = sim.hosts[0].node.tcp.send_on_socket(socket_id, &payload);
    assert_eq!(r.unwrap_err(), TcpSendError::ConnClosed);

    // Give socket state some time to settle.
    sim.settle();
    sim.wait(2000);
    assert_eq!(sim.status(0, socket_id), Some(SocketStatus::FinWait2));
    // Remote should be in passive close
    assert_eq!(sim.status(1, peer.socket_id()), Some(SocketStatus::CloseWait));

    // the peer has read all that was sent, and now sees the end
    assert!(matches!(
        sim.hosts[1].node.tcp.read_on_socket(peer.socket_id(), 10),
        Ok(ReadStep::Eof)
    ));

    // test closed socket can still receive data
    let (_, at_a) = sim.exchange((0, conn), (1, peer), &[], &payload);
    assert!(at_a == payload);

    // the peer closes too: both ends are done
    sim.hosts[1].node.tcp.close(peer.socket_id()).unwrap();
    sim.settle();
    assert_eq!(sim.status(0, socket_id), Some(SocketStatus::TimeWait));
    assert_eq!(sim.status(1, peer.socket_id()), None);
    sim.wait(60_000);
    assert_eq!(sim.status(0, socket_id), None);
}

#[test]
fn the_end_is_seen_after_the_data() {
    let mut sim = Sim::pair(DropFactor::never(), DropFactor::never());
    let (conn, peer) = sim.connect(0, 1, 9000);
    let data = make_in_mem_test_file(5000);
    assert_eq!(sim.hosts[0].node.tcp.send_on_socket(conn.socket_id(), &data), Ok(5000));
    sim.hosts[0].node.tcp.close(conn.socket_id()).unwrap();
    sim.settle();
    let id = peer.socket_id();
    let mut got = vec![];
    loop {
        match sim.hosts[1].node.tcp.read_on_socket(id, 999).unwrap() {
            ReadStep::Data(d) => got.extend_from_slice(&d),
            ReadStep::Eof => break,
            ReadStep::Wait => panic!("all has arrived"),
        }
    }
    assert!(got == data);
}

#[test]
fn unreachable() {
    let mut sim = Sim::pair(DropFactor::never(), DropFactor::never());
    let nowhere = VirtualIp::new(192, 168, 0, 1);
    match sim.hosts[0].node.connect(Remote::new(nowhere, Port(5656))) {
        Err(e) => assert_eq!(e, TcpConnError::Transport(TransportError::DestUnreachable(nowhere))),
        Ok(_) => panic!("there is no way there"),
    }
    assert!(sim.hosts[0].node.tcp.socket_ids().is_empty());
    // a link that is down is no way either
    sim.hosts[0].node.net.deactivate(1);
    match sim.hosts[0].node.connect(Remote::new(ip(1, 0), Port(5656))) {
        Err(e) => assert_eq!(e, TcpConnError::Transport(TransportError::DestUnreachable(ip(1, 0)))),
        Ok(_) => panic!("the link is down"),
    }
}

#[test]
fn sockets_and_descriptors() {
    let mut sim = Sim::pair(DropFactor::never(), DropFactor::never());
    let (conn, peer) = sim.connect(0, 1, 5656);
    let tcp_a = &mut sim.hosts[0].node.tcp;
    assert_eq!(conn.socket_id(), SocketId::Connection(Port(1024), ip(1, 0), Port(5656)));
    let d = tcp_a.get_socket_descriptor(conn.socket_id()).unwrap();
    assert_eq!(d.0, 0);
    assert_eq!(tcp_a.get_socket_by_descriptor(d).unwrap().id(), conn.socket_id());
    assert_eq!(tcp_a.send_on_socket_descriptor(d, b"abc"), Ok(3));
    let missing = SocketDescriptor(77);
    assert_eq!(tcp_a.send_on_socket_descriptor(missing, b"abc"), Err(TcpSendError::NoSocket(missing)));
    assert!(matches!(
        tcp_a.read_on_socket_descriptor(missing, 1),
        Err(TcpReadError::NoSocket(m)) if m == missing
    ));
    assert!(matches!(tcp_a.read_on_socket_descriptor(d, 1), Ok(ReadStep::Wait)));
    // the next connection gets the next port and the next descriptor
    let (second, syn) = tcp_a.connect(Remote::new(ip(1, 0), Port(5656))).unwrap();
    assert_eq!(second.socket_id(), SocketId::Connection(Port(1025), ip(1, 0), Port(5656)));
    assert!(syn.header.syn && !syn.header.ack);
    assert_eq!(tcp_a.get_socket_descriptor(second.socket_id()).unwrap().0, 1);
    assert_eq!(tcp_a.send_on_socket(second.socket_id(), b"x"), Err(TcpSendError::ConnNotEstablished));

    let tcp_b = &mut sim.hosts[1].node.tcp;
    assert_eq!(tcp_b.listen(Port(5656)), Err(TcpListenError::PortOccupied(Port(5656))));
    assert!(tcp_b.listen(Port(5657)).is_ok());
    assert_eq!(peer.socket_id(), SocketId::Connection(Port(5656), ip(0, 1), Port(1024)));
    let listener = tcp_b.get_socket_descriptor(SocketId::Listen(Port(5656))).unwrap();
    assert_eq!(tcp_b.get_socket(SocketId::Listen(Port(5656))).unwrap().status(), SocketStatus::Listen);
    // closing a listener takes it out of the table at once
    assert_eq!(tcp_b.close_by_descriptor(listener), Ok(()));
    assert!(tcp_b.get_socket(SocketId::Listen(Port(5656))).is_none());
    assert!(tcp_b.listen(Port(5656)).is_ok());
}

#[test]
fn a_segment_for_nobody_is_let_go() {
    let mut sim = Sim::pair(DropFactor::never(), DropFactor::never());
    let (_, syn) = sim.hosts[0].node.connect(Remote::new(ip(1, 0), Port(4444))).unwrap();
    let mut policy = DropFactor::never();
    match sim.hosts[1].node.on_datagram(&mut policy, 0, &syn.datagram, 0, 1) {
        Handled::Tcp { delivery, out } => {
            assert_eq!(delivery.dropped, Some(ip_tcp::protocol::tcp::SegmentDrop::NoSocket));
            assert!(delivery.reply.is_none());
            assert!(out.is_none());
        }
        _ => panic!("the segment should reach the transport"),
    }
    // a segment with a broken checksum does not reach any socket
    sim.hosts[1].node.tcp.listen(Port(4444)).unwrap();
    let mut broken = syn.datagram.clone();
    let last = broken.len() - 1;
    broken[last] ^= 1;
    match sim.hosts[1].node.on_datagram(&mut policy, 0, &broken, 0, 1) {
        Handled::Tcp { delivery, .. } => {
            assert_eq!(delivery.dropped, Some(ip_tcp::protocol::tcp::SegmentDrop::BadChecksum));
        }
        _ => panic!("the segment should reach the transport"),
    }
    assert_eq!(sim.hosts[1].node.tcp.socket_ids().len(), 1);
}

#[test]
fn a_silent_peer_is_given_up() {
    let mut sim = Sim::pair(DropFactor::never(), DropFactor::never());
    let (conn, _) = sim.connect(0, 1, 5656);
    // from now on the peer hears nothing
    sim.hosts[1].policy = DropFactor::every(1);
    assert_eq!(sim.hosts[0].node.tcp.send_on_socket(conn.socket_id(), b"anyone there?"), Ok(13));
    sim.settle();
    let before = sim.hosts[1].dropped;
    // the timeout starts at one second and doubles: 1 + 2 + 4 + 8 seconds
    // bring four more transmissions, and the next time the segment is due
    // the connection is given up
    sim.wait(14_000);
    assert!(!sim.hosts[0].aborted);
    assert_eq!(sim.hosts[1].dropped - before, 3);
    sim.wait(20_000);
    assert!(sim.hosts[0].aborted);
    assert_eq!(sim.hosts[1].dropped - before, 4);
    assert_eq!(sim.status(0, conn.socket_id()), None);
    assert_eq!(
        sim.hosts[0].node.tcp.send_on_socket(conn.socket_id(), b"x"),
        Err(TcpSendError::ConnNotEstablished)
    );
}

#[test]
fn a_closed_window_opens_again() {
    let mut sim = Sim::pair(DropFactor::never(), DropFactor::never());
    let (conn, peer) = sim.connect(0, 1, 5656);
    let data = make_in_mem_test_file(100_000);
    // the peer does not read: its buffer fills, and its window closes
    let taken = sim.hosts[0].node.tcp.send_on_socket(conn.socket_id(), &data).unwrap();
    assert_eq!(taken, 65535);
    sim.settle();
    let windows = |sim: &Sim, h: usize, id: SocketId| {
        sim.hosts[h].node.tcp.get_socket(id).unwrap().windows().unwrap()
    };
    assert_eq!(windows(&sim, 1, peer.socket_id()), (0, 65535));
    assert_eq!(windows(&sim, 0, conn.socket_id()), (65535, 0));
    // all was acknowledged, so there is room for the rest
    let rest = sim.hosts[0].node.tcp.send_on_socket(conn.socket_id(), &data[taken..]).unwrap();
    assert_eq!(rest, 100_000 - 65535);
    sim.settle();
    sim.wait(3000);
    // probes went out and were let go: nothing new has arrived
    assert_eq!(windows(&sim, 1, peer.socket_id()), (0, 65535));
    // the peer reads, and tells nobody; the next probe finds the window open
    let mut got = match sim.hosts[1].node.tcp.read_on_socket(peer.socket_id(), 65535).unwrap() {
        ReadStep::Data(d) => d,
        _ => panic!("there is data to read"),
    };
    assert_eq!(got.len(), 65535);
    sim.wait(5000);
    match sim.hosts[1].node.tcp.read_on_socket(peer.socket_id(), 65535).unwrap() {
        ReadStep::Data(d) => got.extend_from_slice(&d),
        _ => panic!("the rest should have arrived"),
    }
    assert!(got == data);
}

#[test]
fn a_connection_is_not_opened_twice() {
    let mut sim = Sim::pair(DropFactor::never(), DropFactor::never());
    // the peer connects from its port 1024 to port 1024 here
    sim.hosts[0].node.tcp.listen(Port(1024)).unwrap();
    let (_, syn) = sim.hosts[1].node.connect(Remote::new(ip(0, 1), Port(1024))).unwrap();
    sim.put(1, syn);
    sim.settle();
    let there = SocketId::Connection(Port(1024), ip(1, 0), Port(1024));
    assert_eq!(sim.status(0, there), Some(SocketStatus::Established));
    // the first connection from here to there would have the same identity
    let remote = Remote::new(ip(1, 0), Port(1024));
    match sim.hosts[0].node.connect(remote) {
        Err(e) => assert_eq!(e, TcpConnError::ConnectionExists(remote)),
        Ok(_) => panic!("the connection is there already"),
    }
    // the port is used up all the same: the next attempt goes from the next port
    let (conn, _) = sim.hosts[0].node.connect(remote).unwrap();
    assert_eq!(conn.socket_id(), SocketId::Connection(Port(1025), ip(1, 0), Port(1024)));
}

#[test]
fn closing_what_is_not_open() {
    let mut sim = Sim::pair(DropFactor::never(), DropFactor::never());
    let (conn, _) = sim.connect(0, 1, 5656);
    let tcp = &mut sim.hosts[0].node.tcp;
    let nobody = SocketId::Connection(Port(1), ip(9, 9), Port(2));
    assert_eq!(tcp.close(nobody), Err(TcpCloseError::NoSocketOnId(nobody)));
    assert_eq!(
        tcp.close_by_descriptor(SocketDescriptor(40)),
        Err(TcpCloseError::NoSocketOnDescriptor(SocketDescriptor(40)))
    );
    assert_eq!(tcp.close(conn.socket_id()), Ok(()));
    assert_eq!(tcp.close(conn.socket_id()), Err(TcpCloseError::AlreadyClosed));
    // a socket that is not connected yet has nothing to read or to close
    let (pending, _) = tcp.connect(Remote::new(ip(1, 0), Port(9))).unwrap();
    assert!(matches!(
        tcp.read_on_socket(pending.socket_id(), 1),
        Err(TcpReadError::ConnNotEstablished)
    ));
    assert_eq!(tcp.close(pending.socket_id()), Err(TcpCloseError::AlreadyClosed));
    assert!(!tcp.close_read(pending.socket_id()));
    // reading that is shut down sees the end at once
    assert!(tcp.close_read(conn.socket_id()));
    assert!(matches!(tcp.read_on_socket(conn.socket_id(), 1), Ok(ReadStep::Eof)));
}

#[test]
fn a_route_over_a_link_that_is_down() {
    let mut net = Net::new();
    let link = net
        .add_link(LinkDefinition { dest_port: 1, interface_ip: ip(0, 0), dest_ip: ip(1, 0) }, 0)
        .unwrap();
    assert_eq!(net.send(b"x", Protocol::Test, ip(1, 0)).unwrap_err(), SendError::NoRoute);
    let entry = RipEntry { cost: 0, address: ip(1, 0), mask: 0xffff_ffff };
    net.routes.apply_update(link, ip(1, 0), &[entry], 0, 12000);
    assert_eq!(net.send(b"x", Protocol::Test, ip(1, 0)).unwrap().0, link);
    net.activate(link);
    assert!(!net.activate(5));
    assert!(!net.deactivate(5));
    // the flag alone, with the route still in the table
    net.links[link].up = false;
    assert_eq!(net.send(b"x", Protocol::Test, ip(1, 0)).unwrap_err(), SendError::LinkDown);
    assert_eq!(net.out_link(ip(1, 0)), Err(SendError::LinkDown));
    // a route that names a link that is not there is no route
    net.routes.apply_update(9, ip(1, 0), &[RipEntry { address: ip(7, 7), ..entry }], 0, 12000);
    assert_eq!(net.out_link(ip(7, 7)), Err(SendError::NoRoute));
}

#[test]
fn the_table_refuses_a_second_socket_with_one_identity() {
    let mut t = SocketTable::new();
    assert_eq!(t.add_new_listen_socket(Port(80)), Ok(0));
    assert_eq!(
        t.add_new_listen_socket(Port(80)),
        Err(AddSocketError::ConnectionExists(SocketId::Listen(Port(80))))
    );
    assert_eq!(t.add_new_socket(Remote::new(ip(1, 0), Port(80))), Ok(1));
    let id = SocketId::Connection(Port(1024), ip(1, 0), Port(80));
    assert_eq!(t.get_socket_by_id(id).unwrap().descriptor(), SocketDescriptor(2));
    assert_eq!(t.get_socket_by_descriptor(SocketDescriptor(2)).unwrap().id(), id);
    assert!(t.get_socket_by_descriptor(SocketDescriptor(1)).is_none());
    assert_eq!(t.get_listener_socket(Port(80)).unwrap().descriptor(), SocketDescriptor(0));
    let d = t.socket_builder.allocate_socket_descriptor();
    assert_eq!(d, SocketDescriptor(3));
    assert_eq!(
        t.insert(d, Socket::with_seq_no(id, d, 5)),
        Err(AddSocketError::ConnectionExists(id))
    );
    assert_eq!(t.socket_id_map, vec![
        (SocketDescriptor(0), SocketId::Listen(Port(80))),
        (SocketDescriptor(2), id),
    ]);
    t.remove_by_id(id);
    assert!(t.get_socket_by_id(id).is_none());
    assert!(t.get_socket_by_descriptor(SocketDescriptor(2)).is_none());
    t.remove_by_id(id);
    assert_eq!(t.socket_map.len(), 1);
}

#[test]
fn the_count_of_what_was_read_comes_with_the_end() {
    let mut sim = Sim::pair(DropFactor::never(), DropFactor::never());
    let (conn, peer) = sim.connect(0, 1, 5656);
    assert_eq!(sim.hosts[0].node.tcp.send_all_step(conn.socket_id(), b"hello", 0), Ok(5));
    sim.settle();
    let tcp = &mut sim.hosts[1].node.tcp;
    // twelve octets are wanted, five are there so far
    let mut got = Vec::new();
    assert_eq!(tcp.read_all_step(peer.socket_id(), &mut got, 12), Ok(false));
    assert_eq!(got, b"hello");
    assert_eq!(tcp.read_all_step(peer.socket_id(), &mut got, 12), Ok(false));
    // the sender closes: the reader has what was sent, and learns how much that is
    sim.hosts[0].node.tcp.close(conn.socket_id()).unwrap();
    sim.settle();
    let tcp = &mut sim.hosts[1].node.tcp;
    assert_eq!(tcp.read_all_step(peer.socket_id(), &mut got, 12), Err(TcpReadError::Closed(5)));
    assert_eq!(got, b"hello");
    // a read of what is there is complete
    let mut exact = b"hello".to_vec();
    assert_eq!(tcp.read_all_step(peer.socket_id(), &mut exact, 5), Ok(true));
    let mut empty = Vec::new();
    assert_eq!(tcp.read_all_step(peer.socket_id(), &mut empty, 1), Err(TcpReadError::Closed(0)));
    let nobody = SocketId::Listen(Port(1));
    assert_eq!(
        tcp.read_all_step(nobody, &mut empty, 1),
        Err(TcpReadError::ConnNotEstablished)
    );
}

#[test]
fn sending_goes_on_where_it_stopped() {
    let mut sim = Sim::pair(DropFactor::never(), DropFactor::never());
    let (conn, peer) = sim.connect(0, 1, 5656);
    let data = make_in_mem_test_file(100_000);
    let id = conn.socket_id();
    assert_eq!(sim.hosts[0].node.tcp.send_all_step(id, &data, 0), Ok(65535));
    assert_eq!(sim.hosts[0].node.tcp.send_all_step(id, &data, 65535), Ok(65535));
    sim.settle();
    assert_eq!(sim.hosts[0].node.tcp.send_all_step(id, &data, 65535), Ok(100_000));
    assert_eq!(sim.hosts[0].node.tcp.send_all_step(id, &data, 100_000), Ok(100_000));
    let mut got = Vec::new();
    let mut rounds = 0;
    while sim.hosts[1].node.tcp.read_all_step(peer.socket_id(), &mut got, 100_000) != Ok(true) {
        if let Some(m) = sim.hosts[1].node.tcp.window_update(peer.socket_id()) {
            sim.send(1, peer.socket_id(), &m);
        }
        sim.settle();
        rounds += 1;
        assert!(rounds < 10);
    }
    assert!(got == data);
    sim.hosts[0].node.tcp.close(id).unwrap();
    assert_eq!(sim.hosts[0].node.tcp.send_all_step(id, b"more", 0), Err(TcpSendError::ConnClosed));
}

#[test]
fn a_connection_that_is_not_answered_times_out() {
    let mut sim = Sim::pair(DropFactor::never(), DropFactor::never());
    // nobody listens on the port: the request is let go
    let (conn, syn) = sim.hosts[0].node.connect(Remote::new(ip(1, 0), Port(81))).unwrap();
    sim.put(0, syn);
    sim.settle();
    let tcp = &mut sim.hosts[0].node.tcp;
    assert_eq!(tcp.connect_progress(conn, 0), None);
    assert_eq!(tcp.connect_progress(conn, 1999), None);
    assert_eq!(tcp.connect_progress(conn, 2000), Some(Err(TcpConnError::Timeout)));
    assert!(tcp.get_socket(conn.socket_id()).is_none());
    assert_eq!(
        tcp.connect_progress(conn, 2000),
        Some(Err(TcpConnError::Transport(TransportError::DestUnreachable(ip(1, 0)))))
    );
    // a connection that is answered is reported at once, however late
    let (conn, _) = sim.connect(0, 1, 5656);
    assert_eq!(sim.hosts[0].node.tcp.connect_progress(conn, 5000), Some(Ok(conn)));
}

#[test]
fn accepting_needs_a_listener() {
    let mut sim = Sim::pair(DropFactor::never(), DropFactor::never());
    let tcp = &mut sim.hosts[1].node.tcp;
    assert_eq!(tcp.accept_step(Port(80)), Err(ip_tcp::protocol::tcp::TcpAcceptError::ListenSocketClosed));
    tcp.listen(Port(80)).unwrap();
    assert_eq!(tcp.accept_step(Port(80)), Ok(None));
    assert_eq!(tcp.pending_count(Port(80)), 0);
    // two connections arrive; they are accepted in the order of their arrival
    let (first, syn) = sim.hosts[0].node.connect(Remote::new(ip(1, 0), Port(80))).unwrap();
    sim.put(0, syn);
    let (second, syn) = sim.hosts[0].node.connect(Remote::new(ip(1, 0), Port(80))).unwrap();
    sim.put(0, syn);
    sim.settle();
    let tcp = &mut sim.hosts[1].node.tcp;
    assert_eq!(tcp.pending_count(Port(80)), 2);
    assert_eq!(tcp.pending_count(Port(81)), 0);
    let port_of = |c: TcpConn| match c.socket_id() {
        SocketId::Connection(p, _, _) => p,
        SocketId::Listen(p) => p,
    };
    let a = tcp.accept_step(Port(80)).unwrap().unwrap();
    let b = tcp.accept_step(Port(80)).unwrap().unwrap();
    assert_eq!(tcp.accept_step(Port(80)), Ok(None));
    assert_eq!(a.socket_id(), SocketId::Connection(Port(80), ip(0, 1), port_of(first)));
    assert_eq!(b.socket_id(), SocketId::Connection(Port(80), ip(0, 1), port_of(second)));
}

#[test]
fn the_sockets_of_a_connection_show_their_windows() {
    let mut sim = Sim::pair(DropFactor::never(), DropFactor::never());
    let (conn, _) = sim.connect(0, 1, 5656);
    sim.hosts[0].node.tcp.send_on_socket(conn.socket_id(), &[0; 1000]).unwrap();
    sim.settle();
    assert_eq!(
        ip_tcp::cli::show::sockets_table(&sim.hosts[0].node.tcp),
        "id\tstate\tlocal window size\tremote window size\n0\tEstablished\t65535\t64535\n"
    );
    assert_eq!(
        ip_tcp::cli::show::sockets_table(&sim.hosts[1].node.tcp),
        "id\tstate\tlocal window size\tremote window size\n\
         0\tListen\t0\t0\n1\tEstablished\t64535\t65535\n"
    );
}

#[test]
fn the_queue_of_a_listener_is_bounded() {
    let mut sim = Sim::pair(DropFactor::never(), DropFactor::never());
    sim.hosts[1].node.tcp.listen(Port(80)).unwrap();
    let mut conns = Vec::new();
    for _ in 0..ip_tcp::protocol::tcp::MAX_PENDING_TCP_CONNECTIONS {
        let (conn, syn) = sim.hosts[0].node.connect(Remote::new(ip(1, 0), Port(80))).unwrap();
        sim.put(0, syn);
        sim.settle();
        conns.push(conn);
    }
    assert_eq!(sim.hosts[1].node.tcp.pending_count(Port(80)), 1024);
    // one more: the handshake cannot be completed while the queue is full
    let (late, syn) = sim.hosts[0].node.connect(Remote::new(ip(1, 0), Port(80))).unwrap();
    sim.put(0, syn);
    sim.settle();
    assert_eq!(sim.hosts[1].node.tcp.pending_count(Port(80)), 1024);
    let at_listener = match late.socket_id() {
        SocketId::Connection(local, _, _) => SocketId::Connection(Port(80), ip(0, 1), local),
        SocketId::Listen(_) => panic!("a connection has a far end"),
    };
    assert_eq!(sim.status(1, at_listener), Some(SocketStatus::SynReceived));
    assert_eq!(sim.status(0, late.socket_id()), Some(SocketStatus::Established));
    // the last step again, by hand
    let ack = sim.hosts[0].node.tcp.window_update(late.socket_id()).unwrap();
    let out = sim.hosts[0].node.send_segment(ip(1, 0), &ack).unwrap();
    let mut policy = DropFactor::never();
    match sim.hosts[1].node.on_datagram(&mut policy, 0, &out.datagram, 0, 1) {
        Handled::Tcp { delivery, .. } => {
            assert_eq!(delivery.dropped, Some(ip_tcp::protocol::tcp::SegmentDrop::QueueFull));
        }
        _ => panic!("the segment should reach the transport"),
    }
    // room is made, and the same step goes through
    let first = sim.hosts[1].node.tcp.accept(Port(80)).unwrap();
    assert_eq!(first.socket_id(), match conns[0].socket_id() {
        SocketId::Connection(local, _, _) => SocketId::Connection(Port(80), ip(0, 1), local),
        SocketId::Listen(p) => SocketId::Listen(p),
    });
    match sim.hosts[1].node.on_datagram(&mut policy, 0, &out.datagram, 0, 1) {
        Handled::Tcp { delivery, .. } => {
            assert_eq!(delivery.dropped, None);
            assert!(delivery.signals.unwrap().accepted);
        }
        _ => panic!("the segment should reach the transport"),
    }
    assert_eq!(sim.status(1, at_listener), Some(SocketStatus::Established));
    assert_eq!(sim.hosts[1].node.tcp.pending_count(Port(80)), 1024);
}

#[test]
fn a_listener_answers_a_request_with_a_fresh_sequence_number() {
    let mut sim = Sim::pair(DropFactor::never(), DropFactor::never());
    let mut handler = ip_tcp::protocol::tcp::TcpHandler::new(Tcp::new());
    handler.tcp.listen(Port(7)).unwrap();
    let (conn, syn) = sim.hosts[0].node.tcp.connect(Remote::new(ip(1, 0), Port(7))).unwrap();
    let local = match conn.socket_id() {
        SocketId::Connection(local, _, _) => local,
        SocketId::Listen(p) => p,
    };
    let bytes = ip_tcp::protocol::tcp::segment::encode_segment(ip(0, 1), ip(1, 0), &syn.header, &[]);
    let d = handler.handle_packet(ip(0, 1), ip(1, 0), &bytes, 0);
    assert_eq!(d.dropped, None);
    assert_eq!(d.socket, Some(SocketId::Listen(Port(7))));
    let reply = d.reply.unwrap();
    assert!(reply.header.syn && reply.header.ack && !reply.header.fin && !reply.header.rst);
    assert_eq!(reply.header.acknowledgment_number, syn.header.sequence_number.wrapping_add(1));
    assert_eq!(reply.header.source_port, 7);
    assert_eq!(reply.header.destination_port, local.0);
    assert_eq!(reply.header.window_size, 65535);
    assert!(reply.payload.is_empty());
    let child = SocketId::Connection(Port(7), ip(0, 1), local);
    assert_eq!(handler.tcp.get_socket(child).unwrap().status(), SocketStatus::SynReceived);
    // the request again is answered again, and no second socket is made
    let again = handler.handle_packet(ip(0, 1), ip(1, 0), &bytes, 0);
    assert_eq!(again.socket, Some(child));
    assert_eq!(again.reply.unwrap().header, reply.header);
    assert_eq!(handler.tcp.socket_ids().len(), 2);
}

#[test]
fn flushing_sends_what_the_window_allows() {
    let mut sim = Sim::pair(DropFactor::never(), DropFactor::never());
    let (conn, _) = sim.connect(0, 1, 5656);
    let (other, _) = sim.connect(0, 1, 5657);
    let data = make_in_mem_test_file(3000);
    sim.hosts[0].node.tcp.send_on_socket(conn.socket_id(), &data).unwrap();
    sim.hosts[0].node.tcp.send_on_socket(other.socket_id(), b"xy").unwrap();
    sim.hosts[0].node.tcp.close(other.socket_id()).unwrap();
    let outs = sim.hosts[0].node.flush(7);
    // three segments of the first connection, then the data and the FIN of the second
    assert_eq!(outs.len(), 5);
    let payloads: Vec<usize> = outs
        .iter()
        .map(|o| {
            assert_eq!(o.link, 1);
            let info = read_datagram(&o.datagram).unwrap();
            assert_eq!((info.source, info.destination, info.protocol), (ip(0, 1), ip(1, 0), 6));
            o.datagram.len() - 40
        })
        .collect();
    assert_eq!(payloads, vec![1024, 1024, 952, 2, 0]);
    let fin = &outs[4].datagram[20..];
    assert_eq!(fin[13] & 1, 1);
    assert_eq!(&outs[3].datagram[40..], b"xy");
    assert_eq!(&outs[0].datagram[40..], &data[..1024]);
    assert_eq!(sim.status(0, other.socket_id()), Some(SocketStatus::FinWait1));
    // nothing more is due
    assert!(sim.hosts[0].node.flush(8).is_empty());
    // no descriptor and no port was taken by it
    let (third, _) = sim.hosts[0].node.tcp.connect(Remote::new(ip(1, 0), Port(9))).unwrap();
    assert_eq!(third.socket_id(), SocketId::Connection(Port(1026), ip(1, 0), Port(9)));
    assert_eq!(sim.hosts[0].node.tcp.get_socket_descriptor(third.socket_id()), Some(SocketDescriptor(2)));
}

#[test]
fn what_is_sent_without_a_way_out_comes_again() {
    let mut sim = Sim::pair(DropFactor::never(), DropFactor::never());
    let (conn, peer) = sim.connect(0, 1, 5656);
    sim.hosts[0].node.tcp.send_on_socket(conn.socket_id(), b"late").unwrap();
    sim.hosts[0].node.net.links[1].up = false;
    assert!(sim.hosts[0].node.flush(0).is_empty());
    let (outs, given_up) = sim.hosts[0].node.serve_timers(999);
    assert!(outs.is_empty() && given_up.is_empty());
    // the timer asks for the segment again, and there is still no way out
    let (outs, given_up) = sim.hosts[0].node.serve_timers(1000);
    assert!(outs.is_empty() && given_up.is_empty());
    sim.hosts[0].node.net.links[1].up = true;
    let (outs, given_up) = sim.hosts[0].node.serve_timers(3000);
    assert!(given_up.is_empty());
    assert_eq!(outs.len(), 1);
    assert_eq!(&outs[0].datagram[40..], b"late");
    for out in outs {
        sim.put(0, out);
    }
    sim.settle();
    let mut got = Vec::new();
    assert_eq!(sim.hosts[1].node.tcp.read_all_step(peer.socket_id(), &mut got, 4), Ok(true));
    assert_eq!(got, b"late");
}

#[test]
fn the_timers_take_lingering_sockets_out() {
    let mut sim = Sim::pair(DropFactor::never(), DropFactor::never());
    let (conn, peer) = sim.connect(0, 1, 5656);
    let (stays, _) = sim.connect(0, 1, 5657);
    sim.hosts[0].node.tcp.close(conn.socket_id()).unwrap();
    sim.settle();
    sim.hosts[1].node.tcp.close(peer.socket_id()).unwrap();
    sim.settle();
    assert_eq!(sim.status(0, conn.socket_id()), Some(SocketStatus::TimeWait));
    let (outs, given_up) = sim.hosts[0].node.serve_timers(59_999);
    assert!(outs.is_empty() && given_up.is_empty());
    assert_eq!(sim.hosts[0].node.tcp.socket_ids(), vec![conn.socket_id(), stays.socket_id()]);
    let (outs, given_up) = sim.hosts[0].node.serve_timers(60_000);
    assert!(outs.is_empty() && given_up.is_empty());
    assert_eq!(sim.hosts[0].node.tcp.socket_ids(), vec![stays.socket_id()]);
    // the descriptor of the socket that is gone names nothing
    assert!(sim.hosts[0].node.tcp.get_socket_by_descriptor(SocketDescriptor(0)).is_none());
    assert_eq!(
        sim.hosts[0].node.tcp.get_socket_by_descriptor(SocketDescriptor(1)).unwrap().id(),
        stays.socket_id()
    );
}

#[test]
fn every_link_that_is_up_is_told_the_table() {
    let mut sim = Sim::new(vec![DropFactor::never(), DropFactor::never(), DropFactor::never()]);
    let node = &mut sim.hosts[1].node;
    let outs = node.advertise_all();
    assert_eq!(outs.iter().map(|o| o.link).collect::<Vec<_>>(), vec![0, 1]);
    for o in &outs {
        assert_eq!(Some(&o.datagram), node.advertise(o.link).map(|a| a.datagram).as_ref());
        let info = read_datagram(&o.datagram).unwrap();
        assert_eq!(info.protocol, 200);
        assert_eq!(info.source, node.net.links[o.link].src_virtual_ip);
        assert_eq!(info.destination, node.net.links[o.link].dest_virtual_ip);
    }
    node.net.deactivate(0);
    let outs = node.advertise_all();
    assert_eq!(outs.iter().map(|o| o.link).collect::<Vec<_>>(), vec![1]);
    node.net.deactivate(1);
    assert!(node.advertise_all().is_empty());
}

#[test]
fn initial_sequence_numbers_are_drawn_from_all_of_32_bits() {
    let mut high = false;
    let mut differ = false;
    let first = ip_tcp::protocol::tcp::socket::Closed::new().seq_no;
    for _ in 0..200 {
        let n = ip_tcp::protocol::tcp::socket::Closed::new().seq_no;
        high |= n > 0xffff;
        differ |= n != first;
    }
    assert!(high && differ);
}

#[test]
fn every_interface_keeps_its_row_at_cost_zero() {
    let mut sim = Sim::new(vec![DropFactor::never(), DropFactor::never(), DropFactor::never()]);
    for _ in 0..4 {
        sim.advertise();
        sim.deliver_all();
    }
    for h in 0..3 {
        let node = &mut sim.hosts[h].node;
        node.sweep(1_000_000);
        for i in 0..node.net.links.len() {
            let vip = node.net.links[i].src_virtual_ip;
            let rows: Vec<_> = node.net.routes.routes.iter().filter(|r| r.dst == vip).collect();
            assert_eq!(rows.len(), 1);
            assert!(rows[0].is_local);
            assert_eq!(rows[0].cost, 0);
            assert!(node.net.is_local(vip));
        }
    }
}

#[test]
fn a_link_is_not_taken_where_its_route_has_no_room() {
    let mut net = Net::new();
    let mut n: u32 = 0;
    while net.routes.routes.len() < ip_tcp::route::MAX_ROUTES {
        let o = n.to_be_bytes();
        let def = LinkDefinition {
            dest_port: 1,
            interface_ip: VirtualIp::new(10, o[1], o[2], o[3]),
            dest_ip: VirtualIp::new(11, o[1], o[2], o[3]),
        };
        assert_eq!(net.add_link(def, 0), Some(n as usize));
        n += 1;
    }
    let links = net.links.len();
    let def = LinkDefinition {
        dest_port: 1,
        interface_ip: VirtualIp::new(12, 0, 0, 1),
        dest_ip: VirtualIp::new(12, 0, 0, 2),
    };
    assert_eq!(net.add_link(def, 0), None);
    assert_eq!(net.links.len(), links);
    assert_eq!(net.routes.routes.len(), ip_tcp::route::MAX_ROUTES);
    // an address that has its route already needs no room
    let def = LinkDefinition {
        dest_port: 2,
        interface_ip: VirtualIp::new(10, 0, 0, 0),
        dest_ip: VirtualIp::new(12, 0, 0, 2),
    };
    assert_eq!(net.add_link(def, 0), Some(links));
}

#[test]
fn a_request_at_a_listener_brings_a_descriptor_of_its_own() {
    let mut sim = Sim::pair(DropFactor::never(), DropFactor::never());
    sim.hosts[1].node.tcp.listen(Port(80)).unwrap();
    let before = sim.hosts[1].node.tcp.sockets.socket_builder.next_socket_descriptor;
    let (_, syn) = sim.hosts[0].node.connect(Remote::new(ip(1, 0), Port(80))).unwrap();
    sim.put(0, syn);
    sim.deliver_all();
    let tcp = &sim.hosts[1].node.tcp;
    let sockets = &tcp.sockets.socket_map;
    assert_eq!(sockets.len(), 2);
    assert_eq!(sockets[0].id(), SocketId::Listen(Port(80)));
    assert_eq!(sockets[1].descriptor(), SocketDescriptor(before as u16));
    assert_ne!(sockets[0].descriptor(), sockets[1].descriptor());
    assert_eq!(tcp.sockets.socket_builder.next_socket_descriptor, before + 1);
    assert_eq!(tcp.sockets.socket_id_map.last(), Some(&(sockets[1].descriptor(), sockets[1].id())));
    assert_eq!(tcp.get_socket_by_descriptor(sockets[1].descriptor()).unwrap().id(), sockets[1].id());
}

#[test]
fn unreachable_whatever_the_table_holds() {
    // without a way there the answer is the same when no port is left
    let mut sim = Sim::pair(DropFactor::never(), DropFactor::never());
    sim.hosts[0].node.tcp.sockets.socket_builder.next_port = u16::MAX;
    sim.hosts[0].node.tcp.sockets.socket_builder.next_socket_descriptor = 70_000;
    let nowhere = VirtualIp::new(192, 168, 0, 1);
    match sim.hosts[0].node.connect(Remote::new(nowhere, Port(5656))) {
        Err(e) => assert_eq!(e, TcpConnError::Transport(TransportError::DestUnreachable(nowhere))),
        Ok(_) => panic!("there is no way there"),
    }
    assert!(sim.hosts[0].node.tcp.socket_ids().is_empty());
    assert_eq!(sim.hosts[0].node.tcp.sockets.socket_builder.next_port, u16::MAX);
}

#[test]
fn shutdown_of_each_kind() {
    let mut sim = Sim::pair(DropFactor::never(), DropFactor::never());
    let (a, _) = sim.connect(0, 1, 5656);
    let (b, _) = sim.connect(0, 1, 5657);
    let (c, _) = sim.connect(0, 1, 5658);
    let tcp = &mut sim.hosts[0].node.tcp;
    let d = |tcp: &Tcp, conn: TcpConn| tcp.get_socket_descriptor(conn.socket_id()).unwrap();
    let (da, db, dc) = (d(tcp, a), d(tcp, b), d(tcp, c));

    assert!(tcp.shutdown_by_descriptor(da, TcpShutdownKind::Read));
    let s = tcp.get_socket(a.socket_id()).unwrap();
    assert_eq!((s.status(), s.is_read_closed()), (SocketStatus::Established, Some(true)));
    assert_eq!(tcp.send_on_socket(a.socket_id(), b"still"), Ok(5));

    assert!(tcp.shutdown(b.socket_id(), TcpShutdownKind::Write));
    let s = tcp.get_socket(b.socket_id()).unwrap();
    assert_eq!((s.status(), s.is_read_closed()), (SocketStatus::FinWait1, Some(false)));
    assert_eq!(tcp.send_on_socket(b.socket_id(), b"late"), Err(TcpSendError::ConnClosed));

    assert!(tcp.shutdown_by_descriptor(dc, TcpShutdownKind::ReadWrite));
    let s = tcp.get_socket(c.socket_id()).unwrap();
    assert_eq!((s.status(), s.is_read_closed()), (SocketStatus::FinWait1, Some(true)));

    // a second shutdown finds the socket and has nothing more to close
    assert!(tcp.shutdown_by_descriptor(dc, TcpShutdownKind::Write));
    assert_eq!(tcp.get_socket(c.socket_id()).unwrap().status(), SocketStatus::FinWait1);
    assert!(!tcp.shutdown_by_descriptor(SocketDescriptor(77), TcpShutdownKind::ReadWrite));
    assert!(!tcp.shutdown(SocketId::Listen(Port(9)), TcpShutdownKind::Read));
    // the FIN of a shutdown goes out with the output path
    let outs = sim.hosts[0].node.flush(0);
    let fins = outs.iter().filter(|o| o.datagram[20 + 13] & 1 == 1).count();
    assert_eq!(fins, 2);
}

#[test]
fn steps_by_descriptor() {
    let mut sim = Sim::pair(DropFactor::never(), DropFactor::never());
    let (conn, peer) = sim.connect(0, 1, 5656);
    let d = sim.hosts[0].node.tcp.get_socket_descriptor(conn.socket_id()).unwrap();
    let p = sim.hosts[1].node.tcp.get_socket_descriptor(peer.socket_id()).unwrap();
    let listener = sim.hosts[1].node.tcp.get_socket_descriptor(SocketId::Listen(Port(5656))).unwrap();
    let missing = SocketDescriptor(99);

    let data = make_in_mem_test_file(70_000);
    let tcp = &mut sim.hosts[0].node.tcp;
    assert_eq!(tcp.send_all_step_by_descriptor(missing, &data, 0), Err(TcpSendError::NoSocket(missing)));
    assert_eq!(tcp.send_all_step_by_descriptor(d, &data, 0), Ok(65535));
    assert_eq!(tcp.send_all_step_by_descriptor(d, &data, 65535), Ok(65535));
    sim.settle();

    let tcp = &mut sim.hosts[1].node.tcp;
    let mut got = Vec::new();
    assert_eq!(tcp.read_all_step_by_descriptor(missing, &mut got, 10), Err(TcpReadError::NoSocket(missing)));
    assert_eq!(tcp.read_all_step_by_descriptor(listener, &mut got, 10), Err(TcpReadError::ConnNotEstablished));
    assert_eq!(tcp.read_all_step_by_descriptor(p, &mut got, 10), Ok(true));
    assert_eq!(got, &data[..10]);
    assert_eq!(tcp.read_all_step_by_descriptor(p, &mut got, 70_000), Ok(false));
    assert_eq!(got, &data[..65535]);
    // a reader that has shut down is told so at once, with what it has
    assert!(tcp.shutdown_by_descriptor(p, TcpShutdownKind::Read));
    assert_eq!(tcp.read_all_step_by_descriptor(p, &mut got, 70_000), Err(TcpReadError::Closed(65535)));
    let mut fresh = Vec::new();
    assert_eq!(tcp.read_all_step_by_descriptor(p, &mut fresh, 0), Err(TcpReadError::Closed(0)));
    assert!(fresh.is_empty());
    // and so is one that makes a single attempt
    assert!(matches!(tcp.read_on_socket_descriptor(p, 10), Err(TcpReadError::Closed(0))));
    assert!(matches!(tcp.read_on_socket_descriptor(listener, 10), Err(TcpReadError::ConnNotEstablished)));
    assert!(matches!(tcp.read_on_socket_descriptor(missing, 10), Err(TcpReadError::NoSocket(d)) if d == missing));
}

#[test]
fn a_read_tells_the_peer_of_the_room_it_made() {
    let mut sim = Sim::pair(DropFactor::never(), DropFactor::never());
    let (conn, peer) = sim.connect(0, 1, 5656);
    let p = sim.hosts[1].node.tcp.get_socket_descriptor(peer.socket_id()).unwrap();
    sim.hosts[0].node.tcp.send_on_socket(conn.socket_id(), b"hello world!").unwrap();
    sim.settle();
    let node = &mut sim.hosts[1].node;
    let mut got = Vec::new();
    // nothing is wanted, nothing is read, nothing is said
    let (r, update) = node.read_all_step(peer.socket_id(), &mut got, 0);
    assert!(r == Ok(true) && update.is_none());
    let (r, update) = node.read_all_step(peer.socket_id(), &mut got, 5);
    assert_eq!(r, Ok(true));
    assert_eq!(got, b"hello");
    let update = update.unwrap();
    assert_eq!(update.link, 0);
    let segment = &update.datagram[20..];
    assert_eq!(segment.len(), 20);
    // an acknowledgment with the window that is free again: 7 octets still wait
    assert_eq!(segment[13], 0x10);
    assert_eq!(u16::from_be_bytes([segment[14], segment[15]]), 65535 - 7);
    let (r, update) = node.read_all_step_by_descriptor(p, &mut got, 20);
    assert_eq!(r, Ok(false));
    assert_eq!(got, b"hello world!");
    let update = update.unwrap();
    assert_eq!(u16::from_be_bytes([update.datagram[34], update.datagram[35]]), 65535);
    // nothing is there: nothing is read and nothing is said
    let (r, update) = node.read_all_step_by_descriptor(p, &mut got, 20);
    assert!(r == Ok(false) && update.is_none());
    let (r, update) = node.read_all_step_by_descriptor(SocketDescriptor(50), &mut got, 20);
    assert!(r == Err(TcpReadError::NoSocket(SocketDescriptor(50))) && update.is_none());
    let (r, update) = node.read_all_step(SocketId::Listen(Port(1)), &mut got, 20);
    assert!(r == Err(TcpReadError::ConnNotEstablished) && update.is_none());
}

#[test]
fn closing_is_waited_for_until_the_fin_is_acknowledged() {
    let mut sim = Sim::pair(DropFactor::never(), DropFactor::never());
    let (conn, peer) = sim.connect(0, 1, 5656);
    let (a, b) = (conn.socket_id(), peer.socket_id());
    assert!(!sim.hosts[0].node.tcp.close_pending(a));
    assert!(!sim.hosts[0].node.tcp.close_pending(SocketId::Listen(Port(5656))));
    sim.hosts[0].node.tcp.close(a).unwrap();
    assert_eq!(sim.status(0, a), Some(SocketStatus::FinWait1));
    assert!(sim.hosts[0].node.tcp.close_pending(a));
    sim.settle();
    assert_eq!(sim.status(0, a), Some(SocketStatus::FinWait2));
    assert!(!sim.hosts[0].node.tcp.close_pending(a));
    assert_eq!(sim.status(1, b), Some(SocketStatus::CloseWait));
    assert!(!sim.hosts[1].node.tcp.close_pending(b));
    sim.hosts[1].node.tcp.close(b).unwrap();
    assert_eq!(sim.status(1, b), Some(SocketStatus::LastAck));
    assert!(sim.hosts[1].node.tcp.close_pending(b));
    sim.settle();
    assert!(!sim.hosts[1].node.tcp.close_pending(b));
    assert!(!sim.hosts[0].node.tcp.close_pending(a));
}
