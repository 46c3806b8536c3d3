//! The reliable byte-stream transport.

pub mod buf;
pub mod prelude;
pub mod rtt;
pub mod rtx;
pub mod segment;
pub mod socket;
pub mod stream;

use crate::addr::VirtualIp;
use crate::cli::TcpShutdownKind;
use crate::protocol::tcp::prelude::{Port, Remote, SocketDescriptor, SocketId};
use crate::protocol::tcp::segment::{
    read_segment, segment_payload, spec_read_segment, SegmentError, SegmentHeader, TcpMessage,
};
use crate::protocol::tcp::socket::{
    ack_message, completes_handshake, control_header, drained_output, drained_state,
    lemma_only_listeners_open, message_view, messages_view, read_result_view, sock_after_close,
    sock_after_close_read, sock_after_output,
    sock_after_recv, sock_after_send, sock_close_result, sock_output, sock_recv_result,
    sock_send_result, sock_timer_update, spec_packet_reply, spec_packet_signals, spec_packet_state,
    spec_socket_after_timer, spec_socket_timer, view_conn, Closed, MessageView, ReadStep,
    ReadStepView, Signals, Socket, SocketStatus, SocketView, SynReceived, SynSent, TcpConn,
    TcpListener, TcpState, TcpStateView, TimerAction, TimerActionView, UpdateAction, INITIAL_WINDOW,
};
use vstd::prelude::*;
use vstd::slice::slice_subrange;

verus! {

/// The window that a fresh connection advertises, and the size of its buffers.
pub const TCP_DEFAULT_WINDOW_SZ: usize = 65535;

/// The maximum payload size for each TCP packet.
pub const MAX_SEGMENT_SZ: usize = 1024;

/// The maximum number of TCP connections that are waiting to be accepted on
/// a listener port.
pub const MAX_PENDING_TCP_CONNECTIONS: usize = 1024;

/// How long `connect` waits for the peer, in milliseconds.
pub const TCP_DEFAULT_CONNECTION_TIMEOUT: u64 = 2000;

/// How long a socket lingers in `TimeWait`, in milliseconds: twice the
/// maximum lifetime of a segment.
pub const TIME_WAIT_DURATION: u64 = 60000;

/// Why a datagram could not be handed to the network.
#[derive(Clone, Copy, Debug, PartialEq, Eq, Structural)]
pub enum TransportError {
    DestUnreachable(VirtualIp),
}

#[derive(Debug, Copy, Clone, PartialEq, Eq, Structural)]
pub enum TcpConnError {
    ConnectionExists(Remote),
    Transport(TransportError),
    Timeout,
}

#[derive(Debug, Copy, Clone, PartialEq, Eq, Structural)]
pub enum TcpListenError {
    PortOccupied(Port),
}

#[derive(Debug, Copy, Clone, PartialEq, Eq, Structural)]
pub enum TcpAcceptError {
    ListenSocketClosed,
}

#[derive(Debug, Copy, Clone, PartialEq, Eq, Structural)]
pub enum TcpSendError {
    NoSocket(SocketDescriptor),
    ConnNotEstablished,
    ConnClosed,
}

#[derive(Debug, Copy, Clone, PartialEq, Eq, Structural)]
pub enum TcpReadError {
    NoSocket(SocketDescriptor),
    /// Failed to fill the provided buffer because the remote has closed.
    /// Returns the number of bytes written into the buffer.
    Closed(usize),
    ConnNotEstablished,
}

#[derive(Debug, Copy, Clone, PartialEq, Eq, Structural)]
pub enum TcpCloseError {
    NoSocketOnDescriptor(SocketDescriptor),
    NoSocketOnId(SocketId),
    AlreadyClosed,
}

#[derive(Debug, Copy, Clone, PartialEq, Eq, Structural)]
pub enum AddSocketError {
    ConnectionExists(SocketId),
}

/// Hands out local ports and socket descriptors, each once.
pub struct SocketBuilder {
    pub next_socket_descriptor: usize,
    pub next_port: u16,
}

impl SocketBuilder {
    /// A builder that has handed out nothing: descriptors start at 0,
    /// ports at 1024.
    pub fn new() -> (b: Self)
        ensures
            b.next_port == 1024,
            b.next_socket_descriptor == 0,
    {
        Self { next_port: 1024, next_socket_descriptor: 0 }
    }

    /// Whether a port and a descriptor are left to hand out.
    pub open spec fn has_room(&self) -> bool {
        self.next_port < u16::MAX && self.next_socket_descriptor <= u16::MAX
    }

    /// Whether a port and a descriptor are left to hand out.
    pub fn can_build(&self) -> (b: bool)
        ensures
            b == self.has_room(),
    {
        self.next_port < u16::MAX && self.next_socket_descriptor <= u16::MAX as usize
    }

    /// A closed socket with the identity `socket_id` and the next descriptor.
    pub fn build_with_id(&mut self, socket_id: SocketId) -> (r: (SocketDescriptor, Socket))
        requires
            old(self).next_socket_descriptor <= u16::MAX,
        ensures
            r.0 == SocketDescriptor(old(self).next_socket_descriptor as u16),
            final(self).next_socket_descriptor == old(self).next_socket_descriptor + 1,
            final(self).next_port == old(self).next_port,
            r.1.wf(),
            r.1.id == socket_id,
            r.1.descriptor == r.0,
            r.1@.state is Closed,
    {
        let descriptor = self.allocate_socket_descriptor();
        let sock = Socket::new(socket_id, descriptor);
        (descriptor, sock)
    }

    /// The identity of a new connection to `remote`, from the next local port.
    pub fn make_socket_id(&mut self, remote: Remote) -> (id: SocketId)
        requires
            old(self).next_port < u16::MAX,
        ensures
            id == SocketId::Connection(Port(old(self).next_port), remote.ip, remote.port),
            final(self).next_port == old(self).next_port + 1,
            final(self).next_socket_descriptor == old(self).next_socket_descriptor,
    {
        let local_port = Port(self.next_port);
        self.next_port += 1;
        SocketId::for_connection(local_port, remote)
    }

    /// The next descriptor.
    pub fn allocate_socket_descriptor(&mut self) -> (d: SocketDescriptor)
        requires
            old(self).next_socket_descriptor <= u16::MAX,
        ensures
            d == SocketDescriptor(old(self).next_socket_descriptor as u16),
            final(self).next_socket_descriptor == old(self).next_socket_descriptor + 1,
            final(self).next_port == old(self).next_port,
    {
        let descriptor = SocketDescriptor(self.next_socket_descriptor as u16);
        self.next_socket_descriptor += 1;
        descriptor
    }
}

/// The index of the first socket with the identity `id` at or after `i`,
/// or the length.
pub open spec fn find_from(sockets: Seq<Socket>, id: SocketId, i: int) -> int
    decreases sockets.len() - i,
{
    if i < 0 || i >= sockets.len() {
        sockets.len() as int
    } else if sockets[i].id == id {
        i
    } else {
        find_from(sockets, id, i + 1)
    }
}

/// The index of the socket with the identity `id`, if the table has one.
pub open spec fn find_id(sockets: Seq<Socket>, id: SocketId) -> Option<int> {
    if find_from(sockets, id, 0) < sockets.len() {
        Some(find_from(sockets, id, 0))
    } else {
        None
    }
}

/// The identity that the table has under the descriptor `d`, from index
/// `i` on.
pub open spec fn lookup_from(
    map: Seq<(SocketDescriptor, SocketId)>,
    d: SocketDescriptor,
    i: int,
) -> Option<SocketId>
    decreases map.len() - i,
{
    if i < 0 || i >= map.len() {
        None
    } else if map[i].0 == d {
        Some(map[i].1)
    } else {
        lookup_from(map, d, i + 1)
    }
}

pub proof fn lemma_find_from(sockets: Seq<Socket>, id: SocketId, i: int)
    requires
        0 <= i <= sockets.len(),
    ensures
        i <= find_from(sockets, id, i) <= sockets.len(),
        forall|k: int| i <= k < find_from(sockets, id, i) ==> (#[trigger] sockets[k]).id != id,
        find_from(sockets, id, i) < sockets.len() ==> sockets[find_from(sockets, id, i)].id == id,
    decreases sockets.len() - i,
{
    if i < sockets.len() && sockets[i].id != id {
        lemma_find_from(sockets, id, i + 1);
    }
}

/// Whether the descriptor of every socket is one that the builder has
/// handed out: below the next one.
pub open spec fn descriptors_handed_out(sockets: Seq<Socket>, next: usize) -> bool {
    forall|i: int| 0 <= i < sockets.len() ==> (#[trigger] sockets[i]).descriptor.0 < next
}

/// Whether no two sockets have one descriptor.
pub open spec fn distinct_descriptors(sockets: Seq<Socket>) -> bool {
    forall|i: int, j: int|
        0 <= i < j < sockets.len() ==> (#[trigger] sockets[i]).descriptor != (
        #[trigger] sockets[j]).descriptor
}

/// Whether the descriptor of every socket names that socket's identity.
pub open spec fn descriptors_name(sockets: Seq<Socket>, map: Seq<(SocketDescriptor, SocketId)>) -> bool {
    forall|i: int|
        0 <= i < sockets.len() ==> lookup_from(map, (#[trigger] sockets[i]).descriptor, 0) == Some(
            sockets[i].id,
        )
}

/// A descriptor that stands nowhere in the map names nothing.
pub proof fn lemma_lookup_none(map: Seq<(SocketDescriptor, SocketId)>, d: SocketDescriptor, i: int)
    requires
        0 <= i <= map.len(),
        forall|k: int| 0 <= k < map.len() ==> (#[trigger] map[k]).0 != d,
    ensures
        lookup_from(map, d, i) is None,
    decreases map.len() - i,
{
    if i < map.len() {
        lemma_lookup_none(map, d, i + 1);
    }
}

/// What a descriptor names it names still when an entry joins the map at
/// the end; a descriptor that named nothing names what the new entry says,
/// where the new entry is for it.
pub proof fn lemma_lookup_push(
    map: Seq<(SocketDescriptor, SocketId)>,
    d: SocketDescriptor,
    id: SocketId,
    q: SocketDescriptor,
    i: int,
)
    requires
        0 <= i <= map.len(),
    ensures
        lookup_from(map.push((d, id)), q, i) == match lookup_from(map, q, i) {
            Some(x) => Some(x),
            None => if q == d {
                Some(id)
            } else {
                None
            },
        },
    decreases map.len() - i,
{
    let longer = map.push((d, id));
    if i < map.len() {
        assert(longer[i] == map[i]);
        if map[i].0 != q {
            lemma_lookup_push(map, d, id, q, i + 1);
        }
    } else {
        assert(longer[i] == (d, id));
        assert(lookup_from(longer, q, i + 1) is None);
    }
}

/// A socket that has left the table is named by nothing: its descriptor
/// stays in the map, but the identity under it finds no socket.
pub proof fn lemma_removed_socket_is_unnamed(before: SocketTable, after: SocketTable, i: int)
    requires
        before.wf(),
        0 <= i < before.socket_map@.len(),
        after.socket_id_map@ == before.socket_id_map@,
        after.spec_index(before.socket_map@[i].id) is None,
    ensures
        after.spec_socket_of(before.socket_map@[i].descriptor) is None,
{
    assert(lookup_from(before.socket_id_map@, before.socket_map@[i].descriptor, 0) == Some(
        before.socket_map@[i].id,
    ));
}

/// The sockets of a node: each under its identity, and each identity under
/// the descriptor that it was given.
pub struct SocketTable {
    pub socket_id_map: Vec<(SocketDescriptor, SocketId)>,
    pub socket_map: Vec<Socket>,
    pub socket_builder: SocketBuilder,
}

impl SocketTable {
    /// Every socket is well-formed, no two sockets have one identity or one
    /// descriptor, every descriptor in use was handed out by the builder,
    /// and the descriptor of every socket names that socket.
    pub open spec fn wf(&self) -> bool {
        &&& forall|i: int| 0 <= i < self.socket_map@.len() ==> (#[trigger] self.socket_map@[i]).wf()
        &&& forall|i: int, j: int|
            0 <= i < j < self.socket_map@.len() ==> (#[trigger] self.socket_map@[i]).id != (
            #[trigger] self.socket_map@[j]).id
        &&& forall|i: int|
            0 <= i < self.socket_id_map@.len() ==> (#[trigger] self.socket_id_map@[i]).0.0
                < self.socket_builder.next_socket_descriptor
        &&& forall|i: int, j: int|
            0 <= i < j < self.socket_id_map@.len() ==> (#[trigger] self.socket_id_map@[i]).0 != (
            #[trigger] self.socket_id_map@[j]).0
        &&& descriptors_handed_out(self.socket_map@, self.socket_builder.next_socket_descriptor)
        &&& distinct_descriptors(self.socket_map@)
        &&& descriptors_name(self.socket_map@, self.socket_id_map@)
    }

    /// The sockets as contracts speak of them, in the order of the table.
    pub open spec fn view(&self) -> Seq<SocketView> {
        self.socket_map@.map_values(|s: Socket| s@)
    }

    /// The index of the socket with the identity `id`.
    pub open spec fn spec_index(&self, id: SocketId) -> Option<int> {
        find_id(self.socket_map@, id)
    }

    /// The identity under the descriptor `d`.
    pub open spec fn spec_id_of(&self, d: SocketDescriptor) -> Option<SocketId> {
        lookup_from(self.socket_id_map@, d, 0)
    }

    /// An empty table.
    pub fn new() -> (t: Self)
        ensures
            t.wf(),
            t.socket_map@.len() == 0,
            t.socket_id_map@.len() == 0,
            t.socket_builder.next_port == 1024,
            t.socket_builder.next_socket_descriptor == 0,
    {
        Self { socket_builder: SocketBuilder::new(), socket_id_map: Vec::new(), socket_map: Vec::new() }
    }

    /// The index of the socket with the identity `id`.
    pub fn index_of(&self, id: SocketId) -> (r: Option<usize>)
        ensures
            match r {
                Some(i) => self.spec_index(id) == Some(i as int) && i < self.socket_map@.len()
                    && self.socket_map@[i as int].id == id,
                None => self.spec_index(id) is None && forall|k: int|
                    0 <= k < self.socket_map@.len() ==> (#[trigger] self.socket_map@[k]).id != id,
            },
    {
        let mut i: usize = 0;
        proof {
            lemma_find_from(self.socket_map@, id, 0);
        }
        while i < self.socket_map.len()
            invariant
                i <= self.socket_map@.len(),
                find_from(self.socket_map@, id, i as int) == find_from(self.socket_map@, id, 0),
                forall|k: int| 0 <= k < i ==> (#[trigger] self.socket_map@[k]).id != id,
            decreases self.socket_map@.len() - i,
        {
            if self.socket_map[i].id == id {
                return Some(i);
            }
            i += 1;
        }
        None
    }

    /// The identity under the descriptor `d`.
    pub fn id_of(&self, d: SocketDescriptor) -> (r: Option<SocketId>)
        ensures
            r == self.spec_id_of(d),
    {
        let mut i: usize = 0;
        while i < self.socket_id_map.len()
            invariant
                i <= self.socket_id_map@.len(),
                lookup_from(self.socket_id_map@, d, i as int) == lookup_from(
                    self.socket_id_map@,
                    d,
                    0,
                ),
            decreases self.socket_id_map@.len() - i,
        {
            if self.socket_id_map[i].0 == d {
                return Some(self.socket_id_map[i].1);
            }
            i += 1;
        }
        None
    }

    /// Puts a socket into the table under its identity and the descriptor
    /// `descriptor`. Where the table has a socket with that identity, nothing
    /// changes and the identity comes back as the error.
    pub fn insert(&mut self, descriptor: SocketDescriptor, socket: Socket) -> (r: Result<
        usize,
        AddSocketError,
    >)
        requires
            old(self).wf(),
            socket.wf(),
            socket.descriptor == descriptor,
            descriptor.0 < old(self).socket_builder.next_socket_descriptor,
            forall|i: int|
                0 <= i < old(self).socket_id_map@.len()
                    ==> (#[trigger] old(self).socket_id_map@[i]).0 != descriptor,
        ensures
            final(self).wf(),
            final(self).socket_builder == old(self).socket_builder,
            match old(self).spec_index(socket.id) {
                Some(_) => r == Err::<usize, AddSocketError>(
                    AddSocketError::ConnectionExists(socket.id),
                ) && final(self).socket_map@ == old(self).socket_map@ && final(self).socket_id_map@
                    == old(self).socket_id_map@,
                None => r is Ok && r->Ok_0 == old(self).socket_map@.len()
                    && final(self).socket_map@ == old(self).socket_map@.push(socket)
                        && final(self).socket_id_map@
                            == old(self).socket_id_map@.push((descriptor, socket.id)),
            },
    {
        let socket_id = socket.id;
        if self.index_of(socket_id).is_some() {
            return Err(AddSocketError::ConnectionExists(socket_id));
        }
        proof {
            let map = old(self).socket_id_map@;
            let sockets = old(self).socket_map@;
            lemma_lookup_none(map, descriptor, 0);
            assert forall|k: int| 0 <= k < sockets.len() implies (#[trigger] sockets[k]).descriptor
                != descriptor && lookup_from(
                map.push((descriptor, socket_id)),
                sockets[k].descriptor,
                0,
            ) == Some(sockets[k].id) by {
                assert(lookup_from(map, sockets[k].descriptor, 0) == Some(sockets[k].id));
                lemma_lookup_push(map, descriptor, socket_id, sockets[k].descriptor, 0);
            }
            lemma_lookup_push(map, descriptor, socket_id, descriptor, 0);
        }
        self.socket_map.push(socket);
        self.socket_id_map.push((descriptor, socket_id));
        proof {
            let after = self.socket_map@;
            let n = old(self).socket_map@.len() as int;
            assert(after[n] == socket);
            assert forall|k: int| 0 <= k < n implies #[trigger] after[k] == old(self).socket_map@[k] by {}
            assert(descriptors_name(after, self.socket_id_map@)) by {
                assert forall|k: int| 0 <= k < after.len() implies lookup_from(
                    self.socket_id_map@,
                    (#[trigger] after[k]).descriptor,
                    0,
                ) == Some(after[k].id) by {
                    if k < n {
                        assert(after[k] == old(self).socket_map@[k]);
                    }
                }
            }
            assert(distinct_descriptors(after)) by {
                assert forall|a: int, b: int| 0 <= a < b < after.len() implies (
                #[trigger] after[a]).descriptor != (#[trigger] after[b]).descriptor by {
                    assert(after[a] == old(self).socket_map@[a]);
                    if b < n {
                        assert(after[b] == old(self).socket_map@[b]);
                    }
                }
            }
            assert(descriptors_handed_out(after, self.socket_builder.next_socket_descriptor)) by {
                assert forall|k: int| 0 <= k < after.len() implies (#[trigger] after[k]).descriptor.0
                    < self.socket_builder.next_socket_descriptor by {
                    if k < n {
                        assert(after[k] == old(self).socket_map@[k]);
                    }
                }
            }
        }
        Ok(self.socket_map.len() - 1)
    }

    /// Adds a closed socket for a new connection to `remote`, from a fresh
    /// local port.
    pub fn add_new_socket(&mut self, remote: Remote) -> (r: Result<usize, AddSocketError>)
        requires
            old(self).wf(),
            old(self).socket_builder.has_room(),
        ensures
            final(self).wf(),
            final(self).socket_builder.next_port == old(self).socket_builder.next_port + 1,
            final(self).socket_builder.next_socket_descriptor
                == old(self).socket_builder.next_socket_descriptor + 1,
            final(self).socket_id_map@ == if r is Ok {
                old(self).socket_id_map@.push(
                    (
                        SocketDescriptor(old(self).socket_builder.next_socket_descriptor as u16),
                        SocketId::Connection(
                            Port(old(self).socket_builder.next_port),
                            remote.ip,
                            remote.port,
                        ),
                    ),
                )
            } else {
                old(self).socket_id_map@
            },
            ({
                let id = SocketId::Connection(
                    Port(old(self).socket_builder.next_port),
                    remote.ip,
                    remote.port,
                );
                match old(self).spec_index(id) {
                    Some(_) => r == Err::<usize, AddSocketError>(
                        AddSocketError::ConnectionExists(id),
                    ) && final(self).socket_map@ == old(self).socket_map@,
                    None => r is Ok && r->Ok_0 == old(self).socket_map@.len()
                        && final(self).socket_map@.len() == old(self).socket_map@.len() + 1
                        && final(self).socket_map@.drop_last() == old(self).socket_map@
                            && final(self).socket_map@.last().id == id
                            && final(self).socket_map@.last().descriptor
                        == SocketDescriptor(
                        old(self).socket_builder.next_socket_descriptor as u16,
                    ) && final(self).socket_map@.last()@.state is Closed,
                }
            }),
    {
        let sock_id = self.socket_builder.make_socket_id(remote);
        let (descriptor, socket) = self.socket_builder.build_with_id(sock_id);
        let r = self.insert(descriptor, socket);
        proof {
            if r is Ok {
                assert(self.socket_map@.drop_last() == old(self).socket_map@);
            }
        }
        r
    }

    /// Adds a closed socket for a listener on `local_port`.
    pub fn add_new_listen_socket(&mut self, local_port: Port) -> (r: Result<usize, AddSocketError>)
        requires
            old(self).wf(),
            old(self).socket_builder.next_socket_descriptor <= u16::MAX,
        ensures
            final(self).wf(),
            final(self).socket_builder.next_port == old(self).socket_builder.next_port,
            final(self).socket_builder.next_socket_descriptor
                == old(self).socket_builder.next_socket_descriptor + 1,
            final(self).socket_id_map@ == if r is Ok {
                old(self).socket_id_map@.push(
                    (
                        SocketDescriptor(old(self).socket_builder.next_socket_descriptor as u16),
                        SocketId::Listen(local_port),
                    ),
                )
            } else {
                old(self).socket_id_map@
            },
            match old(self).spec_index(SocketId::Listen(local_port)) {
                Some(_) => r == Err::<usize, AddSocketError>(
                    AddSocketError::ConnectionExists(SocketId::Listen(local_port)),
                ) && final(self).socket_map@ == old(self).socket_map@,
                None => r is Ok && r->Ok_0 == old(self).socket_map@.len()
                    && final(self).socket_map@.len() == old(self).socket_map@.len() + 1
                        && final(self).socket_map@.drop_last() == old(self).socket_map@
                            && final(self).socket_map@.last().id == SocketId::Listen(local_port)
                                && final(self).socket_map@.last().descriptor == SocketDescriptor(
                    old(self).socket_builder.next_socket_descriptor as u16,
                ) && final(self).socket_map@.last()@.state is Closed,
            },
    {
        let (descriptor, socket) = self.socket_builder.build_with_id(
            SocketId::for_listen_socket(local_port),
        );
        let r = self.insert(descriptor, socket);
        proof {
            if r is Ok {
                assert(self.socket_map@.drop_last() == old(self).socket_map@);
            }
        }
        r
    }

    /// Adds the socket of a connection that a listener on `local_port` has
    /// opened for `remote`.
    pub fn add_new_syn_recvd_socket(
        &mut self,
        remote: Remote,
        local_port: Port,
        syn_recvd_state: SynReceived,
    ) -> (r: Result<usize, AddSocketError>)
        requires
            old(self).wf(),
            old(self).socket_builder.next_socket_descriptor <= u16::MAX,
            syn_recvd_state.src_port == local_port,
            syn_recvd_state.dest_ip == remote.ip,
            syn_recvd_state.dest_port == remote.port,
        ensures
            final(self).wf(),
            final(self).socket_builder.next_port == old(self).socket_builder.next_port,
            final(self).socket_builder.next_socket_descriptor
                == old(self).socket_builder.next_socket_descriptor + 1,
            final(self).socket_id_map@ == if r is Ok {
                old(self).socket_id_map@.push(
                    (
                        SocketDescriptor(old(self).socket_builder.next_socket_descriptor as u16),
                        SocketId::Connection(local_port, remote.ip, remote.port),
                    ),
                )
            } else {
                old(self).socket_id_map@
            },
            ({
                let id = SocketId::Connection(local_port, remote.ip, remote.port);
                match old(self).spec_index(id) {
                    Some(_) => r == Err::<usize, AddSocketError>(
                        AddSocketError::ConnectionExists(id),
                    ) && final(self).socket_map@ == old(self).socket_map@,
                    None => r is Ok && r->Ok_0 == old(self).socket_map@.len()
                        && final(self).socket_map@.len() == old(self).socket_map@.len() + 1
                        && final(self).socket_map@.drop_last() == old(self).socket_map@
                            && final(self).socket_map@.last()@ == (SocketView {
                        id,
                        descriptor: SocketDescriptor(
                            old(self).socket_builder.next_socket_descriptor as u16,
                        ),
                        state: TcpStateView::SynReceived(syn_recvd_state),
                    }),
                }
            }),
    {
        let sock_id = SocketId::for_connection(local_port, remote);
        let descriptor = self.socket_builder.allocate_socket_descriptor();
        let s = Socket::syn_received(sock_id, descriptor, syn_recvd_state);
        let r = self.insert(descriptor, s);
        proof {
            if r is Ok {
                assert(self.socket_map@.drop_last() == old(self).socket_map@);
            }
        }
        r
    }

    /// Takes the socket with the identity `id` out of the table, if there
    /// is one. Its descriptor stays behind and names nothing from then on.
    pub fn remove_by_id(&mut self, id: SocketId)
        requires
            old(self).wf(),
        ensures
            final(self).wf(),
            final(self).socket_builder == old(self).socket_builder,
            final(self).socket_id_map@ == old(self).socket_id_map@,
            final(self).socket_map@ == match old(self).spec_index(id) {
                Some(i) => old(self).socket_map@.remove(i),
                None => old(self).socket_map@,
            },
            final(self).spec_index(id) is None,
    {
        match self.index_of(id) {
            Some(i) => {
                let _ = self.socket_map.remove(i);
                proof {
                    let before = old(self).socket_map@;
                    let after = self.socket_map@;
                    assert forall|k: int| 0 <= k < after.len() implies (#[trigger] after[k]).id
                        != id && after[k].wf() by {
                        if k < i {
                            assert(after[k] == before[k]);
                        } else {
                            assert(after[k] == before[k + 1]);
                        }
                    }
                    assert forall|a: int, b: int| 0 <= a < b < after.len() implies (
                    #[trigger] after[a]).id != (#[trigger] after[b]).id by {
                        let a0 = if a < i { a } else { a + 1 };
                        let b0 = if b < i { b } else { b + 1 };
                        assert(after[a] == before[a0]);
                        assert(after[b] == before[b0]);
                    }
                    assert forall|a: int, b: int| 0 <= a < b < after.len() implies (
                    #[trigger] after[a]).descriptor != (#[trigger] after[b]).descriptor by {
                        let a0 = if a < i { a } else { a + 1 };
                        let b0 = if b < i { b } else { b + 1 };
                        assert(after[a] == before[a0]);
                        assert(after[b] == before[b0]);
                    }
                    assert forall|k: int| 0 <= k < after.len() implies (
                    #[trigger] after[k]).descriptor.0
                        < self.socket_builder.next_socket_descriptor && lookup_from(
                        self.socket_id_map@,
                        after[k].descriptor,
                        0,
                    ) == Some(after[k].id) by {
                        let k0 = if k < i { k } else { k + 1 };
                        assert(after[k] == before[k0]);
                    }
                    lemma_find_from(after, id, 0);
                }
            },
            None => {
                proof {
                    lemma_find_from(self.socket_map@, id, 0);
                }
            },
        }
    }

    /// The socket with the identity `id`.
    pub fn get_socket_by_id(&self, id: SocketId) -> (r: Option<&Socket>)
        ensures
            match self.spec_index(id) {
                Some(i) => r == Some(&self.socket_map@[i]),
                None => r is None,
            },
    {
        match self.index_of(id) {
            Some(i) => Some(&self.socket_map[i]),
            None => None,
        }
    }

    /// The socket that the descriptor `descriptor` names: the one with the
    /// identity that stands under the descriptor, where it is still there.
    pub fn get_socket_by_descriptor(&self, descriptor: SocketDescriptor) -> (r: Option<&Socket>)
        ensures
            match self.spec_id_of(descriptor) {
                Some(id) => match self.spec_index(id) {
                    Some(i) => r == Some(&self.socket_map@[i]),
                    None => r is None,
                },
                None => r is None,
            },
    {
        match self.id_of(descriptor) {
            Some(id) => self.get_socket_by_id(id),
            None => None,
        }
    }

    /// The listener on `port`.
    pub fn get_listener_socket(&self, port: Port) -> (r: Option<&Socket>)
        ensures
            match self.spec_index(SocketId::Listen(port)) {
                Some(i) => r == Some(&self.socket_map@[i]),
                None => r is None,
            },
    {
        let id = SocketId::for_listen_socket(port);
        self.get_socket_by_id(id)
    }
}

/// Looking a socket up goes by the identities alone: two tables whose
/// sockets have the same identities in the same order find the same.
pub proof fn lemma_find_by_ids(a: Seq<Socket>, b: Seq<Socket>, id: SocketId, i: int)
    requires
        a.len() == b.len(),
        forall|k: int| 0 <= k < a.len() ==> (#[trigger] a[k]).id == (#[trigger] b[k]).id,
    ensures
        find_from(a, id, i) == find_from(b, id, i),
    decreases a.len() - i,
{
    if 0 <= i < a.len() && a[i].id != id {
        lemma_find_by_ids(a, b, id, i + 1);
    }
}

/// The connection request from the port `local` to `remote` with the
/// initial sequence number `seq`.
pub open spec fn syn_message(local: Port, remote: Remote, seq: u32) -> MessageView {
    MessageView {
        header: control_header(local, remote.port, seq, None, true, false, INITIAL_WINDOW),
        payload: Seq::empty(),
    }
}

/// Why a received segment was let go.
#[derive(Copy, Clone, Debug, PartialEq, Eq, Structural)]
pub enum SegmentDrop {
    /// The bytes do not begin with a well-formed header.
    BadHeader,
    /// The checksum does not match.
    BadChecksum,
    /// Neither a connection nor a listener waits for the segment.
    NoSocket,
    /// A connection request found no descriptor left for a new socket.
    TableFull,
    /// The handshake is complete, but the listener's queue of connections
    /// to accept is full.
    QueueFull,
}

/// What a received segment led to.
pub struct Delivery {
    /// The segment to send back to where the segment came from.
    pub reply: Option<TcpMessage>,
    /// What the segment means for those who wait on the socket that took it.
    pub signals: Option<Signals>,
    /// The identity of the socket that took the segment.
    pub socket: Option<SocketId>,
    /// Why the segment was let go, where it was.
    pub dropped: Option<SegmentDrop>,
}

/// A TCP stack: the sockets of a node and the connections that wait to be
/// accepted, oldest first.
pub struct Tcp {
    pub sockets: SocketTable,
    pub accept_queue: Vec<SocketId>,
}

/// How many of the identities in `queue` have the local port `port`.
pub open spec fn pending_on(queue: Seq<SocketId>, port: Port) -> nat
    decreases queue.len(),
{
    if queue.len() == 0 {
        0
    } else {
        pending_on(queue.drop_last(), port) + if queue.last().spec_local_port() == port {
            1nat
        } else {
            0nat
        }
    }
}

/// Taking an identity out of the queue leaves no more waiting on any port.
pub proof fn lemma_pending_after_remove(queue: Seq<SocketId>, i: int, port: Port)
    requires
        0 <= i < queue.len(),
    ensures
        pending_on(queue.remove(i), port) <= pending_on(queue, port),
    decreases queue.len(),
{
    if i == queue.len() - 1 {
        assert(queue.remove(i) =~= queue.drop_last());
    } else {
        lemma_pending_after_remove(queue.drop_last(), i, port);
        assert(queue.remove(i).drop_last() =~= queue.drop_last().remove(i));
        assert(queue.remove(i).last() == queue.last());
    }
}

/// The index of the first identity in `queue` at or after `i` with the
/// local port `port`, or the length.
pub open spec fn first_pending(queue: Seq<SocketId>, port: Port, i: int) -> int
    decreases queue.len() - i,
{
    if i < 0 || i >= queue.len() {
        queue.len() as int
    } else if queue[i].spec_local_port() == port {
        i
    } else {
        first_pending(queue, port, i + 1)
    }
}

/// The socket that a segment with the header `h` from `src_ip` is for: the
/// connection between the two ends where there is one, else the listener on
/// the port.
pub open spec fn spec_target(sockets: Seq<Socket>, h: SegmentHeader, src_ip: VirtualIp) -> Option<int> {
    match find_id(
        sockets,
        SocketId::Connection(Port(h.destination_port), src_ip, Port(h.source_port)),
    ) {
        Some(i) => Some(i),
        None => find_id(sockets, SocketId::Listen(Port(h.destination_port))),
    }
}

/// Whether the table cannot take what the segment asks of the socket: a
/// connection request needs a descriptor for the new socket, and the last
/// step of a handshake needs room in the listener's queue.
pub open spec fn spec_blocked(tcp: Tcp, s: SocketView, h: SegmentHeader) -> Option<SegmentDrop> {
    match s.state {
        TcpStateView::Listen(_) => if h.syn && !h.ack && !h.rst
            && tcp.sockets.socket_builder.next_socket_descriptor > u16::MAX {
            Some(SegmentDrop::TableFull)
        } else {
            None
        },
        TcpStateView::SynReceived(st) => if completes_handshake(st, h) && pending_on(
            tcp.accept_queue@,
            s.id.spec_local_port(),
        ) >= MAX_PENDING_TCP_CONNECTIONS {
            Some(SegmentDrop::QueueFull)
        } else {
            None
        },
        _ => None,
    }
}

/// The sockets after the socket at `i` has gone to the state `state` and
/// the table has done what the socket asked for.
pub open spec fn spec_table_after(
    sockets: Seq<SocketView>,
    i: int,
    state: TcpStateView,
    update: Option<UpdateAction>,
    next_descriptor: usize,
) -> Seq<SocketView> {
    let updated = sockets.update(i, SocketView { state, ..sockets[i] });
    match update {
        Some(UpdateAction::NewSynReceivedSocket(sr)) => if has_id(
            updated,
            SocketId::Connection(sr.src_port, sr.dest_ip, sr.dest_port),
        ) {
            updated
        } else {
            updated.push(
                SocketView {
                    id: SocketId::Connection(sr.src_port, sr.dest_ip, sr.dest_port),
                    descriptor: SocketDescriptor(next_descriptor as u16),
                    state: TcpStateView::SynReceived(sr),
                },
            )
        },
        Some(UpdateAction::CloseSocket(_)) => updated.remove(i),
        None => updated,
    }
}

impl Tcp {
    /// The table is well-formed, and on no port do more connections wait
    /// to be accepted than the queue of a listener holds.
    pub open spec fn wf(&self) -> bool {
        &&& self.sockets.wf()
        &&& forall|port: Port| #[trigger]
            pending_on(self.accept_queue@, port) <= MAX_PENDING_TCP_CONNECTIONS
    }

    /// A stack without sockets: nobody waits to be accepted, no descriptor
    /// names anything, and the first connection will go out from port 1024
    /// under the descriptor 0.
    pub fn new() -> (t: Self)
        ensures
            t.wf(),
            t.sockets.socket_map@.len() == 0,
            t.sockets.socket_id_map@.len() == 0,
            t.sockets.socket_builder.next_port == 1024,
            t.sockets.socket_builder.next_socket_descriptor == 0,
            t.accept_queue@.len() == 0,
    {
        let t = Tcp { sockets: SocketTable::new(), accept_queue: Vec::new() };
        assert(forall|port: Port| #[trigger] pending_on(t.accept_queue@, port) == 0);
        t
    }

    /// Puts `sock` where the socket at `i` was taken from.
    fn put_back(&mut self, i: usize, sock: Socket, Ghost(before): Ghost<Tcp>)
        requires
            before.wf(),
            i < before.sockets.socket_map@.len(),
            old(self).sockets.socket_map@ == before.sockets.socket_map@.remove(i as int),
            old(self).sockets.socket_id_map == before.sockets.socket_id_map,
            old(self).sockets.socket_builder == before.sockets.socket_builder,
            old(self).accept_queue == before.accept_queue,
            sock.wf(),
            sock.id == before.sockets.socket_map@[i as int].id,
            sock.descriptor == before.sockets.socket_map@[i as int].descriptor,
        ensures
            final(self).wf(),
            final(self).sockets.socket_map@ == before.sockets.socket_map@.update(i as int, sock),
            final(self).sockets.socket_id_map == before.sockets.socket_id_map,
            final(self).sockets.socket_builder == before.sockets.socket_builder,
            final(self).accept_queue == before.accept_queue,
            forall|id: SocketId| final(self).sockets.spec_index(id)
                == before.sockets.spec_index(id),
    {
        self.sockets.socket_map.insert(i, sock);
        proof {
            let a = before.sockets.socket_map@;
            let b = self.sockets.socket_map@;
            assert(b =~= a.update(i as int, sock));
            assert forall|id: SocketId| self.sockets.spec_index(id) == before.sockets.spec_index(
                id,
            ) by {
                lemma_find_by_ids(b, a, id, 0);
            }
            assert forall|k: int| 0 <= k < b.len() implies (#[trigger] b[k]).id == a[k].id
                && b[k].descriptor == a[k].descriptor && b[k].wf() by {
                if k != i {
                    assert(b[k] == a[k]);
                }
            }
            assert(distinct_descriptors(b)) by {
                assert forall|x: int, y: int| 0 <= x < y < b.len() implies (
                #[trigger] b[x]).descriptor != (#[trigger] b[y]).descriptor by {
                    assert(a[x].descriptor != a[y].descriptor);
                }
            }
            assert(descriptors_name(b, self.sockets.socket_id_map@)) by {
                assert forall|k: int| 0 <= k < b.len() implies lookup_from(
                    self.sockets.socket_id_map@,
                    (#[trigger] b[k]).descriptor,
                    0,
                ) == Some(b[k].id) by {
                    assert(lookup_from(before.sockets.socket_id_map@, a[k].descriptor, 0) == Some(
                        a[k].id,
                    ));
                }
            }
            assert(descriptors_handed_out(b, self.sockets.socket_builder.next_socket_descriptor))
                by {
                assert forall|k: int| 0 <= k < b.len() implies (#[trigger] b[k]).descriptor.0
                    < self.sockets.socket_builder.next_socket_descriptor by {
                    assert(a[k].descriptor.0 < before.sockets.socket_builder.next_socket_descriptor);
                }
            }
        }
    }

    /// Opens a connection to `remote` actively: a socket for it joins the
    /// table and goes to `SynSent`. Gives the handle of the connection and
    /// the request to send. The caller waits for the socket to signal that
    /// it is connected, and takes it out again where that does not happen
    /// in time.
    pub fn connect(&mut self, remote: Remote) -> (r: Result<(TcpConn, TcpMessage), TcpConnError>)
        requires
            old(self).wf(),
            old(self).sockets.socket_builder.has_room(),
        ensures
            final(self).wf(),
            final(self).accept_queue == old(self).accept_queue,
            final(self).sockets.socket_builder == (SocketBuilder {
                next_port: (old(self).sockets.socket_builder.next_port + 1) as u16,
                next_socket_descriptor: (old(self).sockets.socket_builder.next_socket_descriptor
                    + 1) as usize,
            }),
            final(self).sockets.socket_id_map@ == if r is Ok {
                old(self).sockets.socket_id_map@.push(
                    (
                        SocketDescriptor(
                            old(self).sockets.socket_builder.next_socket_descriptor as u16,
                        ),
                        SocketId::Connection(
                            Port(old(self).sockets.socket_builder.next_port),
                            remote.ip,
                            remote.port,
                        ),
                    ),
                )
            } else {
                old(self).sockets.socket_id_map@
            },
            ({
                let local = Port(old(self).sockets.socket_builder.next_port);
                let id = SocketId::Connection(local, remote.ip, remote.port);
                match old(self).sockets.spec_index(id) {
                    Some(_) => r matches Err(TcpConnError::ConnectionExists(rem)) && rem == remote
                        && final(self).sockets.socket_map@ == old(self).sockets.socket_map@,
                    None => {
                        &&& r is Ok
                        &&& r->Ok_0.0.id == id
                        &&& r->Ok_0.1@ == syn_message(
                            local,
                            remote,
                            r->Ok_0.1@.header.sequence_number,
                        )
                        &&& final(self).sockets.socket_map@.len()
                            == old(self).sockets.socket_map@.len() + 1
                        &&& final(self).sockets.socket_map@.drop_last()
                            == old(self).sockets.socket_map@
                        &&& final(self).sockets.socket_map@.last().id == id
                        &&& final(self).sockets.socket_map@.last().descriptor == SocketDescriptor(
                            old(self).sockets.socket_builder.next_socket_descriptor as u16,
                        )
                        &&& final(self).sockets.socket_map@.last()@.state
                            == TcpStateView::SynSent(
                            SynSent {
                                seq_no: r->Ok_0.1@.header.sequence_number,
                                src_port: local,
                                dest_ip: remote.ip,
                                dest_port: remote.port,
                            },
                        )
                    },
                }
            }),
    {
        let i = match self.sockets.add_new_socket(remote) {
            Ok(i) => i,
            Err(_) => {
                return Err(TcpConnError::ConnectionExists(remote));
            },
        };
        let ghost before = *self;
        proof {
            let id = SocketId::Connection(
                Port(old(self).sockets.socket_builder.next_port),
                remote.ip,
                remote.port,
            );
            assert(old(self).sockets.spec_index(id) is None);
            assert(i == old(self).sockets.socket_map@.len());
            assert(self.sockets.socket_map@.len() == old(self).sockets.socket_map@.len() + 1);
        }
        let mut sock = self.sockets.socket_map.remove(i);
        let id = sock.id;
        let syn = sock.connect();
        self.put_back(i, sock, Ghost(before));
        proof {
            assert(i == before.sockets.socket_map@.len() - 1);
            assert(before.sockets.socket_map@.drop_last() == old(self).sockets.socket_map@);
            assert(self.sockets.socket_map@.drop_last() =~= before.sockets.socket_map@.drop_last());
        }
        match syn {
            Some(syn) => Ok((TcpConn::new(id), syn)),
            None => Err(TcpConnError::ConnectionExists(remote)),
        }
    }

    /// Starts listening for incoming connections at a port. Opens a
    /// listener socket.
    pub fn listen(&mut self, port: Port) -> (r: Result<TcpListener, TcpListenError>)
        requires
            old(self).wf(),
            old(self).sockets.socket_builder.next_socket_descriptor <= u16::MAX,
        ensures
            final(self).wf(),
            final(self).accept_queue == old(self).accept_queue,
            final(self).sockets.socket_builder == (SocketBuilder {
                next_socket_descriptor: (old(self).sockets.socket_builder.next_socket_descriptor
                    + 1) as usize,
                ..old(self).sockets.socket_builder
            }),
            final(self).sockets.socket_id_map@ == if r is Ok {
                old(self).sockets.socket_id_map@.push(
                    (
                        SocketDescriptor(
                            old(self).sockets.socket_builder.next_socket_descriptor as u16,
                        ),
                        SocketId::Listen(port),
                    ),
                )
            } else {
                old(self).sockets.socket_id_map@
            },
            match old(self).sockets.spec_index(SocketId::Listen(port)) {
                Some(_) => r
                    == Err::<TcpListener, TcpListenError>(TcpListenError::PortOccupied(port))
                    && final(self).sockets.socket_map@ == old(self).sockets.socket_map@,
                None => {
                    &&& r == Ok::<TcpListener, TcpListenError>(TcpListener { port: port.0 })
                    &&& final(self).sockets.socket_map@.len()
                        == old(self).sockets.socket_map@.len() + 1
                    &&& final(self).sockets.socket_map@.drop_last() == old(self).sockets.socket_map@
                    &&& final(self).sockets.socket_map@.last().id == SocketId::Listen(port)
                    &&& final(self).sockets.socket_map@.last().descriptor == SocketDescriptor(
                        old(self).sockets.socket_builder.next_socket_descriptor as u16,
                    )
                    &&& final(self).sockets.socket_map@.last()@.state is Listen
                    &&& final(self).sockets.socket_map@.last()@.state->Listen_0.port == port
                },
            },
    {
        let i = match self.sockets.add_new_listen_socket(port) {
            Ok(i) => i,
            Err(_) => {
                return Err(TcpListenError::PortOccupied(port));
            },
        };
        let ghost before = *self;
        let mut sock = self.sockets.socket_map.remove(i);
        let _ = sock.listen();
        self.put_back(i, sock, Ghost(before));
        proof {
            assert(i == before.sockets.socket_map@.len() - 1);
            assert(before.sockets.socket_map@.drop_last() == old(self).sockets.socket_map@);
            assert(self.sockets.socket_map@.drop_last() =~= before.sockets.socket_map@.drop_last());
        }
        Ok(TcpListener::new(port.0))
    }

    /// Takes the oldest connection that waits to be accepted on `port`.
    pub fn accept(&mut self, port: Port) -> (r: Option<TcpConn>)
        requires
            old(self).wf(),
        ensures
            final(self).wf(),
            final(self).sockets == old(self).sockets,
            ({
                let i = first_pending(old(self).accept_queue@, port, 0);
                if i < old(self).accept_queue@.len() {
                    r == Some(TcpConn { id: old(self).accept_queue@[i] })
                        && final(self).accept_queue@ == old(self).accept_queue@.remove(i)
                } else {
                    r is None && final(self).accept_queue@ == old(self).accept_queue@
                }
            }),
    {
        let mut i: usize = 0;
        while i < self.accept_queue.len()
            invariant
                i <= self.accept_queue@.len(),
                *self == *old(self),
                self.wf(),
                first_pending(self.accept_queue@, port, i as int) == first_pending(
                    self.accept_queue@,
                    port,
                    0,
                ),
            decreases self.accept_queue@.len() - i,
        {
            if self.accept_queue[i].local_port() == port {
                let id = self.accept_queue.remove(i);
                proof {
                    assert forall|p: Port| #[trigger]
                        pending_on(self.accept_queue@, p) <= MAX_PENDING_TCP_CONNECTIONS by {
                        lemma_pending_after_remove(old(self).accept_queue@, i as int, p);
                    }
                }
                return Some(TcpConn::new(id));
            }
            i += 1;
        }
        None
    }
}

/// The builder after the table has done what a socket asked for: a
/// connection request takes the next descriptor.
pub open spec fn spec_builder_after(b: SocketBuilder, update: Option<UpdateAction>) -> SocketBuilder {
    match update {
        Some(UpdateAction::NewSynReceivedSocket(_)) => SocketBuilder {
            next_socket_descriptor: (b.next_socket_descriptor + 1) as usize,
            ..b
        },
        _ => b,
    }
}

/// The map of descriptors after the table has done what a socket asked
/// for: the socket of a new connection stands under the descriptor that it
/// took, where the table had no socket with its identity.
pub open spec fn spec_names_after(
    map: Seq<(SocketDescriptor, SocketId)>,
    sockets: Seq<SocketView>,
    update: Option<UpdateAction>,
    next_descriptor: usize,
) -> Seq<(SocketDescriptor, SocketId)> {
    match update {
        Some(UpdateAction::NewSynReceivedSocket(sr)) => if has_id(
            sockets,
            SocketId::Connection(sr.src_port, sr.dest_ip, sr.dest_port),
        ) {
            map
        } else {
            map.push(
                (
                    SocketDescriptor(next_descriptor as u16),
                    SocketId::Connection(sr.src_port, sr.dest_ip, sr.dest_port),
                ),
            )
        },
        _ => map,
    }
}

/// Whether one of `sockets` has the identity `id`.
pub open spec fn has_id(sockets: Seq<SocketView>, id: SocketId) -> bool {
    exists|k: int| 0 <= k < sockets.len() && (#[trigger] sockets[k]).id == id
}

/// A delivery that says that the segment was let go.
pub open spec fn is_dropped(d: Delivery, why: SegmentDrop) -> bool {
    d.reply is None && d.signals is None && d.socket is None && d.dropped == Some(why)
}


/// Whether the stack `after` and the delivery `d` are what the stack
/// `before` makes of the bytes `bytes` of a segment from `src_ip` for `dst_ip`
/// at time `now`, where `iss` is the initial sequence number for a connection
/// that a listener opens.
pub open spec fn segment_handled(
    before: Tcp,
    after: Tcp,
    d: Delivery,
    src_ip: VirtualIp,
    dst_ip: VirtualIp,
    bytes: Seq<u8>,
    now: u64,
    iss: u32,
) -> bool {
    match spec_read_segment(src_ip, dst_ip, bytes) {
        Err(SegmentError::BadHeader) => is_dropped(d, SegmentDrop::BadHeader) && after
            == before,
        Err(SegmentError::BadChecksum) => is_dropped(d, SegmentDrop::BadChecksum)
            && after == before,
        Ok(h) => match spec_target(before.sockets.socket_map@, h, src_ip) {
            None => is_dropped(d, SegmentDrop::NoSocket) && after == before,
            Some(i) => {
                let s = before@[i];
                let payload = segment_payload(bytes);
                match spec_blocked(before, s, h) {
                    Some(why) => is_dropped(d, why) && after == before,
                    None => {
                        let signals = spec_packet_signals(
                            s.state,
                            s.id,
                            src_ip,
                            h,
                            payload,
                            now,
                            iss,
                        );
                        &&& d.dropped is None
                        &&& d.socket == Some(s.id)
                        &&& d.signals == Some(signals)
                        &&& message_view(d.reply) == spec_packet_reply(
                            s.state,
                            src_ip,
                            h,
                            payload,
                            now,
                            iss,
                        )
                        &&& after@ == spec_table_after(
                            before@,
                            i,
                            spec_packet_state(s.state, src_ip, h, payload, now),
                            signals.update,
                            before.sockets.socket_builder.next_socket_descriptor,
                        )
                        &&& after.sockets.socket_builder == spec_builder_after(
                            before.sockets.socket_builder,
                            signals.update,
                        )
                        &&& after.sockets.socket_id_map@ == spec_names_after(
                            before.sockets.socket_id_map@,
                            with_state(
                                before@,
                                i,
                                spec_packet_state(s.state, src_ip, h, payload, now),
                            ),
                            signals.update,
                            before.sockets.socket_builder.next_socket_descriptor,
                        )
                        &&& after.accept_queue@ == if signals.accepted {
                            before.accept_queue@.push(s.id)
                        } else {
                            before.accept_queue@
                        }
                    },
                }
            },
        },
    }
}

/// A connection request at a listener gives the new socket a descriptor of
/// its own: where the table has grown by a segment, the socket at its end is
/// under the descriptor that the builder held ready, every other socket has
/// kept its own, and none of them has that one. The new socket is keyed by
/// the two ends of the request: the port that the request was for, and the
/// address and port that it came from.
pub proof fn lemma_new_socket_has_its_own_descriptor(
    before: Tcp,
    after: Tcp,
    d: Delivery,
    src_ip: VirtualIp,
    dst_ip: VirtualIp,
    bytes: Seq<u8>,
    now: u64,
    iss: u32,
)
    requires
        before.wf(),
        segment_handled(before, after, d, src_ip, dst_ip, bytes, now, iss),
        after@.len() > before@.len(),
    ensures
        after@.len() == before@.len() + 1,
        after@.last().descriptor.0 == before.sockets.socket_builder.next_socket_descriptor,
        after.sockets.socket_builder.next_socket_descriptor
            == before.sockets.socket_builder.next_socket_descriptor + 1,
        after.sockets.socket_id_map@ == before.sockets.socket_id_map@.push(
            (after@.last().descriptor, after@.last().id),
        ),
        forall|j: int|
            0 <= j < before@.len() ==> (#[trigger] after@[j]).descriptor == before@[j].descriptor
                && after@[j].descriptor != after@.last().descriptor,
        spec_read_segment(src_ip, dst_ip, bytes) is Ok,
        after@.last().id == SocketId::Connection(
            Port(spec_read_segment(src_ip, dst_ip, bytes)->Ok_0.destination_port),
            src_ip,
            Port(spec_read_segment(src_ip, dst_ip, bytes)->Ok_0.source_port),
        ),
        after@.last().state is SynReceived,
{
    let h = spec_read_segment(src_ip, dst_ip, bytes)->Ok_0;
    let i = spec_target(before.sockets.socket_map@, h, src_ip)->0;
    lemma_find_from(
        before.sockets.socket_map@,
        SocketId::Connection(Port(h.destination_port), src_ip, Port(h.source_port)),
        0,
    );
    lemma_find_from(before.sockets.socket_map@, SocketId::Listen(Port(h.destination_port)), 0);
    assert(0 <= i < before@.len());
    let s = before@[i];
    let payload = segment_payload(bytes);
    let signals = spec_packet_signals(s.state, s.id, src_ip, h, payload, now, iss);
    let state = spec_packet_state(s.state, src_ip, h, payload, now);
    let next = before.sockets.socket_builder.next_socket_descriptor;
    assert(after@ == spec_table_after(before@, i, state, signals.update, next));
    lemma_table_grows(before@, i, state, signals.update, next);
    lemma_only_listeners_open(
        s.state,
        s.id,
        src_ip,
        h,
        payload,
        now,
        iss,
    );
    assert(spec_blocked(before, s, h) is None);
    assert(next <= u16::MAX);
    assert(before.sockets.socket_map@[i].wf());
    assert(s == before.sockets.socket_map@[i]@);
    assert(s.id == SocketId::Listen(Port(h.destination_port)));
    assert forall|j: int| 0 <= j < before@.len() implies (#[trigger] after@[j]).descriptor
        == before@[j].descriptor && after@[j].descriptor != after@.last().descriptor by {
        assert(before@[j].descriptor == before.sockets.socket_map@[j].descriptor);
        assert(before.sockets.socket_map@[j].descriptor.0 < next);
    }
}

/// A table grows only by the socket of a new connection, which stands at
/// its end under the next descriptor; the sockets before it keep theirs.
pub proof fn lemma_table_grows(
    sockets: Seq<SocketView>,
    i: int,
    state: TcpStateView,
    update: Option<UpdateAction>,
    next: usize,
)
    requires
        0 <= i < sockets.len(),
        spec_table_after(sockets, i, state, update, next).len() > sockets.len(),
    ensures
        update is Some && update->0 is NewSynReceivedSocket,
        ({
            let sr = update->0->NewSynReceivedSocket_0;
            let id = SocketId::Connection(sr.src_port, sr.dest_ip, sr.dest_port);
            let after = spec_table_after(sockets, i, state, update, next);
            &&& !has_id(sockets.update(i, SocketView { state, ..sockets[i] }), id)
            &&& after.len() == sockets.len() + 1
            &&& after.last().descriptor == SocketDescriptor(next as u16)
            &&& after.last().id == id
            &&& forall|j: int|
                0 <= j < sockets.len() ==> (#[trigger] after[j]).descriptor == sockets[j].descriptor
        }),
{
    let updated = sockets.update(i, SocketView { state, ..sockets[i] });
    assert(updated.len() == sockets.len());
    assert(updated.remove(i).len() < sockets.len());
    let after = spec_table_after(sockets, i, state, update, next);
    assert forall|j: int| 0 <= j < sockets.len() implies (#[trigger] after[j]).descriptor
        == sockets[j].descriptor by {
        assert(after[j] == updated[j]);
    }
}

impl Tcp {
    /// The sockets as contracts speak of them.
    pub open spec fn view(&self) -> Seq<SocketView> {
        self.sockets@
    }

    /// How many connections wait to be accepted on `port`.
    pub fn pending_count(&self, port: Port) -> (n: usize)
        ensures
            n == pending_on(self.accept_queue@, port),
    {
        let mut n: usize = 0;
        let mut i: usize = 0;
        assert(self.accept_queue@.take(0) =~= Seq::empty());
        while i < self.accept_queue.len()
            invariant
                i <= self.accept_queue@.len(),
                n <= i,
                n == pending_on(self.accept_queue@.take(i as int), port),
            decreases self.accept_queue@.len() - i,
        {
            assert(self.accept_queue@.take(i + 1).drop_last() == self.accept_queue@.take(i as int));
            if self.accept_queue[i].local_port() == port {
                n += 1;
            }
            i += 1;
        }
        assert(self.accept_queue@.take(i as int) == self.accept_queue@);
        n
    }

    fn dropped(why: SegmentDrop) -> (d: Delivery)
        ensures
            is_dropped(d, why),
    {
        Delivery { reply: None, signals: None, socket: None, dropped: Some(why) }
    }

    /// The index of the socket that a segment is for.
    fn target(&self, h: &SegmentHeader, src_ip: VirtualIp) -> (r: Option<usize>)
        ensures
            match r {
                Some(i) => spec_target(self.sockets.socket_map@, *h, src_ip) == Some(i as int) && i
                    < self.sockets.socket_map@.len(),
                None => spec_target(self.sockets.socket_map@, *h, src_ip) is None,
            },
            r is Some && self.sockets.spec_index(
                SocketId::Connection(Port(h.destination_port), src_ip, Port(h.source_port)),
            ) is None ==> self.sockets.socket_map@[r->0 as int].id == SocketId::Listen(
                Port(h.destination_port),
            ),
    {
        let id = SocketId::Connection(Port(h.destination_port), src_ip, Port(h.source_port));
        match self.sockets.index_of(id) {
            Some(i) => Some(i),
            None => self.sockets.index_of(SocketId::Listen(Port(h.destination_port))),
        }
    }

    /// Whether the table cannot take what the segment asks of the socket
    /// at `i`.
    fn blocked(&self, i: usize, h: &SegmentHeader) -> (r: Option<SegmentDrop>)
        requires
            self.wf(),
            i < self.sockets.socket_map@.len(),
        ensures
            r == spec_blocked(*self, self.sockets.socket_map@[i as int]@, *h),
    {
        let sock = &self.sockets.socket_map[i];
        assert(sock.wf());
        match &sock.state {
            Some(TcpState::Listen(_)) => {
                if h.syn && !h.ack && !h.rst && self.sockets.socket_builder.next_socket_descriptor
                    > u16::MAX as usize {
                    Some(SegmentDrop::TableFull)
                } else {
                    None
                }
            },
            Some(TcpState::SynReceived(st)) => {
                if h.ack && !h.syn && !h.rst && h.acknowledgment_number == st.seq_no.wrapping_add(1)
                    && self.pending_count(sock.id.local_port()) >= MAX_PENDING_TCP_CONNECTIONS {
                    Some(SegmentDrop::QueueFull)
                } else {
                    None
                }
            },
            _ => None,
        }
    }

    /// Handles the bytes of a segment that arrived from `src_ip` for the
    /// local address `dst_ip` at time `now`. `iss` is the initial sequence
    /// number for the connection that a listener opens on a request.
    ///
    /// A segment that is malformed or fails its checksum is let go, and so
    /// is one that no socket waits for. The others go to the connection
    /// between the two ends where there is one, else to the listener on the
    /// port. What the socket asks of the table is done then: the socket of a
    /// new connection joins the table, a socket that has closed leaves it,
    /// and a connection whose handshake is complete joins the queue of those
    /// to be accepted.
    #[verifier::rlimit(40)]
    pub fn handle_segment(
        &mut self,
        src_ip: VirtualIp,
        dst_ip: VirtualIp,
        bytes: &[u8],
        now: u64,
        iss: u32,
    ) -> (d: Delivery)
        requires
            old(self).wf(),
        ensures
            final(self).wf(),
            segment_handled(*old(self), *final(self), d, src_ip, dst_ip, bytes@, now, iss),
    {
        let (h, header_len) = match read_segment(src_ip, dst_ip, bytes) {
            Ok(r) => r,
            Err(SegmentError::BadHeader) => {
                return Self::dropped(SegmentDrop::BadHeader);
            },
            Err(SegmentError::BadChecksum) => {
                return Self::dropped(SegmentDrop::BadChecksum);
            },
        };
        let payload = slice_subrange(bytes, header_len, bytes.len());
        assert(payload@ == segment_payload(bytes@));
        let i = match self.target(&h, src_ip) {
            Some(i) => i,
            None => {
                return Self::dropped(SegmentDrop::NoSocket);
            },
        };
        match self.blocked(i, &h) {
            Some(why) => {
                return Self::dropped(why);
            },
            None => {},
        }
        let ghost before = *self;
        let ghost s = self.sockets.socket_map@[i as int];
        let ghost next_descriptor = self.sockets.socket_builder.next_socket_descriptor;
        assert(s.wf());
        assert(self@[i as int] == s@);
        let mut sock = self.sockets.socket_map.remove(i);
        let id = sock.id;
        let r = sock.handle_packet(src_ip, &h, payload, now, iss);
        let ghost handled = sock;
        self.put_back(i, sock, Ghost(before));
        let ghost updated = old(self)@.update(i as int, handled@);
        assert(self@ =~= updated);
        proof {
            lemma_find_from(before.sockets.socket_map@, id, 0);
            assert(before.sockets.spec_index(id) == Some(i as int));
        }
        match r.signals.update {
            Some(UpdateAction::NewSynReceivedSocket(sr)) => {
                let ghost prev = *self;
                let remote = Remote::new(sr.dest_ip, sr.dest_port);
                let _ = self.sockets.add_new_syn_recvd_socket(remote, sr.src_port, sr);
                proof {
                    let child = SocketId::Connection(sr.src_port, sr.dest_ip, sr.dest_port);
                    lemma_find_from(prev.sockets.socket_map@, child, 0);
                    if prev.sockets.spec_index(child) is Some {
                        let k = prev.sockets.spec_index(child)->0;
                        assert(updated[k].id == child);
                        assert(has_id(updated, child));
                    } else {
                        assert(!has_id(updated, child)) by {
                            if has_id(updated, child) {
                                let k = choose|k: int|
                                    0 <= k < updated.len() && (#[trigger] updated[k]).id == child;
                                assert(prev.sockets.socket_map@[k].id == child);
                            }
                        }
                        assert(self.sockets.socket_map@.drop_last() == prev.sockets.socket_map@);
                        assert(self@ =~= updated.push(self.sockets.socket_map@.last()@));
                    }
                }
            },
            Some(UpdateAction::CloseSocket(gone)) => {
                self.sockets.remove_by_id(gone);
                assert(self@ =~= updated.remove(i as int));
            },
            None => {},
        }
        if r.signals.accepted {
            self.accept_queue.push(id);
            proof {
                assert(self.accept_queue@.drop_last() == old(self).accept_queue@);
                assert(s@.state is SynReceived);
                assert(pending_on(old(self).accept_queue@, id.spec_local_port())
                    < MAX_PENDING_TCP_CONNECTIONS);
                assert forall|p: Port| #[trigger]
                    pending_on(self.accept_queue@, p) <= MAX_PENDING_TCP_CONNECTIONS by {
                    assert(pending_on(old(self).accept_queue@, p) <= MAX_PENDING_TCP_CONNECTIONS);
                }
            }
        }
        Delivery { reply: r.reply, signals: Some(r.signals), socket: Some(id), dropped: None }
    }
}

/// The sockets with the state of the one at `i` replaced by `state`.
pub open spec fn with_state(sockets: Seq<SocketView>, i: int, state: TcpStateView) -> Seq<SocketView> {
    sockets.update(i, SocketView { state, ..sockets[i] })
}

impl SocketTable {
    /// The index of the socket that the descriptor `d` names.
    pub open spec fn spec_socket_of(&self, d: SocketDescriptor) -> Option<int> {
        match self.spec_id_of(d) {
            Some(id) => self.spec_index(id),
            None => None,
        }
    }

    /// The index of the socket that the descriptor `d` names.
    pub fn socket_of(&self, d: SocketDescriptor) -> (r: Option<usize>)
        ensures
            match r {
                Some(i) => self.spec_socket_of(d) == Some(i as int) && i < self.socket_map@.len(),
                None => self.spec_socket_of(d) is None,
            },
    {
        match self.id_of(d) {
            Some(id) => self.index_of(id),
            None => None,
        }
    }
}

impl Tcp {
    /// Takes the socket at `i` out of the table, to work on it.
    fn take_out(&mut self, i: usize) -> (sock: Socket)
        requires
            old(self).wf(),
            i < old(self).sockets.socket_map@.len(),
        ensures
            sock == old(self).sockets.socket_map@[i as int],
            sock.wf(),
            final(self).sockets.socket_map@ == old(self).sockets.socket_map@.remove(i as int),
            final(self).sockets.socket_id_map == old(self).sockets.socket_id_map,
            final(self).sockets.socket_builder == old(self).sockets.socket_builder,
            final(self).accept_queue == old(self).accept_queue,
    {
        assert(self.sockets.socket_map@[i as int].wf());
        self.sockets.socket_map.remove(i)
    }

    /// Takes data from the user for the socket that `socket_descriptor`
    /// names, as much as there is room for.
    pub fn send_on_socket_descriptor(&mut self, socket_descriptor: SocketDescriptor, payload: &[u8]) -> (r:
        Result<usize, TcpSendError>)
        requires
            old(self).wf(),
        ensures
            final(self).wf(),
            final(self).accept_queue == old(self).accept_queue,
            final(self).sockets.socket_id_map@ == old(self).sockets.socket_id_map@,
            final(self).sockets.socket_builder == old(self).sockets.socket_builder,
            match old(self).sockets.spec_socket_of(socket_descriptor) {
                None => r == Err::<usize, TcpSendError>(TcpSendError::NoSocket(socket_descriptor))
                    && final(self)@ == old(self)@,
                Some(i) => r == sock_send_result(old(self)@[i].state, payload@.len() as int)
                    && final(self)@ == with_state(
                    old(self)@,
                    i,
                    sock_after_send(old(self)@[i].state, payload@),
                ),
            },
    {
        let i = match self.sockets.socket_of(socket_descriptor) {
            Some(i) => i,
            None => {
                return Err(TcpSendError::NoSocket(socket_descriptor));
            },
        };
        let ghost before = *self;
        let mut sock = self.take_out(i);
        let r = sock.send(payload);
        let ghost after = sock@;
        self.put_back(i, sock, Ghost(before));
        assert(self@ =~= old(self)@.update(i as int, after));
        r
    }

    /// Takes data from the user for the connection `id`.
    pub fn send_on_socket(&mut self, id: SocketId, payload: &[u8]) -> (r: Result<usize, TcpSendError>)
        requires
            old(self).wf(),
        ensures
            final(self).wf(),
            final(self).accept_queue == old(self).accept_queue,
            final(self).sockets.socket_id_map@ == old(self).sockets.socket_id_map@,
            final(self).sockets.socket_builder == old(self).sockets.socket_builder,
            match old(self).sockets.spec_index(id) {
                None => r == Err::<usize, TcpSendError>(TcpSendError::ConnNotEstablished)
                    && final(self)@ == old(self)@,
                Some(i) => r == sock_send_result(old(self)@[i].state, payload@.len() as int)
                    && final(self)@ == with_state(
                    old(self)@,
                    i,
                    sock_after_send(old(self)@[i].state, payload@),
                ),
            },
    {
        let i = match self.sockets.index_of(id) {
            Some(i) => i,
            None => {
                return Err(TcpSendError::ConnNotEstablished);
            },
        };
        let ghost before = *self;
        let mut sock = self.take_out(i);
        let r = sock.send(payload);
        let ghost after = sock@;
        self.put_back(i, sock, Ghost(before));
        assert(self@ =~= old(self)@.update(i as int, after));
        r
    }

    /// One attempt to read up to `n_bytes` octets from the socket that
    /// `socket_descriptor` names. A descriptor that names nothing, a socket
    /// without a connection and a connection whose reading is shut down are
    /// told so at once.
    pub fn read_on_socket_descriptor(&mut self, socket_descriptor: SocketDescriptor, n_bytes: usize) -> (r:
        Result<ReadStep, TcpReadError>)
        requires
            old(self).wf(),
        ensures
            final(self).wf(),
            final(self).accept_queue == old(self).accept_queue,
            final(self).sockets.socket_id_map@ == old(self).sockets.socket_id_map@,
            final(self).sockets.socket_builder == old(self).sockets.socket_builder,
            match old(self).sockets.spec_socket_of(socket_descriptor) {
                None => r matches Err(TcpReadError::NoSocket(d))
                    && d == socket_descriptor
                    && final(self)@ == old(self)@,
                Some(i) => match read_refused(old(self)@[i].state, 0) {
                    Some(e) => read_result_view(r) == Err::<ReadStepView, TcpReadError>(e)
                        && final(self)@ == old(self)@,
                    None => read_result_view(r) == sock_recv_result(old(self)@[i].state, n_bytes)
                        && final(self)@ == with_state(
                        old(self)@,
                        i,
                        sock_after_recv(old(self)@[i].state, n_bytes),
                    ),
                },
            },
    {
        let i = match self.sockets.socket_of(socket_descriptor) {
            Some(i) => i,
            None => {
                return Err(TcpReadError::NoSocket(socket_descriptor));
            },
        };
        assert(self.sockets.socket_map@[i as int].wf());
        assert(self@[i as int] == self.sockets.socket_map@[i as int]@);
        match self.sockets.socket_map[i].is_read_closed() {
            None => {
                return Err(TcpReadError::ConnNotEstablished);
            },
            Some(true) => {
                return Err(TcpReadError::Closed(0));
            },
            Some(false) => {},
        }
        let ghost before = *self;
        let mut sock = self.take_out(i);
        let r = sock.recv(n_bytes);
        let ghost after = sock@;
        self.put_back(i, sock, Ghost(before));
        assert(self@ =~= old(self)@.update(i as int, after));
        r
    }

    /// One attempt to read up to `n_bytes` octets from the connection `id`.
    pub fn read_on_socket(&mut self, id: SocketId, n_bytes: usize) -> (r: Result<
        ReadStep,
        TcpReadError,
    >)
        requires
            old(self).wf(),
        ensures
            final(self).wf(),
            final(self).accept_queue == old(self).accept_queue,
            final(self).sockets.socket_id_map@ == old(self).sockets.socket_id_map@,
            final(self).sockets.socket_builder == old(self).sockets.socket_builder,
            match old(self).sockets.spec_index(id) {
                None => r matches Err(TcpReadError::ConnNotEstablished)
                    && final(self)@ == old(self)@,
                Some(i) => read_result_view(r) == sock_recv_result(old(self)@[i].state, n_bytes)
                    && final(self)@ == with_state(
                    old(self)@,
                    i,
                    sock_after_recv(old(self)@[i].state, n_bytes),
                ),
            },
    {
        let i = match self.sockets.index_of(id) {
            Some(i) => i,
            None => {
                return Err(TcpReadError::ConnNotEstablished);
            },
        };
        let ghost before = *self;
        let mut sock = self.take_out(i);
        let r = sock.recv(n_bytes);
        let ghost after = sock@;
        self.put_back(i, sock, Ghost(before));
        assert(self@ =~= old(self)@.update(i as int, after));
        r
    }

    /// The socket with the identity `socket_id`.
    pub fn get_socket(&self, socket_id: SocketId) -> (r: Option<&Socket>)
        ensures
            match self.sockets.spec_index(socket_id) {
                Some(i) => r == Some(&self.sockets.socket_map@[i]),
                None => r is None,
            },
    {
        self.sockets.get_socket_by_id(socket_id)
    }

    /// The socket that `socket_descriptor` names.
    pub fn get_socket_by_descriptor(&self, socket_descriptor: SocketDescriptor) -> (r: Option<&Socket>)
        ensures
            match self.sockets.spec_socket_of(socket_descriptor) {
                Some(i) => r == Some(&self.sockets.socket_map@[i]),
                None => r is None,
            },
    {
        self.sockets.get_socket_by_descriptor(socket_descriptor)
    }

    /// The descriptor of the socket with the identity `socket_id`.
    pub fn get_socket_descriptor(&self, socket_id: SocketId) -> (r: Option<SocketDescriptor>)
        ensures
            r == match self.sockets.spec_index(socket_id) {
                Some(i) => Some(self.sockets.socket_map@[i].descriptor),
                None => None,
            },
    {
        match self.sockets.get_socket_by_id(socket_id) {
            Some(s) => Some(s.descriptor()),
            None => None,
        }
    }

    /// Closes the write half of the connection `socket_id`.
    pub fn close(&mut self, socket_id: SocketId) -> (r: Result<(), TcpCloseError>)
        requires
            old(self).wf(),
        ensures
            final(self).wf(),
            final(self).accept_queue == old(self).accept_queue,
            final(self).sockets.socket_id_map@ == old(self).sockets.socket_id_map@,
            final(self).sockets.socket_builder == old(self).sockets.socket_builder,
            match old(self).sockets.spec_index(socket_id) {
                None => r == Err::<(), TcpCloseError>(TcpCloseError::NoSocketOnId(socket_id))
                    && final(self)@ == old(self)@,
                Some(i) => r == sock_close_result(old(self)@[i].state) && final(self)@
                    == with_state(old(self)@, i, sock_after_close(old(self)@[i].state)),
            },
    {
        let i = match self.sockets.index_of(socket_id) {
            Some(i) => i,
            None => {
                return Err(TcpCloseError::NoSocketOnId(socket_id));
            },
        };
        let ghost before = *self;
        let mut sock = self.take_out(i);
        let r = sock.close();
        let ghost after = sock@;
        self.put_back(i, sock, Ghost(before));
        assert(self@ =~= old(self)@.update(i as int, after));
        r
    }

    /// Closes the socket that `socket_descriptor` names: a listener leaves
    /// the table at once, a connection closes its write half.
    pub fn close_by_descriptor(&mut self, socket_descriptor: SocketDescriptor) -> (r: Result<
        (),
        TcpCloseError,
    >)
        requires
            old(self).wf(),
        ensures
            final(self).wf(),
            final(self).accept_queue == old(self).accept_queue,
            final(self).sockets.socket_id_map@ == old(self).sockets.socket_id_map@,
            final(self).sockets.socket_builder == old(self).sockets.socket_builder,
            match old(self).sockets.spec_socket_of(socket_descriptor) {
                None => r == Err::<(), TcpCloseError>(
                    TcpCloseError::NoSocketOnDescriptor(socket_descriptor),
                ) && final(self)@ == old(self)@,
                Some(i) => if old(self)@[i].state is Listen {
                    r is Ok && final(self)@ == old(self)@.remove(i)
                } else {
                    r == sock_close_result(old(self)@[i].state) && final(self)@ == with_state(
                        old(self)@,
                        i,
                        sock_after_close(old(self)@[i].state),
                    )
                },
            },
    {
        let i = match self.sockets.socket_of(socket_descriptor) {
            Some(i) => i,
            None => {
                return Err(TcpCloseError::NoSocketOnDescriptor(socket_descriptor));
            },
        };
        assert(self.sockets.socket_map@[i as int].wf());
        assert(self@[i as int] == self.sockets.socket_map@[i as int]@);
        let is_listener = match self.sockets.socket_map[i].status() {
            SocketStatus::Listen => true,
            _ => false,
        };
        if is_listener {
            let sock_id = self.sockets.socket_map[i].id();
            proof {
                lemma_find_from(self.sockets.socket_map@, sock_id, 0);
            }
            self.sockets.remove_by_id(sock_id);
            assert(self@ =~= old(self)@.remove(i as int));
            return Ok(());
        }
        let ghost before = *self;
        let mut sock = self.take_out(i);
        let r = sock.close();
        let ghost after = sock@;
        self.put_back(i, sock, Ghost(before));
        assert(self@ =~= old(self)@.update(i as int, after));
        r
    }

    /// Shuts down reading on the connection `socket_id`. Says whether
    /// there was a connection to do it on.
    pub fn close_read(&mut self, socket_id: SocketId) -> (r: bool)
        requires
            old(self).wf(),
        ensures
            final(self).wf(),
            final(self).accept_queue == old(self).accept_queue,
            final(self).sockets.socket_id_map@ == old(self).sockets.socket_id_map@,
            final(self).sockets.socket_builder == old(self).sockets.socket_builder,
            match old(self).sockets.spec_index(socket_id) {
                None => !r && final(self)@ == old(self)@,
                Some(i) => r == (view_conn(old(self)@[i].state) is Some) && final(self)@
                    == with_state(old(self)@, i, sock_after_close_read(old(self)@[i].state)),
            },
    {
        let i = match self.sockets.index_of(socket_id) {
            Some(i) => i,
            None => {
                return false;
            },
        };
        let ghost before = *self;
        let mut sock = self.take_out(i);
        let r = sock.close_read();
        let ghost after = sock@;
        self.put_back(i, sock, Ghost(before));
        assert(self@ =~= old(self)@.update(i as int, after));
        r
    }

    /// Emits the next segment of the output path of the connection
    /// `socket_id` at time `now`, if there is one.
    pub fn next_output(&mut self, socket_id: SocketId, now: u64) -> (r: Option<TcpMessage>)
        requires
            old(self).wf(),
        ensures
            final(self).wf(),
            final(self).accept_queue == old(self).accept_queue,
            final(self).sockets.socket_id_map@ == old(self).sockets.socket_id_map@,
            final(self).sockets.socket_builder == old(self).sockets.socket_builder,
            match old(self).sockets.spec_index(socket_id) {
                None => r is None && final(self)@ == old(self)@,
                Some(i) => message_view(r) == sock_output(old(self)@[i].state) && final(self)@
                    == with_state(old(self)@, i, sock_after_output(old(self)@[i].state, now)),
            },
    {
        let i = match self.sockets.index_of(socket_id) {
            Some(i) => i,
            None => {
                return None;
            },
        };
        let ghost before = *self;
        let mut sock = self.take_out(i);
        let r = sock.next_output(now);
        let ghost after = sock@;
        self.put_back(i, sock, Ghost(before));
        assert(self@ =~= old(self)@.update(i as int, after));
        r
    }

    /// Serves the timer of the socket `socket_id` at time `now`. A socket
    /// that closes by it leaves the table.
    pub fn on_timer(&mut self, socket_id: SocketId, now: u64) -> (r: TimerAction)
        requires
            old(self).wf(),
        ensures
            final(self).wf(),
            final(self).accept_queue == old(self).accept_queue,
            final(self).sockets.socket_id_map@ == old(self).sockets.socket_id_map@,
            final(self).sockets.socket_builder == old(self).sockets.socket_builder,
            match old(self).sockets.spec_index(socket_id) {
                None => r is Idle && final(self)@ == old(self)@,
                Some(i) => r@ == spec_socket_timer(old(self)@[i].state, now) && final(self)@
                    == if sock_timer_update(old(self)@[i].state, socket_id, now) is Some {
                    old(self)@.remove(i)
                } else {
                    with_state(old(self)@, i, spec_socket_after_timer(old(self)@[i].state, now))
                },
            },
    {
        let i = match self.sockets.index_of(socket_id) {
            Some(i) => i,
            None => {
                return TimerAction::Idle;
            },
        };
        let ghost before = *self;
        let mut sock = self.take_out(i);
        let (action, update) = sock.on_timer(now);
        let ghost after = sock@;
        self.put_back(i, sock, Ghost(before));
        assert(self@ =~= old(self)@.update(i as int, after));
        match update {
            Some(_) => {
                proof {
                    lemma_find_from(before.sockets.socket_map@, socket_id, 0);
                }
                self.sockets.remove_by_id(socket_id);
                assert(self@ =~= old(self)@.remove(i as int));
            },
            None => {},
        }
        action
    }

    /// The acknowledgment that the connection `socket_id` sends in its
    /// present state: to tell the peer of room that a reader has made.
    pub fn window_update(&self, socket_id: SocketId) -> (r: Option<TcpMessage>)
        requires
            self.wf(),
        ensures
            message_view(r) == spec_window_update(*self, socket_id),
    {
        match self.sockets.index_of(socket_id) {
            Some(i) => {
                assert(self.sockets.socket_map@[i as int].wf());
                assert(self@[i as int] == self.sockets.socket_map@[i as int]@);
                self.sockets.socket_map[i].ack_segment()
            },
            None => None,
        }
    }

    /// Takes the socket `socket_id` out of the table: for a connection
    /// that was not established in time.
    pub fn remove_socket(&mut self, socket_id: SocketId)
        requires
            old(self).wf(),
        ensures
            final(self).wf(),
            final(self).accept_queue == old(self).accept_queue,
            final(self).sockets.socket_id_map@ == old(self).sockets.socket_id_map@,
            final(self).sockets.socket_builder == old(self).sockets.socket_builder,
            final(self)@ == match old(self).sockets.spec_index(socket_id) {
                Some(i) => old(self)@.remove(i),
                None => old(self)@,
            },
            final(self).sockets.spec_index(socket_id) is None,
    {
        proof {
            lemma_find_from(self.sockets.socket_map@, socket_id, 0);
        }
        self.sockets.remove_by_id(socket_id);
        assert(self@ =~= match old(self).sockets.spec_index(socket_id) {
            Some(i) => old(self)@.remove(i),
            None => old(self)@,
        });
    }

    /// The identities of all sockets, in the order of the table.
    pub fn socket_ids(&self) -> (ids: Vec<SocketId>)
        ensures
            ids@ == self@.map_values(|s: SocketView| s.id),
    {
        let mut ids: Vec<SocketId> = Vec::new();
        let mut i: usize = 0;
        while i < self.sockets.socket_map.len()
            invariant
                i <= self.sockets.socket_map@.len(),
                ids@ == self@.map_values(|s: SocketView| s.id).take(i as int),
            decreases self.sockets.socket_map@.len() - i,
        {
            ids.push(self.sockets.socket_map[i].id());
            i += 1;
            assert(ids@ =~= self@.map_values(|s: SocketView| s.id).take(i as int));
        }
        assert(ids@ =~= self@.map_values(|s: SocketView| s.id));
        ids
    }
}

/// How far a read of `want` octets has come after one more attempt on a
/// socket in the state `s`, where `got` octets were read before: `Ok(true)`
/// when all are read, `Ok(false)` when more is to come, and the count of what
/// was read where the stream ends before.
pub open spec fn spec_read_all_result(s: TcpStateView, got: int, want: usize) -> Result<
    bool,
    TcpReadError,
> {
    match sock_recv_result(s, (want - got) as usize) {
        Err(e) => Err(e),
        Ok(ReadStepView::Data(d)) => Ok(got + d.len() == want),
        Ok(ReadStepView::Eof) => if got == want {
            Ok(true)
        } else {
            Err(TcpReadError::Closed(got as usize))
        },
        Ok(ReadStepView::Wait) => Ok(got == want),
    }
}

/// What has been read after one more attempt.
pub open spec fn spec_read_all_got(s: TcpStateView, got: Seq<u8>, want: usize) -> Seq<u8> {
    match sock_recv_result(s, (want - got.len()) as usize) {
        Ok(ReadStepView::Data(d)) => got + d,
        _ => got,
    }
}

/// What a caller of `connect` learns after it has waited `waited`
/// milliseconds, from the state of its socket: nothing yet while the socket
/// waits for the answer and the time is not up; `Timeout` when the time is
/// up; the connection once the socket has gone on; and that the destination
/// cannot be reached where the socket is gone.
pub open spec fn spec_connect_progress(s: Option<TcpStateView>, conn: TcpConn, waited: u64) -> Option<
    Result<TcpConn, TcpConnError>,
> {
    match s {
        None => Some(
            Err(
                match conn.id.spec_remote() {
                    Some(r) => TcpConnError::Transport(TransportError::DestUnreachable(r.ip)),
                    None => TcpConnError::Timeout,
                },
            ),
        ),
        Some(TcpStateView::SynSent(_)) => if waited >= TCP_DEFAULT_CONNECTION_TIMEOUT {
            Some(Err(TcpConnError::Timeout))
        } else {
            None
        },
        Some(_) => Some(Ok(conn)),
    }
}

impl Tcp {
    /// The state of the socket with the identity `id`.
    pub open spec fn state_of(&self, id: SocketId) -> Option<TcpStateView> {
        match self.sockets.spec_index(id) {
            Some(i) => Some(self@[i].state),
            None => None,
        }
    }

    /// One step of waiting for a connection to be established, after
    /// `waited` milliseconds: says what the caller of `connect` learns, if
    /// anything yet. A socket whose time is up leaves the table, and the
    /// descriptor that it had names no socket from then on.
    pub fn connect_progress(&mut self, conn: TcpConn, waited: u64) -> (r: Option<
        Result<TcpConn, TcpConnError>,
    >)
        requires
            old(self).wf(),
        ensures
            final(self).wf(),
            final(self).accept_queue == old(self).accept_queue,
            final(self).sockets.socket_id_map@ == old(self).sockets.socket_id_map@,
            final(self).sockets.socket_builder == old(self).sockets.socket_builder,
            r is Some && r->0 is Err ==> final(self).sockets.spec_index(conn.id) is None,
            r is Some && r->0 is Err ==> forall|d: SocketDescriptor|
                old(self).sockets.spec_id_of(d) == Some(conn.id) ==> (
                #[trigger] final(self).sockets.spec_socket_of(d)) is None,
            r == spec_connect_progress(old(self).state_of(conn.id), conn, waited),
            final(self)@ == if r == Some(
                Err::<TcpConn, TcpConnError>(TcpConnError::Timeout),
            ) && old(self).sockets.spec_index(conn.id) is Some {
                old(self)@.remove(old(self).sockets.spec_index(conn.id)->0)
            } else {
                old(self)@
            },
    {
        let id = conn.socket_id();
        let i = match self.sockets.index_of(id) {
            Some(i) => i,
            None => {
                return Some(
                    Err(
                        match id.remote() {
                            Some(r) => TcpConnError::Transport(
                                TransportError::DestUnreachable(r.ip),
                            ),
                            None => TcpConnError::Timeout,
                        },
                    ),
                );
            },
        };
        assert(self.sockets.socket_map@[i as int].wf());
        assert(self@[i as int] == self.sockets.socket_map@[i as int]@);
        let waiting = match self.sockets.socket_map[i].status() {
            SocketStatus::SynSent => true,
            _ => false,
        };
        if !waiting {
            return Some(Ok(conn));
        }
        if waited >= TCP_DEFAULT_CONNECTION_TIMEOUT {
            self.remove_socket(id);
            Some(Err(TcpConnError::Timeout))
        } else {
            None
        }
    }

    /// One step of accepting on `port`: the oldest connection that waits,
    /// if there is one; else nothing yet, as long as there is a listener on
    /// the port.
    pub fn accept_step(&mut self, port: Port) -> (r: Result<Option<TcpConn>, TcpAcceptError>)
        requires
            old(self).wf(),
        ensures
            final(self).wf(),
            final(self).sockets == old(self).sockets,
            ({
                let i = first_pending(old(self).accept_queue@, port, 0);
                if i < old(self).accept_queue@.len() {
                    r == Ok::<Option<TcpConn>, TcpAcceptError>(
                        Some(TcpConn { id: old(self).accept_queue@[i] }),
                    ) && final(self).accept_queue@ == old(self).accept_queue@.remove(i)
                } else {
                    final(self).accept_queue@ == old(self).accept_queue@
                        && r == if old(self).sockets.spec_index(SocketId::Listen(port)) is Some {
                        Ok::<Option<TcpConn>, TcpAcceptError>(None)
                    } else {
                        Err::<Option<TcpConn>, TcpAcceptError>(TcpAcceptError::ListenSocketClosed)
                    }
                }
            }),
    {
        match self.accept(port) {
            Some(conn) => Ok(Some(conn)),
            None => {
                if self.sockets.index_of(SocketId::Listen(port)).is_some() {
                    Ok(None)
                } else {
                    Err(TcpAcceptError::ListenSocketClosed)
                }
            },
        }
    }

    /// One step of sending all of `bytes` on the connection `id`, of which
    /// the first `done` were taken before: takes as many more as there is
    /// room for, and says how many are taken now in all.
    pub fn send_all_step(&mut self, id: SocketId, bytes: &[u8], done: usize) -> (r: Result<
        usize,
        TcpSendError,
    >)
        requires
            old(self).wf(),
            done <= bytes@.len(),
        ensures
            final(self).wf(),
            final(self).accept_queue == old(self).accept_queue,
            final(self).sockets.socket_id_map@ == old(self).sockets.socket_id_map@,
            final(self).sockets.socket_builder == old(self).sockets.socket_builder,
            match old(self).sockets.spec_index(id) {
                None => r == Err::<usize, TcpSendError>(TcpSendError::ConnNotEstablished)
                    && final(self)@ == old(self)@,
                Some(i) => r == match sock_send_result(
                    old(self)@[i].state,
                    bytes@.len() - done,
                ) {
                    Ok(n) => Ok::<usize, TcpSendError>((done + n) as usize),
                    Err(e) => Err(e),
                } && final(self)@ == with_state(
                    old(self)@,
                    i,
                    sock_after_send(old(self)@[i].state, bytes@.skip(done as int)),
                ),
            },
            r is Ok ==> done <= r->Ok_0 <= bytes@.len(),
    {
        let rest = slice_subrange(bytes, done, bytes.len());
        assert(rest@ == bytes@.skip(done as int));
        proof {
            match self.sockets.spec_index(id) {
                Some(i) => {
                    lemma_find_from(self.sockets.socket_map@, id, 0);
                    assert(self.sockets.socket_map@[i].wf());
                    assert(self@[i] == self.sockets.socket_map@[i]@);
                },
                None => {},
            }
        }
        match self.send_on_socket(id, rest) {
            Ok(n) => Ok(done + n),
            Err(e) => Err(e),
        }
    }

    /// One step of reading `want` octets in all from the connection `id`
    /// into `out`, which holds what was read before: reads what is there, up
    /// to what is still wanted. `Ok(true)` says that all is read, `Ok(false)`
    /// that more is to come; where the stream ends first, the error says how
    /// many octets were read.
    pub fn read_all_step(&mut self, id: SocketId, out: &mut Vec<u8>, want: usize) -> (r: Result<
        bool,
        TcpReadError,
    >)
        requires
            old(self).wf(),
            old(out)@.len() <= want,
        ensures
            final(self).wf(),
            final(out)@.len() <= want,
            read_all_stepped(*old(self), *final(self), id, old(out)@, final(out)@, want, r),
    {
        let got = out.len();
        proof {
            match self.sockets.spec_index(id) {
                Some(i) => {
                    lemma_find_from(self.sockets.socket_map@, id, 0);
                    assert(self.sockets.socket_map@[i].wf());
                    assert(self@[i] == self.sockets.socket_map@[i]@);
                    lemma_read_fits(self@[i].state, (want - got) as usize);
                },
                None => {},
            }
        }
        match self.read_on_socket(id, want - got) {
            Err(e) => Err(e),
            Ok(ReadStep::Data(mut d)) => {
                out.append(&mut d);
                Ok(out.len() == want)
            },
            Ok(ReadStep::Eof) => {
                if got == want {
                    Ok(true)
                } else {
                    Err(TcpReadError::Closed(got))
                }
            },
            Ok(ReadStep::Wait) => Ok(got == want),
        }
    }
}

/// A reader never gets more than it asks for.
pub proof fn lemma_read_fits(s: TcpStateView, n: usize)
    ensures
        sock_recv_result(s, n) matches Ok(ReadStepView::Data(d)) ==> d.len() <= n,
{
}

/// A socket after its output path has emitted all that it has to emit.
pub open spec fn flushed_socket(s: SocketView, now: u64) -> SocketView {
    SocketView { state: drained_state(s.state, now), ..s }
}

/// What the output path of a socket emits at `now`, with the identity of
/// the socket.
pub open spec fn flushed_segments(s: SocketView, now: u64) -> (SocketId, Seq<MessageView>) {
    (s.id, drained_output(s.state, now))
}

/// Lists of segments with the identities of their sockets, as contracts
/// speak of them.
pub open spec fn emitted_view(es: Seq<(SocketId, Vec<TcpMessage>)>) -> Seq<
    (SocketId, Seq<MessageView>),
> {
    es.map_values(|e: (SocketId, Vec<TcpMessage>)| (e.0, messages_view(e.1@)))
}

/// Whether the timer of a socket closes it at `now`.
pub open spec fn timer_closes(s: SocketView, now: u64) -> bool {
    sock_timer_update(s.state, s.id, now) is Some
}

/// The sockets that are left after every timer has been served at `now`,
/// each in the state that its timer leaves it in.
pub open spec fn timer_survivors(sockets: Seq<SocketView>, now: u64) -> Seq<SocketView>
    decreases sockets.len(),
{
    if sockets.len() == 0 {
        Seq::empty()
    } else if timer_closes(sockets.last(), now) {
        timer_survivors(sockets.drop_last(), now)
    } else {
        timer_survivors(sockets.drop_last(), now).push(
            SocketView {
                state: spec_socket_after_timer(sockets.last().state, now),
                ..sockets.last()
            },
        )
    }
}

/// What the timers of the sockets ask for at `now`, socket by socket in
/// the order of the table; a timer that asks for nothing is passed over.
pub open spec fn timer_actions(sockets: Seq<SocketView>, now: u64) -> Seq<(SocketId, TimerActionView)>
    decreases sockets.len(),
{
    if sockets.len() == 0 {
        Seq::empty()
    } else if spec_socket_timer(sockets.last().state, now) is Idle {
        timer_actions(sockets.drop_last(), now)
    } else {
        timer_actions(sockets.drop_last(), now).push(
            (sockets.last().id, spec_socket_timer(sockets.last().state, now)),
        )
    }
}

/// Timer actions with the identities of their sockets, as contracts speak
/// of them.
pub open spec fn actions_view(acts: Seq<(SocketId, TimerAction)>) -> Seq<(SocketId, TimerActionView)> {
    acts.map_values(|a: (SocketId, TimerAction)| (a.0, a.1@))
}

/// A socket of a well-formed table is found under its identity.
pub proof fn lemma_index_of_socket(t: SocketTable, i: int)
    requires
        t.wf(),
        0 <= i < t.socket_map@.len(),
    ensures
        t.spec_index(t.socket_map@[i].id) == Some(i),
{
    let id = t.socket_map@[i].id;
    lemma_find_from(t.socket_map@, id, 0);
    let j = find_from(t.socket_map@, id, 0);
    if j < i {
        assert(t.socket_map@[j].id != t.socket_map@[i].id);
    }
}

impl Tcp {
    /// Lets the output path of every socket emit all that it has to emit
    /// at `now`. Gives for each socket, in the order of the table, its
    /// identity and the segments that it emitted, first to last.
    pub fn flush(&mut self, now: u64) -> (out: Vec<(SocketId, Vec<TcpMessage>)>)
        requires
            old(self).wf(),
        ensures
            final(self).wf(),
            final(self).accept_queue == old(self).accept_queue,
            final(self).sockets.socket_id_map@ == old(self).sockets.socket_id_map@,
            final(self).sockets.socket_builder == old(self).sockets.socket_builder,
            emitted_view(out@) == old(self)@.map_values(|s: SocketView| flushed_segments(s, now)),
            final(self)@ == old(self)@.map_values(|s: SocketView| flushed_socket(s, now)),
    {
        let mut out: Vec<(SocketId, Vec<TcpMessage>)> = Vec::new();
        let mut i: usize = 0;
        while i < self.sockets.socket_map.len()
            invariant
                i <= self.sockets.socket_map@.len(),
                self.wf(),
                self.accept_queue == old(self).accept_queue,
                self.sockets.socket_id_map@ == old(self).sockets.socket_id_map@,
                self.sockets.socket_builder == old(self).sockets.socket_builder,
                self@.len() == old(self)@.len(),
                forall|k: int| 0 <= k < i ==> #[trigger] self@[k] == flushed_socket(old(self)@[k], now),
                forall|k: int| i <= k < self@.len() ==> #[trigger] self@[k] == old(self)@[k],
                out@.len() == i,
                forall|k: int|
                    0 <= k < i ==> (#[trigger] out@[k]).0 == old(self)@[k].id && messages_view(
                        out@[k].1@,
                    ) == drained_output(old(self)@[k].state, now),
            decreases self.sockets.socket_map@.len() - i,
        {
            let ghost before = *self;
            assert(self@[i as int] == self.sockets.socket_map@[i as int]@);
            let mut sock = self.take_out(i);
            let id = sock.id();
            let segments = sock.drain_output(now);
            let ghost after = sock@;
            self.put_back(i, sock, Ghost(before));
            assert(self@ =~= before@.update(i as int, after));
            out.push((id, segments));
            i += 1;
        }
        assert(emitted_view(out@) =~= old(self)@.map_values(|s: SocketView| flushed_segments(s, now)));
        assert(self@ =~= old(self)@.map_values(|s: SocketView| flushed_socket(s, now)));
        out
    }

    /// Serves the timer of every socket at `now`, in the order of the
    /// table. A socket that closes by it leaves the table. Gives what the
    /// timers ask for, each with the identity of its socket.
    pub fn serve_timers(&mut self, now: u64) -> (out: Vec<(SocketId, TimerAction)>)
        requires
            old(self).wf(),
        ensures
            final(self).wf(),
            final(self).accept_queue == old(self).accept_queue,
            final(self).sockets.socket_id_map@ == old(self).sockets.socket_id_map@,
            final(self).sockets.socket_builder == old(self).sockets.socket_builder,
            actions_view(out@) == timer_actions(old(self)@, now),
            final(self)@ == timer_survivors(old(self)@, now),
    {
        let mut out: Vec<(SocketId, TimerAction)> = Vec::new();
        let mut i: usize = 0;
        let ghost mut k: int = 0;
        assert(actions_view(out@) =~= Seq::empty());
        assert(old(self)@.take(0) =~= Seq::empty());
        assert(old(self)@.skip(0) =~= old(self)@);
        while i < self.sockets.socket_map.len()
            invariant
                0 <= k <= old(self)@.len(),
                self.wf(),
                self.accept_queue == old(self).accept_queue,
                self.sockets.socket_id_map@ == old(self).sockets.socket_id_map@,
                self.sockets.socket_builder == old(self).sockets.socket_builder,
                i == timer_survivors(old(self)@.take(k), now).len(),
                self@ == timer_survivors(old(self)@.take(k), now) + old(self)@.skip(k),
                actions_view(out@) == timer_actions(old(self)@.take(k), now),
            decreases old(self)@.len() - k,
        {
            let ghost before = self@;
            let ghost done = timer_survivors(old(self)@.take(k), now);
            let ghost acts = actions_view(out@);
            assert(before.len() == self.sockets.socket_map@.len());
            assert(k < old(self)@.len());
            assert(before[i as int] == old(self)@[k]);
            assert(before[i as int] == self.sockets.socket_map@[i as int]@);
            let id = self.sockets.socket_map[i].id();
            let len_before = self.sockets.socket_map.len();
            proof {
                lemma_index_of_socket(self.sockets, i as int);
                assert(old(self)@.take(k + 1).drop_last() =~= old(self)@.take(k));
                assert(old(self)@.take(k + 1).last() == old(self)@[k]);
            }
            let action = self.on_timer(id, now);
            proof {
                assert(before[i as int].id == id);
                assert(before.len() == len_before);
                assert(self@.len() == self.sockets.socket_map@.len());
                if timer_closes(old(self)@[k], now) {
                    assert(self@ == before.remove(i as int));
                } else {
                    assert(self@ == with_state(
                        before,
                        i as int,
                        spec_socket_after_timer(before[i as int].state, now),
                    ));
                }
            }
            let idle = match action {
                TimerAction::Idle => true,
                _ => false,
            };
            if !idle {
                proof {
                    assert(actions_view(out@.push((id, action))) =~= acts.push((id, action@)));
                }
                out.push((id, action));
            }
            if self.sockets.socket_map.len() == len_before {
                proof {
                    assert(!timer_closes(old(self)@[k], now));
                    assert(self@ =~= timer_survivors(old(self)@.take(k + 1), now) + old(self)@.skip(
                        k + 1,
                    ));
                }
                i += 1;
            } else {
                proof {
                    assert(timer_closes(old(self)@[k], now));
                    assert(self@ =~= timer_survivors(old(self)@.take(k + 1), now) + old(self)@.skip(
                        k + 1,
                    ));
                }
            }
            proof {
                k = k + 1;
            }
        }
        proof {
            assert(k == old(self)@.len()) by {
                assert(self@.len() == i);
            }
            assert(old(self)@.take(k) =~= old(self)@);
            assert(old(self)@.skip(k) =~= Seq::empty());
            assert(self@ =~= timer_survivors(old(self)@, now));
        }
        out
    }
}

/// Hands received segments to a TCP stack.
pub struct TcpHandler {
    pub tcp: Tcp,
}

impl TcpHandler {
    pub fn new(tcp: Tcp) -> (h: Self)
        ensures
            h.tcp == tcp,
    {
        Self { tcp }
    }

    /// Handles the payload of a datagram with the protocol number of TCP
    /// that arrived from `src_ip` for `dst_ip` at time `now`. The initial
    /// sequence number of a connection that a listener opens is drawn
    /// afresh; whatever is drawn, the stack does with the segment what
    /// `Tcp::handle_segment` does with that number.
    pub fn handle_packet(&mut self, src_ip: VirtualIp, dst_ip: VirtualIp, payload: &[u8], now: u64) -> (d:
        Delivery)
        requires
            old(self).tcp.wf(),
        ensures
            final(self).tcp.wf(),
            exists|iss: u32| #[trigger]
                segment_handled(
                    old(self).tcp,
                    final(self).tcp,
                    d,
                    src_ip,
                    dst_ip,
                    payload@,
                    now,
                    iss,
                ),
    {
        let iss = Closed::new().seq_no;
        let d = self.tcp.handle_segment(src_ip, dst_ip, payload, now, iss);
        assert(segment_handled(old(self).tcp, self.tcp, d, src_ip, dst_ip, payload@, now, iss));
        d
    }
}

/// The acknowledgment by which the connection `id` tells its peer of its
/// window as it stands.
pub open spec fn spec_window_update(tcp: Tcp, id: SocketId) -> Option<MessageView> {
    match tcp.sockets.spec_index(id) {
        Some(i) => match view_conn(tcp@[i].state) {
            Some((_, c)) => Some(ack_message(c)),
            None => None,
        },
        None => None,
    }
}

/// Whether the connection `id` still waits for the end of its closing:
/// its user has closed the write half, and the peer has not acknowledged the
/// FIN, which may not even be out yet.
pub open spec fn spec_close_pending(tcp: Tcp, id: SocketId) -> bool {
    match tcp.sockets.spec_index(id) {
        Some(i) => match view_conn(tcp@[i].state) {
            Some((_, c)) => c.write_closed && !c.fin_acked,
            None => false,
        },
        None => false,
    }
}

/// Whether `after`, what has been read and the answer `r` are what one step
/// of reading `want` octets in all from the connection `id` makes of
/// `before`, where `got` was read before.
pub open spec fn read_all_stepped(
    before: Tcp,
    after: Tcp,
    id: SocketId,
    got: Seq<u8>,
    got_after: Seq<u8>,
    want: usize,
    r: Result<bool, TcpReadError>,
) -> bool {
    &&& after.accept_queue == before.accept_queue
    &&& after.sockets.socket_id_map@ == before.sockets.socket_id_map@
    &&& after.sockets.socket_builder == before.sockets.socket_builder
    &&& match before.sockets.spec_index(id) {
        None => r == Err::<bool, TcpReadError>(TcpReadError::ConnNotEstablished) && after@
            == before@ && got_after == got,
        Some(i) => r == spec_read_all_result(before@[i].state, got.len() as int, want)
            && got_after == spec_read_all_got(before@[i].state, got, want) && after@
            == with_state(
            before@,
            i,
            sock_after_recv(before@[i].state, (want - got.len()) as usize),
        ),
    }
}

/// The same for the socket that the descriptor `d` names.
pub open spec fn read_all_stepped_by_descriptor(
    before: Tcp,
    after: Tcp,
    d: SocketDescriptor,
    got: Seq<u8>,
    got_after: Seq<u8>,
    want: usize,
    r: Result<bool, TcpReadError>,
) -> bool {
    &&& after.accept_queue == before.accept_queue
    &&& after.sockets.socket_id_map@ == before.sockets.socket_id_map@
    &&& after.sockets.socket_builder == before.sockets.socket_builder
    &&& match before.sockets.spec_socket_of(d) {
        None => r == Err::<bool, TcpReadError>(TcpReadError::NoSocket(d)) && after@ == before@
            && got_after == got,
        Some(i) => match read_refused(before@[i].state, got.len() as int) {
            Some(e) => r == Err::<bool, TcpReadError>(e) && after@ == before@ && got_after == got,
            None => r == spec_read_all_result(before@[i].state, got.len() as int, want)
                && got_after == spec_read_all_got(before@[i].state, got, want) && after@
                == with_state(
                before@,
                i,
                sock_after_recv(before@[i].state, (want - got.len()) as usize),
            ),
        },
    }
}

impl Tcp {
    /// Whether the connection `socket_id` still waits for the end of its
    /// closing: it is in `FinWait1`, `Closing` or `LastAck`.
    pub fn close_pending(&self, socket_id: SocketId) -> (r: bool)
        requires
            self.wf(),
        ensures
            r == spec_close_pending(*self, socket_id),
    {
        match self.sockets.index_of(socket_id) {
            Some(i) => {
                assert(self.sockets.socket_map@[i as int].wf());
                assert(self@[i as int] == self.sockets.socket_map@[i as int]@);
                match self.sockets.socket_map[i].status() {
                    SocketStatus::FinWait1 => true,
                    SocketStatus::Closing => true,
                    SocketStatus::LastAck => true,
                    _ => false,
                }
            },
            None => false,
        }
    }
}

/// The state of a socket after a shutdown of the kind `kind`: reading is
/// shut down at this end, and nothing of it goes on the wire; or the write
/// half is closed, and a FIN follows the data; or both.
pub open spec fn sock_after_shutdown(s: TcpStateView, kind: TcpShutdownKind) -> TcpStateView {
    match kind {
        TcpShutdownKind::Read => sock_after_close_read(s),
        TcpShutdownKind::Write => sock_after_close(s),
        TcpShutdownKind::ReadWrite => sock_after_close(sock_after_close_read(s)),
    }
}

/// What a reader by descriptor is told at once, without an attempt to
/// read: that the socket has no connection, or that this end has shut down
/// reading, with the count of what was read before.
pub open spec fn read_refused(s: TcpStateView, got: int) -> Option<TcpReadError> {
    match view_conn(s) {
        None => Some(TcpReadError::ConnNotEstablished),
        Some((_, c)) => if c.read_closed {
            Some(TcpReadError::Closed(got as usize))
        } else {
            None
        },
    }
}

impl Tcp {
    /// Shuts down one half of the connection `socket_id`, or both. Says
    /// whether there was a socket to do it on.
    pub fn shutdown(&mut self, socket_id: SocketId, kind: TcpShutdownKind) -> (r: bool)
        requires
            old(self).wf(),
        ensures
            final(self).wf(),
            final(self).accept_queue == old(self).accept_queue,
            final(self).sockets.socket_id_map@ == old(self).sockets.socket_id_map@,
            final(self).sockets.socket_builder == old(self).sockets.socket_builder,
            match old(self).sockets.spec_index(socket_id) {
                None => !r && final(self)@ == old(self)@,
                Some(i) => r && final(self)@ == with_state(
                    old(self)@,
                    i,
                    sock_after_shutdown(old(self)@[i].state, kind),
                ),
            },
    {
        let i = match self.sockets.index_of(socket_id) {
            Some(i) => i,
            None => {
                return false;
            },
        };
        let ghost before = *self;
        let mut sock = self.take_out(i);
        match kind {
            TcpShutdownKind::Read => {
                let _ = sock.close_read();
            },
            TcpShutdownKind::Write => {
                let _ = sock.close();
            },
            TcpShutdownKind::ReadWrite => {
                let _ = sock.close_read();
                let _ = sock.close();
            },
        }
        let ghost after = sock@;
        self.put_back(i, sock, Ghost(before));
        assert(self@ =~= old(self)@.update(i as int, after));
        true
    }

    /// Shuts down one half of the connection that `socket_descriptor`
    /// names, or both. Says whether the descriptor names a socket.
    pub fn shutdown_by_descriptor(&mut self, socket_descriptor: SocketDescriptor, kind: TcpShutdownKind) -> (r:
        bool)
        requires
            old(self).wf(),
        ensures
            final(self).wf(),
            final(self).accept_queue == old(self).accept_queue,
            final(self).sockets.socket_id_map@ == old(self).sockets.socket_id_map@,
            final(self).sockets.socket_builder == old(self).sockets.socket_builder,
            match old(self).sockets.spec_socket_of(socket_descriptor) {
                None => !r && final(self)@ == old(self)@,
                Some(i) => r && final(self)@ == with_state(
                    old(self)@,
                    i,
                    sock_after_shutdown(old(self)@[i].state, kind),
                ),
            },
    {
        let i = match self.sockets.socket_of(socket_descriptor) {
            Some(i) => i,
            None => {
                return false;
            },
        };
        let id = self.sockets.socket_map[i].id();
        proof {
            lemma_index_of_socket(self.sockets, i as int);
        }
        self.shutdown(id, kind)
    }

    /// One step of sending all of `bytes` on the socket that
    /// `socket_descriptor` names, of which the first `done` were taken
    /// before: as `send_all_step` for the socket's connection.
    pub fn send_all_step_by_descriptor(
        &mut self,
        socket_descriptor: SocketDescriptor,
        bytes: &[u8],
        done: usize,
    ) -> (r: Result<usize, TcpSendError>)
        requires
            old(self).wf(),
            done <= bytes@.len(),
        ensures
            final(self).wf(),
            final(self).accept_queue == old(self).accept_queue,
            final(self).sockets.socket_id_map@ == old(self).sockets.socket_id_map@,
            final(self).sockets.socket_builder == old(self).sockets.socket_builder,
            match old(self).sockets.spec_socket_of(socket_descriptor) {
                None => r == Err::<usize, TcpSendError>(TcpSendError::NoSocket(socket_descriptor))
                    && final(self)@ == old(self)@,
                Some(i) => r == match sock_send_result(
                    old(self)@[i].state,
                    bytes@.len() - done,
                ) {
                    Ok(n) => Ok::<usize, TcpSendError>((done + n) as usize),
                    Err(e) => Err(e),
                } && final(self)@ == with_state(
                    old(self)@,
                    i,
                    sock_after_send(old(self)@[i].state, bytes@.skip(done as int)),
                ),
            },
            r is Ok ==> done <= r->Ok_0 <= bytes@.len(),
    {
        let i = match self.sockets.socket_of(socket_descriptor) {
            Some(i) => i,
            None => {
                return Err(TcpSendError::NoSocket(socket_descriptor));
            },
        };
        let id = self.sockets.socket_map[i].id();
        proof {
            lemma_index_of_socket(self.sockets, i as int);
        }
        self.send_all_step(id, bytes, done)
    }

    /// One step of reading `want` octets in all from the socket that
    /// `socket_descriptor` names into `out`, which holds what was read
    /// before. A descriptor that names nothing, a socket without a
    /// connection and a connection whose reading is shut down are told so
    /// at once; else as `read_all_step` for the socket's connection.
    pub fn read_all_step_by_descriptor(
        &mut self,
        socket_descriptor: SocketDescriptor,
        out: &mut Vec<u8>,
        want: usize,
    ) -> (r: Result<bool, TcpReadError>)
        requires
            old(self).wf(),
            old(out)@.len() <= want,
        ensures
            final(self).wf(),
            final(out)@.len() <= want,
            read_all_stepped_by_descriptor(
                *old(self),
                *final(self),
                socket_descriptor,
                old(out)@,
                final(out)@,
                want,
                r,
            ),
    {
        let i = match self.sockets.socket_of(socket_descriptor) {
            Some(i) => i,
            None => {
                return Err(TcpReadError::NoSocket(socket_descriptor));
            },
        };
        assert(self.sockets.socket_map@[i as int].wf());
        assert(self@[i as int] == self.sockets.socket_map@[i as int]@);
        match self.sockets.socket_map[i].is_read_closed() {
            None => {
                return Err(TcpReadError::ConnNotEstablished);
            },
            Some(true) => {
                return Err(TcpReadError::Closed(out.len()));
            },
            Some(false) => {},
        }
        let id = self.sockets.socket_map[i].id();
        proof {
            lemma_index_of_socket(self.sockets, i as int);
        }
        self.read_all_step(id, out, want)
    }
}

} // verus!
