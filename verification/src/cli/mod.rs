//! The command surface of a node: what a line typed at the prompt asks for.

pub mod parse;
pub mod show;

use crate::addr::VirtualIp;
use crate::protocol::tcp::prelude::{Port, SocketDescriptor};
use crate::protocol::tcp::{TcpAcceptError, TcpConnError, TcpListenError, TcpSendError};
use crate::protocol::Protocol;
use vstd::prelude::*;
use vstd::std_specs::convert::FromSpecImpl;

verus! {

/// Which half of a connection a shutdown closes.
#[derive(Clone, Copy, Debug, PartialEq, Eq, Structural)]
pub enum TcpShutdownKind {
    Read,
    Write,
    ReadWrite,
}

/// `std::io::Error`, the error of the operating system on a file. Nothing
/// is said of what is inside it: it is only carried.
#[verifier::external_type_specification]
#[verifier::external_body]
pub struct ExIoError(std::io::Error);

/// Why a file could not be sent.
#[derive(Debug)]
pub enum SendFileError {
    OpenFile(std::io::Error),
    ReadFile(std::io::Error),
    Connect(TcpConnError),
    Send(TcpSendError),
}

/// Why a file could not be received.
#[derive(Debug)]
pub enum RecvFileError {
    FileIo(std::io::Error),
    Listen(TcpListenError),
    Accept(TcpAcceptError),
}

impl From<std::io::Error> for RecvFileError {
    fn from(e: std::io::Error) -> (r: RecvFileError) {
        RecvFileError::FileIo(e)
    }
}

impl FromSpecImpl<std::io::Error> for RecvFileError {
    open spec fn obeys_from_spec() -> bool {
        true
    }

    open spec fn from_spec(e: std::io::Error) -> RecvFileError {
        RecvFileError::FileIo(e)
    }
}

/// How many octets of a file go to the connection at a time.
pub const FILE_CHUNK_SIZE: usize = 65536;

/// A command, read from one line.
#[derive(Debug, PartialEq, Eq)]
pub enum Command {
    ListInterface(Option<String>),
    ListRoute(Option<String>),
    ListSockets(Option<String>),
    InterfaceDown(u16),
    InterfaceUp(u16),
    SendIPv4Packet { virtual_ip: VirtualIp, protocol: Protocol, payload: String },
    SendTCPPacket(SocketDescriptor, Vec<u8>),
    OpenListenSocket(Port),
    ConnectSocket(VirtualIp, Port),
    ReadSocket { descriptor: SocketDescriptor, num_bytes: usize, would_block: bool },
    Shutdown(SocketDescriptor, TcpShutdownKind),
    Close(SocketDescriptor),
    SendFile { path: String, dest_ip: VirtualIp, port: Port },
    RecvFile { out_path: String, port: Port },
    Quit,
    /// A line without a word.
    Empty,
}

/// A command as contracts speak of it: texts as sequences of characters,
/// payloads as sequences of bytes.
pub enum CommandView {
    ListInterface(Option<Seq<char>>),
    ListRoute(Option<Seq<char>>),
    ListSockets(Option<Seq<char>>),
    InterfaceDown(u16),
    InterfaceUp(u16),
    SendIPv4Packet { virtual_ip: VirtualIp, protocol: Protocol, payload: Seq<char> },
    SendTCPPacket(SocketDescriptor, Seq<u8>),
    OpenListenSocket(Port),
    ConnectSocket(VirtualIp, Port),
    ReadSocket { descriptor: SocketDescriptor, num_bytes: usize, would_block: bool },
    Shutdown(SocketDescriptor, TcpShutdownKind),
    Close(SocketDescriptor),
    SendFile { path: Seq<char>, dest_ip: VirtualIp, port: Port },
    RecvFile { out_path: Seq<char>, port: Port },
    Quit,
    /// A line without a word.
    Empty,
}

/// The characters of an optional text.
pub open spec fn text_view(o: Option<String>) -> Option<Seq<char>> {
    match o {
        Some(s) => Some(s@),
        None => None,
    }
}

impl View for Command {
    type V = CommandView;

    open spec fn view(&self) -> CommandView {
        match *self {
            Command::ListInterface(f) => CommandView::ListInterface(text_view(f)),
            Command::ListRoute(f) => CommandView::ListRoute(text_view(f)),
            Command::ListSockets(f) => CommandView::ListSockets(text_view(f)),
            Command::InterfaceDown(l) => CommandView::InterfaceDown(l),
            Command::InterfaceUp(l) => CommandView::InterfaceUp(l),
            Command::SendIPv4Packet { virtual_ip, protocol, payload } => {
                CommandView::SendIPv4Packet { virtual_ip, protocol, payload: payload@ }
            },
            Command::SendTCPPacket(d, payload) => CommandView::SendTCPPacket(d, payload@),
            Command::OpenListenSocket(p) => CommandView::OpenListenSocket(p),
            Command::ConnectSocket(ip, p) => CommandView::ConnectSocket(ip, p),
            Command::ReadSocket { descriptor, num_bytes, would_block } => {
                CommandView::ReadSocket { descriptor, num_bytes, would_block }
            },
            Command::Shutdown(d, k) => CommandView::Shutdown(d, k),
            Command::Close(d) => CommandView::Close(d),
            Command::SendFile { path, dest_ip, port } => {
                CommandView::SendFile { path: path@, dest_ip, port }
            },
            Command::RecvFile { out_path, port } => {
                CommandView::RecvFile { out_path: out_path@, port }
            },
            Command::Quit => CommandView::Quit,
            Command::Empty => CommandView::Empty,
        }
    }
}

} // verus!
