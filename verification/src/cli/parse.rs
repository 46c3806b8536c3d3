//! Reading a command from a line of text.

use crate::addr::{parse_ip, VirtualIp};
use crate::cli::{Command, CommandView, TcpShutdownKind};
use crate::protocol::tcp::prelude::{Port, SocketDescriptor};
use crate::protocol::{protocol_of_text, Protocol};
use crate::text::{
    chars_of, parse_decimal, parse_unsigned, split_whitespace, split_words, string_of, word_is,
    words_view,
};
use vstd::prelude::*;
use vstd::slice::slice_subrange;
use vstd::std_specs::convert::FromSpecImpl;
use vstd::string::{StrSliceExecFns, StringExecFns};
use vstd::utf8::encode_utf8;

verus! {

#[derive(Debug, PartialEq, Eq, Clone, Copy, Structural)]
pub enum ParseOpenListenSocketError {
    NoPort,
    InvalidPort,
}

#[derive(Debug, PartialEq, Eq, Clone, Copy, Structural)]
pub enum ParseDownError {
    InvalidLinkId,
    NoLinkId,
}

#[derive(Debug, PartialEq, Eq, Clone, Copy, Structural)]
pub enum ParseUpError {
    InvalidLinkId,
    NoLinkId,
}

#[derive(Debug, PartialEq, Eq, Clone, Copy, Structural)]
pub enum ParseSendError {
    NoIp,
    InvalidIp,
    NoProtocol,
    InvalidProtocol,
    NoPayload,
}

#[derive(Debug, PartialEq, Eq, Clone, Copy, Structural)]
pub enum ParseConnectError {
    NoIp,
    InvalidIp,
    NoPort,
    InvalidPort,
}

#[derive(Debug, PartialEq, Eq, Clone, Copy, Structural)]
pub enum ParseTcpSendError {
    NoSocketDescriptor,
    InvalidSocketDescriptor,
    NoPayload,
}

#[derive(Debug, PartialEq, Eq, Clone, Copy, Structural)]
pub enum ParseTcpReadError {
    NoSocketDescriptor,
    InvalidSocketDescriptor,
    NoNumBytesToRead,
    InvalidNumBytesToRead,
    InvalidBlockingIndicator,
}

#[derive(Debug, PartialEq, Eq)]
pub enum ParseTcpShutdownError {
    NoSocketDescriptor,
    InvalidSocketDescriptor,
    InvalidShutdownType(String),
}

#[derive(Debug, PartialEq, Eq, Clone, Copy, Structural)]
pub enum ParseCloseError {
    NoSocketDescriptor,
    InvalidSocketDescriptor,
}

#[derive(Debug, PartialEq, Eq, Clone, Copy, Structural)]
pub enum ParseSendFileError {
    NoFile,
    NoIp,
    InvalidIp,
    NoPort,
    InvalidPort,
}

#[derive(Debug, PartialEq, Eq, Clone, Copy, Structural)]
pub enum ParseRecvFileError {
    NoFile,
    NoPort,
    InvalidPort,
}

#[derive(Debug, PartialEq, Eq)]
pub enum ParseError {
    Unknown,
    Down(ParseDownError),
    Up(ParseUpError),
    Send(ParseSendError),
    OpenListenSocket(ParseOpenListenSocketError),
    Connect(ParseConnectError),
    TcpSend(ParseTcpSendError),
    TcpRead(ParseTcpReadError),
    TcpShutdown(ParseTcpShutdownError),
    TcpClose(ParseCloseError),
    SendFile(ParseSendFileError),
    RecvFile(ParseRecvFileError),
}

/// A shutdown error as contracts speak of it.
pub enum ParseTcpShutdownErrorView {
    NoSocketDescriptor,
    InvalidSocketDescriptor,
    InvalidShutdownType(Seq<char>),
}

/// A parse error as contracts speak of it.
pub enum ParseErrorView {
    Unknown,
    Down(ParseDownError),
    Up(ParseUpError),
    Send(ParseSendError),
    OpenListenSocket(ParseOpenListenSocketError),
    Connect(ParseConnectError),
    TcpSend(ParseTcpSendError),
    TcpRead(ParseTcpReadError),
    TcpShutdown(ParseTcpShutdownErrorView),
    TcpClose(ParseCloseError),
    SendFile(ParseSendFileError),
    RecvFile(ParseRecvFileError),
}

impl View for ParseTcpShutdownError {
    type V = ParseTcpShutdownErrorView;

    open spec fn view(&self) -> ParseTcpShutdownErrorView {
        match *self {
            ParseTcpShutdownError::NoSocketDescriptor => {
                ParseTcpShutdownErrorView::NoSocketDescriptor
            },
            ParseTcpShutdownError::InvalidSocketDescriptor => {
                ParseTcpShutdownErrorView::InvalidSocketDescriptor
            },
            ParseTcpShutdownError::InvalidShutdownType(s) => {
                ParseTcpShutdownErrorView::InvalidShutdownType(s@)
            },
        }
    }
}

impl View for ParseError {
    type V = ParseErrorView;

    open spec fn view(&self) -> ParseErrorView {
        match *self {
            ParseError::Unknown => ParseErrorView::Unknown,
            ParseError::Down(e) => ParseErrorView::Down(e),
            ParseError::Up(e) => ParseErrorView::Up(e),
            ParseError::Send(e) => ParseErrorView::Send(e),
            ParseError::OpenListenSocket(e) => ParseErrorView::OpenListenSocket(e),
            ParseError::Connect(e) => ParseErrorView::Connect(e),
            ParseError::TcpSend(e) => ParseErrorView::TcpSend(e),
            ParseError::TcpRead(e) => ParseErrorView::TcpRead(e),
            ParseError::TcpShutdown(e) => ParseErrorView::TcpShutdown(e@),
            ParseError::TcpClose(e) => ParseErrorView::TcpClose(e),
            ParseError::SendFile(e) => ParseErrorView::SendFile(e),
            ParseError::RecvFile(e) => ParseErrorView::RecvFile(e),
        }
    }
}

impl From<ParseUpError> for ParseError {
    fn from(v: ParseUpError) -> (r: ParseError) {
        ParseError::Up(v)
    }
}

impl FromSpecImpl<ParseUpError> for ParseError {
    open spec fn obeys_from_spec() -> bool {
        true
    }

    open spec fn from_spec(v: ParseUpError) -> ParseError {
        ParseError::Up(v)
    }
}

impl From<ParseDownError> for ParseError {
    fn from(v: ParseDownError) -> (r: ParseError) {
        ParseError::Down(v)
    }
}

impl FromSpecImpl<ParseDownError> for ParseError {
    open spec fn obeys_from_spec() -> bool {
        true
    }

    open spec fn from_spec(v: ParseDownError) -> ParseError {
        ParseError::Down(v)
    }
}

impl From<ParseSendError> for ParseError {
    fn from(v: ParseSendError) -> (r: ParseError) {
        ParseError::Send(v)
    }
}

impl FromSpecImpl<ParseSendError> for ParseError {
    open spec fn obeys_from_spec() -> bool {
        true
    }

    open spec fn from_spec(v: ParseSendError) -> ParseError {
        ParseError::Send(v)
    }
}

impl From<ParseOpenListenSocketError> for ParseError {
    fn from(v: ParseOpenListenSocketError) -> (r: ParseError) {
        ParseError::OpenListenSocket(v)
    }
}

impl FromSpecImpl<ParseOpenListenSocketError> for ParseError {
    open spec fn obeys_from_spec() -> bool {
        true
    }

    open spec fn from_spec(v: ParseOpenListenSocketError) -> ParseError {
        ParseError::OpenListenSocket(v)
    }
}

impl From<ParseConnectError> for ParseError {
    fn from(v: ParseConnectError) -> (r: ParseError) {
        ParseError::Connect(v)
    }
}

impl FromSpecImpl<ParseConnectError> for ParseError {
    open spec fn obeys_from_spec() -> bool {
        true
    }

    open spec fn from_spec(v: ParseConnectError) -> ParseError {
        ParseError::Connect(v)
    }
}

impl From<ParseTcpSendError> for ParseError {
    fn from(v: ParseTcpSendError) -> (r: ParseError) {
        ParseError::TcpSend(v)
    }
}

impl FromSpecImpl<ParseTcpSendError> for ParseError {
    open spec fn obeys_from_spec() -> bool {
        true
    }

    open spec fn from_spec(v: ParseTcpSendError) -> ParseError {
        ParseError::TcpSend(v)
    }
}

impl From<ParseTcpReadError> for ParseError {
    fn from(v: ParseTcpReadError) -> (r: ParseError) {
        ParseError::TcpRead(v)
    }
}

impl FromSpecImpl<ParseTcpReadError> for ParseError {
    open spec fn obeys_from_spec() -> bool {
        true
    }

    open spec fn from_spec(v: ParseTcpReadError) -> ParseError {
        ParseError::TcpRead(v)
    }
}

impl From<ParseTcpShutdownError> for ParseError {
    fn from(v: ParseTcpShutdownError) -> (r: ParseError) {
        ParseError::TcpShutdown(v)
    }
}

impl FromSpecImpl<ParseTcpShutdownError> for ParseError {
    open spec fn obeys_from_spec() -> bool {
        true
    }

    open spec fn from_spec(v: ParseTcpShutdownError) -> ParseError {
        ParseError::TcpShutdown(v)
    }
}

impl From<ParseCloseError> for ParseError {
    fn from(v: ParseCloseError) -> (r: ParseError) {
        ParseError::TcpClose(v)
    }
}

impl FromSpecImpl<ParseCloseError> for ParseError {
    open spec fn obeys_from_spec() -> bool {
        true
    }

    open spec fn from_spec(v: ParseCloseError) -> ParseError {
        ParseError::TcpClose(v)
    }
}

impl From<ParseSendFileError> for ParseError {
    fn from(v: ParseSendFileError) -> (r: ParseError) {
        ParseError::SendFile(v)
    }
}

impl FromSpecImpl<ParseSendFileError> for ParseError {
    open spec fn obeys_from_spec() -> bool {
        true
    }

    open spec fn from_spec(v: ParseSendFileError) -> ParseError {
        ParseError::SendFile(v)
    }
}

impl From<ParseRecvFileError> for ParseError {
    fn from(v: ParseRecvFileError) -> (r: ParseError) {
        ParseError::RecvFile(v)
    }
}

impl FromSpecImpl<ParseRecvFileError> for ParseError {
    open spec fn obeys_from_spec() -> bool {
        true
    }

    open spec fn from_spec(v: ParseRecvFileError) -> ParseError {
        ParseError::RecvFile(v)
    }
}


/// The `i`-th argument, if the line has one.
pub open spec fn arg(args: Seq<Seq<char>>, i: int) -> Option<Seq<char>> {
    if 0 <= i < args.len() {
        Some(args[i])
    } else {
        None
    }
}

/// The words of `words`, one after the other with nothing between them.
pub open spec fn join_words(words: Seq<Seq<char>>) -> Seq<char>
    decreases words.len(),
{
    if words.len() == 0 {
        Seq::empty()
    } else {
        join_words(words.drop_last()) + words.last()
    }
}

/// A link number: an unsigned decimal numeral of 16 bits.
pub open spec fn link_id_of(word: Seq<char>) -> Option<u16> {
    match parse_unsigned(word, 0xffff) {
        Some(v) => Some(v as u16),
        None => None,
    }
}

/// `down <link>`.
pub open spec fn spec_parse_down(args: Seq<Seq<char>>) -> Result<CommandView, ParseDownError> {
    if args.len() < 1 {
        Err(ParseDownError::NoLinkId)
    } else {
        match link_id_of(args[0]) {
            Some(l) => Ok(CommandView::InterfaceDown(l)),
            None => Err(ParseDownError::InvalidLinkId),
        }
    }
}

/// `up <link>`.
pub open spec fn spec_parse_up(args: Seq<Seq<char>>) -> Result<CommandView, ParseUpError> {
    if args.len() < 1 {
        Err(ParseUpError::NoLinkId)
    } else {
        match link_id_of(args[0]) {
            Some(l) => Ok(CommandView::InterfaceUp(l)),
            None => Err(ParseUpError::InvalidLinkId),
        }
    }
}

/// `send <vip> <proto> <payload...>`: the payload is every further word,
/// joined without the white space between them.
pub open spec fn spec_parse_send(args: Seq<Seq<char>>) -> Result<CommandView, ParseSendError> {
    if args.len() < 1 {
        Err(ParseSendError::NoIp)
    } else if args.len() < 2 {
        Err(ParseSendError::NoProtocol)
    } else if args.len() < 3 {
        Err(ParseSendError::NoPayload)
    } else if parse_ip(args[0]) is None {
        Err(ParseSendError::InvalidIp)
    } else if protocol_of_text(args[1]) is Err {
        Err(ParseSendError::InvalidProtocol)
    } else {
        Ok(
            CommandView::SendIPv4Packet {
                virtual_ip: parse_ip(args[0])->0,
                protocol: protocol_of_text(args[1])->Ok_0,
                payload: join_words(args.skip(2)),
            },
        )
    }
}

/// `a <port>`.
pub open spec fn spec_parse_open_listen(args: Seq<Seq<char>>) -> Result<
    CommandView,
    ParseOpenListenSocketError,
> {
    if args.len() < 1 {
        Err(ParseOpenListenSocketError::NoPort)
    } else {
        match parse_unsigned(args[0], 0xffff) {
            Some(p) => Ok(CommandView::OpenListenSocket(Port(p as u16))),
            None => Err(ParseOpenListenSocketError::InvalidPort),
        }
    }
}

/// `c <vip> <port>`.
pub open spec fn spec_parse_connect(args: Seq<Seq<char>>) -> Result<
    CommandView,
    ParseConnectError,
> {
    if args.len() < 1 {
        Err(ParseConnectError::NoIp)
    } else if parse_ip(args[0]) is None {
        Err(ParseConnectError::InvalidIp)
    } else if args.len() < 2 {
        Err(ParseConnectError::NoPort)
    } else {
        match parse_unsigned(args[1], 0xffff) {
            Some(p) => Ok(CommandView::ConnectSocket(parse_ip(args[0])->0, Port(p as u16))),
            None => Err(ParseConnectError::InvalidPort),
        }
    }
}

/// A socket descriptor: an unsigned decimal numeral of 16 bits.
pub open spec fn descriptor_of(word: Seq<char>) -> Option<SocketDescriptor> {
    match parse_unsigned(word, 0xffff) {
        Some(v) => Some(SocketDescriptor(v as u16)),
        None => None,
    }
}

/// `s <socket> <payload>`: the payload is the bytes of one word.
pub open spec fn spec_parse_tcp_send(args: Seq<Seq<char>>) -> Result<
    CommandView,
    ParseTcpSendError,
> {
    if args.len() < 1 {
        Err(ParseTcpSendError::NoSocketDescriptor)
    } else if descriptor_of(args[0]) is None {
        Err(ParseTcpSendError::InvalidSocketDescriptor)
    } else if args.len() < 2 {
        Err(ParseTcpSendError::NoPayload)
    } else {
        Ok(CommandView::SendTCPPacket(descriptor_of(args[0])->0, encode_utf8(args[1])))
    }
}

/// `r <socket> <n> [y|N]`: without the third word the read does not block.
pub open spec fn spec_parse_tcp_read(args: Seq<Seq<char>>) -> Result<
    CommandView,
    ParseTcpReadError,
> {
    if args.len() < 1 {
        Err(ParseTcpReadError::NoSocketDescriptor)
    } else if descriptor_of(args[0]) is None {
        Err(ParseTcpReadError::InvalidSocketDescriptor)
    } else if args.len() < 2 {
        Err(ParseTcpReadError::NoNumBytesToRead)
    } else if parse_unsigned(args[1], usize::MAX as nat) is None {
        Err(ParseTcpReadError::InvalidNumBytesToRead)
    } else if args.len() >= 3 && args[2] != "y"@ && args[2] != "N"@ {
        Err(ParseTcpReadError::InvalidBlockingIndicator)
    } else {
        Ok(
            CommandView::ReadSocket {
                descriptor: descriptor_of(args[0])->0,
                num_bytes: parse_unsigned(args[1], usize::MAX as nat)->0 as usize,
                would_block: args.len() >= 3 && args[2] == "y"@,
            },
        )
    }
}

/// What the third word of `sd` asks for.
pub open spec fn shutdown_kind_of(word: Seq<char>) -> Option<TcpShutdownKind> {
    if word == "w"@ || word == "write"@ {
        Some(TcpShutdownKind::Write)
    } else if word == "r"@ || word == "read"@ {
        Some(TcpShutdownKind::Read)
    } else if word == "both"@ {
        Some(TcpShutdownKind::ReadWrite)
    } else {
        None
    }
}

/// `sd <socket> [r|w|both]`: without the second word the write half closes.
pub open spec fn spec_parse_tcp_shutdown(args: Seq<Seq<char>>) -> Result<
    CommandView,
    ParseTcpShutdownErrorView,
> {
    if args.len() < 1 {
        Err(ParseTcpShutdownErrorView::NoSocketDescriptor)
    } else if descriptor_of(args[0]) is None {
        Err(ParseTcpShutdownErrorView::InvalidSocketDescriptor)
    } else if args.len() < 2 {
        Ok(CommandView::Shutdown(descriptor_of(args[0])->0, TcpShutdownKind::Write))
    } else {
        match shutdown_kind_of(args[1]) {
            Some(k) => Ok(CommandView::Shutdown(descriptor_of(args[0])->0, k)),
            None => Err(ParseTcpShutdownErrorView::InvalidShutdownType(args[1])),
        }
    }
}

/// `cl <socket>`.
pub open spec fn spec_parse_close(args: Seq<Seq<char>>) -> Result<CommandView, ParseCloseError> {
    if args.len() < 1 {
        Err(ParseCloseError::NoSocketDescriptor)
    } else {
        match descriptor_of(args[0]) {
            Some(d) => Ok(CommandView::Close(d)),
            None => Err(ParseCloseError::InvalidSocketDescriptor),
        }
    }
}

/// `sf <path> <vip> <port>`.
pub open spec fn spec_parse_send_file(args: Seq<Seq<char>>) -> Result<
    CommandView,
    ParseSendFileError,
> {
    if args.len() < 1 {
        Err(ParseSendFileError::NoFile)
    } else if args.len() < 2 {
        Err(ParseSendFileError::NoIp)
    } else if parse_ip(args[1]) is None {
        Err(ParseSendFileError::InvalidIp)
    } else if args.len() < 3 {
        Err(ParseSendFileError::NoPort)
    } else {
        match parse_unsigned(args[2], 0xffff) {
            Some(p) => Ok(
                CommandView::SendFile {
                    path: args[0],
                    dest_ip: parse_ip(args[1])->0,
                    port: Port(p as u16),
                },
            ),
            None => Err(ParseSendFileError::InvalidPort),
        }
    }
}

/// `rf <path> <port>`.
pub open spec fn spec_parse_recv_file(args: Seq<Seq<char>>) -> Result<
    CommandView,
    ParseRecvFileError,
> {
    if args.len() < 1 {
        Err(ParseRecvFileError::NoFile)
    } else if args.len() < 2 {
        Err(ParseRecvFileError::NoPort)
    } else {
        match parse_unsigned(args[1], 0xffff) {
            Some(p) => Ok(CommandView::RecvFile { out_path: args[0], port: Port(p as u16) }),
            None => Err(ParseRecvFileError::InvalidPort),
        }
    }
}

/// Puts the error of one command under the variant of `ParseErrorView` that
/// `wrap` builds.
pub open spec fn lift<E>(
    r: Result<CommandView, E>,
    wrap: spec_fn(E) -> ParseErrorView,
) -> Result<CommandView, ParseErrorView> {
    match r {
        Ok(c) => Ok(c),
        Err(e) => Err(wrap(e)),
    }
}

/// The command that the word `cmd` and the words `args` after it stand for.
pub open spec fn spec_parse_cmd(cmd: Seq<char>, args: Seq<Seq<char>>) -> Result<
    CommandView,
    ParseErrorView,
> {
    if cmd == "li"@ || cmd == "interfaces"@ {
        Ok(CommandView::ListInterface(arg(args, 0)))
    } else if cmd == "lr"@ || cmd == "routes"@ {
        Ok(CommandView::ListRoute(arg(args, 0)))
    } else if cmd == "down"@ {
        lift(spec_parse_down(args), |e| ParseErrorView::Down(e))
    } else if cmd == "up"@ {
        lift(spec_parse_up(args), |e| ParseErrorView::Up(e))
    } else if cmd == "send"@ {
        lift(spec_parse_send(args), |e| ParseErrorView::Send(e))
    } else if cmd == "ls"@ {
        Ok(CommandView::ListSockets(arg(args, 0)))
    } else if cmd == "a"@ {
        lift(spec_parse_open_listen(args), |e| ParseErrorView::OpenListenSocket(e))
    } else if cmd == "c"@ {
        lift(spec_parse_connect(args), |e| ParseErrorView::Connect(e))
    } else if cmd == "s"@ {
        lift(spec_parse_tcp_send(args), |e| ParseErrorView::TcpSend(e))
    } else if cmd == "r"@ {
        lift(spec_parse_tcp_read(args), |e| ParseErrorView::TcpRead(e))
    } else if cmd == "sd"@ {
        lift(spec_parse_tcp_shutdown(args), |e| ParseErrorView::TcpShutdown(e))
    } else if cmd == "cl"@ {
        lift(spec_parse_close(args), |e| ParseErrorView::TcpClose(e))
    } else if cmd == "sf"@ {
        lift(spec_parse_send_file(args), |e| ParseErrorView::SendFile(e))
    } else if cmd == "rf"@ {
        lift(spec_parse_recv_file(args), |e| ParseErrorView::RecvFile(e))
    } else if cmd == "q"@ {
        Ok(CommandView::Quit)
    } else {
        Err(ParseErrorView::Unknown)
    }
}

/// The command that a line stands for: a line without a word is the empty
/// command; otherwise the first word names the command and the others are
/// its arguments.
pub open spec fn spec_parse_command(line: Seq<char>) -> Result<CommandView, ParseErrorView> {
    let words = split_words(line);
    if words.len() == 0 {
        Ok(CommandView::Empty)
    } else {
        spec_parse_cmd(words[0], words.skip(1))
    }
}

/// A result as contracts speak of it.
pub open spec fn result_view(r: Result<Command, ParseError>) -> Result<
    CommandView,
    ParseErrorView,
> {
    match r {
        Ok(c) => Ok(c@),
        Err(e) => Err(e@),
    }
}

/// The view of the result of one command's parser.
pub open spec fn plain_view<E>(r: Result<Command, E>) -> Result<CommandView, E> {
    match r {
        Ok(c) => Ok(c@),
        Err(e) => Err(e),
    }
}

/// The first argument as a text, if there is one.
fn file_arg(args: &[Vec<char>]) -> (r: Option<String>)
    ensures
        crate::cli::text_view(r) == arg(words_view(args@), 0),
{
    if args.len() > 0 {
        Some(string_of(args[0].as_slice()))
    } else {
        None
    }
}

/// Reads a 16-bit number.
fn read_u16(word: &[char]) -> (r: Option<u16>)
    ensures
        r == link_id_of(word@),
{
    match parse_decimal(word, 0xffff) {
        Some(v) => Some(v as u16),
        None => None,
    }
}

/// Reads a socket descriptor.
fn read_descriptor(word: &[char]) -> (r: Option<SocketDescriptor>)
    ensures
        r == descriptor_of(word@),
{
    match parse_decimal(word, 0xffff) {
        Some(v) => Some(SocketDescriptor(v as u16)),
        None => None,
    }
}

/// Reads a port.
fn read_port(word: &[char]) -> (r: Option<Port>)
    ensures
        r == match parse_unsigned(word@, 0xffff) {
            Some(p) => Some(Port(p as u16)),
            None => None,
        },
{
    match parse_decimal(word, 0xffff) {
        Some(v) => Some(Port::from(v as u16)),
        None => None,
    }
}

fn parse_down(args: &[Vec<char>]) -> (r: Result<Command, ParseDownError>)
    ensures
        plain_view(r) == spec_parse_down(words_view(args@)),
{
    if args.len() < 1 {
        return Err(ParseDownError::NoLinkId);
    }
    match read_u16(args[0].as_slice()) {
        Some(l) => Ok(Command::InterfaceDown(l)),
        None => Err(ParseDownError::InvalidLinkId),
    }
}

fn parse_up(args: &[Vec<char>]) -> (r: Result<Command, ParseUpError>)
    ensures
        plain_view(r) == spec_parse_up(words_view(args@)),
{
    if args.len() < 1 {
        return Err(ParseUpError::NoLinkId);
    }
    match read_u16(args[0].as_slice()) {
        Some(l) => Ok(Command::InterfaceUp(l)),
        None => Err(ParseUpError::InvalidLinkId),
    }
}

/// Every word from the `from`-th on, joined without anything between them.
fn join_from(args: &[Vec<char>], from: usize) -> (joined: Vec<char>)
    requires
        from <= args.len(),
    ensures
        joined@ == join_words(words_view(args@).skip(from as int)),
{
    let ghost words = words_view(args@);
    let mut joined: Vec<char> = Vec::new();
    let mut i: usize = from;
    assert(words.subrange(from as int, i as int) =~= Seq::empty());
    while i < args.len()
        invariant
            from <= i <= args.len(),
            words == words_view(args@),
            joined@ == join_words(words.subrange(from as int, i as int)),
        decreases args.len() - i,
    {
        let word = &args[i];
        let ghost before = joined@;
        let mut k: usize = 0;
        while k < word.len()
            invariant
                k <= word.len(),
                joined@ == before + word@.take(k as int),
            decreases word.len() - k,
        {
            joined.push(word[k]);
            k += 1;
            assert(word@.take(k as int) == word@.take(k - 1).push(word@[k - 1]));
        }
        assert(word@.take(k as int) == word@);
        i += 1;
        assert(words.subrange(from as int, i as int).drop_last() == words.subrange(
            from as int,
            i - 1,
        ));
        assert(words.subrange(from as int, i as int).last() == word@);
    }
    assert(words.subrange(from as int, i as int) == words.skip(from as int));
    joined
}

fn parse_send(args: &[Vec<char>]) -> (r: Result<Command, ParseSendError>)
    ensures
        plain_view(r) == spec_parse_send(words_view(args@)),
{
    if args.len() < 1 {
        return Err(ParseSendError::NoIp);
    }
    if args.len() < 2 {
        return Err(ParseSendError::NoProtocol);
    }
    if args.len() < 3 {
        return Err(ParseSendError::NoPayload);
    }
    let payload = string_of(join_from(args, 2).as_slice());
    let virtual_ip = match VirtualIp::parse(args[0].as_slice()) {
        Some(ip) => ip,
        None => {
            return Err(ParseSendError::InvalidIp);
        },
    };
    let protocol = match Protocol::from_text(args[1].as_slice()) {
        Ok(p) => p,
        Err(_) => {
            return Err(ParseSendError::InvalidProtocol);
        },
    };
    Ok(Command::SendIPv4Packet { virtual_ip, protocol, payload })
}

fn parse_open_listen(args: &[Vec<char>]) -> (r: Result<Command, ParseOpenListenSocketError>)
    ensures
        plain_view(r) == spec_parse_open_listen(words_view(args@)),
{
    if args.len() < 1 {
        return Err(ParseOpenListenSocketError::NoPort);
    }
    match read_port(args[0].as_slice()) {
        Some(p) => Ok(Command::OpenListenSocket(p)),
        None => Err(ParseOpenListenSocketError::InvalidPort),
    }
}

fn parse_connect(args: &[Vec<char>]) -> (r: Result<Command, ParseConnectError>)
    ensures
        plain_view(r) == spec_parse_connect(words_view(args@)),
{
    if args.len() < 1 {
        return Err(ParseConnectError::NoIp);
    }
    let ip = match VirtualIp::parse(args[0].as_slice()) {
        Some(ip) => ip,
        None => {
            return Err(ParseConnectError::InvalidIp);
        },
    };
    if args.len() < 2 {
        return Err(ParseConnectError::NoPort);
    }
    match read_port(args[1].as_slice()) {
        Some(p) => Ok(Command::ConnectSocket(ip, p)),
        None => Err(ParseConnectError::InvalidPort),
    }
}

fn parse_tcp_send(args: &[Vec<char>]) -> (r: Result<Command, ParseTcpSendError>)
    ensures
        plain_view(r) == spec_parse_tcp_send(words_view(args@)),
{
    if args.len() < 1 {
        return Err(ParseTcpSendError::NoSocketDescriptor);
    }
    let sid = match read_descriptor(args[0].as_slice()) {
        Some(d) => d,
        None => {
            return Err(ParseTcpSendError::InvalidSocketDescriptor);
        },
    };
    if args.len() < 2 {
        return Err(ParseTcpSendError::NoPayload);
    }
    let payload = string_of(args[1].as_slice());
    Ok(Command::SendTCPPacket(sid, payload.as_str().as_bytes_vec()))
}

fn parse_tcp_read(args: &[Vec<char>]) -> (r: Result<Command, ParseTcpReadError>)
    ensures
        plain_view(r) == spec_parse_tcp_read(words_view(args@)),
{
    if args.len() < 1 {
        return Err(ParseTcpReadError::NoSocketDescriptor);
    }
    let descriptor = match read_descriptor(args[0].as_slice()) {
        Some(d) => d,
        None => {
            return Err(ParseTcpReadError::InvalidSocketDescriptor);
        },
    };
    if args.len() < 2 {
        return Err(ParseTcpReadError::NoNumBytesToRead);
    }
    let num_bytes: usize = match parse_decimal(args[1].as_slice(), usize::MAX as u64) {
        Some(n) => n as usize,
        None => {
            return Err(ParseTcpReadError::InvalidNumBytesToRead);
        },
    };
    let would_block = if args.len() >= 3 {
        if word_is(args[2].as_slice(), "y") {
            true
        } else if word_is(args[2].as_slice(), "N") {
            false
        } else {
            return Err(ParseTcpReadError::InvalidBlockingIndicator);
        }
    } else {
        false
    };
    proof {
        reveal_strlit("y");
        reveal_strlit("N");
        assert("y"@ != "N"@) by {
            assert("y"@[0] != "N"@[0]);
        }
    }
    Ok(Command::ReadSocket { descriptor, num_bytes, would_block })
}

/// Reads the word that says which half to shut down.
fn read_shutdown_kind(word: &[char]) -> (r: Option<TcpShutdownKind>)
    ensures
        r == shutdown_kind_of(word@),
{
    if word_is(word, "w") || word_is(word, "write") {
        Some(TcpShutdownKind::Write)
    } else if word_is(word, "r") || word_is(word, "read") {
        Some(TcpShutdownKind::Read)
    } else if word_is(word, "both") {
        Some(TcpShutdownKind::ReadWrite)
    } else {
        None
    }
}

fn parse_tcp_shutdown(args: &[Vec<char>]) -> (r: Result<Command, ParseTcpShutdownError>)
    ensures
        match r {
            Ok(c) => Ok::<CommandView, ParseTcpShutdownErrorView>(c@),
            Err(e) => Err(e@),
        } == spec_parse_tcp_shutdown(words_view(args@)),
{
    if args.len() < 1 {
        return Err(ParseTcpShutdownError::NoSocketDescriptor);
    }
    let sid = match read_descriptor(args[0].as_slice()) {
        Some(d) => d,
        None => {
            return Err(ParseTcpShutdownError::InvalidSocketDescriptor);
        },
    };
    if args.len() < 2 {
        return Ok(Command::Shutdown(sid, TcpShutdownKind::Write));
    }
    match read_shutdown_kind(args[1].as_slice()) {
        Some(k) => Ok(Command::Shutdown(sid, k)),
        None => Err(ParseTcpShutdownError::InvalidShutdownType(string_of(args[1].as_slice()))),
    }
}

fn parse_close(args: &[Vec<char>]) -> (r: Result<Command, ParseCloseError>)
    ensures
        plain_view(r) == spec_parse_close(words_view(args@)),
{
    if args.len() < 1 {
        return Err(ParseCloseError::NoSocketDescriptor);
    }
    match read_descriptor(args[0].as_slice()) {
        Some(d) => Ok(Command::Close(d)),
        None => Err(ParseCloseError::InvalidSocketDescriptor),
    }
}

fn parse_send_file(args: &[Vec<char>]) -> (r: Result<Command, ParseSendFileError>)
    ensures
        plain_view(r) == spec_parse_send_file(words_view(args@)),
{
    if args.len() < 1 {
        return Err(ParseSendFileError::NoFile);
    }
    if args.len() < 2 {
        return Err(ParseSendFileError::NoIp);
    }
    let dest_ip = match VirtualIp::parse(args[1].as_slice()) {
        Some(ip) => ip,
        None => {
            return Err(ParseSendFileError::InvalidIp);
        },
    };
    if args.len() < 3 {
        return Err(ParseSendFileError::NoPort);
    }
    match read_port(args[2].as_slice()) {
        Some(port) => Ok(
            Command::SendFile { path: string_of(args[0].as_slice()), dest_ip, port },
        ),
        None => Err(ParseSendFileError::InvalidPort),
    }
}

fn parse_recv_file(args: &[Vec<char>]) -> (r: Result<Command, ParseRecvFileError>)
    ensures
        plain_view(r) == spec_parse_recv_file(words_view(args@)),
{
    if args.len() < 1 {
        return Err(ParseRecvFileError::NoFile);
    }
    if args.len() < 2 {
        return Err(ParseRecvFileError::NoPort);
    }
    match read_port(args[1].as_slice()) {
        Some(port) => Ok(Command::RecvFile { out_path: string_of(args[0].as_slice()), port }),
        None => Err(ParseRecvFileError::InvalidPort),
    }
}

/// Reads the command that the word `cmd` names from the words after it.
pub fn parse_cmd(cmd: &[char], args: &[Vec<char>]) -> (r: Result<Command, ParseError>)
    ensures
        result_view(r) == spec_parse_cmd(cmd@, words_view(args@)),
{
    if word_is(cmd, "li") || word_is(cmd, "interfaces") {
        Ok(Command::ListInterface(file_arg(args)))
    } else if word_is(cmd, "lr") || word_is(cmd, "routes") {
        Ok(Command::ListRoute(file_arg(args)))
    } else if word_is(cmd, "down") {
        match parse_down(args) {
            Ok(c) => Ok(c),
            Err(e) => Err(ParseError::from(e)),
        }
    } else if word_is(cmd, "up") {
        match parse_up(args) {
            Ok(c) => Ok(c),
            Err(e) => Err(ParseError::from(e)),
        }
    } else if word_is(cmd, "send") {
        match parse_send(args) {
            Ok(c) => Ok(c),
            Err(e) => Err(ParseError::from(e)),
        }
    } else if word_is(cmd, "ls") {
        Ok(Command::ListSockets(file_arg(args)))
    } else if word_is(cmd, "a") {
        match parse_open_listen(args) {
            Ok(c) => Ok(c),
            Err(e) => Err(ParseError::from(e)),
        }
    } else if word_is(cmd, "c") {
        match parse_connect(args) {
            Ok(c) => Ok(c),
            Err(e) => Err(ParseError::from(e)),
        }
    } else if word_is(cmd, "s") {
        match parse_tcp_send(args) {
            Ok(c) => Ok(c),
            Err(e) => Err(ParseError::from(e)),
        }
    } else if word_is(cmd, "r") {
        match parse_tcp_read(args) {
            Ok(c) => Ok(c),
            Err(e) => Err(ParseError::from(e)),
        }
    } else if word_is(cmd, "sd") {
        match parse_tcp_shutdown(args) {
            Ok(c) => Ok(c),
            Err(e) => Err(ParseError::from(e)),
        }
    } else if word_is(cmd, "cl") {
        match parse_close(args) {
            Ok(c) => Ok(c),
            Err(e) => Err(ParseError::from(e)),
        }
    } else if word_is(cmd, "sf") {
        match parse_send_file(args) {
            Ok(c) => Ok(c),
            Err(e) => Err(ParseError::from(e)),
        }
    } else if word_is(cmd, "rf") {
        match parse_recv_file(args) {
            Ok(c) => Ok(c),
            Err(e) => Err(ParseError::from(e)),
        }
    } else if word_is(cmd, "q") {
        Ok(Command::Quit)
    } else {
        Err(ParseError::Unknown)
    }
}

/// Reads the command that a line stands for.
pub fn parse_command(line: String) -> (r: Result<Command, ParseError>)
    ensures
        result_view(r) == spec_parse_command(line@),
{
    let chars = chars_of(line.as_str());
    let words = split_whitespace(chars.as_slice());
    if words.len() == 0 {
        return Ok(Command::Empty);
    }
    let args = slice_subrange(words.as_slice(), 1, words.len());
    assert(words_view(args@) =~= words_view(words@).skip(1));
    parse_cmd(words[0].as_slice(), args)
}

impl ParseOpenListenSocketError {
    /// The name of the error, as its variant is written.
    pub open spec fn spec_name(self) -> Seq<char> {
        match self {
            ParseOpenListenSocketError::NoPort => "NoPort"@,
            ParseOpenListenSocketError::InvalidPort => "InvalidPort"@,
        }
    }

    /// The name of the error, as its variant is written.
    pub fn name(&self) -> (r: &'static str)
        ensures
            r@ == self.spec_name(),
    {
        match self {
            ParseOpenListenSocketError::NoPort => "NoPort",
            ParseOpenListenSocketError::InvalidPort => "InvalidPort",
        }
    }
}

impl ParseDownError {
    /// The name of the error, as its variant is written.
    pub open spec fn spec_name(self) -> Seq<char> {
        match self {
            ParseDownError::InvalidLinkId => "InvalidLinkId"@,
            ParseDownError::NoLinkId => "NoLinkId"@,
        }
    }

    /// The name of the error, as its variant is written.
    pub fn name(&self) -> (r: &'static str)
        ensures
            r@ == self.spec_name(),
    {
        match self {
            ParseDownError::InvalidLinkId => "InvalidLinkId",
            ParseDownError::NoLinkId => "NoLinkId",
        }
    }
}

impl ParseUpError {
    /// The name of the error, as its variant is written.
    pub open spec fn spec_name(self) -> Seq<char> {
        match self {
            ParseUpError::InvalidLinkId => "InvalidLinkId"@,
            ParseUpError::NoLinkId => "NoLinkId"@,
        }
    }

    /// The name of the error, as its variant is written.
    pub fn name(&self) -> (r: &'static str)
        ensures
            r@ == self.spec_name(),
    {
        match self {
            ParseUpError::InvalidLinkId => "InvalidLinkId",
            ParseUpError::NoLinkId => "NoLinkId",
        }
    }
}

impl ParseSendError {
    /// The name of the error, as its variant is written.
    pub open spec fn spec_name(self) -> Seq<char> {
        match self {
            ParseSendError::NoIp => "NoIp"@,
            ParseSendError::InvalidIp => "InvalidIp"@,
            ParseSendError::NoProtocol => "NoProtocol"@,
            ParseSendError::InvalidProtocol => "InvalidProtocol"@,
            ParseSendError::NoPayload => "NoPayload"@,
        }
    }

    /// The name of the error, as its variant is written.
    pub fn name(&self) -> (r: &'static str)
        ensures
            r@ == self.spec_name(),
    {
        match self {
            ParseSendError::NoIp => "NoIp",
            ParseSendError::InvalidIp => "InvalidIp",
            ParseSendError::NoProtocol => "NoProtocol",
            ParseSendError::InvalidProtocol => "InvalidProtocol",
            ParseSendError::NoPayload => "NoPayload",
        }
    }
}

impl ParseConnectError {
    /// The name of the error, as its variant is written.
    pub open spec fn spec_name(self) -> Seq<char> {
        match self {
            ParseConnectError::NoIp => "NoIp"@,
            ParseConnectError::InvalidIp => "InvalidIp"@,
            ParseConnectError::NoPort => "NoPort"@,
            ParseConnectError::InvalidPort => "InvalidPort"@,
        }
    }

    /// The name of the error, as its variant is written.
    pub fn name(&self) -> (r: &'static str)
        ensures
            r@ == self.spec_name(),
    {
        match self {
            ParseConnectError::NoIp => "NoIp",
            ParseConnectError::InvalidIp => "InvalidIp",
            ParseConnectError::NoPort => "NoPort",
            ParseConnectError::InvalidPort => "InvalidPort",
        }
    }
}

impl ParseTcpSendError {
    /// The name of the error, as its variant is written.
    pub open spec fn spec_name(self) -> Seq<char> {
        match self {
            ParseTcpSendError::NoSocketDescriptor => "NoSocketDescriptor"@,
            ParseTcpSendError::InvalidSocketDescriptor => "InvalidSocketDescriptor"@,
            ParseTcpSendError::NoPayload => "NoPayload"@,
        }
    }

    /// The name of the error, as its variant is written.
    pub fn name(&self) -> (r: &'static str)
        ensures
            r@ == self.spec_name(),
    {
        match self {
            ParseTcpSendError::NoSocketDescriptor => "NoSocketDescriptor",
            ParseTcpSendError::InvalidSocketDescriptor => "InvalidSocketDescriptor",
            ParseTcpSendError::NoPayload => "NoPayload",
        }
    }
}

impl ParseTcpReadError {
    /// The name of the error, as its variant is written.
    pub open spec fn spec_name(self) -> Seq<char> {
        match self {
            ParseTcpReadError::NoSocketDescriptor => "NoSocketDescriptor"@,
            ParseTcpReadError::InvalidSocketDescriptor => "InvalidSocketDescriptor"@,
            ParseTcpReadError::NoNumBytesToRead => "NoNumBytesToRead"@,
            ParseTcpReadError::InvalidNumBytesToRead => "InvalidNumBytesToRead"@,
            ParseTcpReadError::InvalidBlockingIndicator => "InvalidBlockingIndicator"@,
        }
    }

    /// The name of the error, as its variant is written.
    pub fn name(&self) -> (r: &'static str)
        ensures
            r@ == self.spec_name(),
    {
        match self {
            ParseTcpReadError::NoSocketDescriptor => "NoSocketDescriptor",
            ParseTcpReadError::InvalidSocketDescriptor => "InvalidSocketDescriptor",
            ParseTcpReadError::NoNumBytesToRead => "NoNumBytesToRead",
            ParseTcpReadError::InvalidNumBytesToRead => "InvalidNumBytesToRead",
            ParseTcpReadError::InvalidBlockingIndicator => "InvalidBlockingIndicator",
        }
    }
}

impl ParseCloseError {
    /// The name of the error, as its variant is written.
    pub open spec fn spec_name(self) -> Seq<char> {
        match self {
            ParseCloseError::NoSocketDescriptor => "NoSocketDescriptor"@,
            ParseCloseError::InvalidSocketDescriptor => "InvalidSocketDescriptor"@,
        }
    }

    /// The name of the error, as its variant is written.
    pub fn name(&self) -> (r: &'static str)
        ensures
            r@ == self.spec_name(),
    {
        match self {
            ParseCloseError::NoSocketDescriptor => "NoSocketDescriptor",
            ParseCloseError::InvalidSocketDescriptor => "InvalidSocketDescriptor",
        }
    }
}

impl ParseSendFileError {
    /// The name of the error, as its variant is written.
    pub open spec fn spec_name(self) -> Seq<char> {
        match self {
            ParseSendFileError::NoFile => "NoFile"@,
            ParseSendFileError::NoIp => "NoIp"@,
            ParseSendFileError::InvalidIp => "InvalidIp"@,
            ParseSendFileError::NoPort => "NoPort"@,
            ParseSendFileError::InvalidPort => "InvalidPort"@,
        }
    }

    /// The name of the error, as its variant is written.
    pub fn name(&self) -> (r: &'static str)
        ensures
            r@ == self.spec_name(),
    {
        match self {
            ParseSendFileError::NoFile => "NoFile",
            ParseSendFileError::NoIp => "NoIp",
            ParseSendFileError::InvalidIp => "InvalidIp",
            ParseSendFileError::NoPort => "NoPort",
            ParseSendFileError::InvalidPort => "InvalidPort",
        }
    }
}

impl ParseRecvFileError {
    /// The name of the error, as its variant is written.
    pub open spec fn spec_name(self) -> Seq<char> {
        match self {
            ParseRecvFileError::NoFile => "NoFile"@,
            ParseRecvFileError::NoPort => "NoPort"@,
            ParseRecvFileError::InvalidPort => "InvalidPort"@,
        }
    }

    /// The name of the error, as its variant is written.
    pub fn name(&self) -> (r: &'static str)
        ensures
            r@ == self.spec_name(),
    {
        match self {
            ParseRecvFileError::NoFile => "NoFile",
            ParseRecvFileError::NoPort => "NoPort",
            ParseRecvFileError::InvalidPort => "InvalidPort",
        }
    }
}

/// A text as `{:?}` shows it: between double quotes, with the characters
/// that need it escaped.
pub uninterp spec fn quoted(text: Seq<char>) -> Seq<char>;

/// Shows a text as `{:?}` does: `<str as Debug>::fmt`. The result depends
/// on the text alone.
#[verifier::external_body]
fn debug_quoted(text: &str) -> (r: String)
    ensures
        r@ == quoted(text@),
{
    format!("{:?}", text)
}

/// The name of a shutdown error, as `{:?}` shows it.
pub open spec fn shutdown_error_name(e: ParseTcpShutdownErrorView) -> Seq<char> {
    match e {
        ParseTcpShutdownErrorView::NoSocketDescriptor => "NoSocketDescriptor"@,
        ParseTcpShutdownErrorView::InvalidSocketDescriptor => "InvalidSocketDescriptor"@,
        ParseTcpShutdownErrorView::InvalidShutdownType(s) => "InvalidShutdownType("@ + quoted(s)
            + ")"@,
    }
}

impl ParseTcpShutdownError {
    /// The error as `{:?}` shows it.
    pub fn name(&self) -> (r: String)
        ensures
            r@ == shutdown_error_name(self@),
    {
        match self {
            ParseTcpShutdownError::NoSocketDescriptor => String::from_str("NoSocketDescriptor"),
            ParseTcpShutdownError::InvalidSocketDescriptor => String::from_str(
                "InvalidSocketDescriptor",
            ),
            ParseTcpShutdownError::InvalidShutdownType(s) => {
                let mut r = String::from_str("InvalidShutdownType(");
                let q = debug_quoted(s.as_str());
                r.append(q.as_str());
                r.append(")");
                r
            },
        }
    }
}

/// What a parse error tells the user: which command was meant, how the
/// command is used, and what is wrong.
pub open spec fn spec_message(e: ParseErrorView) -> Seq<char> {
    match e {
        ParseErrorView::Unknown => "Unknown command"@,
        ParseErrorView::Down(e) => "Invalid down command. Usage: down <integer>. Error: "@ + e.spec_name(),
        ParseErrorView::Up(e) => "Invalid up command. Usage: up <integer>. Error: "@ + e.spec_name(),
        ParseErrorView::Send(e) => "Invalid send command. Usage: send <vip> <proto> <string>. Error: "@ + e.spec_name(),
        ParseErrorView::OpenListenSocket(e) => "Invalid open socket command. Usage: a <port>. Error: "@ + e.spec_name(),
        ParseErrorView::Connect(e) => "Invalid connect command. Usage: c <ip> <port>. Error: "@ + e.spec_name(),
        ParseErrorView::TcpSend(e) => "Invalid send command. Usage: s <socket_id> <data>. Error: "@ + e.spec_name(),
        ParseErrorView::TcpRead(e) => "Invalid read command. Usage: r <socket ID> <numbytes> <y|N>. Error: "@ + e.spec_name(),
        ParseErrorView::TcpShutdown(e) => "Invalid shutdown command. Usage: sd <socket ID> <read|write|both>. Error: "@ + shutdown_error_name(e),
        ParseErrorView::TcpClose(e) => "Invalid close command. Usage: cl <socket ID>. Error: "@ + e.spec_name(),
        ParseErrorView::SendFile(e) => "Invalid send file command. Usage: sf <filename> <ip> <port>. Error: "@ + e.spec_name(),
        ParseErrorView::RecvFile(e) => "Invalid receive file command. Usage: rf <filename> <port>. Error: "@ + e.spec_name(),
    }
}

/// `usage`, and then `name`.
fn explain(usage: &str, name: &str) -> (r: String)
    ensures
        r@ == usage@ + name@,
{
    let mut r = String::from_str(usage);
    r.append(name);
    r
}

impl ParseError {
    /// What the error tells the user.
    pub fn message(&self) -> (r: String)
        ensures
            r@ == spec_message(self@),
    {
        match self {
            ParseError::Unknown => String::from_str("Unknown command"),
            ParseError::Down(e) => explain("Invalid down command. Usage: down <integer>. Error: ", e.name()),
            ParseError::Up(e) => explain("Invalid up command. Usage: up <integer>. Error: ", e.name()),
            ParseError::Send(e) => explain("Invalid send command. Usage: send <vip> <proto> <string>. Error: ", e.name()),
            ParseError::OpenListenSocket(e) => explain("Invalid open socket command. Usage: a <port>. Error: ", e.name()),
            ParseError::Connect(e) => explain("Invalid connect command. Usage: c <ip> <port>. Error: ", e.name()),
            ParseError::TcpSend(e) => explain("Invalid send command. Usage: s <socket_id> <data>. Error: ", e.name()),
            ParseError::TcpRead(e) => explain("Invalid read command. Usage: r <socket ID> <numbytes> <y|N>. Error: ", e.name()),
            ParseError::TcpShutdown(e) => explain("Invalid shutdown command. Usage: sd <socket ID> <read|write|both>. Error: ", e.name().as_str()),
            ParseError::TcpClose(e) => explain("Invalid close command. Usage: cl <socket ID>. Error: ", e.name()),
            ParseError::SendFile(e) => explain("Invalid send file command. Usage: sf <filename> <ip> <port>. Error: ", e.name()),
            ParseError::RecvFile(e) => explain("Invalid receive file command. Usage: rf <filename> <port>. Error: ", e.name()),
        }
    }
}

} // verus!
