//! The commands of a node that only routes.

use crate::addr::{parse_ip, VirtualIp};
use crate::text::{
    chars_of, parse_decimal, parse_unsigned, split_whitespace, split_words, string_of, word_is,
    words_view,
};
use vstd::prelude::*;
use vstd::slice::slice_subrange;

verus! {

/// A command of the routing node.
pub enum Command {
    ListInterface(Option<String>),
    ListRoute(Option<String>),
    InterfaceDown(u16),
    InterfaceUp(u16),
    Send(SendCmd),
    Quit,
}

/// What `send` asks for.
pub struct SendCmd {
    pub virtual_ip: VirtualIp,
    pub protocol: u16,
    pub payload: String,
}

/// A command as contracts speak of it.
pub enum CommandView {
    ListInterface(Option<Seq<char>>),
    ListRoute(Option<Seq<char>>),
    InterfaceDown(u16),
    InterfaceUp(u16),
    Send { virtual_ip: VirtualIp, protocol: u16, payload: Seq<char> },
    Quit,
}

impl View for Command {
    type V = CommandView;

    open spec fn view(&self) -> CommandView {
        match *self {
            Command::ListInterface(f) => CommandView::ListInterface(crate::cli::text_view(f)),
            Command::ListRoute(f) => CommandView::ListRoute(crate::cli::text_view(f)),
            Command::InterfaceDown(l) => CommandView::InterfaceDown(l),
            Command::InterfaceUp(l) => CommandView::InterfaceUp(l),
            Command::Send(c) => CommandView::Send {
                virtual_ip: c.virtual_ip,
                protocol: c.protocol,
                payload: c.payload@,
            },
            Command::Quit => CommandView::Quit,
        }
    }
}

/// The view of an optional command.
pub open spec fn option_view(c: Option<Command>) -> Option<CommandView> {
    match c {
        Some(c) => Some(c@),
        None => None,
    }
}

/// An optional first argument.
pub open spec fn first_arg(args: Seq<Seq<char>>) -> Option<Seq<char>> {
    if args.len() > 0 {
        Some(args[0])
    } else {
        None
    }
}

/// A 16-bit number, if the argument at `i` is there and is one.
pub open spec fn number_arg(args: Seq<Seq<char>>, i: int) -> Option<u16> {
    if 0 <= i < args.len() {
        match parse_unsigned(args[i], 0xffff) {
            Some(v) => Some(v as u16),
            None => None,
        }
    } else {
        None
    }
}

/// A protocol number, if the argument at `i` is there and is one: a
/// numeral of at most 255, since a datagram has one octet for it.
pub open spec fn protocol_arg(args: Seq<Seq<char>>, i: int) -> Option<u16> {
    if 0 <= i < args.len() {
        match parse_unsigned(args[i], 0xff) {
            Some(v) => Some(v as u16),
            None => None,
        }
    } else {
        None
    }
}

/// The command that `cmd` names, given the words after it; `None` for a
/// word that names no command, a missing argument or a malformed one. The
/// number of a link is a 16-bit number, the protocol of `send` a number of
/// one octet, and the payload of `send` one word.
pub open spec fn spec_cmd_arg_handler(cmd: Seq<char>, args: Seq<Seq<char>>) -> Option<
    CommandView,
> {
    if cmd == "li"@ || cmd == "interfaces"@ {
        Some(CommandView::ListInterface(first_arg(args)))
    } else if cmd == "lr"@ || cmd == "routes"@ {
        Some(CommandView::ListRoute(first_arg(args)))
    } else if cmd == "down"@ {
        match number_arg(args, 0) {
            Some(l) => Some(CommandView::InterfaceDown(l)),
            None => None,
        }
    } else if cmd == "up"@ {
        match number_arg(args, 0) {
            Some(l) => Some(CommandView::InterfaceUp(l)),
            None => None,
        }
    } else if cmd == "send"@ {
        if args.len() >= 3 && parse_ip(args[0]) is Some && protocol_arg(args, 1) is Some {
            Some(
                CommandView::Send {
                    virtual_ip: parse_ip(args[0])->0,
                    protocol: protocol_arg(args, 1)->0,
                    payload: args[2],
                },
            )
        } else {
            None
        }
    } else if cmd == "q"@ {
        Some(CommandView::Quit)
    } else {
        None
    }
}

/// The command that a line with at least one word stands for.
pub open spec fn spec_parse_command(line: Seq<char>) -> Option<CommandView> {
    let words = split_words(line);
    if words.len() == 0 {
        None
    } else {
        spec_cmd_arg_handler(words[0], words.skip(1))
    }
}

fn optional_file(args: &[Vec<char>]) -> (r: Option<String>)
    ensures
        crate::cli::text_view(r) == first_arg(words_view(args@)),
{
    if args.len() > 0 {
        Some(string_of(args[0].as_slice()))
    } else {
        None
    }
}

fn read_number(args: &[Vec<char>], i: usize) -> (r: Option<u16>)
    ensures
        r == number_arg(words_view(args@), i as int),
{
    if i < args.len() {
        match parse_decimal(args[i].as_slice(), 0xffff) {
            Some(v) => Some(v as u16),
            None => None,
        }
    } else {
        None
    }
}

fn read_protocol(args: &[Vec<char>], i: usize) -> (r: Option<u16>)
    ensures
        r == protocol_arg(words_view(args@), i as int),
{
    if i < args.len() {
        match parse_decimal(args[i].as_slice(), 0xff) {
            Some(v) => Some(v as u16),
            None => None,
        }
    } else {
        None
    }
}

/// Reads the command that the word `cmd` names from the words after it.
pub fn cmd_arg_handler(cmd: &[char], tokens: &[Vec<char>]) -> (r: Option<Command>)
    ensures
        option_view(r) == spec_cmd_arg_handler(cmd@, words_view(tokens@)),
{
    if word_is(cmd, "li") {
        Some(Command::ListInterface(optional_file(tokens)))
    } else if word_is(cmd, "interfaces") {
        Some(Command::ListInterface(optional_file(tokens)))
    } else if word_is(cmd, "lr") {
        Some(Command::ListRoute(optional_file(tokens)))
    } else if word_is(cmd, "routes") {
        Some(Command::ListRoute(optional_file(tokens)))
    } else if word_is(cmd, "down") {
        match read_number(tokens, 0) {
            Some(link_no) => Some(Command::InterfaceDown(link_no)),
            None => None,
        }
    } else if word_is(cmd, "up") {
        match read_number(tokens, 0) {
            Some(link_no) => Some(Command::InterfaceUp(link_no)),
            None => None,
        }
    } else if word_is(cmd, "send") {
        if tokens.len() < 3 {
            return None;
        }
        let virtual_ip = VirtualIp::parse(tokens[0].as_slice());
        let protocol = read_protocol(tokens, 1);
        match (virtual_ip, protocol) {
            (Some(virtual_ip), Some(protocol)) => Some(
                Command::Send(
                    SendCmd { virtual_ip, protocol, payload: string_of(tokens[2].as_slice()) },
                ),
            ),
            _ => None,
        }
    } else if word_is(cmd, "q") {
        Some(Command::Quit)
    } else {
        None
    }
}

/// Reads the command of a line that holds at least one word.
pub fn parse_command(line: String) -> (r: Option<Command>)
    ensures
        option_view(r) == spec_parse_command(line@),
{
    let chars = chars_of(line.as_str());
    let words = split_whitespace(chars.as_slice());
    if words.len() == 0 {
        return None;
    }
    let args = slice_subrange(words.as_slice(), 1, words.len());
    assert(words_view(args@) =~= words_view(words@).skip(1));
    cmd_arg_handler(words[0].as_slice(), args)
}

} // verus!
