//! One virtual point-to-point interface.

use crate::addr::{parse_ip, VirtualIp};
use crate::net::ipv4::{encode_datagram, spec_datagram, MAX_PAYLOAD_LEN};
use crate::protocol::rip::{message_bytes, RipMessage};
use crate::text::{
    chars_of, parse_decimal, parse_unsigned, split_whitespace, split_words, words_view,
};
use vstd::prelude::*;
use vstd::string::StrSliceExecFns;
use vstd::utf8::encode_utf8;

verus! {

/// What a link carries for the protocols that run directly on datagrams.
pub enum ProtocolPayload {
    RIP(RipMessage),
    Test(String),
}

/// The time to live of a fresh datagram.
pub const TTL: u8 = 16;

/// A link as the configuration names it.
#[derive(Copy, Clone, Debug, PartialEq, Eq, Structural)]
pub struct LinkDefinition {
    /// The port where the connected host runs.
    pub dest_port: u16,
    /// The virtual IP of this host's interface.
    pub interface_ip: VirtualIp,
    /// The virtual IP of the connected host's interface.
    pub dest_ip: VirtualIp,
}

/// An interface: the two virtual addresses of the link, the port of the
/// peer's datagram endpoint, and whether the interface is up.
#[derive(Copy, Clone, Debug, PartialEq, Eq, Structural)]
pub struct Link {
    pub dest_port: u16,
    pub dest_virtual_ip: VirtualIp,
    pub src_virtual_ip: VirtualIp,
    pub up: bool,
}

#[derive(Clone, Copy, Debug, PartialEq, Eq, Structural)]
pub enum ParseLinkError {
    NoIp,
    NoPort,
    NoSrcVirtualIp,
    NoDstVirtualIp,
    MalformedPort,
    MalformedIp,
}

/// The link that a configuration line names: the peer's host (not read
/// further), the peer's port, this side's virtual address and the peer's.
/// Words after the fourth are ignored.
pub open spec fn spec_parse_link(line: Seq<char>) -> Result<LinkDefinition, ParseLinkError> {
    let w = split_words(line);
    if w.len() < 1 {
        Err(ParseLinkError::NoIp)
    } else if w.len() < 2 {
        Err(ParseLinkError::NoPort)
    } else if parse_unsigned(w[1], 0xffff) is None {
        Err(ParseLinkError::MalformedPort)
    } else if w.len() < 3 {
        Err(ParseLinkError::NoSrcVirtualIp)
    } else if parse_ip(w[2]) is None {
        Err(ParseLinkError::MalformedIp)
    } else if w.len() < 4 {
        Err(ParseLinkError::NoDstVirtualIp)
    } else if parse_ip(w[3]) is None {
        Err(ParseLinkError::MalformedIp)
    } else {
        Ok(
            LinkDefinition {
                dest_port: parse_unsigned(w[1], 0xffff)->0 as u16,
                interface_ip: parse_ip(w[2])->0,
                dest_ip: parse_ip(w[3])->0,
            },
        )
    }
}

/// The protocol number and the bytes that a payload goes out with.
pub open spec fn spec_payload_bytes(payload: ProtocolPayload) -> (u8, Seq<u8>) {
    match payload {
        ProtocolPayload::RIP(m) => (200u8, message_bytes(m.command, m.entries@)),
        ProtocolPayload::Test(s) => (0u8, encode_utf8(s@)),
    }
}

impl ProtocolPayload {
    /// Whether the payload can be written and fits one datagram.
    pub open spec fn wf(&self) -> bool {
        match *self {
            ProtocolPayload::RIP(m) => m.wf(),
            ProtocolPayload::Test(s) => true,
        }
    }

    /// The protocol number and the bytes of the payload.
    pub fn into_bytes(self) -> (r: (u8, Vec<u8>))
        requires
            self.wf(),
        ensures
            r.0 == spec_payload_bytes(self).0,
            r.1@ == spec_payload_bytes(self).1,
    {
        match self {
            ProtocolPayload::RIP(m) => (200, m.to_bytes()),
            ProtocolPayload::Test(s) => (0, s.as_str().as_bytes_vec()),
        }
    }
}

impl LinkDefinition {
    /// Reads one link line of the configuration.
    pub fn try_parse(raw_link: &str) -> (r: Result<Self, ParseLinkError>)
        ensures
            r == spec_parse_link(raw_link@),
    {
        let chars = chars_of(raw_link);
        Self::parse_chars(chars.as_slice())
    }

    /// Reads one link line of the configuration, given as characters.
    pub fn parse_chars(line: &[char]) -> (r: Result<Self, ParseLinkError>)
        ensures
            r == spec_parse_link(line@),
    {
        let words = split_whitespace(line);
        assert(words_view(words@).len() == words@.len());
        assert(forall|k: int| 0 <= k < words@.len() ==> words_view(words@)[k] == words@[k]@);
        if words.len() < 1 {
            return Err(ParseLinkError::NoIp);
        }
        if words.len() < 2 {
            return Err(ParseLinkError::NoPort);
        }
        let dest_port = match parse_decimal(words[1].as_slice(), 0xffff) {
            Some(p) => p as u16,
            None => {
                return Err(ParseLinkError::MalformedPort);
            },
        };
        if words.len() < 3 {
            return Err(ParseLinkError::NoSrcVirtualIp);
        }
        let interface_ip = match VirtualIp::parse(words[2].as_slice()) {
            Some(ip) => ip,
            None => {
                return Err(ParseLinkError::MalformedIp);
            },
        };
        if words.len() < 4 {
            return Err(ParseLinkError::NoDstVirtualIp);
        }
        let dest_ip = match VirtualIp::parse(words[3].as_slice()) {
            Some(ip) => ip,
            None => {
                return Err(ParseLinkError::MalformedIp);
            },
        };
        Ok(LinkDefinition { dest_port, interface_ip, dest_ip })
    }

    /// The interface that the definition names; it starts up.
    pub fn into_link(self) -> (link: Link)
        ensures
            link == (Link {
                dest_port: self.dest_port,
                dest_virtual_ip: self.dest_ip,
                src_virtual_ip: self.interface_ip,
                up: true,
            }),
    {
        Link {
            dest_port: self.dest_port,
            dest_virtual_ip: self.dest_ip,
            src_virtual_ip: self.interface_ip,
            up: true,
        }
    }
}

impl Link {
    /// The datagram that carries `payload` over this link to its far end:
    /// a fresh header from this side's virtual address to the peer's, then
    /// the payload's bytes. The caller hands the bytes to the peer's datagram
    /// endpoint at `dest_port`.
    pub fn send(&self, payload: ProtocolPayload) -> (datagram: Vec<u8>)
        requires
            payload.wf(),
            spec_payload_bytes(payload).1.len() <= MAX_PAYLOAD_LEN,
        ensures
            datagram@ == spec_datagram(
                self.src_virtual_ip,
                self.dest_virtual_ip,
                spec_payload_bytes(payload).0,
                TTL,
                spec_payload_bytes(payload).1,
            ),
    {
        let (protocol, bytes) = payload.into_bytes();
        encode_datagram(self.src_virtual_ip, self.dest_virtual_ip, protocol, TTL, bytes.as_slice())
    }
}

} // verus!
