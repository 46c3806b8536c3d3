//! Protocol numbers: what a locally delivered payload is handed to.

pub mod rip;
pub mod tcp;

use crate::text::{chars_of, parse_decimal, parse_unsigned};
use vstd::prelude::*;
use vstd::std_specs::convert::{FromSpecImpl, TryFromSpecImpl};

verus! {

/// The protocols that a node dispatches on.
#[derive(Clone, Copy, PartialEq, Eq, Hash, Debug, Structural)]
pub enum Protocol {
    Rip,
    Test,
    Tcp,
}

/// Why a protocol number was refused.
#[derive(Clone, Copy, PartialEq, Eq, Debug, Structural)]
pub enum ParseProtocolError {
    Unsupported,
}

/// The protocol that the one-byte number `value` stands for.
pub open spec fn protocol_of_number(value: u8) -> Result<Protocol, ParseProtocolError> {
    if value == 0 {
        Ok(Protocol::Test)
    } else if value == 200 {
        Ok(Protocol::Rip)
    } else if value == 6 {
        Ok(Protocol::Tcp)
    } else {
        Err(ParseProtocolError::Unsupported)
    }
}

/// The one-byte number of a protocol.
pub open spec fn number_of_protocol(p: Protocol) -> u8 {
    match p {
        Protocol::Rip => 200,
        Protocol::Test => 0,
        Protocol::Tcp => 6,
    }
}

/// The protocol that a decimal numeral stands for.
pub open spec fn protocol_of_text(text: Seq<char>) -> Result<Protocol, ParseProtocolError> {
    match parse_unsigned(text, 255) {
        Some(v) => protocol_of_number(v as u8),
        None => Err(ParseProtocolError::Unsupported),
    }
}

impl TryFrom<u8> for Protocol {
    type Error = ParseProtocolError;

    fn try_from(value: u8) -> (r: Result<Self, Self::Error>) {
        match value {
            0 => Ok(Protocol::Test),
            200 => Ok(Protocol::Rip),
            6 => Ok(Protocol::Tcp),
            _ => Err(ParseProtocolError::Unsupported),
        }
    }
}

impl TryFromSpecImpl<u8> for Protocol {
    open spec fn obeys_try_from_spec() -> bool {
        true
    }

    open spec fn try_from_spec(value: u8) -> Result<Self, Self::Error> {
        protocol_of_number(value)
    }
}

impl<'a> TryFrom<&'a str> for Protocol {
    type Error = ParseProtocolError;

    fn try_from(value: &'a str) -> (r: Result<Self, Self::Error>) {
        let text = chars_of(value);
        Protocol::from_text(text.as_slice())
    }
}

impl<'a> TryFromSpecImpl<&'a str> for Protocol {
    open spec fn obeys_try_from_spec() -> bool {
        true
    }

    open spec fn try_from_spec(value: &'a str) -> Result<Self, Self::Error> {
        protocol_of_text(value@)
    }
}

impl From<Protocol> for u8 {
    fn from(p: Protocol) -> (r: u8) {
        match p {
            Protocol::Rip => 200,
            Protocol::Test => 0,
            Protocol::Tcp => 6,
        }
    }
}

impl FromSpecImpl<Protocol> for u8 {
    open spec fn obeys_from_spec() -> bool {
        true
    }

    open spec fn from_spec(p: Protocol) -> u8 {
        number_of_protocol(p)
    }
}

impl Protocol {
    /// Reads a protocol from its decimal number, as a command line gives it.
    pub fn from_text(text: &[char]) -> (r: Result<Protocol, ParseProtocolError>)
        ensures
            r == protocol_of_text(text@),
    {
        match parse_decimal(text, 255) {
            Some(v) => Protocol::try_from(v as u8),
            None => Err(ParseProtocolError::Unsupported),
        }
    }

    /// The protocol's number on the wire.
    pub fn number(self) -> (n: u8)
        ensures
            n == number_of_protocol(self),
            protocol_of_number(n) == Ok::<Protocol, ParseProtocolError>(self),
    {
        self.into()
    }
}

/// A protocol's number reads back as that protocol, and a number that reads
/// as a protocol is that protocol's number.
pub proof fn lemma_protocol_number_round_trip(p: Protocol, n: u8)
    ensures
        protocol_of_number(number_of_protocol(p)) == Ok::<Protocol, ParseProtocolError>(p),
        protocol_of_number(n) is Ok ==> number_of_protocol(protocol_of_number(n)->Ok_0) == n,
{
}

} // verus!
