//! Distance-vector routing messages on the wire.
//!
//! A message is a command (two octets), the number of entries (two octets)
//! and the entries, twelve octets each: cost, address and mask. Every number
//! is written with its high octet first.

use crate::addr::VirtualIp;
use crate::net::ipv4::be16;
use vstd::prelude::*;

verus! {

/// The cost that stands for "unreachable".
pub const INFINITY: u32 = 16;

/// The mask of a host route.
pub const HOST_MASK: u32 = 0xffff_ffff;

/// What a message asks for or brings.
#[derive(Clone, Copy, Debug, PartialEq, Eq, Structural)]
pub enum RipCommand {
    /// Asks the receiver for its whole table.
    Request,
    /// Brings entries of the sender's table.
    Response,
}

/// One advertised route.
#[derive(Clone, Copy, Debug, PartialEq, Eq, Structural)]
pub struct RipEntry {
    pub cost: u32,
    pub address: VirtualIp,
    pub mask: u32,
}

/// A routing message.
#[derive(Clone, Debug, PartialEq, Eq)]
pub struct RipMessage {
    pub command: RipCommand,
    pub entries: Vec<RipEntry>,
}

/// Why bytes are not a routing message.
#[derive(Clone, Copy, Debug, PartialEq, Eq, Structural)]
pub enum ParseRipError {
    /// Fewer than the four octets of command and count.
    TooShort,
    /// A command other than request (1) and response (2).
    UnknownCommand,
    /// The length is not what the count of entries calls for.
    BadLength,
}

/// The 32-bit number that four octets stand for, the highest first.
pub open spec fn be32(b0: u8, b1: u8, b2: u8, b3: u8) -> int {
    ((b0 as int * 256 + b1 as int) * 256 + b2 as int) * 256 + b3 as int
}

/// The four octets of a 32-bit number, the highest first.
pub open spec fn be32_bytes(v: u32) -> Seq<u8> {
    seq![
        (v / 256 / 256 / 256) as u8,
        (v / 256 / 256 % 256) as u8,
        (v / 256 % 256) as u8,
        (v % 256) as u8,
    ]
}

/// The two octets of a 16-bit number, the high one first.
pub open spec fn be16_bytes(v: u16) -> Seq<u8> {
    seq![(v / 256) as u8, (v % 256) as u8]
}

/// The number of a command on the wire.
pub open spec fn command_number(c: RipCommand) -> u16 {
    match c {
        RipCommand::Request => 1,
        RipCommand::Response => 2,
    }
}

/// The twelve octets of one entry.
pub open spec fn entry_bytes(e: RipEntry) -> Seq<u8> {
    be32_bytes(e.cost) + e.address.spec_octets() + be32_bytes(e.mask)
}

/// The octets of a run of entries.
pub open spec fn entries_bytes(entries: Seq<RipEntry>) -> Seq<u8>
    decreases entries.len(),
{
    if entries.len() == 0 {
        Seq::empty()
    } else {
        entries_bytes(entries.drop_last()) + entry_bytes(entries.last())
    }
}

/// The octets of a message.
pub open spec fn message_bytes(command: RipCommand, entries: Seq<RipEntry>) -> Seq<u8> {
    be16_bytes(command_number(command)) + be16_bytes(entries.len() as u16) + entries_bytes(
        entries,
    )
}

/// The entry that stands at octet `at` of `b`.
pub open spec fn entry_at(b: Seq<u8>, at: int) -> RipEntry {
    RipEntry {
        cost: be32(b[at], b[at + 1], b[at + 2], b[at + 3]) as u32,
        address: VirtualIp(b[at + 4], b[at + 5], b[at + 6], b[at + 7]),
        mask: be32(b[at + 8], b[at + 9], b[at + 10], b[at + 11]) as u32,
    }
}

/// The first `n` entries of the message `b`.
pub open spec fn entries_of(b: Seq<u8>, n: nat) -> Seq<RipEntry> {
    Seq::new(n, |i: int| entry_at(b, 4 + 12 * i))
}

/// What the bytes `b` stand for: a message, or the first fault found.
pub open spec fn spec_parse_rip(b: Seq<u8>) -> Result<(RipCommand, Seq<RipEntry>), ParseRipError> {
    if b.len() < 4 {
        Err(ParseRipError::TooShort)
    } else if be16(b[0], b[1]) != 1 && be16(b[0], b[1]) != 2 {
        Err(ParseRipError::UnknownCommand)
    } else if b.len() != 4 + 12 * be16(b[2], b[3]) {
        Err(ParseRipError::BadLength)
    } else {
        Ok(
            (
                if be16(b[0], b[1]) == 1 {
                    RipCommand::Request
                } else {
                    RipCommand::Response
                },
                entries_of(b, be16(b[2], b[3]) as nat),
            ),
        )
    }
}

/// Four octets that stand for `v` stand for nothing else.
pub proof fn lemma_be32_round_trip(v: u32)
    ensures
        be32(be32_bytes(v)[0], be32_bytes(v)[1], be32_bytes(v)[2], be32_bytes(v)[3]) == v,
{
}

/// A run of entries takes twelve octets for each.
pub proof fn lemma_entries_bytes_len(entries: Seq<RipEntry>)
    ensures
        entries_bytes(entries).len() == 12 * entries.len(),
    decreases entries.len(),
{
    if entries.len() > 0 {
        lemma_entries_bytes_len(entries.drop_last());
    }
}

fn push_be32(out: &mut Vec<u8>, v: u32)
    ensures
        final(out)@ == old(out)@ + be32_bytes(v),
{
    out.push((v / 256 / 256 / 256) as u8);
    out.push((v / 256 / 256 % 256) as u8);
    out.push((v / 256 % 256) as u8);
    out.push((v % 256) as u8);
    assert(out@ =~= old(out)@ + be32_bytes(v));
}

fn push_be16(out: &mut Vec<u8>, v: u16)
    ensures
        final(out)@ == old(out)@ + be16_bytes(v),
{
    out.push((v / 256) as u8);
    out.push((v % 256) as u8);
    assert(out@ =~= old(out)@ + be16_bytes(v));
}

fn read_be32(b: &[u8], at: usize) -> (v: u32)
    requires
        at + 4 <= b@.len(),
    ensures
        v == be32(b@[at as int], b@[at + 1], b@[at + 2], b@[at + 3]),
{
    ((b[at] as u32 * 256 + b[at + 1] as u32) * 256 + b[at + 2] as u32) * 256 + b[at + 3] as u32
}

impl RipMessage {
    /// Whether the message can be written: the count of entries fits its
    /// two octets.
    pub open spec fn wf(&self) -> bool {
        self.entries@.len() <= 0xffff
    }

    /// Writes the message.
    pub fn to_bytes(&self) -> (out: Vec<u8>)
        requires
            self.wf(),
        ensures
            out@ == message_bytes(self.command, self.entries@),
    {
        let mut out: Vec<u8> = Vec::new();
        let number: u16 = match self.command {
            RipCommand::Request => 1,
            RipCommand::Response => 2,
        };
        push_be16(&mut out, number);
        push_be16(&mut out, self.entries.len() as u16);
        let ghost head = out@;
        let mut i: usize = 0;
        assert(self.entries@.take(0) =~= Seq::empty());
        while i < self.entries.len()
            invariant
                i <= self.entries.len(),
                out@ == head + entries_bytes(self.entries@.take(i as int)),
            decreases self.entries.len() - i,
        {
            let e = self.entries[i];
            let ghost before = out@;
            push_be32(&mut out, e.cost);
            let o = e.address.octets();
            out.push(o[0]);
            out.push(o[1]);
            out.push(o[2]);
            out.push(o[3]);
            push_be32(&mut out, e.mask);
            i += 1;
            proof {
                assert(self.entries@.take(i as int).drop_last() == self.entries@.take(i - 1));
                assert(self.entries@.take(i as int).last() == e);
                assert(out@ =~= before + entry_bytes(e));
                assert(out@ =~= head + entries_bytes(self.entries@.take(i as int)));
            }
        }
        assert(self.entries@.take(i as int) == self.entries@);
        assert(out@ =~= message_bytes(self.command, self.entries@));
        out
    }

    /// Reads a message.
    pub fn from_bytes(b: &[u8]) -> (r: Result<RipMessage, ParseRipError>)
        ensures
            match r {
                Ok(m) => spec_parse_rip(b@) == Ok::<(RipCommand, Seq<RipEntry>), ParseRipError>(
                    (m.command, m.entries@),
                ) && m.wf(),
                Err(e) => spec_parse_rip(b@) == Err::<(RipCommand, Seq<RipEntry>), ParseRipError>(
                    e,
                ),
            },
    {
        if b.len() < 4 {
            return Err(ParseRipError::TooShort);
        }
        let number: u16 = b[0] as u16 * 256 + b[1] as u16;
        let command = if number == 1 {
            RipCommand::Request
        } else if number == 2 {
            RipCommand::Response
        } else {
            return Err(ParseRipError::UnknownCommand);
        };
        let count: usize = b[2] as usize * 256 + b[3] as usize;
        if b.len() != 4 + 12 * count {
            return Err(ParseRipError::BadLength);
        }
        let mut entries: Vec<RipEntry> = Vec::new();
        let mut i: usize = 0;
        while i < count
            invariant
                i <= count,
                count <= 0xffff,
                b@.len() == 4 + 12 * count,
                entries@ == entries_of(b@, i as nat),
            decreases count - i,
        {
            let at = 4 + 12 * i;
            let e = RipEntry {
                cost: read_be32(b, at),
                address: VirtualIp(b[at + 4], b[at + 5], b[at + 6], b[at + 7]),
                mask: read_be32(b, at + 8),
            };
            assert(e == entry_at(b@, 4 + 12 * i));
            entries.push(e);
            i += 1;
            assert(entries@ =~= entries_of(b@, i as nat));
        }
        Ok(RipMessage { command, entries })
    }
}

/// The entries that stand in the octets of `entries` are `entries`.
pub proof fn lemma_entries_round_trip(head: Seq<u8>, entries: Seq<RipEntry>, i: int)
    requires
        head.len() == 4,
        0 <= i < entries.len(),
    ensures
        entry_at(head + entries_bytes(entries), 4 + 12 * i) == entries[i],
    decreases entries.len(),
{
    let all = head + entries_bytes(entries);
    let front = entries.drop_last();
    lemma_entries_bytes_len(front);
    lemma_entries_bytes_len(entries);
    if i < entries.len() - 1 {
        lemma_entries_round_trip(head, front, i);
        let shorter = head + entries_bytes(front);
        assert(forall|k: int| 0 <= k < shorter.len() ==> all[k] == shorter[k]);
        assert(front[i] == entries[i]);
    } else {
        let e = entries.last();
        let at = 4 + 12 * i;
        assert(forall|k: int| 0 <= k < 12 ==> all[at + k] == entry_bytes(e)[k]);
        lemma_be32_round_trip(e.cost);
        lemma_be32_round_trip(e.mask);
        assert(entry_bytes(e)[0] == be32_bytes(e.cost)[0]);
        assert(entry_bytes(e)[3] == be32_bytes(e.cost)[3]);
        assert(entry_bytes(e)[4] == e.address.0);
        assert(entry_bytes(e)[8] == be32_bytes(e.mask)[0]);
        assert(entry_bytes(e)[11] == be32_bytes(e.mask)[3]);
    }
}

/// What is written is what is read: the octets of a message that can be
/// written stand for that message.
pub proof fn lemma_rip_round_trip(command: RipCommand, entries: Seq<RipEntry>)
    requires
        entries.len() <= 0xffff,
    ensures
        spec_parse_rip(message_bytes(command, entries)) == Ok::<
            (RipCommand, Seq<RipEntry>),
            ParseRipError,
        >((command, entries)),
{
    let b = message_bytes(command, entries);
    let head = be16_bytes(command_number(command)) + be16_bytes(entries.len() as u16);
    lemma_entries_bytes_len(entries);
    assert(b == head + entries_bytes(entries));
    assert(b[0] == head[0] && b[1] == head[1] && b[2] == head[2] && b[3] == head[3]);
    assert(be16(b[2], b[3]) == entries.len());
    assert forall|i: int| 0 <= i < entries.len() implies entries_of(b, entries.len())[i]
        == entries[i] by {
        lemma_entries_round_trip(head, entries, i);
    }
    assert(entries_of(b, entries.len()) =~= entries);
}

} // verus!
