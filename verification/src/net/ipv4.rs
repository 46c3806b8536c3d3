//! IPv4 headers on the wire. The bytes are written, read and summed by
//! `etherparse`; this module states what those calls give and builds the
//! datagram rules on top of them.

use crate::addr::VirtualIp;
use vstd::prelude::*;
use vstd::slice::{slice_subrange, slice_to_vec};

verus! {

/// The largest payload that fits a datagram with a header of 20 octets.
pub const MAX_PAYLOAD_LEN: usize = 65515;

/// The 16-bit number that two octets stand for, the high octet first.
pub open spec fn be16(hi: u8, lo: u8) -> int {
    hi as int * 256 + lo as int
}

/// The fields of an IPv4 header that the stack reads.
#[derive(Clone, Copy, Debug, PartialEq, Eq, Structural)]
pub struct Ipv4Info {
    /// Length of the header with its options, in octets.
    pub header_len: usize,
    /// Length of header and payload, as the header states it.
    pub total_len: u16,
    pub ttl: u8,
    pub protocol: u8,
    /// The checksum as it stands in the header.
    pub checksum: u16,
    pub source: VirtualIp,
    pub destination: VirtualIp,
}

/// Whether `b` begins with a well-formed IPv4 header: at least 20 octets,
/// version 4, a header length of at least 5 words that the bytes cover and
/// that the stated total length covers too.
pub open spec fn ipv4_parse_ok(b: Seq<u8>) -> bool {
    &&& b.len() >= 20
    &&& b[0] / 16 == 4
    &&& b[0] % 16 >= 5
    &&& b.len() >= (b[0] % 16) * 4
    &&& be16(b[2], b[3]) >= (b[0] % 16) * 4
}

/// The fields of the header that `b` begins with.
pub open spec fn ipv4_info(b: Seq<u8>) -> Ipv4Info {
    Ipv4Info {
        header_len: ((b[0] % 16) * 4) as usize,
        total_len: be16(b[2], b[3]) as u16,
        ttl: b[8],
        protocol: b[9],
        checksum: be16(b[10], b[11]) as u16,
        source: VirtualIp(b[12], b[13], b[14], b[15]),
        destination: VirtualIp(b[16], b[17], b[18], b[19]),
    }
}

/// The header checksum that `etherparse` computes for the header `header`
/// (all of its octets, options included). The checksum field itself does not
/// enter the sum.
pub uninterp spec fn ipv4_checksum(header: Seq<u8>) -> u16;

/// `header` with the checksum field set to `c`.
pub open spec fn with_checksum(header: Seq<u8>, c: u16) -> Seq<u8> {
    header.update(10, (c / 256) as u8).update(11, (c % 256) as u8)
}

/// The header of a fresh datagram before its checksum is filled in: no
/// options, identification 0, "don't fragment" set.
pub open spec fn ipv4_header_base(
    payload_len: u16,
    ttl: u8,
    protocol: u8,
    src: VirtualIp,
    dst: VirtualIp,
) -> Seq<u8> {
    seq![
        0x45u8,
        0u8,
        ((payload_len + 20) / 256) as u8,
        ((payload_len + 20) % 256) as u8,
        0u8,
        0u8,
        0x40u8,
        0u8,
        ttl,
        protocol,
        0u8,
        0u8,
        src.0,
        src.1,
        src.2,
        src.3,
        dst.0,
        dst.1,
        dst.2,
        dst.3,
    ]
}

/// The header of a fresh datagram, checksum included.
pub open spec fn ipv4_header_bytes(
    payload_len: u16,
    ttl: u8,
    protocol: u8,
    src: VirtualIp,
    dst: VirtualIp,
) -> Seq<u8> {
    let base = ipv4_header_base(payload_len, ttl, protocol, src, dst);
    with_checksum(base, ipv4_checksum(base))
}

/// Whether the checksum that stands in `header` is the one that belongs there.
pub open spec fn ipv4_checksum_ok(header: Seq<u8>) -> bool {
    be16(header[10], header[11]) == ipv4_checksum(with_checksum(header, 0))
}

/// Writes the header of a fresh datagram: `etherparse::Ipv4Header::new`
/// followed by `Ipv4Header::write`. The contract gives the 20 octets that
/// `write` puts out for a header made by `new`; the two checksum octets are
/// what `write` computes, which is the named checksum of the other eighteen.
/// `write` fails on a payload longer than 65515 octets, which `requires`
/// leaves out.
#[verifier::external_body]
fn write_ipv4_header(payload_len: u16, ttl: u8, protocol: u8, src: VirtualIp, dst: VirtualIp) -> (bytes:
    Vec<u8>)
    requires
        payload_len <= MAX_PAYLOAD_LEN,
    ensures
        bytes@ == ipv4_header_bytes(payload_len, ttl, protocol, src, dst),
{
    let mut bytes = Vec::new();
    let (s, d) = ([src.0, src.1, src.2, src.3], [dst.0, dst.1, dst.2, dst.3]);
    etherparse::Ipv4Header::new(payload_len, ttl, protocol, s, d).write(&mut bytes).unwrap();
    bytes
}

/// Reads the header at the start of a datagram:
/// `etherparse::Ipv4HeaderSlice::from_slice` and its accessors. `from_slice`
/// succeeds exactly on `ipv4_parse_ok`; the accessors read the fields at
/// their fixed places.
#[verifier::external_body]
fn read_ipv4_header(bytes: &[u8]) -> (r: Option<Ipv4Info>)
    ensures
        r == if ipv4_parse_ok(bytes@) {
            Some(ipv4_info(bytes@))
        } else {
            None
        },
{
    let h = etherparse::Ipv4HeaderSlice::from_slice(bytes).ok()?;
    let (s, d) = (h.source(), h.destination());
    Some(
        Ipv4Info {
            header_len: h.slice().len(),
            total_len: h.total_len(),
            ttl: h.ttl(),
            protocol: h.protocol(),
            checksum: h.header_checksum(),
            source: VirtualIp(s[0], s[1], s[2], s[3]),
            destination: VirtualIp(d[0], d[1], d[2], d[3]),
        },
    )
}

/// Computes the checksum of a header:
/// `etherparse::Ipv4Header::calc_header_checksum` on the header that
/// `Ipv4HeaderSlice::to_header` decodes. `header` is exactly the header, so
/// that the result depends on nothing else.
#[verifier::external_body]
fn compute_ipv4_checksum(header: &[u8]) -> (c: u16)
    requires
        ipv4_parse_ok(header@),
        header@.len() == ipv4_info(header@).header_len,
    ensures
        c == ipv4_checksum(header@),
{
    let h = etherparse::Ipv4HeaderSlice::from_slice(header).unwrap();
    h.to_header().calc_header_checksum().unwrap()
}

/// Why a received datagram cannot be taken apart.
#[derive(Clone, Copy, Debug, PartialEq, Eq, Structural)]
pub enum DatagramError {
    /// The bytes do not begin with a well-formed header.
    BadHeader,
    /// The bytes end before the length that the header states.
    Truncated,
    /// The checksum in the header is not the checksum of the header.
    BadChecksum,
}

/// The header of a datagram: its first `header_len` octets.
pub open spec fn header_of(datagram: Seq<u8>) -> Seq<u8> {
    datagram.subrange(0, ipv4_info(datagram).header_len as int)
}

/// The payload of a datagram: what lies between the header and the total
/// length that the header states.
pub open spec fn payload_of(datagram: Seq<u8>) -> Seq<u8> {
    datagram.subrange(
        ipv4_info(datagram).header_len as int,
        ipv4_info(datagram).total_len as int,
    )
}

/// What reading a received datagram gives: its header fields, or the first
/// of the three faults that it has.
pub open spec fn spec_read_datagram(datagram: Seq<u8>) -> Result<Ipv4Info, DatagramError> {
    if !ipv4_parse_ok(datagram) {
        Err(DatagramError::BadHeader)
    } else if datagram.len() < ipv4_info(datagram).total_len {
        Err(DatagramError::Truncated)
    } else if !ipv4_checksum_ok(header_of(datagram)) {
        Err(DatagramError::BadChecksum)
    } else {
        Ok(ipv4_info(datagram))
    }
}

/// The datagram that carries `payload` from `src` to `dst`.
pub open spec fn spec_datagram(
    src: VirtualIp,
    dst: VirtualIp,
    protocol: u8,
    ttl: u8,
    payload: Seq<u8>,
) -> Seq<u8> {
    ipv4_header_bytes(payload.len() as u16, ttl, protocol, src, dst) + payload
}

/// `datagram` with its time to live set to `ttl` and its checksum set to
/// match; every other octet stays.
pub open spec fn spec_with_ttl(datagram: Seq<u8>, ttl: u8) -> Seq<u8> {
    let blank = with_checksum(header_of(datagram).update(8, ttl), 0);
    with_checksum(blank, ipv4_checksum(blank)) + datagram.skip(
        ipv4_info(datagram).header_len as int,
    )
}

/// Two octets that stand for `c` stand for nothing else.
pub proof fn lemma_be16_of_parts(c: u16)
    ensures
        be16((c / 256) as u8, (c % 256) as u8) == c,
{
}

/// Setting the checksum of a well-formed header leaves it well-formed, with
/// every field but the checksum as before, and blanking the checksum again
/// gives the same blank header.
pub proof fn lemma_with_checksum(header: Seq<u8>, c: u16)
    requires
        ipv4_parse_ok(header),
    ensures
        ipv4_parse_ok(with_checksum(header, c)),
        with_checksum(header, c).len() == header.len(),
        ipv4_info(with_checksum(header, c)) == (Ipv4Info { checksum: c, ..ipv4_info(header) }),
        with_checksum(with_checksum(header, c), 0) == with_checksum(header, 0),
{
    lemma_be16_of_parts(c);
    assert(with_checksum(with_checksum(header, c), 0) =~= with_checksum(header, 0));
}

/// A header whose checksum field holds the checksum of its blank form passes
/// the checksum test.
pub proof fn lemma_filled_checksum_ok(blank: Seq<u8>)
    requires
        ipv4_parse_ok(blank),
        blank[10] == 0,
        blank[11] == 0,
    ensures
        ipv4_checksum_ok(with_checksum(blank, ipv4_checksum(blank))),
{
    let c = ipv4_checksum(blank);
    lemma_be16_of_parts(c);
    assert(with_checksum(with_checksum(blank, c), 0) =~= blank);
}

/// Reads the header of a received datagram and checks its checksum.
pub fn read_datagram(datagram: &[u8]) -> (r: Result<Ipv4Info, DatagramError>)
    ensures
        r == spec_read_datagram(datagram@),
{
    let info = match read_ipv4_header(datagram) {
        Some(info) => info,
        None => {
            return Err(DatagramError::BadHeader);
        },
    };
    if datagram.len() < info.total_len as usize {
        return Err(DatagramError::Truncated);
    }
    let mut header = slice_to_vec(slice_subrange(datagram, 0, info.header_len));
    assert(header@ == header_of(datagram@));
    header.set(10, 0);
    header.set(11, 0);
    assert(header@ == with_checksum(header_of(datagram@), 0));
    proof {
        assert(ipv4_parse_ok(header_of(datagram@)));
        lemma_with_checksum(header_of(datagram@), 0);
    }
    let computed = compute_ipv4_checksum(header.as_slice());
    if computed != info.checksum {
        return Err(DatagramError::BadChecksum);
    }
    Ok(info)
}

/// The payload of a datagram that `read_datagram` accepted.
pub fn datagram_payload<'a>(datagram: &'a [u8], info: &Ipv4Info) -> (payload: &'a [u8])
    requires
        spec_read_datagram(datagram@) == Ok::<Ipv4Info, DatagramError>(*info),
    ensures
        payload@ == payload_of(datagram@),
{
    slice_subrange(datagram, info.header_len, info.total_len as usize)
}

/// Builds the datagram that carries `payload` from `src` to `dst`.
pub fn encode_datagram(src: VirtualIp, dst: VirtualIp, protocol: u8, ttl: u8, payload: &[u8]) -> (out:
    Vec<u8>)
    requires
        payload@.len() <= MAX_PAYLOAD_LEN,
    ensures
        out@ == spec_datagram(src, dst, protocol, ttl, payload@),
{
    let mut out = write_ipv4_header(payload.len() as u16, ttl, protocol, src, dst);
    out.extend_from_slice(payload);
    out
}

/// Copies a datagram with a new time to live, and the checksum to match.
pub fn with_ttl(datagram: &[u8], ttl: u8) -> (out: Vec<u8>)
    requires
        ipv4_parse_ok(datagram@),
    ensures
        out@ == spec_with_ttl(datagram@, ttl),
{
    let header_len = (datagram[0] % 16) as usize * 4;
    let mut header = slice_to_vec(slice_subrange(datagram, 0, header_len));
    header.set(8, ttl);
    header.set(10, 0);
    header.set(11, 0);
    let ghost blank = header@;
    assert(blank == with_checksum(header_of(datagram@).update(8, ttl), 0));
    assert(ipv4_parse_ok(blank));
    let c = compute_ipv4_checksum(header.as_slice());
    header.set(10, (c / 256) as u8);
    header.set(11, (c % 256) as u8);
    assert(header@ == with_checksum(blank, c));
    header.extend_from_slice(slice_subrange(datagram, header_len, datagram.len()));
    assert(datagram@.subrange(header_len as int, datagram@.len() as int) == datagram@.skip(
        header_len as int,
    ));
    header
}

/// What is sent is what is received: a datagram built by `encode_datagram`
/// is accepted by `read_datagram`, which finds in it the addresses, the
/// protocol, the time to live and the payload that it was built from.
pub proof fn lemma_datagram_round_trip(
    src: VirtualIp,
    dst: VirtualIp,
    protocol: u8,
    ttl: u8,
    payload: Seq<u8>,
)
    requires
        payload.len() <= MAX_PAYLOAD_LEN,
    ensures
        spec_read_datagram(spec_datagram(src, dst, protocol, ttl, payload)) is Ok,
        ({
            let info = spec_read_datagram(spec_datagram(src, dst, protocol, ttl, payload))->Ok_0;
            &&& info.source == src
            &&& info.destination == dst
            &&& info.protocol == protocol
            &&& info.ttl == ttl
            &&& info.header_len == 20
            &&& info.total_len == payload.len() + 20
        }),
        payload_of(spec_datagram(src, dst, protocol, ttl, payload)) == payload,
{
    let len = payload.len() as u16;
    let base = ipv4_header_base(len, ttl, protocol, src, dst);
    let c = ipv4_checksum(base);
    let header = with_checksum(base, c);
    let d = spec_datagram(src, dst, protocol, ttl, payload);
    assert(be16(base[2], base[3]) == len + 20);
    assert(ipv4_parse_ok(base));
    lemma_with_checksum(base, c);
    lemma_filled_checksum_ok(base);
    assert(d == header + payload);
    assert(forall|i: int| 0 <= i < 20 ==> d[i] == header[i]);
    assert(ipv4_parse_ok(d));
    assert(ipv4_info(d) == ipv4_info(header));
    assert(header_of(d) =~= header);
    assert(payload_of(d) =~= payload);
}

/// Forwarding changes the time to live and nothing that matters besides: a
/// datagram that was accepted is still accepted after `with_ttl`, with the
/// new time to live, the same addresses, protocol and lengths, and the same
/// payload.
pub proof fn lemma_with_ttl_keeps_datagram(datagram: Seq<u8>, ttl: u8)
    requires
        spec_read_datagram(datagram) is Ok,
    ensures
        spec_read_datagram(spec_with_ttl(datagram, ttl)) is Ok,
        spec_with_ttl(datagram, ttl).len() == datagram.len(),
        ({
            let before = spec_read_datagram(datagram)->Ok_0;
            let after = spec_read_datagram(spec_with_ttl(datagram, ttl))->Ok_0;
            &&& after.ttl == ttl
            &&& after.source == before.source
            &&& after.destination == before.destination
            &&& after.protocol == before.protocol
            &&& after.header_len == before.header_len
            &&& after.total_len == before.total_len
        }),
        payload_of(spec_with_ttl(datagram, ttl)) == payload_of(datagram),
{
    let hl = ipv4_info(datagram).header_len as int;
    let h = header_of(datagram);
    let blank = with_checksum(h.update(8, ttl), 0);
    let c = ipv4_checksum(blank);
    let header = with_checksum(blank, c);
    let out = spec_with_ttl(datagram, ttl);
    assert(ipv4_parse_ok(h.update(8, ttl)));
    lemma_with_checksum(h.update(8, ttl), 0);
    lemma_with_checksum(blank, c);
    lemma_filled_checksum_ok(blank);
    assert(out == header + datagram.skip(hl));
    assert(forall|i: int| 0 <= i < hl ==> out[i] == header[i]);
    assert(ipv4_parse_ok(out));
    assert(ipv4_info(out) == ipv4_info(header));
    assert(header_of(out) =~= header);
    assert(payload_of(out) =~= payload_of(datagram));
}

/// A datagram that is sent on is the datagram that it was, one hop older:
/// giving a fresh datagram another time to live gives the very datagram
/// that would have been built with that time to live, octet for octet. So
/// what a node forwards differs from what was sent in its time to live and
/// in the checksum that goes with it, and in nothing else.
pub proof fn lemma_with_ttl_of_fresh(
    src: VirtualIp,
    dst: VirtualIp,
    protocol: u8,
    ttl: u8,
    payload: Seq<u8>,
    hop: u8,
)
    requires
        payload.len() <= MAX_PAYLOAD_LEN,
    ensures
        spec_with_ttl(spec_datagram(src, dst, protocol, ttl, payload), hop) == spec_datagram(
            src,
            dst,
            protocol,
            hop,
            payload,
        ),
{
    let len = payload.len() as u16;
    let base = ipv4_header_base(len, ttl, protocol, src, dst);
    let header = with_checksum(base, ipv4_checksum(base));
    let d = spec_datagram(src, dst, protocol, ttl, payload);
    lemma_datagram_round_trip(src, dst, protocol, ttl, payload);
    assert(d == header + payload);
    assert(forall|i: int| 0 <= i < 20 ==> d[i] == header[i]);
    assert(header_of(d) =~= header);
    let fresh = ipv4_header_base(len, hop, protocol, src, dst);
    assert(with_checksum(header.update(8, hop), 0) =~= fresh);
    assert(d.skip(20) =~= payload);
}

} // verus!
