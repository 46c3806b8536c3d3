//! Transport segments on the wire. The header is written, read and summed
//! by `etherparse`; this module states what those calls give and builds the
//! segment rules on top of them. Headers carry no options.

use crate::addr::VirtualIp;
use crate::net::ipv4::be16;
use crate::protocol::rip::{be16_bytes, be32, be32_bytes};
use vstd::prelude::*;
use vstd::slice::{slice_subrange, slice_to_vec};

verus! {

/// The largest payload of a segment whose header has 20 octets, such that
/// header and payload together can still be counted in 16 bits.
pub const MAX_TCP_PAYLOAD: usize = 65515;

/// The fields of a segment header that the transport uses.
#[derive(Clone, Copy, Debug, PartialEq, Eq, Structural)]
pub struct SegmentHeader {
    pub source_port: u16,
    pub destination_port: u16,
    pub sequence_number: u32,
    pub acknowledgment_number: u32,
    pub syn: bool,
    pub ack: bool,
    pub fin: bool,
    pub rst: bool,
    pub window_size: u16,
}

/// A segment: header fields and payload.
#[derive(Debug, PartialEq, Eq)]
pub struct TcpMessage {
    pub header: SegmentHeader,
    pub payload: Vec<u8>,
}

/// Why received bytes are not taken as a segment.
#[derive(Clone, Copy, Debug, PartialEq, Eq, Structural)]
pub enum SegmentError {
    /// The bytes do not begin with a well-formed header.
    BadHeader,
    /// The checksum in the header is not the checksum of the segment.
    BadChecksum,
}

/// The octet of control flags: FIN is 1, SYN 2, RST 4, ACK 16.
pub open spec fn flags_octet(h: SegmentHeader) -> u8 {
    ((if h.fin { 1int } else { 0int }) + (if h.syn { 2int } else { 0int })
        + (if h.rst { 4int } else { 0int }) + (if h.ack { 16int } else { 0int })) as u8
}

/// The 20 octets of a header without options, with `checksum` in its field.
pub open spec fn header_bytes(h: SegmentHeader, checksum: u16) -> Seq<u8> {
    be16_bytes(h.source_port) + be16_bytes(h.destination_port) + be32_bytes(h.sequence_number)
        + be32_bytes(h.acknowledgment_number) + seq![0x50u8, flags_octet(h)] + be16_bytes(
        h.window_size,
    ) + be16_bytes(checksum) + seq![0u8, 0u8]
}

/// Whether `b` begins with a well-formed header: at least 20 octets, a data
/// offset of at least 5 words, and as many octets as the data offset says.
pub open spec fn tcp_parse_ok(b: Seq<u8>) -> bool {
    &&& b.len() >= 20
    &&& b[12] / 16 >= 5
    &&& b.len() >= (b[12] / 16) * 4
}

/// The length of the header that `b` begins with.
pub open spec fn tcp_header_len(b: Seq<u8>) -> int {
    (b[12] / 16) * 4
}

/// The fields of the header that `b` begins with.
pub open spec fn tcp_fields(b: Seq<u8>) -> SegmentHeader {
    SegmentHeader {
        source_port: be16(b[0], b[1]) as u16,
        destination_port: be16(b[2], b[3]) as u16,
        sequence_number: be32(b[4], b[5], b[6], b[7]) as u32,
        acknowledgment_number: be32(b[8], b[9], b[10], b[11]) as u32,
        syn: b[13] / 2 % 2 == 1,
        ack: b[13] / 16 % 2 == 1,
        fin: b[13] % 2 == 1,
        rst: b[13] / 4 % 2 == 1,
        window_size: be16(b[14], b[15]) as u16,
    }
}

/// The checksum that `etherparse` computes for a segment with the header
/// `header` (all of its octets) and the payload `payload`, sent from `src`
/// to `dst`: the sum over the pseudo-header, the header and the payload.
/// The checksum field itself does not enter the sum.
pub uninterp spec fn tcp_checksum(
    src: Seq<u8>,
    dst: Seq<u8>,
    header: Seq<u8>,
    payload: Seq<u8>,
) -> u16;

/// `header` with the checksum field set to `c`.
pub open spec fn with_tcp_checksum(header: Seq<u8>, c: u16) -> Seq<u8> {
    header.update(16, (c / 256) as u8).update(17, (c % 256) as u8)
}

/// The bytes of the segment with header `h` and payload `payload`, sent
/// from `src` to `dst`.
pub open spec fn spec_segment(src: VirtualIp, dst: VirtualIp, h: SegmentHeader, payload: Seq<u8>) -> Seq<
    u8,
> {
    let blank = header_bytes(h, 0);
    with_tcp_checksum(blank, tcp_checksum(src.spec_octets(), dst.spec_octets(), blank, payload))
        + payload
}

/// What reading the bytes of a segment gives, received from `src` at `dst`:
/// its header fields, or the first fault.
pub open spec fn spec_read_segment(src: VirtualIp, dst: VirtualIp, b: Seq<u8>) -> Result<
    SegmentHeader,
    SegmentError,
> {
    if !tcp_parse_ok(b) || b.len() > 0xffff {
        Err(SegmentError::BadHeader)
    } else {
        let header = b.subrange(0, tcp_header_len(b));
        let payload = b.skip(tcp_header_len(b));
        if be16(b[16], b[17]) != tcp_checksum(
            src.spec_octets(),
            dst.spec_octets(),
            with_tcp_checksum(header, 0),
            payload,
        ) {
            Err(SegmentError::BadChecksum)
        } else {
            Ok(tcp_fields(b))
        }
    }
}

/// The payload of the segment `b`.
pub open spec fn segment_payload(b: Seq<u8>) -> Seq<u8> {
    b.skip(tcp_header_len(b))
}

/// Writes a header: `etherparse::TcpHeader::new`, the flag and number
/// fields set, then `TcpHeader::write`. The contract gives the 20 octets
/// that `write` puts out: ports, sequence and acknowledgment numbers, a data
/// offset of 5, the flags, the window, the given checksum and no urgent
/// pointer.
#[verifier::external_body]
fn write_tcp_header(h: &SegmentHeader, checksum: u16) -> (bytes: Vec<u8>)
    ensures
        bytes@ == header_bytes(*h, checksum),
{
    let mut bytes = Vec::new();
    let mut t = etherparse::TcpHeader::new(
        h.source_port,
        h.destination_port,
        h.sequence_number,
        h.window_size,
    );
    t.acknowledgment_number = h.acknowledgment_number;
    (t.syn, t.ack, t.fin, t.rst) = (h.syn, h.ack, h.fin, h.rst);
    t.checksum = checksum;
    t.write(&mut bytes).unwrap();
    bytes
}

/// Reads a header: `etherparse::TcpHeaderSlice::from_slice` and its
/// accessors. `from_slice` succeeds exactly on `tcp_parse_ok`; the accessors
/// read the fields at their fixed places. Also gives the header's length.
#[verifier::external_body]
fn read_tcp_header(bytes: &[u8]) -> (r: Option<(SegmentHeader, usize)>)
    ensures
        r == if tcp_parse_ok(bytes@) {
            Some((tcp_fields(bytes@), tcp_header_len(bytes@) as usize))
        } else {
            None
        },
{
    let t = etherparse::TcpHeaderSlice::from_slice(bytes).ok()?;
    let h = SegmentHeader {
        source_port: t.source_port(),
        destination_port: t.destination_port(),
        sequence_number: t.sequence_number(),
        acknowledgment_number: t.acknowledgment_number(),
        syn: t.syn(),
        ack: t.ack(),
        fin: t.fin(),
        rst: t.rst(),
        window_size: t.window_size(),
    };
    Some((h, t.slice().len()))
}

/// Computes the checksum of a segment:
/// `etherparse::TcpHeaderSlice::calc_checksum_ipv4_raw`. `header` is exactly
/// the header. The call fails where header and payload together are longer
/// than 65535 octets, which `requires` leaves out.
#[verifier::external_body]
fn compute_tcp_checksum(header: &[u8], src: [u8; 4], dst: [u8; 4], payload: &[u8]) -> (c: u16)
    requires
        tcp_parse_ok(header@),
        header@.len() == tcp_header_len(header@),
        header@.len() + payload@.len() <= 0xffff,
    ensures
        c == tcp_checksum(src@, dst@, header@, payload@),
{
    let t = etherparse::TcpHeaderSlice::from_slice(header).unwrap();
    t.calc_checksum_ipv4_raw(src, dst, payload).unwrap()
}

/// The header written for `h` is well-formed and reads back as `h`.
pub proof fn lemma_header_bytes(h: SegmentHeader, c: u16)
    ensures
        header_bytes(h, c).len() == 20,
        tcp_parse_ok(header_bytes(h, c)),
        tcp_header_len(header_bytes(h, c)) == 20,
        tcp_fields(header_bytes(h, c)) == h,
        be16(header_bytes(h, c)[16], header_bytes(h, c)[17]) == c,
        with_tcp_checksum(header_bytes(h, 0), c) == header_bytes(h, c),
        with_tcp_checksum(header_bytes(h, c), 0) == header_bytes(h, 0),
{
    let b = header_bytes(h, c);
    assert(b.len() == 20);
    assert(b[12] == 0x50u8);
    assert(b[13] == flags_octet(h));
    assert(b[0] == be16_bytes(h.source_port)[0] && b[1] == be16_bytes(h.source_port)[1]);
    assert(b[2] == be16_bytes(h.destination_port)[0] && b[3] == be16_bytes(
        h.destination_port,
    )[1]);
    assert(b[4] == be32_bytes(h.sequence_number)[0] && b[5] == be32_bytes(h.sequence_number)[1]
        && b[6] == be32_bytes(h.sequence_number)[2] && b[7] == be32_bytes(h.sequence_number)[3]);
    assert(b[8] == be32_bytes(h.acknowledgment_number)[0] && b[9] == be32_bytes(
        h.acknowledgment_number,
    )[1] && b[10] == be32_bytes(h.acknowledgment_number)[2] && b[11] == be32_bytes(
        h.acknowledgment_number,
    )[3]);
    assert(b[14] == be16_bytes(h.window_size)[0] && b[15] == be16_bytes(h.window_size)[1]);
    assert(b[16] == be16_bytes(c)[0] && b[17] == be16_bytes(c)[1]);
    assert(with_tcp_checksum(header_bytes(h, 0), c) =~= header_bytes(h, c));
    assert(with_tcp_checksum(header_bytes(h, c), 0) =~= header_bytes(h, 0));
}

/// Builds the bytes of a segment, checksum included.
pub fn encode_segment(src: VirtualIp, dst: VirtualIp, h: &SegmentHeader, payload: &[u8]) -> (out:
    Vec<u8>)
    requires
        payload@.len() <= MAX_TCP_PAYLOAD,
    ensures
        out@ == spec_segment(src, dst, *h, payload@),
{
    let mut out = write_tcp_header(h, 0);
    proof {
        lemma_header_bytes(*h, 0);
    }
    let c = compute_tcp_checksum(out.as_slice(), src.octets(), dst.octets(), payload);
    out.set(16, (c / 256) as u8);
    out.set(17, (c % 256) as u8);
    out.extend_from_slice(payload);
    out
}

/// Reads the bytes of a segment received from `src` at `dst` and checks the
/// checksum. On success the payload is what follows the header.
pub fn read_segment(src: VirtualIp, dst: VirtualIp, bytes: &[u8]) -> (r: Result<
    (SegmentHeader, usize),
    SegmentError,
>)
    ensures
        match r {
            Ok((h, header_len)) => spec_read_segment(src, dst, bytes@) == Ok::<
                SegmentHeader,
                SegmentError,
            >(h) && header_len == tcp_header_len(bytes@) && header_len <= bytes@.len(),
            Err(e) => spec_read_segment(src, dst, bytes@) == Err::<SegmentHeader, SegmentError>(e),
        },
{
    if bytes.len() > 0xffff {
        return Err(SegmentError::BadHeader);
    }
    let (h, header_len) = match read_tcp_header(bytes) {
        Some(r) => r,
        None => {
            return Err(SegmentError::BadHeader);
        },
    };
    let stored: u16 = bytes[16] as u16 * 256 + bytes[17] as u16;
    let mut header = slice_to_vec(slice_subrange(bytes, 0, header_len));
    header.set(16, 0);
    header.set(17, 0);
    let payload = slice_subrange(bytes, header_len, bytes.len());
    assert(payload@ == bytes@.skip(header_len as int));
    assert(header@ == with_tcp_checksum(bytes@.subrange(0, header_len as int), 0));
    let computed = compute_tcp_checksum(header.as_slice(), src.octets(), dst.octets(), payload);
    if computed != stored {
        return Err(SegmentError::BadChecksum);
    }
    Ok((h, header_len))
}

/// What is sent is what is received: the bytes built by `encode_segment`
/// are accepted by `read_segment` between the same two addresses, which
/// finds in them the header fields and the payload that they were built
/// from.
pub proof fn lemma_segment_round_trip(
    src: VirtualIp,
    dst: VirtualIp,
    h: SegmentHeader,
    payload: Seq<u8>,
)
    requires
        payload.len() <= MAX_TCP_PAYLOAD,
    ensures
        spec_read_segment(src, dst, spec_segment(src, dst, h, payload)) == Ok::<
            SegmentHeader,
            SegmentError,
        >(h),
        segment_payload(spec_segment(src, dst, h, payload)) == payload,
{
    let blank = header_bytes(h, 0);
    let c = tcp_checksum(src.spec_octets(), dst.spec_octets(), blank, payload);
    let b = spec_segment(src, dst, h, payload);
    lemma_header_bytes(h, 0);
    lemma_header_bytes(h, c);
    assert(b == header_bytes(h, c) + payload);
    assert(forall|i: int| 0 <= i < 20 ==> b[i] == header_bytes(h, c)[i]);
    assert(tcp_parse_ok(b));
    assert(tcp_fields(b) == tcp_fields(header_bytes(h, c)));
    assert(b.subrange(0, 20) =~= header_bytes(h, c));
    assert(b.skip(20) =~= payload);
}

} // verus!
