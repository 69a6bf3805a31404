//! IPv4: the header, its validation on input, and registration with the stack.

use vstd::prelude::*;

use bincode::error::DecodeError;

use crate::net::{net_protocol_register, spec_protocol_registered, NetProtocol, NetProtocolHandler, NET_PROTOCOL_TYPE_IP};
use crate::util::{
    cksum16, lemma_bytes_sum_bound, lemma_cksum16_verifies, lemma_cksum16_zero_any_order, spec_cksum16,
    word16,
};

verus! {

pub const IP_VERSION_IPV4: u8 = 4;

pub const IP_HDR_SIZE_MIN: usize = 20;

pub const IP_HDR_SIZE_MAX: usize = 60;

pub const IP_HDR_FLAG_MF: u16 = 0x2000;

pub const IP_HDR_FLAG_DF: u16 = 0x4000;

pub const IP_HDR_FLAG_RF: u16 = 0x8000;

#[verifier::external_type_specification]
#[verifier::external_body]
pub struct ExDecodeError(DecodeError);

/// The fields of an IPv4 header as they stand on the wire.
pub struct IPHeaderFields {
    pub vhl: u8,
    pub tos: u8,
    pub total: u16,
    pub id: u16,
    pub offset: u16,
    pub ttl: u8,
    pub protocol: u8,
    pub sum: u16,
    pub src: u32,
    pub dst: u32,
}

/// An IPv4 header.
pub struct IPHeader {
    vhl: u8,
    tos: u8,
    total: u16,
    id: u16,
    offset: u16,
    ttl: u8,
    protocol: u8,
    sum: u16,
    src: u32,
    dst: u32,
}

impl View for IPHeader {
    type V = IPHeaderFields;

    closed spec fn view(&self) -> IPHeaderFields {
        IPHeaderFields {
            vhl: self.vhl,
            tos: self.tos,
            total: self.total,
            id: self.id,
            offset: self.offset,
            ttl: self.ttl,
            protocol: self.protocol,
            sum: self.sum,
            src: self.src,
            dst: self.dst,
        }
    }
}

/// Two bytes read as a big-endian 16-bit number.
pub open spec fn be16(s: Seq<u8>, i: int) -> u16 {
    (s[i] * 0x100 + s[i + 1]) as u16
}

/// Four bytes read as a big-endian 32-bit number.
pub open spec fn be32(s: Seq<u8>, i: int) -> u32 {
    (s[i] * 0x1000000 + s[i + 1] * 0x10000 + s[i + 2] * 0x100 + s[i + 3]) as u32
}

/// The header fields that the first 20 bytes of `s` encode, multi-byte fields
/// in network (big-endian) order.
pub open spec fn spec_header_fields(s: Seq<u8>) -> IPHeaderFields {
    IPHeaderFields {
        vhl: s[0],
        tos: s[1],
        total: be16(s, 2),
        id: be16(s, 4),
        offset: be16(s, 6),
        ttl: s[8],
        protocol: s[9],
        sum: be16(s, 10),
        src: be32(s, 12),
        dst: be32(s, 16),
    }
}

/// The header fields in the order of a header on the wire.
pub open spec fn fields_tuple(h: IPHeaderFields) -> (u8, u8, u16, u16, u16, u8, u8, u16, u32, u32) {
    (h.vhl, h.tos, h.total, h.id, h.offset, h.ttl, h.protocol, h.sum, h.src, h.dst)
}

/// `bincode::decode_from_slice` of the ten header fields, with the standard
/// configuration set to big-endian, fixed-size integers: it succeeds exactly
/// when there are at least 20 bytes, reads 20 of them, and yields each field
/// read in big-endian order from its place in the header.
#[verifier::external_body]
fn decode_header_fields(data: &[u8]) -> (r: Result<
    ((u8, u8, u16, u16, u16, u8, u8, u16, u32, u32), usize),
    DecodeError,
>)
    ensures
        data@.len() >= 20 <==> r is Ok,
        r matches Ok((f, n)) ==> n == 20 && f == fields_tuple(spec_header_fields(data@)),
{
    bincode::decode_from_slice(
        data,
        bincode::config::standard().with_big_endian().with_fixed_int_encoding(),
    )
}

/// Why an incoming IPv4 packet is dropped.
#[derive(PartialEq, Eq, Structural, Debug)]
pub enum IpInputError {
    /// Shorter than the smallest header.
    TooShort,
    /// The header could not be decoded.
    Decode,
    /// Not IPv4.
    Version,
    /// Shorter than the header says the header is.
    HeaderLength,
    /// The header checksum does not verify.
    Checksum,
    /// Shorter than the total length the header gives.
    TotalLength,
    /// A fragment, which is not supported.
    Fragment,
}

/// Decodes the fixed part of an IPv4 header from the start of `data`.
pub fn ip_header_decode(data: &[u8]) -> (r: Result<IPHeader, IpInputError>)
    ensures
        r is Ok <==> data@.len() >= 20,
        r matches Ok(h) ==> h@ == spec_header_fields(data@),
        r matches Err(e) ==> e == IpInputError::Decode,
{
    match decode_header_fields(data) {
        Ok((f, _len)) => {
            let h = IPHeader {
                vhl: f.0,
                tos: f.1,
                total: f.2,
                id: f.3,
                offset: f.4,
                ttl: f.5,
                protocol: f.6,
                sum: f.7,
                src: f.8,
                dst: f.9,
            };
            Ok(h)
        },
        Err(_e) => Err(IpInputError::Decode),
    }
}

/// Length of the header in bytes, as its header-length field gives it.
pub open spec fn spec_header_length(h: IPHeaderFields) -> nat {
    4 * (h.vhl % 16) as nat
}

/// The IPv4 header checksum over `s` verifies. For data of even length (an
/// IPv4 header always is) this does not depend on the byte order of the
/// machine: see `lemma_cksum16_zero_any_order`.
pub open spec fn spec_cksum_verifies(s: Seq<u8>) -> bool {
    spec_cksum16(s, 0, true) == 0
}

/// What validating an incoming packet gives: its header when it is accepted,
/// and otherwise the first check that fails, in this order.
pub open spec fn spec_ip_input(s: Seq<u8>) -> Result<IPHeaderFields, IpInputError> {
    if s.len() < IP_HDR_SIZE_MIN {
        Err(IpInputError::TooShort)
    } else {
        let h = spec_header_fields(s);
        let hlen = spec_header_length(h);
        if h.vhl / 16 != IP_VERSION_IPV4 {
            Err(IpInputError::Version)
        } else if s.len() < hlen {
            Err(IpInputError::HeaderLength)
        } else if !spec_cksum_verifies(s.take(hlen as int)) {
            Err(IpInputError::Checksum)
        } else if s.len() < h.total {
            Err(IpInputError::TotalLength)
        } else if h.offset & IP_HDR_FLAG_MF != 0 || h.offset % 0x2000 != 0 {
            Err(IpInputError::Fragment)
        } else {
            Ok(h)
        }
    }
}

impl IPHeader {
    pub fn version(&self) -> (r: u8)
        ensures
            r == self@.vhl / 16,
    {
        let v: u8 = self.vhl;
        assert(v >> 4 == v / 16) by (bit_vector);
        self.vhl >> 4
    }

    pub fn header_length(&self) -> (r: u8)
        ensures
            r == spec_header_length(self@),
    {
        let v: u8 = self.vhl;
        assert((v & 0xF) << 2 == 4 * (v % 16)) by (bit_vector);
        (self.vhl & 0xF) << 2
    }

    pub fn type_of_service(&self) -> (r: u8)
        ensures
            r == self@.tos,
    {
        self.tos
    }

    pub fn total_length(&self) -> (r: u16)
        ensures
            r == self@.total,
    {
        self.total
    }

    pub fn id(&self) -> (r: u16)
        ensures
            r == self@.id,
    {
        self.id
    }

    pub fn flags(&self) -> (r: u8)
        ensures
            r == self@.offset / 0x2000,
    {
        let o: u16 = self.offset;
        assert(o >> 13 == o / 0x2000 && o >> 13 < 8) by (bit_vector);
        (self.offset >> 13) as u8
    }

    pub fn fragment_offset(&self) -> (r: u16)
        ensures
            r == self@.offset % 0x2000,
    {
        let o: u16 = self.offset;
        assert(o & 0x1FFF == o % 0x2000) by (bit_vector);
        self.offset & 0x1FFF
    }

    pub fn ttl(&self) -> (r: u8)
        ensures
            r == self@.ttl,
    {
        self.ttl
    }

    pub fn protocol(&self) -> (r: u8)
        ensures
            r == self@.protocol,
    {
        self.protocol
    }

    pub fn checksum(&self) -> (r: u16)
        ensures
            r == self@.sum,
    {
        self.sum
    }

    /// The source address, as the 32-bit number whose big-endian bytes it is.
    pub fn source_address(&self) -> (r: u32)
        ensures
            r == self@.src,
    {
        self.src
    }

    /// The destination address, as the 32-bit number whose big-endian bytes it is.
    pub fn destination_address(&self) -> (r: u32)
        ensures
            r == self@.dst,
    {
        self.dst
    }
}

/// Validates an incoming IPv4 packet; returns its header when it is accepted.
pub fn ip_input(data: &[u8]) -> (r: Result<IPHeader, IpInputError>)
    ensures
        r matches Ok(h) ==> spec_ip_input(data@) == Ok::<IPHeaderFields, IpInputError>(h@),
        r matches Err(e) ==> spec_ip_input(data@) == Err::<IPHeaderFields, IpInputError>(e),
{
    if data.len() < IP_HDR_SIZE_MIN {
        return Err(IpInputError::TooShort);
    }
    let header: IPHeader = match ip_header_decode(data) {
        Ok(h) => h,
        Err(e) => return Err(e),
    };
    if header.version() != IP_VERSION_IPV4 {
        return Err(IpInputError::Version);
    }
    let hlen: usize = header.header_length() as usize;
    if data.len() < hlen {
        return Err(IpInputError::HeaderLength);
    }
    let head: &[u8] = &data[0..hlen];
    proof {
        lemma_bytes_sum_bound(head@, true);
        lemma_bytes_sum_bound(head@, false);
        lemma_cksum16_zero_any_order(head@);
        assert(head@ == data@.take(hlen as int));
    }
    if cksum16(head, 0) != 0 {
        return Err(IpInputError::Checksum);
    }
    if data.len() < header.total_length() as usize {
        return Err(IpInputError::TotalLength);
    }
    if header.offset & IP_HDR_FLAG_MF != 0 || header.fragment_offset() != 0 {
        return Err(IpInputError::Fragment);
    }
    Ok(header)
}

/// The flags-and-offset field, from its two bytes, is free of both the
/// more-fragments bit and any fragment offset exactly when its low 14 bits
/// are zero.
proof fn lemma_not_fragment_bytes(b6: u8, b7: u8, o: u16)
    by (bit_vector)
    requires
        o == (b6 as u16) * 256 + (b7 as u16),
    ensures
        (o & 0x2000 == 0 && o % 0x2000 == 0) <==> (b6 % 64 == 0 && b7 == 0),
{
}

/// What an incoming packet must be to be accepted, read straight from its
/// bytes: at least 20 bytes; version nibble 4; the header length (4 times the
/// low nibble of byte 0) within the packet, with a header checksum that
/// verifies (in either byte order); no shorter than the 16-bit big-endian
/// total length in bytes 2 and 3; and neither the more-fragments bit nor any
/// of the 13 fragment-offset bits set in bytes 6 and 7.
pub open spec fn accepted_by_bytes(s: Seq<u8>) -> bool {
    &&& s.len() >= 20
    &&& s[0] / 16 == 4
    &&& 4 * (s[0] % 16) <= s.len()
    &&& spec_cksum16(s.take(4 * (s[0] % 16)), 0, true) == 0
    &&& spec_cksum16(s.take(4 * (s[0] % 16)), 0, false) == 0
    &&& s.len() >= 256 * s[2] + s[3]
    &&& s[6] % 64 == 0
    &&& s[7] == 0
}

/// Law of IPv4 input: a packet is accepted exactly when its bytes pass every
/// check, and then its header is what its first 20 bytes encode. In
/// particular an accepted packet holds all the bytes its total length gives,
/// and is not a fragment.
pub proof fn lemma_ip_input_accepts_exactly(s: Seq<u8>)
    ensures
        spec_ip_input(s) is Ok <==> accepted_by_bytes(s),
        spec_ip_input(s) is Ok ==> spec_ip_input(s) == Ok::<IPHeaderFields, IpInputError>(
            spec_header_fields(s),
        ),
{
    if s.len() >= 20 {
        let h = spec_header_fields(s);
        let hlen: int = 4 * (s[0] % 16);
        assert(h.total == 256 * s[2] + s[3]);
        assert(h.offset == 256 * s[6] + s[7]);
        lemma_not_fragment_bytes(s[6], s[7], h.offset);
        if 0 <= hlen <= s.len() {
            lemma_cksum16_zero_any_order(s.take(hlen));
        }
    }
}

/// Law of IPv4 input: a packet that passes the length, version, header-length
/// and checksum checks but is shorter than the 16-bit total length in its
/// bytes 2 and 3 is dropped for its total length.
pub proof fn lemma_ip_input_short_of_total(s: Seq<u8>)
    requires
        s.len() >= 20,
        s[0] / 16 == 4,
        4 * (s[0] % 16) <= s.len(),
        spec_cksum16(s.take(4 * (s[0] % 16)), 0, true) == 0,
        s.len() < 256 * s[2] + s[3],
    ensures
        spec_ip_input(s) == Err::<IPHeaderFields, IpInputError>(IpInputError::TotalLength),
{
    assert(spec_header_fields(s).total == 256 * s[2] + s[3]);
}

/// Law of IPv4 input: a packet that passes every other check but has the
/// more-fragments bit or any fragment-offset bit set in its bytes 6 and 7 is
/// dropped as a fragment.
pub proof fn lemma_ip_input_fragment_rejected(s: Seq<u8>)
    requires
        s.len() >= 20,
        s[0] / 16 == 4,
        4 * (s[0] % 16) <= s.len(),
        spec_cksum16(s.take(4 * (s[0] % 16)), 0, true) == 0,
        s.len() >= 256 * s[2] + s[3],
        !(s[6] % 64 == 0 && s[7] == 0),
    ensures
        spec_ip_input(s) == Err::<IPHeaderFields, IpInputError>(IpInputError::Fragment),
{
    let h = spec_header_fields(s);
    assert(h.total == 256 * s[2] + s[3]);
    assert(h.offset == 256 * s[6] + s[7]);
    lemma_not_fragment_bytes(s[6], s[7], h.offset);
}

/// Law of IPv4 input: a header that passes every other check and whose
/// checksum field holds the checksum computed over the header with that field
/// zeroed (written in the byte order it was computed in) is accepted.
pub proof fn lemma_ip_input_accepts_checksummed(s: Seq<u8>, t: Seq<u8>, little: bool)
    requires
        t.len() >= IP_HDR_SIZE_MIN,
        s.len() == t.len(),
        s[10] == 0,
        s[11] == 0,
        forall|j: int| 0 <= j < t.len() && j != 10 && j != 11 ==> s[j] == t[j],
        spec_header_fields(t).vhl / 16 == IP_VERSION_IPV4,
        IP_HDR_SIZE_MIN <= spec_header_length(spec_header_fields(t)) <= t.len(),
        spec_header_fields(t).total <= t.len(),
        spec_header_fields(t).offset & IP_HDR_FLAG_MF == 0,
        spec_header_fields(t).offset % 0x2000 == 0,
        word16(t[10], t[11], little) == spec_cksum16(
            s.take(spec_header_length(spec_header_fields(t)) as int),
            0,
            little,
        ),
    ensures
        spec_ip_input(t) == Ok::<IPHeaderFields, IpInputError>(spec_header_fields(t)),
{
    let hlen: int = spec_header_length(spec_header_fields(t)) as int;
    let sh = s.take(hlen);
    let th = t.take(hlen);
    assert forall|j: int| 0 <= j < sh.len() && j != 10 && j != 11 implies th[j] == sh[j] by {
        assert(s[j] == t[j]);
    }
    lemma_cksum16_verifies(sh, th, 10, little);
    lemma_cksum16_zero_any_order(th);
}

/// Registers IPv4 with the stack's protocols.
pub fn ip_init(protocols: &mut Vec<NetProtocol>) -> (r: i32)
    ensures
        spec_protocol_registered(old(protocols)@, NET_PROTOCOL_TYPE_IP) ==> r == -1 && final(protocols)@
            == old(protocols)@,
        !spec_protocol_registered(old(protocols)@, NET_PROTOCOL_TYPE_IP) ==> r == 0 && final(protocols)@
            == old(protocols)@.push(NetProtocol { protocol_type: NET_PROTOCOL_TYPE_IP, handler: NetProtocolHandler::Ip }),
{
    let ret: i32 = net_protocol_register(protocols, NET_PROTOCOL_TYPE_IP, NetProtocolHandler::Ip);
    if ret == -1 {
        return -1;
    }
    ret
}

} // verus!
