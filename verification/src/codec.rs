//! The packet codec: parses a captured buffer into IPv4/TCP header views by
//! explicit byte offsets, and re-serializes a header, option bytes and
//! payload into a fresh TCP segment with a recomputed checksum.

use crate::checksum::{
    be16_bytes, be32_bytes, compute_of, extend_bytes, push_be16, push_be32, tcp_checksum,
    tcp_checksum_of,
};
use crate::errors::ProxyError;
use vstd::arithmetic::div_mod::{
    lemma_fundamental_div_mod, lemma_fundamental_div_mod_converse_div,
    lemma_fundamental_div_mod_converse_mod,
};
use vstd::pervasive::VecAdditionalExecFns;
use vstd::prelude::*;
use vstd::slice::{slice_subrange, slice_to_vec};

verus! {

/// Non-owning interpretation of the leading IPv4 header: the fields the
/// proxy reads, as plain values.
#[derive(Clone, Copy, PartialEq, Eq, Structural, Debug)]
pub struct Ipv4HeaderView {
    /// IP version nibble (high half of byte 0).
    pub version: u8,
    /// Header length in 4-byte words (low half of byte 0).
    pub header_len: u8,
    /// Declared total length of the IP packet.
    pub total_len: u16,
    /// Protocol number of the embedded transport segment.
    pub protocol: u8,
    /// Source address as a big-endian 32-bit value.
    pub source: u32,
    /// Destination address as a big-endian 32-bit value.
    pub dest: u32,
}

/// The mathematical model of a parsed TCP header: fixed fields as plain
/// values, options and payload as byte sequences.
#[verifier::ext_equal]
pub struct TcpHeaderModel {
    pub source_port: u16,
    pub dest_port: u16,
    pub seq_num: u32,
    pub ack_num: u32,
    pub data_offset: u8,
    pub reserved: u8,
    pub flags: u8,
    pub window: u16,
    pub checksum: u16,
    pub urgent: u16,
    pub options: Seq<u8>,
    pub payload: Seq<u8>,
}

/// Interpretation of the bytes following the IP header as a TCP header:
/// fixed fields, option bytes, and the remaining payload.
#[derive(Debug)]
pub struct TcpHeaderView {
    /// Source port.
    pub source_port: u16,
    /// Destination port.
    pub dest_port: u16,
    /// Sequence number.
    pub seq_num: u32,
    /// Acknowledgment number.
    pub ack_num: u32,
    /// Header length in 4-byte words (range 5 to 15).
    pub data_offset: u8,
    /// Reserved nibble sharing a byte with the data offset.
    pub reserved: u8,
    /// Flag bits.
    pub flags: u8,
    /// Window size.
    pub window: u16,
    /// Stored checksum.
    pub checksum: u16,
    /// Urgent pointer.
    pub urgent: u16,
    /// Option bytes (data-offset times 4, minus 20 bytes of them).
    pub options: Vec<u8>,
    /// Everything after the TCP header.
    pub payload: Vec<u8>,
}

impl View for TcpHeaderView {
    type V = TcpHeaderModel;

    open spec fn view(&self) -> TcpHeaderModel {
        TcpHeaderModel {
            source_port: self.source_port,
            dest_port: self.dest_port,
            seq_num: self.seq_num,
            ack_num: self.ack_num,
            data_offset: self.data_offset,
            reserved: self.reserved,
            flags: self.flags,
            window: self.window,
            checksum: self.checksum,
            urgent: self.urgent,
            options: self.options@,
            payload: self.payload@,
        }
    }
}

/// The big-endian 16-bit value at offset `i`.
pub open spec fn be16_at(b: Seq<u8>, i: int) -> u16 {
    ((b[i] as int) * 256 + (b[i + 1] as int)) as u16
}

/// The big-endian 32-bit value at offset `i`.
pub open spec fn be32_at(b: Seq<u8>, i: int) -> u32 {
    ((b[i] as int) * 0x1000000 + (b[i + 1] as int) * 0x10000 + (b[i + 2] as int) * 256 + (b[i
        + 3] as int)) as u32
}

/// The declared IP header length in 4-byte words: the low nibble of byte 0.
pub open spec fn ip_header_words(b: Seq<u8>) -> int {
    (b[0] as int) % 16
}

/// The byte offset at which the TCP header starts.
pub open spec fn tcp_offset(b: Seq<u8>) -> int {
    ip_header_words(b) * 4
}

/// The declared TCP header length in 4-byte words: the high nibble of the
/// byte at offset 12 of the TCP header.
pub open spec fn tcp_data_words(b: Seq<u8>) -> int {
    (b[tcp_offset(b) + 12] as int) / 16
}

/// When a buffer parses: it holds a full 20-byte IP header, the declared
/// IP header length is at least 20 bytes and leaves room for a 20-byte TCP
/// header, and the declared TCP header length fits in the buffer.
pub open spec fn decode_ok(b: Seq<u8>) -> bool {
    &&& b.len() >= 20
    &&& ip_header_words(b) >= 5
    &&& tcp_offset(b) + 20 <= b.len()
    &&& tcp_data_words(b) >= 5
    &&& tcp_offset(b) + tcp_data_words(b) * 4 <= b.len()
}

/// The IPv4 view a successful parse yields.
pub open spec fn ip_view_of(b: Seq<u8>) -> Ipv4HeaderView {
    Ipv4HeaderView {
        version: ((b[0] as int) / 16) as u8,
        header_len: ((b[0] as int) % 16) as u8,
        total_len: be16_at(b, 2),
        protocol: b[9],
        source: be32_at(b, 12),
        dest: be32_at(b, 16),
    }
}

/// The TCP model a successful parse yields.
pub open spec fn tcp_model_of(b: Seq<u8>) -> TcpHeaderModel {
    let off = tcp_offset(b);
    TcpHeaderModel {
        source_port: be16_at(b, off),
        dest_port: be16_at(b, off + 2),
        seq_num: be32_at(b, off + 4),
        ack_num: be32_at(b, off + 8),
        data_offset: ((b[off + 12] as int) / 16) as u8,
        reserved: ((b[off + 12] as int) % 16) as u8,
        flags: b[off + 13],
        window: be16_at(b, off + 14),
        checksum: be16_at(b, off + 16),
        urgent: be16_at(b, off + 18),
        options: b.subrange(off + 20, off + tcp_data_words(b) * 4),
        payload: b.subrange(off + tcp_data_words(b) * 4, b.len() as int),
    }
}

/// Reads the big-endian 16-bit value at offset `i`.
pub fn read_be16(b: &[u8], i: usize) -> (r: u16)
    requires
        i + 2 <= b@.len(),
    ensures
        r == be16_at(b@, i as int),
{
    (b[i] as u16) * 256 + (b[i + 1] as u16)
}

/// Reads the big-endian 32-bit value at offset `i`.
pub fn read_be32(b: &[u8], i: usize) -> (r: u32)
    requires
        i + 4 <= b@.len(),
    ensures
        r == be32_at(b@, i as int),
{
    (b[i] as u32) * 0x1000000 + (b[i + 1] as u32) * 0x10000 + (b[i + 2] as u32) * 256 + (b[i
        + 3] as u32)
}

/// Parses a buffer into IPv4 and TCP header views. Fails with `ParseError`
/// when the buffer is shorter than 20 bytes, the declared IP header length
/// is inconsistent with the buffer, or the TCP header offset plus the
/// declared TCP header length exceeds the buffer length.
pub fn decode(buffer: &[u8]) -> (r: Result<(Ipv4HeaderView, TcpHeaderView), ProxyError>)
    ensures
        r is Ok <==> decode_ok(buffer@),
        r is Ok ==> r->Ok_0.0 == ip_view_of(buffer@) && r->Ok_0.1@ == tcp_model_of(buffer@),
        r is Err ==> r->Err_0 == ProxyError::ParseError,
{
    if buffer.len() < 20 {
        return Err(ProxyError::ParseError);
    }
    let ihl = buffer[0] % 16;
    if ihl < 5 {
        return Err(ProxyError::ParseError);
    }
    let off = (ihl as usize) * 4;
    if off + 20 > buffer.len() {
        return Err(ProxyError::ParseError);
    }
    let mixed = buffer[off + 12];
    let doff = mixed / 16;
    if doff < 5 {
        return Err(ProxyError::ParseError);
    }
    let hdr_end = off + (doff as usize) * 4;
    if hdr_end > buffer.len() {
        return Err(ProxyError::ParseError);
    }
    let ip = Ipv4HeaderView {
        version: buffer[0] / 16,
        header_len: ihl,
        total_len: read_be16(buffer, 2),
        protocol: buffer[9],
        source: read_be32(buffer, 12),
        dest: read_be32(buffer, 16),
    };
    let options = slice_to_vec(slice_subrange(buffer, off + 20, hdr_end));
    let payload = slice_to_vec(slice_subrange(buffer, hdr_end, buffer.len()));
    let tcp = TcpHeaderView {
        source_port: read_be16(buffer, off),
        dest_port: read_be16(buffer, off + 2),
        seq_num: read_be32(buffer, off + 4),
        ack_num: read_be32(buffer, off + 8),
        data_offset: doff,
        reserved: mixed % 16,
        flags: buffer[off + 13],
        window: read_be16(buffer, off + 14),
        checksum: read_be16(buffer, off + 16),
        urgent: read_be16(buffer, off + 18),
        options,
        payload,
    };
    proof {
        assert(tcp@ =~= tcp_model_of(buffer@));
    }
    Ok((ip, tcp))
}

/// The 20 fixed TCP header bytes serialized from a model, with the given
/// data offset and checksum in place of the model's own.
pub open spec fn tcp_header_bytes(t: TcpHeaderModel, doff: u8, csum: u16) -> Seq<u8> {
    be16_bytes(t.source_port) + be16_bytes(t.dest_port) + be32_bytes(t.seq_num) + be32_bytes(
        t.ack_num,
    ) + seq![((doff as int) * 16 + (t.reserved as int)) as u8, t.flags] + be16_bytes(t.window)
        + be16_bytes(csum) + be16_bytes(t.urgent)
}

/// The data offset that fits the given option bytes.
pub open spec fn encode_doff(opts: Seq<u8>) -> u8 {
    ((20 + opts.len() as int) / 4) as u8
}

/// What a successful encode returns: the fixed header with the recomputed
/// data offset, the option bytes, the payload, and the checksum computed
/// over the same bytes with a zeroed checksum field.
pub open spec fn encode_bytes(
    ip: Ipv4HeaderView,
    t: TcpHeaderModel,
    opts: Seq<u8>,
    payload: Seq<u8>,
) -> Seq<u8> {
    let doff = encode_doff(opts);
    let zeroed = tcp_header_bytes(t, doff, 0) + opts + payload;
    let csum = compute_of(ip.source, ip.dest, 6, zeroed);
    tcp_header_bytes(t, doff, csum) + opts + payload
}

/// Serializes a TCP segment: the fixed header fields of `tcp`, then
/// `option_bytes`, then `payload`, with data offset `(20 + options) / 4`
/// and a checksum freshly computed over the assembled segment (checksum
/// field zeroed during summation) using the addresses of `ip`. Fails with
/// `EncodeError` when the header would exceed 60 bytes.
pub fn encode(
    ip: &Ipv4HeaderView,
    tcp: &TcpHeaderView,
    option_bytes: &[u8],
    payload: &[u8],
) -> (r: Result<Vec<u8>, ProxyError>)
    requires
        option_bytes@.len() % 4 == 0,
        tcp.reserved < 16,
        20 + option_bytes@.len() + payload@.len() <= 0xFFFF,
    ensures
        r is Ok <==> 20 + option_bytes@.len() <= 60,
        r is Ok ==> r->Ok_0@ == encode_bytes(*ip, tcp@, option_bytes@, payload@),
        r is Err ==> r->Err_0 == ProxyError::EncodeError,
{
    if option_bytes.len() > 40 {
        return Err(ProxyError::EncodeError);
    }
    let doff: u8 = ((20 + option_bytes.len()) / 4) as u8;
    let mut buf: Vec<u8> = Vec::new();
    push_be16(&mut buf, tcp.source_port);
    push_be16(&mut buf, tcp.dest_port);
    push_be32(&mut buf, tcp.seq_num);
    push_be32(&mut buf, tcp.ack_num);
    buf.push(doff * 16 + tcp.reserved);
    buf.push(tcp.flags);
    push_be16(&mut buf, tcp.window);
    push_be16(&mut buf, 0);
    push_be16(&mut buf, tcp.urgent);
    proof {
        assert(buf@ =~= tcp_header_bytes(tcp@, doff, 0));
    }
    extend_bytes(&mut buf, option_bytes);
    extend_bytes(&mut buf, payload);
    proof {
        assert(buf@ =~= tcp_header_bytes(tcp@, doff, 0) + option_bytes@ + payload@);
    }
    let csum = tcp_checksum(ip.source, ip.dest, buf.as_slice());
    buf.set(16, (csum / 256) as u8);
    buf.set(17, (csum % 256) as u8);
    proof {
        assert(buf@ =~= tcp_header_bytes(tcp@, doff, csum) + option_bytes@ + payload@);
    }
    Ok(buf)
}

/// The TCP segment embedded in a parsed buffer: everything after the IP
/// header.
pub open spec fn tcp_segment_of(b: Seq<u8>) -> Seq<u8> {
    b.skip(tcp_offset(b))
}

/// The embedded TCP segment with its checksum field zeroed, as checksum
/// computation sees it.
pub open spec fn zeroed_segment_of(b: Seq<u8>) -> Seq<u8> {
    tcp_segment_of(b).update(16, 0u8).update(17, 0u8)
}

/// Whether the stored TCP checksum of a parsed buffer equals the checksum
/// freshly computed over its zeroed segment and embedded addresses.
pub open spec fn checksum_valid(b: Seq<u8>) -> bool {
    be16_at(b, tcp_offset(b) + 16) == tcp_checksum_of(
        ip_view_of(b).source,
        ip_view_of(b).dest,
        zeroed_segment_of(b),
    )
}

/// The big-endian byte pair of the 16-bit value at offset `i` is exactly
/// the two bytes there.
proof fn lemma_be16_at_bytes(b: Seq<u8>, i: int)
    requires
        0 <= i,
        i + 2 <= b.len(),
    ensures
        (be16_at(b, i) as int) / 256 == b[i] as int,
        (be16_at(b, i) as int) % 256 == b[i + 1] as int,
{
    let x = (b[i] as int) * 256 + (b[i + 1] as int);
    lemma_fundamental_div_mod_converse_div(x, 256, b[i] as int, b[i + 1] as int);
    lemma_fundamental_div_mod_converse_mod(x, 256, b[i] as int, b[i + 1] as int);
}

/// The big-endian byte quadruple of the 32-bit value at offset `i` is
/// exactly the four bytes there.
proof fn lemma_be32_at_bytes(b: Seq<u8>, i: int)
    requires
        0 <= i,
        i + 4 <= b.len(),
    ensures
        (be32_at(b, i) as int) / 0x1000000 == b[i] as int,
        ((be32_at(b, i) as int) / 0x10000) % 256 == b[i + 1] as int,
        ((be32_at(b, i) as int) / 256) % 256 == b[i + 2] as int,
        (be32_at(b, i) as int) % 256 == b[i + 3] as int,
{
    let b0 = b[i] as int;
    let b1 = b[i + 1] as int;
    let b2 = b[i + 2] as int;
    let b3 = b[i + 3] as int;
    let x = b0 * 0x1000000 + b1 * 0x10000 + b2 * 256 + b3;
    lemma_fundamental_div_mod_converse_div(x, 0x1000000, b0, b1 * 0x10000 + b2 * 256 + b3);
    lemma_fundamental_div_mod_converse_div(x, 0x10000, b0 * 256 + b1, b2 * 256 + b3);
    lemma_fundamental_div_mod_converse_mod(b0 * 256 + b1, 256, b0, b1);
    lemma_fundamental_div_mod_converse_div(x, 256, b0 * 0x10000 + b1 * 256 + b2, b3);
    lemma_fundamental_div_mod_converse_mod(x, 256, b0 * 0x10000 + b1 * 256 + b2, b3);
    lemma_fundamental_div_mod_converse_mod(b0 * 0x10000 + b1 * 256 + b2, 256, b0 * 256 + b1, b2);
}

/// Serializing the parsed fixed TCP header with checksum `x` rebuilds the
/// original 20 header bytes, with the checksum bytes replaced by those of
/// `x`.
proof fn lemma_header_reconstruct(b: Seq<u8>, x: u16)
    requires
        decode_ok(b),
    ensures
        tcp_header_bytes(tcp_model_of(b), tcp_data_words(b) as u8, x) =~= b.subrange(
            tcp_offset(b),
            tcp_offset(b) + 20,
        ).update(16, ((x as int) / 256) as u8).update(17, ((x as int) % 256) as u8),
{
    let off = tcp_offset(b);
    let m = tcp_model_of(b);
    lemma_be16_at_bytes(b, off);
    lemma_be16_at_bytes(b, off + 2);
    lemma_be32_at_bytes(b, off + 4);
    lemma_be32_at_bytes(b, off + 8);
    lemma_be16_at_bytes(b, off + 14);
    lemma_be16_at_bytes(b, off + 18);
    lemma_fundamental_div_mod(b[off + 12] as int, 16);
    let lhs = tcp_header_bytes(m, tcp_data_words(b) as u8, x);
    assert(lhs[0] == b[off]);
    assert(lhs[1] == b[off + 1]);
    assert(lhs[2] == b[off + 2]);
    assert(lhs[3] == b[off + 3]);
    assert(lhs[4] == b[off + 4]);
    assert(lhs[5] == b[off + 5]);
    assert(lhs[6] == b[off + 6]);
    assert(lhs[7] == b[off + 7]);
    assert(lhs[8] == b[off + 8]);
    assert(lhs[9] == b[off + 9]);
    assert(lhs[10] == b[off + 10]);
    assert(lhs[11] == b[off + 11]);
    assert(lhs[12] == b[off + 12]);
    assert(lhs[13] == b[off + 13]);
    assert(lhs[14] == b[off + 14]);
    assert(lhs[15] == b[off + 15]);
    assert(lhs[16] == ((x as int) / 256) as u8);
    assert(lhs[17] == ((x as int) % 256) as u8);
    assert(lhs[18] == b[off + 18]);
    assert(lhs[19] == b[off + 19]);
}

/// Law: re-encoding a parsed buffer with its own options and payload
/// reproduces the buffer byte for byte, provided the stored checksum is
/// the freshly computed one; the IP header bytes are carried over
/// unchanged in front of the re-encoded segment.
pub proof fn lemma_round_trip(b: Seq<u8>)
    requires
        decode_ok(b),
        b.len() <= 0xFFFF,
        checksum_valid(b),
    ensures
        b.take(tcp_offset(b)) + encode_bytes(
            ip_view_of(b),
            tcp_model_of(b),
            tcp_model_of(b).options,
            tcp_model_of(b).payload,
        ) == b,
{
    let off = tcp_offset(b);
    let words = tcp_data_words(b);
    let m = tcp_model_of(b);
    let opts = m.options;
    let pay = m.payload;
    assert(opts.len() == words * 4 - 20);
    lemma_fundamental_div_mod_converse_div(words * 4, 4, words, 0);
    assert(encode_doff(opts) == words as u8);
    let zeroed = tcp_header_bytes(m, words as u8, 0) + opts + pay;
    lemma_header_reconstruct(b, 0);
    assert(zeroed =~= zeroed_segment_of(b));
    let csum = compute_of(ip_view_of(b).source, ip_view_of(b).dest, 6, zeroed);
    assert(csum == be16_at(b, off + 16));
    lemma_header_reconstruct(b, csum);
    lemma_be16_at_bytes(b, off + 16);
    assert(tcp_header_bytes(m, words as u8, csum) =~= b.subrange(off, off + 20));
    assert(encode_bytes(ip_view_of(b), m, opts, pay) =~= b.subrange(off, off + 20) + opts + pay);
    assert(b.take(off) + encode_bytes(ip_view_of(b), m, opts, pay) =~= b);
}

} // verus!
