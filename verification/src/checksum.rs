//! One's-complement checksum arithmetic shared by every consumer: the plain
//! header checksum, and the TCP/UDP variants that prepend a 12-byte
//! pseudo-header (source address, destination address, protocol, length).

use vstd::arithmetic::div_mod::{
    lemma_fundamental_div_mod, lemma_fundamental_div_mod_converse_div,
    lemma_fundamental_div_mod_converse_mod,
};
use vstd::prelude::*;

verus! {

/// Sum of the big-endian 16-bit words of a byte sequence; a trailing odd
/// byte is padded with a zero low byte.
pub open spec fn word_sum(data: Seq<u8>) -> int
    decreases data.len(),
{
    if data.len() == 0 {
        0
    } else if data.len() == 1 {
        (data[0] as int) * 256
    } else {
        (data[0] as int) * 256 + (data[1] as int) + word_sum(data.skip(2))
    }
}

/// Folds everything above the low 16 bits back into the low 16 bits until
/// the value fits in 16 bits.
pub open spec fn fold_carries(n: int) -> int
    decreases n via fold_carries_decreases
{
    if n < 0x10000 {
        n
    } else {
        fold_carries(n / 0x10000 + n % 0x10000)
    }
}

#[via_fn]
proof fn fold_carries_decreases(n: int) {
    if n >= 0x10000 {
        lemma_fold_step_shrinks(n);
    }
}

/// One fold step strictly shrinks a value of at least 2^16.
proof fn lemma_fold_step_shrinks(n: int)
    requires
        n >= 0x10000,
    ensures
        0 <= n / 0x10000 + n % 0x10000 < n,
{
    lemma_fundamental_div_mod(n, 0x10000);
}

/// The one's-complement checksum of a byte sequence: the folded 16-bit word
/// sum, complemented.
pub open spec fn checksum_of(data: Seq<u8>) -> u16 {
    (0xFFFF - fold_carries(word_sum(data))) as u16
}

/// The big-endian byte pair of a 16-bit value.
pub open spec fn be16_bytes(x: u16) -> Seq<u8> {
    seq![(x / 256) as u8, (x % 256) as u8]
}

/// The big-endian byte quadruple of a 32-bit value.
pub open spec fn be32_bytes(x: u32) -> Seq<u8> {
    seq![
        (x / 0x1000000) as u8,
        ((x / 0x10000) % 256) as u8,
        ((x / 256) % 256) as u8,
        (x % 256) as u8,
    ]
}

/// The 12-byte pseudo-header that the transport checksums prepend: source
/// address, destination address, a zero byte, the protocol number, and the
/// segment length.
pub open spec fn pseudo_header(source: u32, dest: u32, protocol: u8, length: u16) -> Seq<u8> {
    be32_bytes(source) + be32_bytes(dest) + seq![0u8, protocol] + be16_bytes(length)
}

/// The transport checksum: the plain checksum over the pseudo-header
/// followed by the segment bytes.
pub open spec fn compute_of(source: u32, dest: u32, protocol: u8, segment: Seq<u8>) -> u16 {
    checksum_of(pseudo_header(source, dest, protocol, segment.len() as u16) + segment)
}

/// The TCP checksum is the transport checksum with protocol number 6.
pub open spec fn tcp_checksum_of(source: u32, dest: u32, segment: Seq<u8>) -> u16 {
    compute_of(source, dest, 6, segment)
}

/// A word sum splits over concatenation when the first part pairs up
/// evenly.
pub proof fn lemma_word_sum_concat(a: Seq<u8>, b: Seq<u8>)
    requires
        a.len() % 2 == 0,
    ensures
        word_sum(a + b) == word_sum(a) + word_sum(b),
    decreases a.len(),
{
    if a.len() == 0 {
        assert(a + b =~= b);
    } else {
        assert((a + b).skip(2) =~= a.skip(2) + b);
        lemma_word_sum_concat(a.skip(2), b);
    }
}

/// The plain one's-complement checksum over `data`, summing big-endian
/// 16-bit words (a trailing odd byte is zero-padded), folding the carries,
/// and complementing the low 16 bits.
pub fn checksum(data: &[u8]) -> (r: u16)
    requires
        data@.len() <= 0x1FFFF,
    ensures
        r == checksum_of(data@),
{
    let mut sum: u32 = 0;
    let mut i: usize = 0;
    while i < data.len()
        invariant
            data@.len() <= 0x1FFFF,
            i <= data@.len() + 1,
            i <= data@.len() ==> i % 2 == 0 && sum as int == word_sum(data@.take(i as int)),
            i > data@.len() ==> sum as int == word_sum(data@),
            sum as int <= 0xFFFF * (i as int / 2 + 1),
        decreases data@.len() + 2 - i,
    {
        proof {
            assert(data@.take(i as int).len() % 2 == 0);
        }
        if i == data.len() - 1 {
            proof {
                assert(data@.take(i as int) + data@.skip(i as int) =~= data@);
                lemma_word_sum_concat(data@.take(i as int), data@.skip(i as int));
                assert(data@.skip(i as int).len() == 1);
                assert(data@.skip(i as int)[0] == data@[i as int]);
            }
            sum = sum + (data[i] as u32) * 256;
        } else {
            proof {
                let next = data@.subrange(i as int, i as int + 2);
                assert(data@.take(i as int) + next =~= data@.take(i as int + 2));
                lemma_word_sum_concat(data@.take(i as int), next);
                assert(next.skip(2) =~= Seq::<u8>::empty());
                assert(word_sum(Seq::<u8>::empty()) == 0);
                assert(word_sum(next) == (data@[i as int] as int) * 256 + (data@[i as int
                    + 1] as int));
            }
            sum = sum + (data[i] as u32) * 256 + (data[i + 1] as u32);
        }
        i = i + 2;
    }
    proof {
        assert(data@.take(data@.len() as int) =~= data@);
    }
    let ghost total = word_sum(data@);
    while sum >= 0x10000
        invariant
            fold_carries(sum as int) == fold_carries(total),
            sum as int >= 0,
        decreases sum,
    {
        proof {
            lemma_fold_step_shrinks(sum as int);
        }
        sum = sum / 0x10000 + sum % 0x10000;
    }
    assert(fold_carries(sum as int) == sum as int);
    assert(!(sum as u16) == (0xFFFF - sum) as u16) by (bit_vector)
        requires
            sum < 0x10000,
    ;
    !(sum as u16)
}

/// Appends the two big-endian bytes of `x` to `out`.
pub fn push_be16(out: &mut Vec<u8>, x: u16)
    ensures
        final(out)@ == old(out)@ + be16_bytes(x),
{
    out.push((x / 256) as u8);
    out.push((x % 256) as u8);
    assert(out@ =~= old(out)@ + be16_bytes(x));
}

/// Appends the four big-endian bytes of `x` to `out`.
pub fn push_be32(out: &mut Vec<u8>, x: u32)
    ensures
        final(out)@ == old(out)@ + be32_bytes(x),
{
    out.push((x / 0x1000000) as u8);
    out.push(((x / 0x10000) % 256) as u8);
    out.push(((x / 256) % 256) as u8);
    out.push((x % 256) as u8);
    assert(out@ =~= old(out)@ + be32_bytes(x));
}

/// Appends every byte of `src` to `out`.
pub fn extend_bytes(out: &mut Vec<u8>, src: &[u8])
    ensures
        final(out)@ == old(out)@ + src@,
{
    let mut i: usize = 0;
    while i < src.len()
        invariant
            i <= src@.len(),
            out@ == old(out)@ + src@.take(i as int),
        decreases src@.len() - i,
    {
        out.push(src[i]);
        proof {
            assert(old(out)@ + src@.take(i as int) + seq![src@[i as int]] =~= old(out)@ + src@.take(
                i as int + 1,
            ));
        }
        i = i + 1;
    }
    assert(out@ =~= old(out)@ + src@);
}

/// The transport checksum over `segment` for the given addresses and
/// protocol number: a 12-byte pseudo-header is prepended, the segment is
/// summed as big-endian 16-bit words with a trailing odd byte zero-padded,
/// the carries are folded, and the low 16 bits are complemented.
/// Deterministic, with no side effects.
pub fn compute(source_ip: u32, dest_ip: u32, protocol: u8, segment: &[u8]) -> (r: u16)
    requires
        segment@.len() <= 0xFFFF,
    ensures
        r == compute_of(source_ip, dest_ip, protocol, segment@),
{
    let mut buf: Vec<u8> = Vec::new();
    push_be32(&mut buf, source_ip);
    push_be32(&mut buf, dest_ip);
    buf.push(0);
    buf.push(protocol);
    proof {
        assert(buf@ =~= be32_bytes(source_ip) + be32_bytes(dest_ip) + seq![0u8, protocol]);
    }
    push_be16(&mut buf, segment.len() as u16);
    extend_bytes(&mut buf, segment);
    proof {
        assert(buf@ =~= pseudo_header(source_ip, dest_ip, protocol, segment@.len() as u16)
            + segment@);
    }
    checksum(buf.as_slice())
}

/// The TCP checksum of a segment (header plus payload) between the two
/// addresses: the transport checksum with protocol number 6.
pub fn tcp_checksum(source_ip: u32, dest_ip: u32, tcp_segment: &[u8]) -> (r: u16)
    requires
        tcp_segment@.len() <= 0xFFFF,
    ensures
        r == tcp_checksum_of(source_ip, dest_ip, tcp_segment@),
{
    compute(source_ip, dest_ip, 6, tcp_segment)
}

/// The four fields of a UDP header, in host order; they are serialized
/// big-endian for checksum purposes.
#[derive(Clone, Copy, PartialEq, Eq, Structural, Debug)]
pub struct UdpHeader {
    pub source_port: u16,
    pub dest_port: u16,
    pub length: u16,
    pub checksum: u16,
}

/// The eight big-endian bytes of a UDP header.
pub open spec fn udp_header_bytes(h: UdpHeader) -> Seq<u8> {
    be16_bytes(h.source_port) + be16_bytes(h.dest_port) + be16_bytes(h.length) + be16_bytes(
        h.checksum,
    )
}

/// The UDP checksum: the plain checksum over pseudo-header, UDP header
/// bytes and payload, with the pseudo-header length taken from the UDP
/// length field.
pub open spec fn udp_checksum_of(
    source: u32,
    dest: u32,
    protocol: u8,
    header: UdpHeader,
    payload: Seq<u8>,
) -> u16 {
    checksum_of(
        pseudo_header(source, dest, protocol, header.length) + udp_header_bytes(header) + payload,
    )
}

/// The UDP pseudo-header checksum over the given addresses, protocol,
/// header fields and payload.
pub fn udp_checksum(
    source_ip: u32,
    dest_ip: u32,
    protocol: u8,
    udp_header: &UdpHeader,
    payload: &[u8],
) -> (r: u16)
    requires
        payload@.len() + 20 <= 0x1FFFF,
    ensures
        r == udp_checksum_of(source_ip, dest_ip, protocol, *udp_header, payload@),
{
    let mut buf: Vec<u8> = Vec::new();
    push_be32(&mut buf, source_ip);
    push_be32(&mut buf, dest_ip);
    buf.push(0);
    buf.push(protocol);
    proof {
        assert(buf@ =~= be32_bytes(source_ip) + be32_bytes(dest_ip) + seq![0u8, protocol]);
    }
    push_be16(&mut buf, udp_header.length);
    push_be16(&mut buf, udp_header.source_port);
    push_be16(&mut buf, udp_header.dest_port);
    push_be16(&mut buf, udp_header.length);
    push_be16(&mut buf, udp_header.checksum);
    extend_bytes(&mut buf, payload);
    proof {
        assert(buf@ =~= pseudo_header(source_ip, dest_ip, protocol, udp_header.length)
            + udp_header_bytes(*udp_header) + payload@);
    }
    checksum(buf.as_slice())
}

/// Law: the transport checksum is a function of the addresses, the
/// protocol and the segment bytes alone, so repeated invocations on the
/// same inputs return the same value.
pub proof fn lemma_compute_deterministic(
    source: u32,
    dest: u32,
    protocol: u8,
    segment: Seq<u8>,
    r1: u16,
    r2: u16,
)
    requires
        r1 == compute_of(source, dest, protocol, segment),
        r2 == compute_of(source, dest, protocol, segment),
    ensures
        r1 == r2,
{
}

/// A run of zero bytes.
pub open spec fn zero_bytes(n: nat) -> Seq<u8> {
    Seq::new(n, |i: int| 0u8)
}

/// The word sum of a run of zero bytes is zero.
pub proof fn lemma_word_sum_zero(data: Seq<u8>)
    requires
        forall|i: int| 0 <= i < data.len() ==> data[i] == 0,
    ensures
        word_sum(data) == 0,
    decreases data.len(),
{
    if data.len() >= 2 {
        lemma_word_sum_zero(data.skip(2));
    }
}

/// Law: the plain checksum of an all-zero 20-byte header is 0xFFFF.
pub proof fn lemma_zero_header_checksum()
    ensures
        checksum_of(zero_bytes(20)) == 0xFFFF,
{
    lemma_word_sum_zero(zero_bytes(20));
}

/// Law: the full transport checksum of an all-zero 20-byte TCP header
/// between all-zero addresses. The pseudo-header still contributes the
/// protocol number 6 and the length 20, so the folded sum is 0x1A and the
/// complement is 0xFFE5 rather than 0xFFFF.
pub proof fn lemma_zero_header_tcp_checksum()
    ensures
        tcp_checksum_of(0, 0, zero_bytes(20)) == 0xFFE5,
{
    let pseudo = pseudo_header(0, 0, 6, 20);
    lemma_word_sum_concat(pseudo, zero_bytes(20));
    lemma_word_sum_zero(zero_bytes(20));
    assert(word_sum(pseudo) == 0x1A) by {
        reveal_with_fuel(word_sum, 8);
        let s = seq![0u8, 0u8, 0u8, 0u8, 0u8, 0u8, 0u8, 0u8, 0u8, 6u8, 0u8, 20u8];
        assert(pseudo =~= s);
        assert(s.skip(2) =~= seq![0u8, 0u8, 0u8, 0u8, 0u8, 0u8, 0u8, 6u8, 0u8, 20u8]);
        assert(s.skip(2).skip(2) =~= seq![0u8, 0u8, 0u8, 0u8, 0u8, 6u8, 0u8, 20u8]);
        assert(s.skip(2).skip(2).skip(2) =~= seq![0u8, 0u8, 0u8, 6u8, 0u8, 20u8]);
        assert(s.skip(2).skip(2).skip(2).skip(2) =~= seq![0u8, 6u8, 0u8, 20u8]);
        assert(s.skip(2).skip(2).skip(2).skip(2).skip(2) =~= seq![0u8, 20u8]);
        assert(s.skip(2).skip(2).skip(2).skip(2).skip(2).skip(2) =~= Seq::<u8>::empty());
    }
}

} // verus!
