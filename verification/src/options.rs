//! The option injector: builds a new TCP options byte sequence that puts a
//! fixed custom option (kind 253, declared length 12, ten value bytes)
//! ahead of the original options, end-padded with zero filler to a 4-byte
//! boundary, and refuses to let the header outgrow its 60-byte budget.

use crate::checksum::zero_bytes;
use crate::errors::ProxyError;
use vstd::prelude::*;

verus! {

/// The fixed custom option template that is injected first: one kind
/// byte, one declared-length byte, and ten value bytes.
pub open spec fn injected_prefix() -> Seq<u8> {
    seq![253u8, 12u8, 1u8, 2u8, 3u8, 4u8, 5u8, 6u8, 7u8, 8u8, 9u8, 0x10u8]
}

/// How many zero filler bytes bring `n` up to a multiple of 4.
pub open spec fn pad_len(n: int) -> int {
    if n % 4 == 0 {
        0
    } else {
        4 - n % 4
    }
}

/// What the injector builds: the fixed prefix, the original option bytes
/// unchanged, and zero filler up to a 4-byte boundary.
pub open spec fn injected_of(original: Seq<u8>) -> Seq<u8> {
    injected_prefix() + original + zero_bytes(pad_len(original.len() as int) as nat)
}

/// Whether the injected options keep the TCP header within its 60-byte
/// maximum.
pub open spec fn inject_ok(original: Seq<u8>) -> bool {
    20 + injected_of(original).len() <= 60
}

/// Builds the new options sequence: the fixed custom option first, then
/// `original` unchanged, then zero filler until the length is a multiple
/// of 4. The injected option is never dropped or truncated: if the
/// resulting header would exceed 60 bytes the call fails with
/// `OptionOverflow` instead.
///
/// On success the result begins with the fixed prefix, continues with
/// `original` itself, and has a length that is a multiple of 4.
pub fn injected_options(original: &[u8]) -> (r: Result<Vec<u8>, ProxyError>)
    ensures
        r is Ok <==> inject_ok(original@),
        r is Ok ==> r->Ok_0@ == injected_of(original@),
        r is Ok ==> r->Ok_0@.len() % 4 == 0,
        r is Ok ==> r->Ok_0@.take(12) == injected_prefix(),
        r is Ok ==> r->Ok_0@.subrange(12, 12 + original@.len() as int) == original@,
        r is Err ==> r->Err_0 == ProxyError::OptionOverflow,
{
    if original.len() > 28 {
        proof {
            lemma_overflow_boundary(original@);
        }
        return Err(ProxyError::OptionOverflow);
    }
    let mut out: Vec<u8> = Vec::new();
    out.push(253);
    out.push(12);
    out.push(1);
    out.push(2);
    out.push(3);
    out.push(4);
    out.push(5);
    out.push(6);
    out.push(7);
    out.push(8);
    out.push(9);
    out.push(0x10);
    proof {
        assert(out@ =~= injected_prefix());
    }
    crate::checksum::extend_bytes(&mut out, original);
    let pad = (4 - out.len() % 4) % 4;
    proof {
        assert(pad as int == pad_len(original@.len() as int));
    }
    let ghost base = out@;
    let mut j: usize = 0;
    while j < pad
        invariant
            j <= pad,
            out@ == base + zero_bytes(j as nat),
        decreases pad - j,
    {
        out.push(0);
        proof {
            assert(base + zero_bytes(j as nat) + seq![0u8] =~= base + zero_bytes((j + 1) as nat));
        }
        j = j + 1;
    }
    proof {
        lemma_overflow_boundary(original@);
        assert(out@ =~= injected_of(original@));
        assert(out@.take(12) =~= injected_prefix());
        assert(out@.subrange(12, 12 + original@.len() as int) =~= original@);
    }
    Ok(out)
}

/// Law: the injected options fit the 60-byte header budget exactly when
/// the original options are at most 28 bytes; 28 bytes land on exactly 60,
/// and anything longer (which would push the header past 60 bytes, to 61
/// or beyond before padding) is refused.
pub proof fn lemma_overflow_boundary(original: Seq<u8>)
    ensures
        inject_ok(original) <==> original.len() <= 28,
        20 + injected_of(original).len() == 32 + original.len() + pad_len(original.len() as int),
        original.len() == 28 ==> 20 + injected_of(original).len() == 60,
{
}

} // verus!
