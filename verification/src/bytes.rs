//! Reading big-endian integers out of an in-memory byte source, with
//! the arithmetic meaning of the bytes stated exactly.
use vstd::prelude::*;
use crate::error::MmdbError;

verus! {

/// The natural number denoted by `bytes` read as a big-endian integer.
pub open spec fn be_bytes_to_nat(bytes: Seq<u8>) -> nat
    decreases bytes.len(),
{
    if bytes.len() == 0 {
        0
    } else {
        (be_bytes_to_nat(bytes.drop_last()) * 256 + bytes.last()) as nat
    }
}

/// 256 raised to `n`: the number of values `n` bytes can denote.
pub open spec fn pow256(n: nat) -> nat
    decreases n,
{
    if n == 0 {
        1
    } else {
        256 * pow256((n - 1) as nat)
    }
}

/// A big-endian integer over `n` bytes stays below `256^n`.
pub proof fn lemma_be_bytes_to_nat_bound(bytes: Seq<u8>)
    ensures
        be_bytes_to_nat(bytes) < pow256(bytes.len()),
    decreases bytes.len(),
{
    if bytes.len() > 0 {
        lemma_be_bytes_to_nat_bound(bytes.drop_last());
    }
}

/// `pow256` does not shrink as the exponent grows.
pub proof fn lemma_pow256_mono(a: nat, b: nat)
    requires
        a <= b,
    ensures
        pow256(a) <= pow256(b),
    decreases b,
{
    if a < b {
        lemma_pow256_mono(a, (b - 1) as nat);
    }
}

/// The concrete powers the readers below rely on.
pub proof fn lemma_pow256_values()
    ensures
        pow256(0) == 1,
        pow256(1) == 0x100,
        pow256(2) == 0x1_0000,
        pow256(3) == 0x100_0000,
        pow256(4) == 0x1_0000_0000,
        pow256(8) == 0x1_0000_0000_0000_0000,
        pow256(16) == 0x1_0000_0000_0000_0000_0000_0000_0000_0000,
{
    assert(pow256(0) == 1);
    assert(pow256(1) == 0x100);
    assert(pow256(2) == 0x1_0000);
    assert(pow256(3) == 0x100_0000);
    assert(pow256(4) == 0x1_0000_0000);
    assert(pow256(5) == 0x100_0000_0000);
    assert(pow256(6) == 0x1_0000_0000_0000);
    assert(pow256(7) == 0x100_0000_0000_0000);
    assert(pow256(8) == 0x1_0000_0000_0000_0000);
    assert(pow256(9) == 0x100_0000_0000_0000_0000);
    assert(pow256(10) == 0x1_0000_0000_0000_0000_0000);
    assert(pow256(11) == 0x100_0000_0000_0000_0000_0000);
    assert(pow256(12) == 0x1_0000_0000_0000_0000_0000_0000);
    assert(pow256(13) == 0x100_0000_0000_0000_0000_0000_0000);
    assert(pow256(14) == 0x1_0000_0000_0000_0000_0000_0000_0000);
    assert(pow256(15) == 0x100_0000_0000_0000_0000_0000_0000_0000);
    assert(pow256(16) == 0x1_0000_0000_0000_0000_0000_0000_0000_0000);
}

/// Reads the byte at `pos`, or reports the source ended early.
pub fn read_u8(data: &[u8], pos: usize) -> (r: Result<(u8, usize), MmdbError>)
    ensures
        match r {
            Ok((v, end)) => pos < data@.len() && v == data@[pos as int] && end == pos + 1,
            Err(e) => pos >= data@.len() && e == MmdbError::BadIo,
        },
{
    if pos < data.len() {
        Ok((data[pos], pos + 1))
    } else {
        Err(MmdbError::BadIo)
    }
}

/// Copies the `n` bytes at `pos` out of the source, or reports the
/// source ended early.
pub fn read_bytes(data: &[u8], pos: usize, n: usize) -> (r: Result<(Vec<u8>, usize), MmdbError>)
    ensures
        match r {
            Ok((v, end)) => {
                &&& pos + n <= data@.len()
                &&& v@ == data@.subrange(pos as int, pos + n)
                &&& end == pos + n
            },
            Err(e) => pos + n > data@.len() && e == MmdbError::BadIo,
        },
{
    if pos > data.len() || n > data.len() - pos {
        return Err(MmdbError::BadIo);
    }
    let part = vstd::slice::slice_subrange(data, pos, pos + n);
    Ok((vstd::slice::slice_to_vec(part), pos + n))
}

/// Reads `n` bytes at `pos` as one big-endian unsigned integer, or
/// reports the source ended early.
pub fn read_be_uint(data: &[u8], pos: usize, n: usize) -> (r: Result<(u64, usize), MmdbError>)
    requires
        n <= 8,
    ensures
        match r {
            Ok((v, end)) => {
                &&& pos + n <= data@.len()
                &&& v == be_bytes_to_nat(data@.subrange(pos as int, pos + n))
                &&& end == pos + n
            },
            Err(e) => pos + n > data@.len() && e == MmdbError::BadIo,
        },
{
    if pos > data.len() || n > data.len() - pos {
        return Err(MmdbError::BadIo);
    }
    proof {
        lemma_pow256_values();
    }
    let mut acc: u64 = 0;
    let mut i: usize = 0;
    while i < n
        invariant
            i <= n <= 8,
            pos + n <= data@.len() <= usize::MAX,
            acc == be_bytes_to_nat(data@.subrange(pos as int, pos + i)),
            acc < pow256(i as nat),
            pow256(8) == 0x1_0000_0000_0000_0000,
        decreases n - i,
    {
        proof {
            lemma_pow256_mono(i as nat + 1, 8);
            assert(data@.subrange(pos as int, pos + i + 1).drop_last() =~= data@.subrange(
                pos as int,
                pos + i,
            ));
            assert(data@.subrange(pos as int, pos + i + 1).last() == data@[pos + i]);
        }
        acc = acc * 256 + data[pos + i] as u64;
        i = i + 1;
    }
    Ok((acc, pos + n))
}

/// Reads `n` bytes at `pos` as one big-endian unsigned 128-bit
/// integer, or reports the source ended early.
pub fn read_be_uint128(data: &[u8], pos: usize, n: usize) -> (r: Result<
    (u128, usize),
    MmdbError,
>)
    requires
        n <= 16,
    ensures
        match r {
            Ok((v, end)) => {
                &&& pos + n <= data@.len()
                &&& v == be_bytes_to_nat(data@.subrange(pos as int, pos + n))
                &&& end == pos + n
            },
            Err(e) => pos + n > data@.len() && e == MmdbError::BadIo,
        },
{
    if pos > data.len() || n > data.len() - pos {
        return Err(MmdbError::BadIo);
    }
    proof {
        lemma_pow256_values();
    }
    let mut acc: u128 = 0;
    let mut i: usize = 0;
    while i < n
        invariant
            i <= n <= 16,
            pos + n <= data@.len() <= usize::MAX,
            acc == be_bytes_to_nat(data@.subrange(pos as int, pos + i)),
            acc < pow256(i as nat),
            pow256(16) == 0x1_0000_0000_0000_0000_0000_0000_0000_0000,
        decreases n - i,
    {
        proof {
            lemma_pow256_mono(i as nat + 1, 16);
            assert(data@.subrange(pos as int, pos + i + 1).drop_last() =~= data@.subrange(
                pos as int,
                pos + i,
            ));
            assert(data@.subrange(pos as int, pos + i + 1).last() == data@[pos + i]);
        }
        acc = acc * 256 + data[pos + i] as u128;
        i = i + 1;
    }
    Ok((acc, pos + n))
}

} // verus!
