use vstd::prelude::*;

verus! {

/// The four bytes of `n`, most significant first.
pub open spec fn be_u32_bytes(n: u32) -> Seq<u8> {
    seq![(n >> 24u32) as u8, (n >> 16u32) as u8, (n >> 8u32) as u8, n as u8]
}

/// The sixteen bytes of `x`, least significant first: the ledger's canonical
/// (SCALE) encoding of a 128-bit balance.
pub open spec fn le_u128_bytes(x: u128) -> Seq<u8> {
    Seq::new(16, |i: int| (x >> ((8 * i) as u128)) as u8)
}

/// The message that a payer signs off-ledger for a claim: the payee's
/// identifier, the sequence number in big-endian order and the amount in
/// little-endian order.
pub open spec fn commitment_bytes(payee: Seq<u8>, nonce: u32, amount: u128) -> Seq<u8> {
    payee + be_u32_bytes(nonce) + le_u128_bytes(amount)
}

/// The 32-byte BLAKE2b-256 digest of a byte string.
pub uninterp spec fn blake2_256_of(data: Seq<u8>) -> Seq<u8>;

/// The digest that a payer signs for a claim.
pub open spec fn commitment_digest(payee: Seq<u8>, nonce: u32, amount: u128) -> Seq<u8> {
    blake2_256_of(commitment_bytes(payee, nonce, amount))
}

/// Relies on sp_io::hashing::blake2_256: a 32-byte digest that depends on the
/// input bytes alone.
#[verifier::external_body]
fn blake2_256(data: &[u8]) -> (r: [u8; 32])
    ensures
        r@ == blake2_256_of(data@),
{
    sp_io::hashing::blake2_256(data)
}

/// BLAKE2b-256 digest of `data`.
pub fn digest(data: &Vec<u8>) -> (r: [u8; 32])
    ensures
        r@ == blake2_256_of(data@),
{
    blake2_256(data.as_slice())
}

/// Appends the big-endian bytes of `n` to `out`.
fn push_be_u32(out: &mut Vec<u8>, n: u32)
    ensures
        final(out)@ == old(out)@ + be_u32_bytes(n),
{
    out.push(#[verifier::truncate] ((n >> 24u32) as u8));
    out.push(#[verifier::truncate] ((n >> 16u32) as u8));
    out.push(#[verifier::truncate] ((n >> 8u32) as u8));
    out.push(#[verifier::truncate] (n as u8));
    assert(final(out)@ =~= old(out)@ + be_u32_bytes(n));
}

/// Appends the little-endian bytes of `x` to `out`.
fn push_le_u128(out: &mut Vec<u8>, x: u128)
    ensures
        final(out)@ == old(out)@ + le_u128_bytes(x),
{
    let ghost start = out@;
    let mut i: usize = 0;
    while i < 16
        invariant
            i <= 16,
            out@.len() == start.len() + i,
            out@.subrange(0, start.len() as int) == start,
            forall|j: int| 0 <= j < i ==> #[trigger] out@[start.len() + j] == le_u128_bytes(x)[j],
        decreases 16 - i,
    {
        let shift: u128 = 8 * (i as u128);
        out.push(#[verifier::truncate] ((x >> shift) as u8));
        assert(out@.subrange(0, start.len() as int) =~= start);
        i = i + 1;
    }
    assert forall|j: int| 0 <= j < out@.len() implies #[trigger] out@[j] == (start + le_u128_bytes(x))[j] by {
        if j < start.len() {
            assert(out@.subrange(0, start.len() as int)[j] == start[j]);
        } else {
            assert(out@[start.len() + (j - start.len())] == le_u128_bytes(x)[j - start.len()]);
        }
    }
    assert(out@ =~= start + le_u128_bytes(x));
}

/// The bytes that a payer signs for a claim: `payee`, then `nonce` in four
/// big-endian bytes, then `amount` in sixteen little-endian bytes.
pub fn commitment(payee: &Vec<u8>, nonce: u32, amount: u128) -> (r: Vec<u8>)
    ensures
        r@ == commitment_bytes(payee@, nonce, amount),
{
    let mut data: Vec<u8> = Vec::new();
    data.extend_from_slice(payee.as_slice());
    assert(data@ =~= payee@);
    push_be_u32(&mut data, nonce);
    push_le_u128(&mut data, amount);
    data
}

} // verus!
