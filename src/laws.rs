//! Properties of the channel life cycle that relate several operations.
use vstd::prelude::*;

use crate::balances::Balances;
use crate::channel::{after_claim, after_close, after_open, Currency, Module};
use crate::commitment::{be_u32_bytes, commitment_bytes, le_u128_bytes};
use crate::error::ChannelError;
use crate::signature::signature_check;

verus! {

/// Opening a channel that was just opened is refused as a duplicate.
pub proof fn lemma_open_twice(pre: Module, post: Module, payer: Seq<u8>, payee: Seq<u8>, now: u64)
    requires
        after_open(pre, post, payer, payee, now),
    ensures
        post.open_check(payer, payee) == Err::<(), ChannelError>(ChannelError::ChannelAlreadyOpen),
{
    assert(post.has_channel(payer, payee));
}

/// A channel from an account to itself is refused.
pub proof fn lemma_self_channel_refused(m: Module, a: Seq<u8>)
    requires
        m.wf(),
    ensures
        m.open_check(a, a) == Err::<(), ChannelError>(ChannelError::SelfChannelNotAllowed),
{
    if m.has_channel(a, a) {
        m.lemma_no_self_channel(a, a);
    }
}

/// A claim on a pair with no open channel is refused as such; `claim_payment`
/// then leaves the state as it was.
pub proof fn lemma_claim_without_channel(
    m: Module,
    payer: Seq<u8>,
    payee: Seq<u8>,
    nonce: u32,
    amount: u128,
    signature: Seq<u8>,
)
    requires
        !m.has_channel(payer, payee),
    ensures
        m.claim_check(payer, payee, nonce, amount, signature) == Err::<(), ChannelError>(
            ChannelError::ChannelNotFound,
        ),
{
}

/// On an open channel, a fresh sequence number with a valid signature passes
/// every check; once that claim has settled, any claim under the same
/// sequence number on that channel is refused as a replay, whatever its
/// amount and signature.
pub proof fn lemma_claim_settles_once(
    pre: Module,
    post: Module,
    payer: Seq<u8>,
    payee: Seq<u8>,
    nonce: u32,
    amount: u128,
    signature: Seq<u8>,
    other_amount: u128,
    other_signature: Seq<u8>,
)
    requires
        pre.has_channel(payer, payee),
        !pre.consumed(payer, payee, nonce),
        signature_check(payer, payee, nonce, amount, signature) is Ok,
        after_claim(pre, post, payer, payee, nonce, amount),
    ensures
        pre.claim_check(payer, payee, nonce, amount, signature) == Ok::<(), ChannelError>(()),
        post.claim_check(payer, payee, nonce, other_amount, other_signature) == Err::<(), ChannelError>(
            ChannelError::NonceAlreadyConsumed,
        ),
{
    assert(post.has_channel(payer, payee));
    assert(post.consumed(payer, payee, nonce));
}

/// After a channel is closed it can be opened again, and the new channel has
/// no settled sequence number: a validly signed claim under a sequence number
/// settled before the close passes every check.
pub proof fn lemma_reopen_after_close(
    s0: Module,
    s1: Module,
    s2: Module,
    payer: Seq<u8>,
    payee: Seq<u8>,
    closed_at: u64,
    reopened_at: u64,
    nonce: u32,
    amount: u128,
    signature: Seq<u8>,
)
    requires
        s0.wf(),
        s0.has_channel(payer, payee),
        after_close(s0, s1, payer, payee, closed_at),
        after_open(s1, s2, payer, payee, reopened_at),
        signature_check(payer, payee, nonce, amount, signature) is Ok,
    ensures
        s1.open_check(payer, payee) == Ok::<(), ChannelError>(()),
        s2.claim_check(payer, payee, nonce, amount, signature) == Ok::<(), ChannelError>(()),
{
    s0.lemma_no_self_channel(payer, payee);
    assert(!s1.has_channel(payer, payee));
    assert(!s1.consumed(payer, payee, nonce));
    assert(s2.has_channel(payer, payee));
    assert(!s2.consumed(payer, payee, nonce));
}

/// A settled claim with the in-memory balance store moves exactly `amount`
/// from the payer to the payee and leaves every other account as it was.
pub proof fn lemma_claim_moves_amount(
    m: Module,
    pre: Balances,
    post: Balances,
    payer: Seq<u8>,
    payee: Seq<u8>,
    amount: u128,
)
    requires
        m.wf(),
        m.has_channel(payer, payee),
        post.moved(pre, payer, payee, amount),
    ensures
        post.balance(payer) + amount == pre.balance(payer),
        post.balance(payee) == pre.balance(payee) + amount,
        forall|w: Seq<u8>| w != payer && w != payee ==> #[trigger] post.balance(w) == pre.balance(w),
{
    m.lemma_no_self_channel(payer, payee);
}

/// The commitment bytes bind their fields: for payee identifiers of one
/// width, equal commitments have equal payees, sequence numbers and amounts.
pub proof fn lemma_commitment_binds_fields(
    payee1: Seq<u8>,
    nonce1: u32,
    amount1: u128,
    payee2: Seq<u8>,
    nonce2: u32,
    amount2: u128,
)
    requires
        payee1.len() == payee2.len(),
        commitment_bytes(payee1, nonce1, amount1) == commitment_bytes(payee2, nonce2, amount2),
    ensures
        payee1 == payee2,
        nonce1 == nonce2,
        amount1 == amount2,
{
    let c1 = commitment_bytes(payee1, nonce1, amount1);
    let c2 = commitment_bytes(payee2, nonce2, amount2);
    let n = payee1.len() as int;
    assert(c1.subrange(0, n) =~= payee1);
    assert(c2.subrange(0, n) =~= payee2);
    assert(c1.subrange(n, n + 4) =~= be_u32_bytes(nonce1));
    assert(c2.subrange(n, n + 4) =~= be_u32_bytes(nonce2));
    assert(c1.subrange(n + 4, n + 20) =~= le_u128_bytes(amount1));
    assert(c2.subrange(n + 4, n + 20) =~= le_u128_bytes(amount2));
    lemma_be_u32_injective(nonce1, nonce2);
    lemma_le_u128_injective(amount1, amount2);
}

proof fn lemma_be_u32_injective(a: u32, b: u32)
    requires
        be_u32_bytes(a) == be_u32_bytes(b),
    ensures
        a == b,
{
    assert(be_u32_bytes(a)[0] == be_u32_bytes(b)[0]);
    assert(be_u32_bytes(a)[1] == be_u32_bytes(b)[1]);
    assert(be_u32_bytes(a)[2] == be_u32_bytes(b)[2]);
    assert(be_u32_bytes(a)[3] == be_u32_bytes(b)[3]);
    assert(a == b) by (bit_vector)
        requires
            (a >> 24u32) as u8 == (b >> 24u32) as u8,
            (a >> 16u32) as u8 == (b >> 16u32) as u8,
            (a >> 8u32) as u8 == (b >> 8u32) as u8,
            a as u8 == b as u8,
    ;
}

/// Equal little-endian encodings agree on the byte at index `k`, which sits
/// `shift` bits up.
proof fn lemma_le_byte(a: u128, b: u128, k: int, shift: u128)
    requires
        le_u128_bytes(a) == le_u128_bytes(b),
        0 <= k < 16,
        shift == (8 * k) as u128,
    ensures
        (a >> shift) as u8 == (b >> shift) as u8,
{
    assert(le_u128_bytes(a)[k] == (a >> shift) as u8);
    assert(le_u128_bytes(b)[k] == (b >> shift) as u8);
    assert(le_u128_bytes(a)[k] == le_u128_bytes(b)[k]);
}

proof fn lemma_le_u128_injective(a: u128, b: u128)
    requires
        le_u128_bytes(a) == le_u128_bytes(b),
    ensures
        a == b,
{
    lemma_le_byte(a, b, 0, 0u128);
    lemma_le_byte(a, b, 1, 8u128);
    lemma_le_byte(a, b, 2, 16u128);
    lemma_le_byte(a, b, 3, 24u128);
    lemma_le_byte(a, b, 4, 32u128);
    lemma_le_byte(a, b, 5, 40u128);
    lemma_le_byte(a, b, 6, 48u128);
    lemma_le_byte(a, b, 7, 56u128);
    lemma_le_byte(a, b, 8, 64u128);
    lemma_le_byte(a, b, 9, 72u128);
    lemma_le_byte(a, b, 10, 80u128);
    lemma_le_byte(a, b, 11, 88u128);
    lemma_le_byte(a, b, 12, 96u128);
    lemma_le_byte(a, b, 13, 104u128);
    lemma_le_byte(a, b, 14, 112u128);
    lemma_le_byte(a, b, 15, 120u128);
    assert(a == b) by (bit_vector)
        requires
            (a >> 0u128) as u8 == (b >> 0u128) as u8,
            (a >> 8u128) as u8 == (b >> 8u128) as u8,
            (a >> 16u128) as u8 == (b >> 16u128) as u8,
            (a >> 24u128) as u8 == (b >> 24u128) as u8,
            (a >> 32u128) as u8 == (b >> 32u128) as u8,
            (a >> 40u128) as u8 == (b >> 40u128) as u8,
            (a >> 48u128) as u8 == (b >> 48u128) as u8,
            (a >> 56u128) as u8 == (b >> 56u128) as u8,
            (a >> 64u128) as u8 == (b >> 64u128) as u8,
            (a >> 72u128) as u8 == (b >> 72u128) as u8,
            (a >> 80u128) as u8 == (b >> 80u128) as u8,
            (a >> 88u128) as u8 == (b >> 88u128) as u8,
            (a >> 96u128) as u8 == (b >> 96u128) as u8,
            (a >> 104u128) as u8 == (b >> 104u128) as u8,
            (a >> 112u128) as u8 == (b >> 112u128) as u8,
            (a >> 120u128) as u8 == (b >> 120u128) as u8,
    ;
}

} // verus!
