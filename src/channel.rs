use vstd::prelude::*;

use crate::commitment::{commitment, commitment_digest, digest};
use crate::error::ChannelError;
use crate::signature::{ecdsa_verify, parse_compressed_key, parse_signature, signature_check};

verus! {

/// The record of an open channel: `sender` pays `receiver`; `expiration`
/// holds the time at which the channel was opened. It is recorded, never
/// enforced.
pub struct Chan {
    pub sender: Vec<u8>,
    pub receiver: Vec<u8>,
    pub expiration: u64,
}

/// A notification emitted by a successful operation.
#[derive(Debug, Clone, PartialEq, Eq)]
pub enum Event {
    /// (payer, payee, time)
    ChannelOpened(Vec<u8>, Vec<u8>, u64),
    /// (payer, payee, time)
    ChannelClosed(Vec<u8>, Vec<u8>, u64),
    /// (payer, payee, amount)
    ClaimPayment(Vec<u8>, Vec<u8>, u128),
}

/// The mathematical value of an [`Event`].
pub enum EventView {
    ChannelOpened(Seq<u8>, Seq<u8>, u64),
    ChannelClosed(Seq<u8>, Seq<u8>, u64),
    ClaimPayment(Seq<u8>, Seq<u8>, u128),
}

impl View for Event {
    type V = EventView;

    open spec fn view(&self) -> EventView {
        match self {
            Event::ChannelOpened(p, q, t) => EventView::ChannelOpened(p@, q@, *t),
            Event::ChannelClosed(p, q, t) => EventView::ChannelClosed(p@, q@, *t),
            Event::ClaimPayment(p, q, a) => EventView::ClaimPayment(p@, q@, *a),
        }
    }
}

/// The balance subsystem that settles claims.
pub trait Currency: Sized {
    /// Whether this state follows from `pre` by moving `amount` from `from`
    /// to `to`.
    spec fn moved(&self, pre: Self, from: Seq<u8>, to: Seq<u8>, amount: u128) -> bool;

    /// Whether this state cannot move `amount` from `from` to `to` (for
    /// instance because `from` holds less).
    spec fn refuses(&self, from: Seq<u8>, to: Seq<u8>, amount: u128) -> bool;

    /// Moves `amount` from `from` to `to`, letting `from` be drained to zero;
    /// fails, moving nothing, when the transfer is refused.
    fn transfer(&mut self, from: &Vec<u8>, to: &Vec<u8>, amount: u128) -> (r: Result<(), ()>)
        ensures
            r is Ok ==> final(self).moved(*old(self), from@, to@, amount),
            r is Err ==> *final(self) == *old(self) && old(self).refuses(from@, to@, amount),
    ;
}

/// An open channel with the sequence numbers settled on it so far.
struct Entry {
    chan: Chan,
    consumed: Vec<u32>,
}

/// The channel registry, the ledger of settled sequence numbers and the log
/// of emitted events.
pub struct Module {
    entries: Vec<Entry>,
    events: Vec<Event>,
}

/// Whether two byte strings are equal.
pub(crate) fn bytes_eq(a: &Vec<u8>, b: &Vec<u8>) -> (r: bool)
    ensures
        r == (a@ == b@),
{
    if a.len() != b.len() {
        return false;
    }
    let mut i: usize = 0;
    while i < a.len()
        invariant
            a@.len() == b@.len(),
            i <= a@.len(),
            forall|j: int| 0 <= j < i ==> a@[j] == b@[j],
        decreases a@.len() - i,
    {
        if a[i] != b[i] {
            return false;
        }
        i = i + 1;
    }
    assert(a@ =~= b@);
    true
}

/// A copy of a byte string.
pub(crate) fn copy_bytes(v: &Vec<u8>) -> (r: Vec<u8>)
    ensures
        r@ == v@,
{
    let r = v.clone();
    assert(r@ =~= v@);
    r
}

/// Whether `n` is among `list`.
fn contains_nonce(list: &Vec<u32>, n: u32) -> (r: bool)
    ensures
        r == list@.contains(n),
{
    let mut i: usize = 0;
    while i < list.len()
        invariant
            i <= list@.len(),
            forall|j: int| 0 <= j < i ==> list@[j] != n,
        decreases list@.len() - i,
    {
        if list[i] == n {
            assert(list@[i as int] == n);
            return true;
        }
        i = i + 1;
    }
    false
}

/// The state after a successful `open_channel(payer, payee)` at time `now`.
pub open spec fn after_open(pre: Module, post: Module, payer: Seq<u8>, payee: Seq<u8>, now: u64) -> bool {
    &&& forall|p: Seq<u8>, q: Seq<u8>|
        #[trigger] post.has_channel(p, q) == (pre.has_channel(p, q) || (p == payer && q == payee))
    &&& forall|p: Seq<u8>, q: Seq<u8>|
        pre.has_channel(p, q) ==> #[trigger] post.opened_at(p, q) == pre.opened_at(p, q)
    &&& post.opened_at(payer, payee) == now
    &&& forall|p: Seq<u8>, q: Seq<u8>, n: u32|
        #[trigger] post.consumed(p, q, n) == pre.consumed(p, q, n)
    &&& post.event_log() == pre.event_log().push(EventView::ChannelOpened(payer, payee, now))
}

/// The state after a successful `close_channel` of (payer, payee) at time `now`:
/// the channel and every sequence number settled on it are gone.
pub open spec fn after_close(pre: Module, post: Module, payer: Seq<u8>, payee: Seq<u8>, now: u64) -> bool {
    &&& forall|p: Seq<u8>, q: Seq<u8>|
        #[trigger] post.has_channel(p, q) == (pre.has_channel(p, q) && !(p == payer && q == payee))
    &&& forall|p: Seq<u8>, q: Seq<u8>|
        post.has_channel(p, q) ==> #[trigger] post.opened_at(p, q) == pre.opened_at(p, q)
    &&& forall|p: Seq<u8>, q: Seq<u8>, n: u32|
        #[trigger] post.consumed(p, q, n) == (pre.consumed(p, q, n) && !(p == payer && q == payee))
    &&& post.event_log() == pre.event_log().push(EventView::ChannelClosed(payer, payee, now))
}

/// The state after a successful claim of `amount` under `nonce` on the
/// channel (payer, payee): only that sequence number is added.
pub open spec fn after_claim(
    pre: Module,
    post: Module,
    payer: Seq<u8>,
    payee: Seq<u8>,
    nonce: u32,
    amount: u128,
) -> bool {
    &&& forall|p: Seq<u8>, q: Seq<u8>| #[trigger] post.has_channel(p, q) == pre.has_channel(p, q)
    &&& forall|p: Seq<u8>, q: Seq<u8>|
        pre.has_channel(p, q) ==> #[trigger] post.opened_at(p, q) == pre.opened_at(p, q)
    &&& forall|p: Seq<u8>, q: Seq<u8>, n: u32|
        #[trigger] post.consumed(p, q, n) == (pre.consumed(p, q, n) || (p == payer && q == payee
            && n == nonce))
    &&& post.event_log() == pre.event_log().push(EventView::ClaimPayment(payer, payee, amount))
}

impl Module {
    /// The (payer, payee) pair of the `i`-th open channel.
    pub closed spec fn key_at(&self, i: int) -> (Seq<u8>, Seq<u8>) {
        (self.entries@[i].chan.sender@, self.entries@[i].chan.receiver@)
    }

    /// No channel connects an account to itself, and no pair has two channels.
    pub closed spec fn wf(&self) -> bool {
        &&& forall|i: int|
            0 <= i < self.entries@.len() ==> #[trigger] self.key_at(i).0 != self.key_at(i).1
        &&& forall|i: int, j: int|
            #![trigger self.key_at(i), self.key_at(j)]
            0 <= i < self.entries@.len() && 0 <= j < self.entries@.len() && i != j
                ==> self.key_at(i) != self.key_at(j)
    }

    /// Whether a channel from `payer` to `payee` is open.
    pub closed spec fn has_channel(&self, payer: Seq<u8>, payee: Seq<u8>) -> bool {
        exists|i: int| 0 <= i < self.entries@.len() && #[trigger] self.key_at(i) == (payer, payee)
    }

    /// Whether `nonce` was settled on the open channel from `payer` to `payee`.
    pub closed spec fn consumed(&self, payer: Seq<u8>, payee: Seq<u8>, nonce: u32) -> bool {
        exists|i: int|
            0 <= i < self.entries@.len() && #[trigger] self.key_at(i) == (payer, payee)
                && self.entries@[i].consumed@.contains(nonce)
    }

    /// When the open channel from `payer` to `payee` was opened.
    pub closed spec fn opened_at(&self, payer: Seq<u8>, payee: Seq<u8>) -> u64 {
        let i = choose|i: int| 0 <= i < self.entries@.len() && #[trigger] self.key_at(i) == (payer, payee);
        self.entries@[i].chan.expiration
    }

    /// The events emitted so far, oldest first.
    pub closed spec fn event_log(&self) -> Seq<EventView> {
        self.events@.map_values(|e: Event| e@)
    }

    /// The outcome of `open_channel` from `payer` to `payee`.
    pub open spec fn open_check(&self, payer: Seq<u8>, payee: Seq<u8>) -> Result<(), ChannelError> {
        if self.has_channel(payer, payee) {
            Err(ChannelError::ChannelAlreadyOpen)
        } else if payer == payee {
            Err(ChannelError::SelfChannelNotAllowed)
        } else {
            Ok(())
        }
    }

    /// The outcome of `close_channel` of the channel from `payer` to `payee`.
    pub open spec fn close_check(&self, payer: Seq<u8>, payee: Seq<u8>) -> Result<(), ChannelError> {
        if self.has_channel(payer, payee) {
            Ok(())
        } else {
            Err(ChannelError::ChannelNotFound)
        }
    }

    /// The outcome of the checks that `claim_payment` makes before it asks
    /// for the transfer.
    pub open spec fn claim_check(
        &self,
        payer: Seq<u8>,
        payee: Seq<u8>,
        nonce: u32,
        amount: u128,
        signature: Seq<u8>,
    ) -> Result<(), ChannelError> {
        if !self.has_channel(payer, payee) {
            Err(ChannelError::ChannelNotFound)
        } else if self.consumed(payer, payee, nonce) {
            Err(ChannelError::NonceAlreadyConsumed)
        } else {
            signature_check(payer, payee, nonce, amount, signature)
        }
    }

    /// Any index that holds a pair tells what is known of that pair.
    proof fn lemma_entry_of(&self, i: int)
        requires
            self.wf(),
            0 <= i < self.entries@.len(),
        ensures
            self.has_channel(self.key_at(i).0, self.key_at(i).1),
            self.opened_at(self.key_at(i).0, self.key_at(i).1) == self.entries@[i].chan.expiration,
            forall|n: u32|
                #[trigger] self.consumed(self.key_at(i).0, self.key_at(i).1, n)
                    == self.entries@[i].consumed@.contains(n),
    {
        let (p, q) = self.key_at(i);
        assert(self.key_at(i) == (p, q));
        let j = choose|j: int| 0 <= j < self.entries@.len() && #[trigger] self.key_at(j) == (p, q);
        assert(j == i);
        assert forall|n: u32| #[trigger] self.consumed(p, q, n) == self.entries@[i].consumed@.contains(n) by {
            if self.consumed(p, q, n) {
                let k = choose|k: int|
                    0 <= k < self.entries@.len() && #[trigger] self.key_at(k) == (p, q)
                        && self.entries@[k].consumed@.contains(n);
                assert(k == i);
            }
        }
    }

    /// An open channel never connects an account to itself.
    pub proof fn lemma_no_self_channel(&self, payer: Seq<u8>, payee: Seq<u8>)
        requires
            self.wf(),
            self.has_channel(payer, payee),
        ensures
            payer != payee,
    {
        let i = choose|i: int| 0 <= i < self.entries@.len() && #[trigger] self.key_at(i) == (payer, payee);
        assert(self.key_at(i).0 != self.key_at(i).1);
    }

    /// A registry with no channel, no settled sequence number and no event.
    pub fn new() -> (m: Module)
        ensures
            m.wf(),
            forall|p: Seq<u8>, q: Seq<u8>| !#[trigger] m.has_channel(p, q),
            forall|p: Seq<u8>, q: Seq<u8>, n: u32| !#[trigger] m.consumed(p, q, n),
            m.event_log() == Seq::<EventView>::empty(),
    {
        let m = Module { entries: Vec::new(), events: Vec::new() };
        assert(m.event_log() =~= Seq::<EventView>::empty());
        m
    }

    /// The index of the channel from `payer` to `payee`, if one is open.
    fn find(&self, payer: &Vec<u8>, payee: &Vec<u8>) -> (r: Option<usize>)
        ensures
            match r {
                Some(i) => i < self.entries@.len() && self.key_at(i as int) == (payer@, payee@),
                None => !self.has_channel(payer@, payee@),
            },
    {
        let mut i: usize = 0;
        while i < self.entries.len()
            invariant
                i <= self.entries@.len(),
                forall|j: int| 0 <= j < i ==> #[trigger] self.key_at(j) != (payer@, payee@),
            decreases self.entries@.len() - i,
        {
            let e = &self.entries[i];
            if bytes_eq(&e.chan.sender, payer) && bytes_eq(&e.chan.receiver, payee) {
                return Some(i);
            }
            i = i + 1;
        }
        None
    }
    /// Opens a channel from `caller` (the payer) to `payee` at time `now`.
    pub fn open_channel(&mut self, caller: &Vec<u8>, payee: &Vec<u8>, now: u64) -> (r: Result<(), ChannelError>)
        requires
            old(self).wf(),
        ensures
            final(self).wf(),
            r == old(self).open_check(caller@, payee@),
            r is Err ==> *final(self) == *old(self),
            r is Ok ==> after_open(*old(self), *final(self), caller@, payee@, now),
    {
        if self.find(caller, payee).is_some() {
            return Err(ChannelError::ChannelAlreadyOpen);
        }
        if bytes_eq(caller, payee) {
            return Err(ChannelError::SelfChannelNotAllowed);
        }
        let ghost pre = *self;
        let chan = Chan { sender: copy_bytes(caller), receiver: copy_bytes(payee), expiration: now };
        self.entries.push(Entry { chan, consumed: Vec::new() });
        self.events.push(Event::ChannelOpened(copy_bytes(caller), copy_bytes(payee), now));
        let ghost post = *self;
        let ghost last = pre.entries@.len() as int;
        proof {
            assert forall|i: int| 0 <= i < pre.entries@.len() implies #[trigger] post.key_at(i) == pre.key_at(i) by {
                assert(post.entries@[i] == pre.entries@[i]);
            }
            assert(post.key_at(last) == (caller@, payee@));
            assert(post.wf()) by {
                assert forall|i: int, j: int|
                    #![trigger post.key_at(i), post.key_at(j)]
                    0 <= i < post.entries@.len() && 0 <= j < post.entries@.len() && i != j
                        implies post.key_at(i) != post.key_at(j) by {
                    if i < last && j < last {
                        assert(pre.key_at(i) != pre.key_at(j));
                    }
                }
                assert forall|i: int| 0 <= i < post.entries@.len() implies #[trigger] post.key_at(i).0 != post.key_at(i).1 by {
                    if i < last {
                        assert(pre.key_at(i).0 != pre.key_at(i).1);
                    }
                }
            }
            assert forall|p: Seq<u8>, q: Seq<u8>|
                #[trigger] post.has_channel(p, q) == (pre.has_channel(p, q) || (p == caller@ && q == payee@)) by {
                if post.has_channel(p, q) {
                    let i = choose|i: int| 0 <= i < post.entries@.len() && #[trigger] post.key_at(i) == (p, q);
                    if i < last {
                        assert(pre.key_at(i) == (p, q));
                    }
                }
                if pre.has_channel(p, q) {
                    let i = choose|i: int| 0 <= i < pre.entries@.len() && #[trigger] pre.key_at(i) == (p, q);
                    assert(post.key_at(i) == (p, q));
                }
            }
            assert forall|p: Seq<u8>, q: Seq<u8>, n: u32|
                #[trigger] post.consumed(p, q, n) == pre.consumed(p, q, n) by {
                if post.has_channel(p, q) {
                    let i = choose|i: int| 0 <= i < post.entries@.len() && #[trigger] post.key_at(i) == (p, q);
                    post.lemma_entry_of(i);
                    if i < last {
                        pre.lemma_entry_of(i);
                    } else {
                        assert(post.entries@[i].consumed@ =~= Seq::<u32>::empty());
                        if pre.consumed(p, q, n) {
                            let j = choose|j: int|
                                0 <= j < pre.entries@.len() && #[trigger] pre.key_at(j) == (p, q)
                                    && pre.entries@[j].consumed@.contains(n);
                            assert(post.key_at(j) == (p, q));
                        }
                    }
                } else {
                    if pre.consumed(p, q, n) {
                        let j = choose|j: int|
                            0 <= j < pre.entries@.len() && #[trigger] pre.key_at(j) == (p, q)
                                && pre.entries@[j].consumed@.contains(n);
                        assert(post.key_at(j) == (p, q));
                    }
                }
            }
            assert forall|p: Seq<u8>, q: Seq<u8>|
                pre.has_channel(p, q) implies #[trigger] post.opened_at(p, q) == pre.opened_at(p, q) by {
                let i = choose|i: int| 0 <= i < pre.entries@.len() && #[trigger] pre.key_at(i) == (p, q);
                pre.lemma_entry_of(i);
                post.lemma_entry_of(i);
            }
            post.lemma_entry_of(last);
            assert(post.event_log() =~= pre.event_log().push(EventView::ChannelOpened(caller@, payee@, now)));
        }
        Ok(())
    }
    /// Closes the channel from `payer` to `caller` (the payee) at time `now`,
    /// erasing every sequence number settled on it.
    pub fn close_channel(&mut self, caller: &Vec<u8>, payer: &Vec<u8>, now: u64) -> (r: Result<(), ChannelError>)
        requires
            old(self).wf(),
        ensures
            final(self).wf(),
            r == old(self).close_check(payer@, caller@),
            r is Err ==> *final(self) == *old(self),
            r is Ok ==> after_close(*old(self), *final(self), payer@, caller@, now),
    {
        let i = match self.find(payer, caller) {
            None => return Err(ChannelError::ChannelNotFound),
            Some(i) => i,
        };
        let ghost pre = *self;
        let ghost gi = i as int;
        let _removed = self.entries.remove(i);
        self.events.push(Event::ChannelClosed(copy_bytes(payer), copy_bytes(caller), now));
        let ghost post = *self;
        proof {
            assert forall|k: int| 0 <= k < post.entries@.len() implies #[trigger] post.key_at(k) == pre.key_at(
                if k < gi { k } else { k + 1 },
            ) && post.entries@[k] == pre.entries@[if k < gi { k } else { k + 1 }] by {}
            assert(post.wf()) by {
                assert forall|a: int, b: int|
                    #![trigger post.key_at(a), post.key_at(b)]
                    0 <= a < post.entries@.len() && 0 <= b < post.entries@.len() && a != b
                        implies post.key_at(a) != post.key_at(b) by {
                    let a1 = if a < gi { a } else { a + 1 };
                    let b1 = if b < gi { b } else { b + 1 };
                    assert(pre.key_at(a1) != pre.key_at(b1));
                }
                assert forall|a: int| 0 <= a < post.entries@.len() implies #[trigger] post.key_at(a).0 != post.key_at(a).1 by {
                    let a1 = if a < gi { a } else { a + 1 };
                    assert(pre.key_at(a1).0 != pre.key_at(a1).1);
                }
            }
            assert forall|p: Seq<u8>, q: Seq<u8>|
                #[trigger] post.has_channel(p, q) == (pre.has_channel(p, q) && !(p == payer@ && q == caller@)) by {
                if post.has_channel(p, q) {
                    let k = choose|k: int| 0 <= k < post.entries@.len() && #[trigger] post.key_at(k) == (p, q);
                    let k1 = if k < gi { k } else { k + 1 };
                    assert(pre.key_at(k1) == (p, q));
                    assert(pre.key_at(k1) != pre.key_at(gi));
                }
                if pre.has_channel(p, q) && !(p == payer@ && q == caller@) {
                    let j = choose|j: int| 0 <= j < pre.entries@.len() && #[trigger] pre.key_at(j) == (p, q);
                    let j1 = if j < gi { j } else { j - 1 };
                    assert(post.key_at(j1) == (p, q));
                }
            }
            assert forall|p: Seq<u8>, q: Seq<u8>|
                post.has_channel(p, q) implies #[trigger] post.opened_at(p, q) == pre.opened_at(p, q) by {
                let k = choose|k: int| 0 <= k < post.entries@.len() && #[trigger] post.key_at(k) == (p, q);
                let k1 = if k < gi { k } else { k + 1 };
                post.lemma_entry_of(k);
                pre.lemma_entry_of(k1);
            }
            assert forall|p: Seq<u8>, q: Seq<u8>, n: u32|
                #[trigger] post.consumed(p, q, n) == (pre.consumed(p, q, n) && !(p == payer@ && q == caller@)) by {
                if post.consumed(p, q, n) {
                    let k = choose|k: int|
                        0 <= k < post.entries@.len() && #[trigger] post.key_at(k) == (p, q)
                            && post.entries@[k].consumed@.contains(n);
                    let k1 = if k < gi { k } else { k + 1 };
                    assert(pre.key_at(k1) == (p, q));
                    assert(pre.key_at(k1) != pre.key_at(gi));
                }
                if pre.consumed(p, q, n) && !(p == payer@ && q == caller@) {
                    let j = choose|j: int|
                        0 <= j < pre.entries@.len() && #[trigger] pre.key_at(j) == (p, q)
                            && pre.entries@[j].consumed@.contains(n);
                    let j1 = if j < gi { j } else { j - 1 };
                    assert(post.key_at(j1) == (p, q));
                }
            }
            assert(post.event_log() =~= pre.event_log().push(EventView::ChannelClosed(payer@, caller@, now)));
        }
        Ok(())
    }

    /// The digest that the payer signs for a claim of `amount` under `nonce`
    /// by the payee `address`.
    pub fn construct_byte_array_and_hash(address: &Vec<u8>, nonce: u32, amount: u128) -> (r: [u8; 32])
        ensures
            r@ == commitment_digest(address@, nonce, amount),
    {
        let data = commitment(address, nonce, amount);
        digest(&data)
    }

    /// Checks that `signature` is the signature by `sender`'s key of the
    /// commitment digest of (`receiver`, `nonce`, `amount`).
    pub fn verify_signature(
        sender: &Vec<u8>,
        receiver: &Vec<u8>,
        nonce: u32,
        amount: u128,
        signature: &Vec<u8>,
    ) -> (r: Result<(), ChannelError>)
        ensures
            r == signature_check(sender@, receiver@, nonce, amount, signature@),
    {
        if sender.len() != 33 {
            return Err(ChannelError::InvalidAccountKeyEncoding);
        }
        let key = match parse_compressed_key(sender.as_slice()) {
            None => return Err(ChannelError::InvalidAccountKeyEncoding),
            Some(k) => k,
        };
        let sig = match parse_signature(signature.as_slice()) {
            None => return Err(ChannelError::InvalidSignatureEncoding),
            Some(s) => s,
        };
        let hash = Self::construct_byte_array_and_hash(receiver, nonce, amount);
        if ecdsa_verify(&hash, &sig, &key) {
            Ok(())
        } else {
            Err(ChannelError::SignatureVerificationFailed)
        }
    }

    /// Settles a claim by `caller` (the payee) of `amount` from `payer` under
    /// sequence number `nonce`. The transfer is asked for only once every
    /// check has passed, and the sequence number is marked settled only once
    /// the transfer has succeeded.
    pub fn claim_payment<C: Currency>(
        &mut self,
        currency: &mut C,
        caller: &Vec<u8>,
        payer: &Vec<u8>,
        nonce: u32,
        amount: u128,
        signature: &Vec<u8>,
    ) -> (r: Result<(), ChannelError>)
        requires
            old(self).wf(),
        ensures
            final(self).wf(),
            !old(self).has_channel(payer@, caller@) ==> r == Err::<(), ChannelError>(ChannelError::ChannelNotFound),
            old(self).claim_check(payer@, caller@, nonce, amount, signature@) is Err ==> {
                &&& r == old(self).claim_check(payer@, caller@, nonce, amount, signature@)
                &&& *final(self) == *old(self)
                &&& *final(currency) == *old(currency)
            },
            old(self).claim_check(payer@, caller@, nonce, amount, signature@) is Ok ==> {
                ||| r is Ok && after_claim(*old(self), *final(self), payer@, caller@, nonce, amount)
                ||| r == Err::<(), ChannelError>(ChannelError::InsufficientFunds) && *final(self) == *old(self)
            },
            r is Ok ==> final(currency).moved(*old(currency), payer@, caller@, amount),
            r is Err ==> *final(currency) == *old(currency),
            r == Err::<(), ChannelError>(ChannelError::InsufficientFunds) ==> old(currency).refuses(
                payer@,
                caller@,
                amount,
            ),
    {
        let i = match self.find(payer, caller) {
            None => return Err(ChannelError::ChannelNotFound),
            Some(i) => i,
        };
        proof {
            self.lemma_entry_of(i as int);
        }
        if contains_nonce(&self.entries[i].consumed, nonce) {
            return Err(ChannelError::NonceAlreadyConsumed);
        }
        match Self::verify_signature(payer, caller, nonce, amount, signature) {
            Err(e) => return Err(e),
            Ok(()) => {},
        }
        match currency.transfer(payer, caller, amount) {
            Err(_) => return Err(ChannelError::InsufficientFunds),
            Ok(()) => {},
        }
        let ghost pre = *self;
        let ghost gi = i as int;
        let mut entry = self.entries.remove(i);
        entry.consumed.push(nonce);
        self.entries.insert(i, entry);
        self.events.push(Event::ClaimPayment(copy_bytes(payer), copy_bytes(caller), amount));
        let ghost post = *self;
        proof {
            assert forall|k: int| 0 <= k < post.entries@.len() implies #[trigger] post.key_at(k) == pre.key_at(k)
                && (k != gi ==> post.entries@[k] == pre.entries@[k]) by {}
            assert(post.entries@[gi].consumed@ == pre.entries@[gi].consumed@.push(nonce));
            assert(post.wf()) by {
                assert forall|a: int, b: int|
                    #![trigger post.key_at(a), post.key_at(b)]
                    0 <= a < post.entries@.len() && 0 <= b < post.entries@.len() && a != b
                        implies post.key_at(a) != post.key_at(b) by {
                    assert(pre.key_at(a) != pre.key_at(b));
                }
                assert forall|a: int| 0 <= a < post.entries@.len() implies #[trigger] post.key_at(a).0 != post.key_at(a).1 by {
                    assert(pre.key_at(a).0 != pre.key_at(a).1);
                }
            }
            assert forall|p: Seq<u8>, q: Seq<u8>| #[trigger] post.has_channel(p, q) == pre.has_channel(p, q) by {
                if post.has_channel(p, q) {
                    let k = choose|k: int| 0 <= k < post.entries@.len() && #[trigger] post.key_at(k) == (p, q);
                    assert(pre.key_at(k) == (p, q));
                }
                if pre.has_channel(p, q) {
                    let k = choose|k: int| 0 <= k < pre.entries@.len() && #[trigger] pre.key_at(k) == (p, q);
                    assert(post.key_at(k) == (p, q));
                }
            }
            assert forall|p: Seq<u8>, q: Seq<u8>|
                pre.has_channel(p, q) implies #[trigger] post.opened_at(p, q) == pre.opened_at(p, q) by {
                let k = choose|k: int| 0 <= k < pre.entries@.len() && #[trigger] pre.key_at(k) == (p, q);
                pre.lemma_entry_of(k);
                post.lemma_entry_of(k);
            }
            assert forall|p: Seq<u8>, q: Seq<u8>, n: u32|
                #[trigger] post.consumed(p, q, n) == (pre.consumed(p, q, n) || (p == payer@ && q == caller@
                    && n == nonce)) by {
                if pre.has_channel(p, q) {
                    let k = choose|k: int| 0 <= k < pre.entries@.len() && #[trigger] pre.key_at(k) == (p, q);
                    pre.lemma_entry_of(k);
                    post.lemma_entry_of(k);
                    if k == gi {
                        assert(post.entries@[gi].consumed@.contains(n) == (pre.entries@[gi].consumed@.contains(n)
                            || n == nonce)) by {
                            if n == nonce {
                                assert(post.entries@[gi].consumed@[pre.entries@[gi].consumed@.len() as int] == nonce);
                            }
                            if post.entries@[gi].consumed@.contains(n) {
                                let m = choose|m: int| 0 <= m < post.entries@[gi].consumed@.len() && post.entries@[gi].consumed@[m] == n;
                                if m < pre.entries@[gi].consumed@.len() {
                                    assert(pre.entries@[gi].consumed@[m] == n);
                                }
                            }
                            if pre.entries@[gi].consumed@.contains(n) {
                                let m = choose|m: int| 0 <= m < pre.entries@[gi].consumed@.len() && pre.entries@[gi].consumed@[m] == n;
                                assert(post.entries@[gi].consumed@[m] == n);
                            }
                        }
                    } else {
                        assert(pre.key_at(k) != pre.key_at(gi));
                    }
                } else {
                    if post.consumed(p, q, n) {
                        let k = choose|k: int|
                            0 <= k < post.entries@.len() && #[trigger] post.key_at(k) == (p, q)
                                && post.entries@[k].consumed@.contains(n);
                        assert(pre.key_at(k) == (p, q));
                    }
                    if pre.consumed(p, q, n) {
                        let k = choose|k: int|
                            0 <= k < pre.entries@.len() && #[trigger] pre.key_at(k) == (p, q)
                                && pre.entries@[k].consumed@.contains(n);
                    }
                    assert(!(p == payer@ && q == caller@)) by {
                        assert(pre.key_at(gi) == (payer@, caller@));
                    }
                }
            }
            assert(post.event_log() =~= pre.event_log().push(EventView::ClaimPayment(payer@, caller@, amount)));
        }
        Ok(())
    }
    /// The record of the channel from `payer` to `payee`, if one is open.
    pub fn get_channel(&self, payer: &Vec<u8>, payee: &Vec<u8>) -> (r: Option<Chan>)
        requires
            self.wf(),
        ensures
            r.is_some() == self.has_channel(payer@, payee@),
            r matches Some(c) ==> c.sender@ == payer@ && c.receiver@ == payee@ && c.expiration
                == self.opened_at(payer@, payee@),
    {
        match self.find(payer, payee) {
            None => None,
            Some(i) => {
                proof {
                    self.lemma_entry_of(i as int);
                }
                let e = &self.entries[i];
                Some(
                    Chan {
                        sender: copy_bytes(&e.chan.sender),
                        receiver: copy_bytes(&e.chan.receiver),
                        expiration: e.chan.expiration,
                    },
                )
            },
        }
    }

    /// Whether `nonce` was settled on the open channel from `payer` to `payee`.
    pub fn get_nonce(&self, payer: &Vec<u8>, payee: &Vec<u8>, nonce: u32) -> (r: bool)
        requires
            self.wf(),
        ensures
            r == self.consumed(payer@, payee@, nonce),
    {
        match self.find(payer, payee) {
            None => {
                proof {
                    if self.consumed(payer@, payee@, nonce) {
                        let k = choose|k: int|
                            0 <= k < self.entries@.len() && #[trigger] self.key_at(k) == (payer@, payee@)
                                && self.entries@[k].consumed@.contains(nonce);
                    }
                }
                false
            },
            Some(i) => {
                proof {
                    self.lemma_entry_of(i as int);
                }
                contains_nonce(&self.entries[i].consumed, nonce)
            },
        }
    }

    /// The events emitted so far, oldest first.
    pub fn events(&self) -> (r: &Vec<Event>)
        ensures
            r@.map_values(|e: Event| e@) == self.event_log(),
    {
        &self.events
    }
}

} // verus!
