//! An in-memory balance store that settles claims.
use vstd::prelude::*;

use crate::channel::{bytes_eq, copy_bytes, Currency};

verus! {

/// A journal entry: `id` holds `free` from this entry on.
struct Entry {
    id: Vec<u8>,
    free: u128,
}

/// The balance of `who` after the journal `s`: its latest entry, or zero.
spec fn latest(s: Seq<Entry>, who: Seq<u8>) -> nat
    decreases s.len(),
{
    if s.len() == 0 {
        0
    } else if s.last().id@ == who {
        s.last().free as nat
    } else {
        latest(s.drop_last(), who)
    }
}

/// Free balances of accounts, kept as a journal in which an account's latest
/// entry wins. An account with no entry holds nothing.
pub struct Balances {
    journal: Vec<Entry>,
}

impl Balances {
    /// What `who` holds.
    pub closed spec fn balance(&self, who: Seq<u8>) -> nat {
        latest(self.journal@, who)
    }

    /// A store in which every account holds nothing.
    pub fn new() -> (b: Balances)
        ensures
            forall|w: Seq<u8>| #[trigger] b.balance(w) == 0,
    {
        Balances { journal: Vec::new() }
    }

    /// What `who` holds.
    pub fn free_balance(&self, who: &Vec<u8>) -> (r: u128)
        ensures
            r as nat == self.balance(who@),
    {
        let mut i: usize = self.journal.len();
        assert(self.journal@.take(i as int) =~= self.journal@);
        while i > 0
            invariant
                i <= self.journal@.len(),
                latest(self.journal@.take(i as int), who@) == latest(self.journal@, who@),
            decreases i,
        {
            assert(self.journal@.take(i as int).drop_last() =~= self.journal@.take(i - 1));
            if bytes_eq(&self.journal[i - 1].id, who) {
                return self.journal[i - 1].free;
            }
            i = i - 1;
        }
        0
    }

    /// Sets what `who` holds to `amount`, leaving every other account as it was.
    pub fn set_balance(&mut self, who: &Vec<u8>, amount: u128)
        ensures
            final(self).balance(who@) == amount as nat,
            forall|w: Seq<u8>| w != who@ ==> #[trigger] final(self).balance(w) == old(self).balance(w),
    {
        let ghost pre = self.journal@;
        self.journal.push(Entry { id: copy_bytes(who), free: amount });
        assert(self.journal@.drop_last() =~= pre);
    }
}

impl Currency for Balances {
    open spec fn moved(&self, pre: Self, from: Seq<u8>, to: Seq<u8>, amount: u128) -> bool {
        if from == to {
            &&& pre.balance(from) >= amount
            &&& forall|w: Seq<u8>| #[trigger] self.balance(w) == pre.balance(w)
        } else {
            &&& self.balance(from) + amount == pre.balance(from)
            &&& self.balance(to) == pre.balance(to) + amount
            &&& forall|w: Seq<u8>| w != from && w != to ==> #[trigger] self.balance(w) == pre.balance(w)
        }
    }

    open spec fn refuses(&self, from: Seq<u8>, to: Seq<u8>, amount: u128) -> bool {
        ||| self.balance(from) < amount
        ||| from != to && self.balance(to) + amount > u128::MAX
    }

    fn transfer(&mut self, from: &Vec<u8>, to: &Vec<u8>, amount: u128) -> (r: Result<(), ()>) {
        let have = self.free_balance(from);
        if have < amount {
            return Err(());
        }
        if bytes_eq(from, to) {
            return Ok(());
        }
        let to_have = self.free_balance(to);
        if to_have > u128::MAX - amount {
            return Err(());
        }
        self.set_balance(from, have - amount);
        self.set_balance(to, to_have + amount);
        Ok(())
    }
}

} // verus!
