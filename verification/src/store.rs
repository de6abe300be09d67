//! The state-transition core: id allocation, the ownership ledger and the
//! marketplace ledger.
//!
//! [`KittiesModule`] owns the four persisted tables exclusively. Each
//! public operation is one synchronous state transition, invoked by an
//! external dispatcher that has already authenticated the caller and
//! totally ordered all calls; the dispatcher also supplies the 16 random
//! bytes an operation consumes and emits notifications on success. Every
//! operation either commits fully or fails with one typed error and no
//! visible effect — except `exchange`, which consumes the listing it reads
//! even when it fails afterwards, exactly as documented on it.

use vstd::prelude::*;

use crate::errors::Error;
use crate::genome::Kitty;
use crate::genome::combine_genomes;
use crate::genome::spec_combined_genome;
use crate::tables::assoc_map_of;
use crate::tables::keys_unique;
use crate::tables::lemma_assoc_contains;
use crate::tables::lemma_assoc_push;
use crate::tables::lemma_assoc_remove;
use crate::tables::lemma_assoc_update;
use crate::tables::lemma_assoc_value;

verus! {

/// The registry: kitties by id (each with its one owning account), the id
/// counter, the listings, and the account balances.
pub struct KittiesModule {
    /// Ownership table, keyed by kitty id; the value is the owning
    /// account and the kitty itself. Keying by id makes "at most one
    /// owner per id" structural.
    kitties: Vec<(u32, (u64, Kitty))>,
    /// The next id to allocate; monotone, never reused.
    next_kitty_id: u32,
    /// Listings: a price present under an id means "for sale at that
    /// price".
    prices: Vec<(u32, u64)>,
    /// The marketplace's internal balance ledger, keyed by account.
    balances: Vec<(u64, u64)>,
}

/// Returns the position of the entry with the given key, if any.
fn find_u32_key<V>(entries: &Vec<(u32, V)>, key: u32) -> (r: Option<usize>)
    ensures
        match r {
            Some(i) => i < entries@.len() && entries@[i as int].0 == key,
            None => forall|i: int| 0 <= i < entries@.len() ==> (#[trigger] entries@[i]).0 != key,
        },
{
    let mut i: usize = 0;
    while i < entries.len()
        invariant
            i <= entries@.len(),
            forall|j: int| 0 <= j < i ==> (#[trigger] entries@[j]).0 != key,
        decreases entries@.len() - i,
    {
        if entries[i].0 == key {
            return Some(i);
        }
        i = i + 1;
    }
    None
}

/// Returns the position of the entry with the given key, if any.
fn find_u64_key<V>(entries: &Vec<(u64, V)>, key: u64) -> (r: Option<usize>)
    ensures
        match r {
            Some(i) => i < entries@.len() && entries@[i as int].0 == key,
            None => forall|i: int| 0 <= i < entries@.len() ==> (#[trigger] entries@[i]).0 != key,
        },
{
    let mut i: usize = 0;
    while i < entries.len()
        invariant
            i <= entries@.len(),
            forall|j: int| 0 <= j < i ==> (#[trigger] entries@[j]).0 != key,
        decreases entries@.len() - i,
    {
        if entries[i].0 == key {
            return Some(i);
        }
        i = i + 1;
    }
    None
}

impl KittiesModule {
    /// The ownership table as a map: kitty id to (owner, kitty).
    pub closed spec fn kitties_map(self) -> Map<u32, (u64, Kitty)> {
        assoc_map_of(self.kitties@)
    }

    /// The listing table as a map: kitty id to asked price.
    pub closed spec fn prices_map(self) -> Map<u32, u64> {
        assoc_map_of(self.prices@)
    }

    /// The balance ledger as a map: account to balance.
    pub closed spec fn balances_map(self) -> Map<u64, u64> {
        assoc_map_of(self.balances@)
    }

    /// The id the allocator hands out next.
    pub closed spec fn next_id(self) -> u32 {
        self.next_kitty_id
    }

    /// Well-formedness: each table holds at most one entry per key, and
    /// every id in use lies below the allocator's counter, so a freshly
    /// allocated id never collides.
    pub closed spec fn wf(self) -> bool {
        &&& keys_unique(self.kitties@)
        &&& keys_unique(self.prices@)
        &&& keys_unique(self.balances@)
        &&& forall|i: int|
            0 <= i < self.kitties@.len() ==> (#[trigger] self.kitties@[i]).0
                < self.next_kitty_id
    }

    /// Whether `owner` currently holds the kitty with id `kitty_id`.
    pub open spec fn owns(self, owner: u64, kitty_id: u32) -> bool {
        self.kitties_map().contains_key(kitty_id) && self.kitties_map()[kitty_id].0 == owner
    }

    /// The kitty stored under an id, whoever owns it.
    pub open spec fn kitty_at(self, kitty_id: u32) -> Kitty {
        self.kitties_map()[kitty_id].1
    }

    /// Whether `owner` holds both named kitties and they are of different
    /// genders — all that breeding asks beyond a free id.
    pub open spec fn can_breed(self, owner: u64, kitty_id_1: u32, kitty_id_2: u32) -> bool {
        &&& self.owns(owner, kitty_id_1)
        &&& self.owns(owner, kitty_id_2)
        &&& self.kitty_at(kitty_id_1).spec_gender() != self.kitty_at(kitty_id_2).spec_gender()
    }

    /// An empty registry: no kitties, no listings, no balances, counter
    /// at zero.
    pub fn new() -> (s: Self)
        ensures
            s.wf(),
            s.next_id() == 0,
            s.kitties_map() == Map::<u32, (u64, Kitty)>::empty(),
            s.prices_map() == Map::<u32, u64>::empty(),
            s.balances_map() == Map::<u64, u64>::empty(),
    {
        KittiesModule {
            kitties: Vec::new(),
            next_kitty_id: 0,
            prices: Vec::new(),
            balances: Vec::new(),
        }
    }

    /// The id counter's current value.
    pub fn next_kitty_id(&self) -> (r: u32)
        ensures
            r == self.next_id(),
    {
        self.next_kitty_id
    }

    /// The kitty stored under `(owner, kitty_id)`, if any: `None` both
    /// when the id is unknown and when another account holds it.
    pub fn kitties(&self, owner: u64, kitty_id: u32) -> (r: Option<Kitty>)
        requires
            self.wf(),
        ensures
            self.owns(owner, kitty_id) ==> r == Some(self.kitty_at(kitty_id)),
            !self.owns(owner, kitty_id) ==> r is None,
    {
        match find_u32_key(&self.kitties, kitty_id) {
            Some(i) => {
                proof {
                    lemma_assoc_value(self.kitties@, i as int);
                }
                let entry = self.kitties[i];
                if entry.1.0 == owner {
                    Some(entry.1.1)
                } else {
                    None
                }
            },
            None => {
                proof {
                    lemma_assoc_contains(self.kitties@, kitty_id);
                }
                None
            },
        }
    }

    /// Whether `owner` holds `kitty_id`.
    pub fn contains_kitty(&self, owner: u64, kitty_id: u32) -> (r: bool)
        requires
            self.wf(),
        ensures
            r == self.owns(owner, kitty_id),
    {
        self.kitties(owner, kitty_id).is_some()
    }

    /// The asked price of a listed kitty, `None` when it is not listed.
    pub fn kitty_price(&self, kitty_id: u32) -> (r: Option<u64>)
        requires
            self.wf(),
        ensures
            self.prices_map().contains_key(kitty_id) ==> r == Some(self.prices_map()[kitty_id]),
            !self.prices_map().contains_key(kitty_id) ==> r is None,
    {
        match find_u32_key(&self.prices, kitty_id) {
            Some(i) => {
                proof {
                    lemma_assoc_value(self.prices@, i as int);
                }
                Some(self.prices[i].1)
            },
            None => {
                proof {
                    lemma_assoc_contains(self.prices@, kitty_id);
                }
                None
            },
        }
    }

    /// An account's balance record, `None` when it has none.
    pub fn balance(&self, account: u64) -> (r: Option<u64>)
        requires
            self.wf(),
        ensures
            self.balances_map().contains_key(account) ==> r == Some(self.balances_map()[account]),
            !self.balances_map().contains_key(account) ==> r is None,
    {
        match find_u64_key(&self.balances, account) {
            Some(i) => {
                proof {
                    lemma_assoc_value(self.balances@, i as int);
                }
                Some(self.balances[i].1)
            },
            None => {
                proof {
                    lemma_assoc_contains(self.balances@, account);
                }
                None
            },
        }
    }

    /// Writes an account's balance outright, as genesis storage does when
    /// the system starts; no dispatched operation creates balance records.
    pub fn set_balance(&mut self, account: u64, amount: u64)
        requires
            old(self).wf(),
        ensures
            final(self).wf(),
            final(self).balances_map() == old(self).balances_map().insert(account, amount),
            final(self).kitties_map() == old(self).kitties_map(),
            final(self).prices_map() == old(self).prices_map(),
            final(self).next_id() == old(self).next_id(),
    {
        match find_u64_key(&self.balances, account) {
            Some(i) => {
                proof {
                    lemma_assoc_value(self.balances@, i as int);
                    lemma_assoc_update(self.balances@, i as int, (account, amount));
                }
                self.balances[i] = (account, amount);
            },
            None => {
                proof {
                    lemma_assoc_push(self.balances@, (account, amount));
                }
                self.balances.push((account, amount));
            },
        }
    }

    /// Writes a listing outright, as genesis storage does when the system
    /// starts. The dispatched operations never create a first listing:
    /// `set_price` requires one to exist already.
    pub fn set_listing(&mut self, kitty_id: u32, price: u64)
        requires
            old(self).wf(),
        ensures
            final(self).wf(),
            final(self).prices_map() == old(self).prices_map().insert(kitty_id, price),
            final(self).kitties_map() == old(self).kitties_map(),
            final(self).balances_map() == old(self).balances_map(),
            final(self).next_id() == old(self).next_id(),
    {
        match find_u32_key(&self.prices, kitty_id) {
            Some(i) => {
                proof {
                    lemma_assoc_value(self.prices@, i as int);
                    lemma_assoc_update(self.prices@, i as int, (kitty_id, price));
                }
                self.prices[i] = (kitty_id, price);
            },
            None => {
                proof {
                    lemma_assoc_push(self.prices@, (kitty_id, price));
                }
                self.prices.push((kitty_id, price));
            },
        }
    }

    /// Moves the id counter forward, as genesis storage does when the
    /// system starts; the counter may never fall back onto an id in use.
    pub fn set_next_kitty_id(&mut self, next: u32)
        requires
            old(self).wf(),
            forall|id: u32| old(self).kitties_map().contains_key(id) ==> id < next,
        ensures
            final(self).wf(),
            final(self).next_id() == next,
            final(self).kitties_map() == old(self).kitties_map(),
            final(self).prices_map() == old(self).prices_map(),
            final(self).balances_map() == old(self).balances_map(),
    {
        proof {
            assert forall|i: int| 0 <= i < self.kitties@.len() implies (
            #[trigger] self.kitties@[i]).0 < next by {
                let k = self.kitties@[i].0;
                lemma_assoc_contains(self.kitties@, k);
                assert(exists|j: int|
                    0 <= j < self.kitties@.len() && (#[trigger] self.kitties@[j]).0 == k) by {
                    assert((self.kitties@[i]).0 == k);
                }
                assert(old(self).kitties_map().contains_key(k));
            }
        }
        self.next_kitty_id = next;
    }

    /// Returns the counter's value and moves it one forward; fails with
    /// `KittiesIdOverflow`, leaving the counter untouched, when no larger
    /// id exists.
    fn get_next_kitty_id(&mut self) -> (r: Result<u32, Error>)
        ensures
            old(self).next_id() == u32::MAX ==> r == Err::<u32, Error>(Error::KittiesIdOverflow)
                && *final(self) == *old(self),
            old(self).next_id() < u32::MAX ==> r == Ok::<u32, Error>(old(self).next_id())
                && final(self).next_id() == old(self).next_id() + 1,
            final(self).kitties@ == old(self).kitties@,
            final(self).prices@ == old(self).prices@,
            final(self).balances@ == old(self).balances@,
    {
        if self.next_kitty_id == u32::MAX {
            Err(Error::KittiesIdOverflow)
        } else {
            let current_id = self.next_kitty_id;
            self.next_kitty_id = current_id + 1;
            Ok(current_id)
        }
    }

    /// Creates a kitty from the 16 random bytes the dispatcher supplies
    /// and stores it under `owner` and a freshly allocated id.
    pub fn create(&mut self, owner: u64, dna: [u8; 16]) -> (r: Result<(u32, Kitty), Error>)
        requires
            old(self).wf(),
        ensures
            final(self).wf(),
            !old(self).kitties_map().contains_key(old(self).next_id()),
            old(self).next_id() == u32::MAX ==> r == Err::<(u32, Kitty), Error>(
                Error::KittiesIdOverflow,
            ) && *final(self) == *old(self),
            old(self).next_id() < u32::MAX ==> r == Ok::<(u32, Kitty), Error>(
                (old(self).next_id(), Kitty(dna)),
            ),
            old(self).next_id() < u32::MAX ==> final(self).kitties_map() == old(
                self,
            ).kitties_map().insert(old(self).next_id(), (owner, Kitty(dna))),
            old(self).next_id() < u32::MAX ==> final(self).next_id() == old(self).next_id() + 1,
            final(self).prices_map() == old(self).prices_map(),
            final(self).balances_map() == old(self).balances_map(),
    {
        proof {
            lemma_assoc_contains(self.kitties@, self.next_kitty_id);
        }
        let kitty_id = match self.get_next_kitty_id() {
            Ok(id) => id,
            Err(e) => {
                return Err(e);
            },
        };
        let kitty = Kitty(dna);
        proof {
            lemma_assoc_push(self.kitties@, (kitty_id, (owner, kitty)));
        }
        self.kitties.push((kitty_id, (owner, kitty)));
        Ok((kitty_id, kitty))
    }

    /// Breeds a child from two kitties `owner` holds. Both parents must
    /// exist under `owner` and be of different genders; the child's genome
    /// combines the parents' genomes bit by bit under the random
    /// `selector` the dispatcher supplies, and is stored under `owner`
    /// and a freshly allocated id.
    pub fn breed(
        &mut self,
        owner: u64,
        kitty_id_1: u32,
        kitty_id_2: u32,
        selector: [u8; 16],
    ) -> (r: Result<(u32, Kitty), Error>)
        requires
            old(self).wf(),
        ensures
            final(self).wf(),
            !old(self).kitties_map().contains_key(old(self).next_id()),
            !old(self).owns(owner, kitty_id_1) ==> r == Err::<(u32, Kitty), Error>(
                Error::InvalidKittyId,
            ) && *final(self) == *old(self),
            old(self).owns(owner, kitty_id_1) && !old(self).owns(owner, kitty_id_2) ==> r
                == Err::<(u32, Kitty), Error>(Error::InvalidKittyId) && *final(self) == *old(self),
            old(self).owns(owner, kitty_id_1) && old(self).owns(owner, kitty_id_2) && old(
                self,
            ).kitty_at(kitty_id_1).spec_gender() == old(self).kitty_at(kitty_id_2).spec_gender()
                ==> r == Err::<(u32, Kitty), Error>(Error::SameGender) && *final(self) == *old(
                self,
            ),
            old(self).can_breed(owner, kitty_id_1, kitty_id_2) && old(self).next_id() == u32::MAX
                ==> r == Err::<(u32, Kitty), Error>(Error::KittiesIdOverflow) && *final(self)
                == *old(self),
            old(self).can_breed(owner, kitty_id_1, kitty_id_2) && old(self).next_id() < u32::MAX
                ==> r is Ok && r->Ok_0.0 == old(self).next_id() && spec_combined_genome(
                old(self).kitty_at(kitty_id_1).0,
                old(self).kitty_at(kitty_id_2).0,
                selector,
                r->Ok_0.1.0,
            ) && final(self).kitties_map() == old(self).kitties_map().insert(
                old(self).next_id(),
                (owner, r->Ok_0.1),
            ) && final(self).next_id() == old(self).next_id() + 1,
            final(self).prices_map() == old(self).prices_map(),
            final(self).balances_map() == old(self).balances_map(),
    {
        proof {
            lemma_assoc_contains(self.kitties@, self.next_kitty_id);
        }
        let kitty1 = match self.kitties(owner, kitty_id_1) {
            Some(k) => k,
            None => {
                return Err(Error::InvalidKittyId);
            },
        };
        let kitty2 = match self.kitties(owner, kitty_id_2) {
            Some(k) => k,
            None => {
                return Err(Error::InvalidKittyId);
            },
        };
        if kitty1.gender() == kitty2.gender() {
            return Err(Error::SameGender);
        }
        let kitty_id = match self.get_next_kitty_id() {
            Ok(id) => id,
            Err(e) => {
                return Err(e);
            },
        };
        let new_dna = combine_genomes(&kitty1.0, &kitty2.0, &selector);
        let new_kitty = Kitty(new_dna);
        proof {
            lemma_assoc_push(self.kitties@, (kitty_id, (owner, new_kitty)));
        }
        self.kitties.push((kitty_id, (owner, new_kitty)));
        Ok((kitty_id, new_kitty))
    }

    /// Moves a kitty from `sender` to `to`. A transfer to oneself only
    /// validates that the kitty exists and changes nothing; otherwise the
    /// kitty leaves `sender` and appears under `to` in one atomic step.
    pub fn transfer(&mut self, sender: u64, to: u64, kitty_id: u32) -> (r: Result<(), Error>)
        requires
            old(self).wf(),
        ensures
            final(self).wf(),
            !old(self).owns(sender, kitty_id) ==> r == Err::<(), Error>(Error::InvalidKittyId)
                && *final(self) == *old(self),
            old(self).owns(sender, kitty_id) && sender == to ==> r == Ok::<(), Error>(())
                && *final(self) == *old(self),
            old(self).owns(sender, kitty_id) && sender != to ==> r == Ok::<(), Error>(())
                && final(self).kitties_map() == old(self).kitties_map().insert(
                kitty_id,
                (to, old(self).kitty_at(kitty_id)),
            ) && final(self).next_id() == old(self).next_id(),
            final(self).prices_map() == old(self).prices_map(),
            final(self).balances_map() == old(self).balances_map(),
    {
        let i = match find_u32_key(&self.kitties, kitty_id) {
            Some(i) => i,
            None => {
                proof {
                    lemma_assoc_contains(self.kitties@, kitty_id);
                }
                return Err(Error::InvalidKittyId);
            },
        };
        proof {
            lemma_assoc_value(self.kitties@, i as int);
        }
        let entry = self.kitties[i];
        if entry.1.0 != sender {
            return Err(Error::InvalidKittyId);
        }
        if sender == to {
            return Ok(());
        }
        proof {
            lemma_assoc_update(self.kitties@, i as int, (kitty_id, (to, entry.1.1)));
        }
        self.kitties[i] = (kitty_id, (to, entry.1.1));
        proof {
            assert forall|j: int| 0 <= j < self.kitties@.len() implies (
            #[trigger] self.kitties@[j]).0 < self.next_kitty_id by {
                assert(self.kitties@[j].0 == old(self).kitties@[j].0);
            }
        }
        Ok(())
    }

    /// The conditions under which an exchange pays out: distinct parties,
    /// a listing for the kitty, and a balance record for the counterparty
    /// that exceeds the asked price. (The operation gates on the
    /// counterparty's balance, not the initiator's.)
    pub open spec fn exchange_payable(self, sender: u64, receiver: u64, kitty_id: u32) -> bool {
        &&& sender != receiver
        &&& self.prices_map().contains_key(kitty_id)
        &&& self.balances_map().contains_key(receiver)
        &&& self.prices_map()[kitty_id] < self.balances_map()[receiver]
    }

    /// Whether the balance movement of a paying exchange stays in range:
    /// the initiator's record, when there is one, covers the price, and
    /// crediting the counterparty does not overflow.
    pub open spec fn exchange_arith_ok(self, sender: u64, receiver: u64, kitty_id: u32) -> bool {
        &&& self.balances_map().contains_key(sender) ==> self.prices_map()[kitty_id]
            <= self.balances_map()[sender]
        &&& self.balances_map()[receiver] + self.prices_map()[kitty_id] <= u64::MAX
    }

    /// The balance ledger after a paying exchange: the price leaves the
    /// initiator's record (when one exists; otherwise nothing is debited)
    /// and lands on the counterparty's.
    pub open spec fn balances_after_exchange(
        self,
        sender: u64,
        receiver: u64,
        price: u64,
    ) -> Map<u64, u64> {
        let debited = if self.balances_map().contains_key(sender) {
            self.balances_map().insert(sender, (self.balances_map()[sender] - price) as u64)
        } else {
            self.balances_map()
        };
        debited.insert(receiver, (self.balances_map()[receiver] + price) as u64)
    }

    /// Overwrites the price of a kitty `setter` holds and returns the
    /// price it replaced. A kitty with no listing yet cannot be priced
    /// here: the operation requires a previous price and fails with
    /// `NotForSale` otherwise, so a first listing never arises through
    /// this interface.
    pub fn set_price(&mut self, setter: u64, kitty_id: u32, new_price: u64) -> (r: Result<
        u64,
        Error,
    >)
        requires
            old(self).wf(),
        ensures
            final(self).wf(),
            !old(self).owns(setter, kitty_id) ==> r == Err::<u64, Error>(Error::InvalidKittyId)
                && *final(self) == *old(self),
            old(self).owns(setter, kitty_id) && !old(self).prices_map().contains_key(kitty_id)
                ==> r == Err::<u64, Error>(Error::NotForSale) && *final(self) == *old(self),
            old(self).owns(setter, kitty_id) && old(self).prices_map().contains_key(kitty_id)
                ==> r == Ok::<u64, Error>(old(self).prices_map()[kitty_id]) && final(self).prices_map() == old(self).prices_map().insert(kitty_id, new_price),
            final(self).kitties_map() == old(self).kitties_map(),
            final(self).balances_map() == old(self).balances_map(),
            final(self).next_id() == old(self).next_id(),
    {
        let is_mine = self.contains_kitty(setter, kitty_id);
        if !is_mine {
            return Err(Error::InvalidKittyId);
        }
        let i = match find_u32_key(&self.prices, kitty_id) {
            Some(i) => i,
            None => {
                proof {
                    lemma_assoc_contains(self.prices@, kitty_id);
                }
                return Err(Error::NotForSale);
            },
        };
        proof {
            lemma_assoc_value(self.prices@, i as int);
            lemma_assoc_update(self.prices@, i as int, (kitty_id, new_price));
        }
        let price = self.prices[i].1;
        self.prices[i] = (kitty_id, new_price);
        Ok(price)
    }

    /// Exchanges a listed kitty between the initiating `sender` and the
    /// `receiver`, against the balance ledger.
    ///
    /// The listing is read destructively: once it is found, it is gone,
    /// even when the exchange then fails — a failed exchange permanently
    /// unlists the kitty. When it pays out, the price moves from the
    /// initiator's balance record (if any) to the counterparty's, and the
    /// kitty leaves the initiator's ownership without landing anywhere.
    /// The balance arithmetic is checked: an exchange whose debit would
    /// underflow or whose credit would overflow fails with
    /// `NotEnoughBalance` before any balance moves.
    pub fn exchange(&mut self, sender: u64, receiver: u64, kitty_id: u32) -> (r: Result<(), Error>)
        requires
            old(self).wf(),
            old(self).exchange_payable(sender, receiver, kitty_id) && old(self).exchange_arith_ok(
                sender,
                receiver,
                kitty_id,
            ) ==> old(self).owns(sender, kitty_id),
        ensures
            final(self).wf(),
            final(self).next_id() == old(self).next_id(),
            sender == receiver ==> r == Err::<(), Error>(Error::CannotExchangeWithYourself)
                && *final(self) == *old(self),
            sender != receiver && !old(self).prices_map().contains_key(kitty_id) ==> r
                == Err::<(), Error>(Error::NotForSale) && *final(self) == *old(self),
            sender != receiver && old(self).prices_map().contains_key(kitty_id) ==> final(self).prices_map() == old(self).prices_map().remove(kitty_id),
            sender != receiver && old(self).prices_map().contains_key(kitty_id) && !old(
                self,
            ).balances_map().contains_key(receiver) ==> r == Err::<(), Error>(Error::NotForSale)
                && final(self).kitties_map() == old(self).kitties_map() && final(self).balances_map() == old(self).balances_map(),
            sender != receiver && old(self).prices_map().contains_key(kitty_id) && old(
                self,
            ).balances_map().contains_key(receiver) && !(old(self).prices_map()[kitty_id] < old(
                self,
            ).balances_map()[receiver]) ==> r == Err::<(), Error>(Error::NotEnoughBalance)
                && final(self).kitties_map() == old(self).kitties_map() && final(self).balances_map() == old(self).balances_map(),
            old(self).exchange_payable(sender, receiver, kitty_id) && !old(self).exchange_arith_ok(
                sender,
                receiver,
                kitty_id,
            ) ==> r == Err::<(), Error>(Error::NotEnoughBalance) && final(self).kitties_map()
                == old(self).kitties_map() && final(self).balances_map() == old(
                self,
            ).balances_map(),
            old(self).exchange_payable(sender, receiver, kitty_id) && old(self).exchange_arith_ok(
                sender,
                receiver,
                kitty_id,
            ) ==> r == Ok::<(), Error>(()) && final(self).kitties_map() == old(
                self,
            ).kitties_map().remove(kitty_id) && final(self).balances_map() == old(
                self,
            ).balances_after_exchange(sender, receiver, old(self).prices_map()[kitty_id]),
    {
        if sender == receiver {
            return Err(Error::CannotExchangeWithYourself);
        }
        let my_balance = self.balance(receiver);
        let pi = match find_u32_key(&self.prices, kitty_id) {
            Some(i) => i,
            None => {
                proof {
                    lemma_assoc_contains(self.prices@, kitty_id);
                }
                return Err(Error::NotForSale);
            },
        };
        proof {
            lemma_assoc_value(self.prices@, pi as int);
            lemma_assoc_remove(self.prices@, pi as int);
        }
        let price = self.prices[pi].1;
        self.prices.remove(pi);
        let money = match my_balance {
            Some(m) => m,
            None => {
                return Err(Error::NotForSale);
            },
        };
        if !(price < money) {
            return Err(Error::NotEnoughBalance);
        }
        if money > u64::MAX - price {
            return Err(Error::NotEnoughBalance);
        }
        let si = find_u64_key(&self.balances, sender);
        proof {
            lemma_assoc_contains(self.balances@, sender);
        }
        if let Some(i) = si {
            proof {
                lemma_assoc_value(self.balances@, i as int);
            }
            let sender_bal = self.balances[i].1;
            if sender_bal < price {
                return Err(Error::NotEnoughBalance);
            }
            proof {
                lemma_assoc_update(
                    self.balances@,
                    i as int,
                    (sender, (sender_bal - price) as u64),
                );
            }
            self.balances[i] = (sender, sender_bal - price);
        }
        let ri = match find_u64_key(&self.balances, receiver) {
            Some(i) => i,
            None => {
                proof {
                    lemma_assoc_contains(self.balances@, receiver);
                    assert(false);
                }
                return Err(Error::NotForSale);
            },
        };
        proof {
            lemma_assoc_value(self.balances@, ri as int);
        }
        let receiver_bal = self.balances[ri].1;
        proof {
            lemma_assoc_update(
                self.balances@,
                ri as int,
                (receiver, (receiver_bal + price) as u64),
            );
        }
        self.balances[ri] = (receiver, receiver_bal + price);
        let ki = match find_u32_key(&self.kitties, kitty_id) {
            Some(i) => i,
            None => {
                proof {
                    lemma_assoc_contains(self.kitties@, kitty_id);
                    assert(false);
                }
                return Err(Error::InvalidKittyId);
            },
        };
        proof {
            lemma_assoc_value(self.kitties@, ki as int);
            lemma_assoc_remove(self.kitties@, ki as int);
        }
        self.kitties.remove(ki);
        proof {
            assert forall|j: int| 0 <= j < self.kitties@.len() implies (
            #[trigger] self.kitties@[j]).0 < self.next_kitty_id by {
                let sj: int = if j < ki { j } else { j + 1 };
                assert(self.kitties@[j] == old(self).kitties@[sj]);
            }
        }
        Ok(())
    }
}

/// At most one owner holds any given kitty id at any time: the ownership
/// table keys each id to exactly one owning account, so two accounts that
/// both hold an id are the same account.
pub proof fn lemma_at_most_one_owner(s: KittiesModule, a: u64, b: u64, kitty_id: u32)
    requires
        s.owns(a, kitty_id),
        s.owns(b, kitty_id),
    ensures
        a == b,
{
}

/// An operation that stores a kitty under a freshly allocated id —
/// `create` and `breed`, whose contracts have exactly this shape — never
/// changes the owner of any id already in use.
pub proof fn lemma_fresh_insert_preserves_owners(
    pre: KittiesModule,
    post: KittiesModule,
    fresh_id: u32,
    owner: u64,
    kitty: Kitty,
)
    requires
        !pre.kitties_map().contains_key(fresh_id),
        post.kitties_map() == pre.kitties_map().insert(fresh_id, (owner, kitty)),
    ensures
        post.owns(owner, fresh_id),
        forall|o: u64, id: u32|
            id != fresh_id ==> (#[trigger] post.owns(o, id)) == pre.owns(o, id),
{
}

/// An operation that at most removes an id — `exchange`, whose contract
/// has exactly this shape — never hands any id to a new owner: whoever
/// owns an id afterwards owned it before, and the removed id is owned by
/// nobody. Together with `lemma_fresh_insert_preserves_owners`, `transfer`
/// is the only operation that moves an id from one owner to another.
pub proof fn lemma_remove_never_reassigns(pre: KittiesModule, post: KittiesModule, removed: u32)
    requires
        post.kitties_map() == pre.kitties_map().remove(removed),
    ensures
        forall|o: u64, id: u32| #[trigger] post.owns(o, id) ==> pre.owns(o, id),
        forall|o: u64| !(#[trigger] post.owns(o, removed)),
{
}

} // verus!
