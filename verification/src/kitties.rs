//! Record registry, ownership and pricing maps, lifecycle rules, and the
//! state-transition operations (create, breed, transfer, ask, buy, parameter
//! updates).
//!
//! Every operation validates its preconditions first and mutates state only
//! when all of them hold, so a failed operation returns its error with the
//! state unchanged — the one exception being the specified lazy delisting of
//! a dead record that `buy` discovers. The authenticated caller, the current
//! logical time (block height) and the random bytes are collaborator-provided
//! inputs and arrive as plain arguments; the currency collaborator is a trait
//! the embedding environment implements.

use crate::linked_item::{appended, removed, LinkedItem, LinkedList};
use vstd::prelude::*;

verus! {

/// A creature record: an immutable genetic payload and the logical time
/// (block height) at which it was created. A record's age at time `now` is
/// `now - create_block_number`.
#[derive(Clone, Copy, PartialEq, Eq, Debug)]
pub struct Kitty {
    pub dna: [u8; 16],
    pub create_block_number: u64,
}

/// The named condition on which an operation aborts, with no state change.
#[derive(Clone, Copy, PartialEq, Eq, Debug)]
pub enum Error {
    NotInitialized,
    AlreadyInitialized,
    InvalidParameters,
    Unauthorized,
    NotFound,
    Dead,
    IneligibleAge,
    SameParent,
    NotForSale,
    PriceTooLow,
    CounterOverflow,
    PaymentFailed,
}

/// The event a successful operation emits.
#[derive(Clone, Copy, PartialEq, Eq, Debug)]
pub enum Event {
    /// A record was created: (owner, id).
    Created(u64, u32),
    /// A record changed owner: (from, to, id).
    Transferred(u64, u64, u32),
    /// A record was listed or delisted: (owner, id, price).
    Ask(u64, u32, Option<u64>),
    /// A record was sold: (from, to, id, price).
    Sold(u64, u64, u32, u64),
}

/// The currency collaborator: moves `amount` from `from` to `to`, keeping
/// the paying account alive when asked, or reports failure, which aborts the
/// surrounding purchase. The embedding environment supplies the
/// implementation; nothing is assumed about it.
pub trait Currency {
    fn transfer(&mut self, from: u64, to: u64, amount: u64, keep_alive: bool) -> Result<(), ()>;
}

/// The model of the whole store: record bodies, the identifier counter, the
/// per-owner linked index, the ownership and pricing maps, and the
/// one-time-initialized parameters.
#[verifier::ext_equal]
pub struct KittiesView {
    pub records: Map<u32, Kitty>,
    pub next_id: u32,
    pub lists: Map<u64, Seq<u32>>,
    pub owners: Map<u32, u64>,
    pub prices: Map<u32, u64>,
    pub min_breed_age: u32,
    pub max_breed_age: u32,
    pub max_age: u32,
    pub admin: u64,
    pub initialized: bool,
}

/// A record's age at logical time `now`.
pub open spec fn age(k: Kitty, now: u64) -> int {
    now - k.create_block_number
}

/// A record is alive while its age is strictly below the maximum age.
pub open spec fn is_alive(k: Kitty, now: u64, max_age: u32) -> bool {
    age(k, now) < max_age as int
}

/// A record may serve as a breeding parent while its age lies within the
/// configured window.
pub open spec fn breed_eligible(k: Kitty, now: u64, min_breed_age: u32, max_breed_age: u32) -> bool {
    min_breed_age as int <= age(k, now) && age(k, now) <= max_breed_age as int
}

/// One byte of genetic derivation: each child bit comes from the first
/// parent where the selector bit is set, else from the second parent.
pub open spec fn combine_dna_spec(dna1: u8, dna2: u8, selector: u8) -> u8 {
    (selector & dna1) | (!selector & dna2)
}

/// The whole child payload derived from two parent payloads and a selector.
pub open spec fn child_dna(dna1: Seq<u8>, dna2: Seq<u8>, selector: Seq<u8>) -> Seq<u8> {
    Seq::new(dna1.len(), |i: int| combine_dna_spec(dna1[i], dna2[i], selector[i]))
}

/// The record identified by `kitty_id`, if any, was created no later than
/// `now`: logical time is monotonic, so every operation runs at or after the
/// time at which the records it touches were created.
pub open spec fn born_by(v: KittiesView, kitty_id: u32, now: u64) -> bool {
    v.records.contains_key(kitty_id) ==> v.records[kitty_id].create_block_number <= now
}

/// Consistency of the store: every identifier in some owner's list is owned
/// by exactly that owner, every owned record exists, every existing record is
/// owned and sits in its owner's list, a price entry exists only for an
/// existing record, every identifier is below the counter, and once
/// initialized the age parameters are ordered.
pub open spec fn state_inv(v: KittiesView) -> bool {
    &&& forall|o: u64, id: u32|
        v.lists.contains_key(o) && #[trigger] v.lists[o].contains(id) ==> v.owners.contains_key(id)
            && v.owners[id] == o
    &&& forall|id: u32| #[trigger]
        v.owners.contains_key(id) ==> v.lists.contains_key(v.owners[id])
            && v.lists[v.owners[id]].contains(id)
    &&& forall|id: u32|
        #![trigger v.owners.contains_key(id)]
        #![trigger v.records.contains_key(id)]
        v.owners.contains_key(id) <==> v.records.contains_key(id)
    &&& forall|id: u32| #[trigger] v.prices.contains_key(id) ==> v.records.contains_key(id)
    &&& forall|id: u32| #[trigger] v.records.contains_key(id) ==> id < v.next_id
    &&& (v.initialized ==> 0 < v.min_breed_age <= v.max_breed_age < v.max_age)
}

/// The store before initialization: empty, with the counter at zero.
pub open spec fn initial_view() -> KittiesView {
    KittiesView {
        records: Map::empty(),
        next_id: 0,
        lists: Map::empty(),
        owners: Map::empty(),
        prices: Map::empty(),
        min_breed_age: 0,
        max_breed_age: 0,
        max_age: 0,
        admin: 0,
        initialized: false,
    }
}

/// The store after a record `id` with body `k` enters under `owner`: the one
/// choke point through which creation and breeding add records.
pub open spec fn with_record(v: KittiesView, owner: u64, id: u32, k: Kitty) -> KittiesView {
    KittiesView {
        records: v.records.insert(id, k),
        next_id: (id + 1) as u32,
        lists: appended(v.lists, owner, id),
        owners: v.owners.insert(id, owner),
        ..v
    }
}

/// The store after record `id` moves from `from`'s list to the tail of
/// `to`'s list.
pub open spec fn transferred(v: KittiesView, from: u64, to: u64, id: u32) -> KittiesView {
    KittiesView {
        lists: appended(removed(v.lists, from, id), to, id),
        owners: v.owners.insert(id, to),
        ..v
    }
}

/// The error on which `init` aborts, or `None` where it succeeds.
pub open spec fn init_err(v: KittiesView, min_breed_age: u32, max_breed_age: u32, max_age: u32) -> Option<
    Error,
> {
    if v.initialized {
        Some(Error::AlreadyInitialized)
    } else if !(0 < min_breed_age <= max_breed_age < max_age) {
        Some(Error::InvalidParameters)
    } else {
        None
    }
}

/// The error on which `create` aborts, or `None` where it succeeds.
pub open spec fn create_err(v: KittiesView) -> Option<Error> {
    if !v.initialized {
        Some(Error::NotInitialized)
    } else if v.next_id == u32::MAX {
        Some(Error::CounterOverflow)
    } else {
        None
    }
}

/// The error on which `breed` aborts, or `None` where it succeeds, in the
/// order the checks are made.
pub open spec fn breed_err(v: KittiesView, sender: u64, now: u64, kitty_id_1: u32, kitty_id_2: u32) -> Option<
    Error,
> {
    if !v.initialized {
        Some(Error::NotInitialized)
    } else if !v.records.contains_key(kitty_id_1) {
        Some(Error::NotFound)
    } else if !v.records.contains_key(kitty_id_2) {
        Some(Error::NotFound)
    } else if !is_alive(v.records[kitty_id_1], now, v.max_age) {
        Some(Error::Dead)
    } else if !is_alive(v.records[kitty_id_2], now, v.max_age) {
        Some(Error::Dead)
    } else {
        do_breed_err(v, sender, now, kitty_id_1, kitty_id_2)
    }
}

/// The error on which the breeding core aborts once both parents are known
/// to exist and be alive, or `None` where a child is minted, in the order
/// the checks are made.
pub open spec fn do_breed_err(
    v: KittiesView,
    sender: u64,
    now: u64,
    kitty_id_1: u32,
    kitty_id_2: u32,
) -> Option<Error> {
    if kitty_id_1 == kitty_id_2 {
        Some(Error::SameParent)
    } else if !(v.owners.contains_key(kitty_id_1) && v.owners[kitty_id_1] == sender) {
        Some(Error::Unauthorized)
    } else if !(v.owners.contains_key(kitty_id_2) && v.owners[kitty_id_2] == sender) {
        Some(Error::Unauthorized)
    } else if !breed_eligible(v.records[kitty_id_1], now, v.min_breed_age, v.max_breed_age) {
        Some(Error::IneligibleAge)
    } else if !breed_eligible(v.records[kitty_id_2], now, v.min_breed_age, v.max_breed_age) {
        Some(Error::IneligibleAge)
    } else if v.next_id == u32::MAX {
        Some(Error::CounterOverflow)
    } else {
        None
    }
}

/// The error on which an owner-gated operation on one live record aborts:
/// `transfer` and `ask` validate exactly this.
pub open spec fn owner_op_err(v: KittiesView, sender: u64, now: u64, kitty_id: u32) -> Option<
    Error,
> {
    if !v.initialized {
        Some(Error::NotInitialized)
    } else if !v.records.contains_key(kitty_id) {
        Some(Error::NotFound)
    } else if !is_alive(v.records[kitty_id], now, v.max_age) {
        Some(Error::Dead)
    } else if !(v.owners.contains_key(kitty_id) && v.owners[kitty_id] == sender) {
        Some(Error::Unauthorized)
    } else {
        None
    }
}

/// The error on which `buy` aborts before the payment is attempted, or
/// `None` where only the payment can still stop the sale.
pub open spec fn buy_err(v: KittiesView, now: u64, kitty_id: u32, price: u64) -> Option<Error> {
    if !v.initialized {
        Some(Error::NotInitialized)
    } else if !v.records.contains_key(kitty_id) {
        Some(Error::NotFound)
    } else if !is_alive(v.records[kitty_id], now, v.max_age) {
        Some(Error::Dead)
    } else if !v.prices.contains_key(kitty_id) {
        Some(Error::NotForSale)
    } else if price < v.prices[kitty_id] {
        Some(Error::PriceTooLow)
    } else {
        None
    }
}

/// The error on which an admin parameter update aborts, or `None`: the new
/// bounds must keep the parameter ordering, and only the admin may update.
pub open spec fn admin_update_err(v: KittiesView, sender: u64, bounds_ok: bool) -> Option<Error> {
    if !v.initialized {
        Some(Error::NotInitialized)
    } else if !bounds_ok {
        Some(Error::InvalidParameters)
    } else if sender != v.admin {
        Some(Error::Unauthorized)
    } else {
        None
    }
}

/// One byte of genetic derivation, bit-muxed from the parents by the
/// selector.
pub fn combine_dna(dna1: u8, dna2: u8, selector: u8) -> (r: u8)
    ensures
        r == combine_dna_spec(dna1, dna2, selector),
{
    (selector & dna1) | (!selector & dna2)
}

/// Genetic derivation is a pure function of the parent payloads and the
/// selector — the same inputs always give the same child — and each selector
/// bit picks the child's bit: an all-ones selector byte yields the first
/// parent's byte, an all-zeros selector byte the second's.
pub proof fn lemma_combine_dna_selector(dna1: u8, dna2: u8)
    ensures
        combine_dna_spec(dna1, dna2, 0xff) == dna1,
        combine_dna_spec(dna1, dna2, 0x00) == dna2,
{
    assert(((0xffu8 & dna1) | (!0xffu8 & dna2)) == dna1) by (bit_vector);
    assert(((0x00u8 & dna1) | (!0x00u8 & dna2)) == dna2) by (bit_vector);
}

/// A record's age never decreases as logical time advances, and liveness,
/// once lost, never returns: a record alive at a later time was alive at
/// every earlier time since its creation.
pub proof fn lemma_age_monotonic(k: Kitty, now1: u64, now2: u64, max_age: u32)
    requires
        now1 <= now2,
    ensures
        age(k, now1) <= age(k, now2),
        !is_alive(k, now1, max_age) ==> !is_alive(k, now2, max_age),
        is_alive(k, now2, max_age) ==> is_alive(k, now1, max_age),
{
}

/// Ownership exclusivity: in a consistent store, no identifier sits in two
/// different owners' lists.
pub proof fn lemma_ownership_exclusivity(v: KittiesView, owner1: u64, owner2: u64, kitty_id: u32)
    requires
        state_inv(v),
        v.lists.contains_key(owner1),
        v.lists[owner1].contains(kitty_id),
        v.lists.contains_key(owner2),
        v.lists[owner2].contains(kitty_id),
    ensures
        owner1 == owner2,
{
}

/// A fresh identifier (one the counter has not yet reached) sits in no list,
/// and adding its record under any owner keeps the store consistent.
proof fn lemma_with_record_inv(v: KittiesView, owner: u64, id: u32, k: Kitty)
    requires
        state_inv(v),
        id == v.next_id,
        id < u32::MAX,
    ensures
        state_inv(with_record(v, owner, id, k)),
        v.lists.contains_key(owner) ==> !v.lists[owner].contains(id),
{
    assert(!v.records.contains_key(id));
    assert(!v.owners.contains_key(id));
    assert forall|o: u64| v.lists.contains_key(o) implies !(#[trigger] v.lists[o]).contains(id) by {
        if v.lists[o].contains(id) {
            assert(v.owners.contains_key(id));
        }
    }
    crate::linked_item::lemma_appended_view(v.lists, owner, id);
    let v2 = with_record(v, owner, id, k);
    assert forall|o: u64, x: u32|
        v2.lists.contains_key(o) && #[trigger] v2.lists[o].contains(x) implies v2.owners.contains_key(
        x,
    ) && v2.owners[x] == o by {
        if o == owner {
            if x != id {
                assert(v.lists.contains_key(owner) && v.lists[owner].contains(x));
            }
        } else {
            assert(v.lists[o].contains(x));
            assert(x != id);
        }
    }
    assert forall|x: u32| #[trigger] v2.owners.contains_key(x) implies v2.lists.contains_key(
        v2.owners[x],
    ) && v2.lists[v2.owners[x]].contains(x) by {
        if x == id {
        } else {
            assert(v.owners.contains_key(x));
            let o = v.owners[x];
            assert(v.lists.contains_key(o) && v.lists[o].contains(x));
            if o == owner {
                assert(v2.lists[owner].contains(x));
            }
        }
    }
}

/// Moving an owned record between lists keeps the store consistent, and the
/// record is never still in the destination list when it is appended.
proof fn lemma_transferred_inv(v: KittiesView, from: u64, to: u64, id: u32)
    requires
        state_inv(v),
        v.owners.contains_key(id),
        v.owners[id] == from,
        v.lists.contains_key(from) ==> v.lists[from].no_duplicates(),
    ensures
        state_inv(transferred(v, from, to, id)),
        removed(v.lists, from, id).contains_key(to) ==> !removed(v.lists, from, id)[to].contains(
            id,
        ),
{
    let l1 = removed(v.lists, from, id);
    let l2 = appended(l1, to, id);
    let v2 = transferred(v, from, to, id);
    assert(v.lists.contains_key(from) && v.lists[from].contains(id));
    crate::linked_item::lemma_removed_view(v.lists, from, id);
    crate::linked_item::lemma_appended_view(l1, to, id);
    assert forall|x: u32| v.lists[from].contains(x) && x != id implies v.lists[from].len() > 1 by {
        let j = choose|j: int| 0 <= j < v.lists[from].len() && v.lists[from][j] == x;
        let i = choose|i: int| 0 <= i < v.lists[from].len() && v.lists[from][i] == id;
        assert(i != j);
    }
    if l1.contains_key(to) && l1[to].contains(id) {
        if to == from {
            assert(v.lists[from].len() > 1);
            assert(false);
        } else {
            assert(v.lists[to].contains(id));
            assert(v.owners[id] == to);
        }
    }
    assert forall|o: u64, x: u32|
        v2.lists.contains_key(o) && #[trigger] v2.lists[o].contains(x) implies v2.owners.contains_key(
        x,
    ) && v2.owners[x] == o by {
        if o == to {
            if x != id {
                assert(l1.contains_key(to) && l1[to].contains(x));
                if to == from {
                    assert(v.lists[from].contains(x));
                } else {
                    assert(v.lists[to].contains(x));
                }
            }
        } else {
            assert(l1.contains_key(o) && l1[o].contains(x));
            if o == from {
                assert(v.lists[from].len() > 1);
                assert(v.lists[from].contains(x) && x != id);
            } else {
                assert(v.lists[o].contains(x));
                assert(x != id);
            }
        }
    }
    assert forall|x: u32| #[trigger] v2.owners.contains_key(x) implies v2.lists.contains_key(
        v2.owners[x],
    ) && v2.lists[v2.owners[x]].contains(x) by {
        if x == id {
            assert(v2.lists[to].contains(id));
        } else {
            assert(v.owners.contains_key(x));
            let o = v.owners[x];
            assert(v.lists.contains_key(o) && v.lists[o].contains(x));
            if o == from {
                assert(v.lists[from].len() > 1);
                assert(l1.contains_key(from) && l1[from].contains(x));
                if to == from {
                    assert(v2.lists[to].contains(x));
                } else {
                    assert(v2.lists[o].contains(x));
                }
            } else if o == to {
                assert(l1.contains_key(to) && l1[to].contains(x));
                assert(v2.lists[to].contains(x));
            } else {
                assert(l1.contains_key(o) && l1[o].contains(x));
                assert(v2.lists[o].contains(x));
            }
        }
    }
}

/// The whole store: record bodies, the identifier counter, the per-owner
/// linked index, the ownership and pricing maps, and the one-time-initialized
/// parameters.
pub struct Module {
    kitties: std::collections::HashMap<u32, Kitty>,
    kitties_count: u32,
    owned_kitties: LinkedList,
    kitty_owners: std::collections::HashMap<u32, u64>,
    kitty_prices: std::collections::HashMap<u32, u64>,
    min_breed_age: u32,
    max_breed_age: u32,
    max_age: u32,
    owner: u64,
    initial: bool,
}

impl View for Module {
    type V = KittiesView;

    closed spec fn view(&self) -> KittiesView {
        KittiesView {
            records: self.kitties@,
            next_id: self.kitties_count,
            lists: self.owned_kitties@,
            owners: self.kitty_owners@,
            prices: self.kitty_prices@,
            min_breed_age: self.min_breed_age,
            max_breed_age: self.max_breed_age,
            max_age: self.max_age,
            admin: self.owner,
            initialized: self.initial,
        }
    }
}

impl Module {
    /// The linked index's chains are well formed.
    pub closed spec fn lists_wf(self) -> bool {
        self.owned_kitties.wf()
    }

    /// Validity of the whole store: well-formed chains and a consistent
    /// model.
    pub open spec fn inv(self) -> bool {
        self.lists_wf() && state_inv(self@)
    }

    /// An empty, uninitialized store.
    pub fn new() -> (r: Module)
        ensures
            r.inv(),
            r@ == initial_view(),
    {
        broadcast use vstd::std_specs::hash::group_hash_axioms;

        let r = Module {
            kitties: std::collections::HashMap::new(),
            kitties_count: 0,
            owned_kitties: LinkedList::new(),
            kitty_owners: std::collections::HashMap::new(),
            kitty_prices: std::collections::HashMap::new(),
            min_breed_age: 0,
            max_breed_age: 0,
            max_age: 0,
            owner: 0,
            initial: false,
        };
        proof {
            assert(r@ =~= initial_view());
        }
        r
    }

    /// The stored record under `kitty_id`, if any.
    pub fn kitties(&self, kitty_id: u32) -> (r: Option<Kitty>)
        ensures
            r == if self@.records.contains_key(kitty_id) {
                Some(self@.records[kitty_id])
            } else {
                None::<Kitty>
            },
    {
        broadcast use vstd::std_specs::hash::group_hash_axioms;

        match self.kitties.get(&kitty_id) {
            Some(k) => Some(*k),
            None => None,
        }
    }

    /// The identifier the next created record will get.
    pub fn kitties_count(&self) -> (r: u32)
        ensures
            r == self@.next_id,
    {
        self.kitties_count
    }

    /// The owner of `kitty_id`, if the record exists.
    pub fn kitty_owner(&self, kitty_id: u32) -> (r: Option<u64>)
        ensures
            r == if self@.owners.contains_key(kitty_id) {
                Some(self@.owners[kitty_id])
            } else {
                None::<u64>
            },
    {
        broadcast use vstd::std_specs::hash::group_hash_axioms;

        match self.kitty_owners.get(&kitty_id) {
            Some(o) => Some(*o),
            None => None,
        }
    }

    /// The listed sale price of `kitty_id`; `None` means not for sale.
    pub fn kitty_price(&self, kitty_id: u32) -> (r: Option<u64>)
        ensures
            r == if self@.prices.contains_key(kitty_id) {
                Some(self@.prices[kitty_id])
            } else {
                None::<u64>
            },
    {
        broadcast use vstd::std_specs::hash::group_hash_axioms;

        match self.kitty_prices.get(&kitty_id) {
            Some(p) => Some(*p),
            None => None,
        }
    }

    /// The linked-index entry under `(owner, slot)`: the owner's sentinel
    /// for `None`, the neighbor entry of an identifier for `Some(id)`.
    pub fn owned_kitties(&self, owner: u64, slot: Option<u32>) -> (r: Option<LinkedItem>)
        requires
            self.inv(),
        ensures
            r == crate::linked_item::entry_view(self@.lists, owner, slot),
    {
        self.owned_kitties.get(owner, slot)
    }

    /// One-time initialization: records the age parameters and the caller as
    /// admin. The bounds must satisfy `0 < min <= max_breed < max_age`.
    pub fn init(&mut self, sender: u64, min_breed_age: u32, max_breed_age: u32, max_age: u32) -> (r:
        Result<(), Error>)
        requires
            old(self).inv(),
        ensures
            final (self).inv(),
            match init_err(old(self)@, min_breed_age, max_breed_age, max_age) {
                Some(e) => r == Err::<(), Error>(e) && final (self)@ == old(self)@,
                None => r == Ok::<(), Error>(()) && final (self)@ == (KittiesView {
                    min_breed_age: min_breed_age,
                    max_breed_age: max_breed_age,
                    max_age: max_age,
                    admin: sender,
                    initialized: true,
                    ..old(self)@
                }),
            },
    {
        if self.initial {
            return Err(Error::AlreadyInitialized);
        }
        if !(min_breed_age > 0 && min_breed_age <= max_breed_age && max_breed_age < max_age) {
            return Err(Error::InvalidParameters);
        }
        self.min_breed_age = min_breed_age;
        self.max_breed_age = max_breed_age;
        self.max_age = max_age;
        self.owner = sender;
        self.initial = true;
        Ok(())
    }

    /// The identifier for the next record, or `CounterOverflow` when the
    /// counter has reached the representable maximum.
    fn next_kitty_id(&self) -> (r: Result<u32, Error>)
        ensures
            r == if self@.next_id == u32::MAX {
                Err::<u32, Error>(Error::CounterOverflow)
            } else {
                Ok::<u32, Error>(self@.next_id)
            },
    {
        if self.kitties_count == u32::MAX {
            return Err(Error::CounterOverflow);
        }
        Ok(self.kitties_count)
    }

    /// Whether the record under `kitty_id` is still alive at time `now`.
    fn check_liveness(&self, now: u64, kitty_id: u32) -> (r: bool)
        requires
            self@.records.contains_key(kitty_id),
            born_by(self@, kitty_id, now),
        ensures
            r == is_alive(self@.records[kitty_id], now, self@.max_age),
    {
        broadcast use vstd::std_specs::hash::group_hash_axioms;

        let kitty = *self.kitties.get(&kitty_id).unwrap();
        now - kitty.create_block_number < self.max_age as u64
    }

    /// Appends `kitty_id` to the tail of `owner`'s linked index. This updates
    /// the index alone; callers pair it with the ownership-map update that
    /// keeps the store consistent.
    pub fn insert_owned_kitty(&mut self, owner: u64, kitty_id: u32)
        requires
            old(self).lists_wf(),
            old(self)@.lists.contains_key(owner) ==> !old(self)@.lists[owner].contains(kitty_id),
        ensures
            final (self).lists_wf(),
            final (self)@ == (KittiesView { lists: appended(old(self)@.lists, owner, kitty_id), ..old(
                self,
            )@ }),
    {
        self.owned_kitties.append(owner, kitty_id);
        proof {
            assert(self@ =~= (KittiesView {
                lists: appended(old(self)@.lists, owner, kitty_id),
                ..old(self)@
            }));
        }
    }

    /// The single choke point through which every new record enters: writes
    /// the record body with `created_at = now`, advances the counter, writes
    /// the ownership entry, and appends to the owner's linked index.
    fn insert_kitty(&mut self, owner: u64, kitty_id: u32, dna: [u8; 16], now: u64)
        requires
            old(self).inv(),
            kitty_id == old(self)@.next_id,
            old(self)@.next_id < u32::MAX,
        ensures
            final (self).inv(),
            final (self)@ == with_record(
                old(self)@,
                owner,
                kitty_id,
                (Kitty { dna, create_block_number: now }),
            ),
    {
        broadcast use vstd::std_specs::hash::group_hash_axioms;

        let kitty = Kitty { dna, create_block_number: now };
        proof {
            lemma_with_record_inv(old(self)@, owner, kitty_id, kitty);
        }
        self.kitties.insert(kitty_id, kitty);
        self.kitties_count = kitty_id + 1;
        self.kitty_owners.insert(kitty_id, owner);
        self.insert_owned_kitty(owner, kitty_id);
        proof {
            assert(self@ =~= with_record(old(self)@, owner, kitty_id, kitty));
        }
    }

    /// Mints a new record with the collaborator-provided random payload,
    /// owned by the authenticated caller.
    pub fn create(&mut self, sender: u64, now: u64, dna: [u8; 16]) -> (r: Result<Event, Error>)
        requires
            old(self).inv(),
        ensures
            final (self).inv(),
            match create_err(old(self)@) {
                Some(e) => r == Err::<Event, Error>(e) && final (self)@ == old(self)@,
                None => r == Ok::<Event, Error>(Event::Created(sender, old(self)@.next_id))
                    && final (self)@ == with_record(
                    old(self)@,
                    sender,
                    old(self)@.next_id,
                    (Kitty { dna, create_block_number: now }),
                ),
            },
    {
        if !self.initial {
            return Err(Error::NotInitialized);
        }
        let kitty_id = match self.next_kitty_id() {
            Ok(id) => id,
            Err(e) => {
                return Err(e);
            },
        };
        self.insert_kitty(sender, kitty_id, dna, now);
        Ok(Event::Created(sender, kitty_id))
    }

    /// Moves `kitty_id` from `from`'s list to the tail of `to`'s list and
    /// rewrites the ownership entry. Callers guarantee that `from` owns the
    /// record.
    pub fn do_transfer(&mut self, from: u64, to: u64, kitty_id: u32)
        requires
            old(self).inv(),
            old(self)@.owners.contains_key(kitty_id),
            old(self)@.owners[kitty_id] == from,
        ensures
            final (self).inv(),
            final (self)@ == transferred(old(self)@, from, to, kitty_id),
    {
        broadcast use vstd::std_specs::hash::group_hash_axioms;

        proof {
            crate::linked_item::lemma_list_integrity(&self.owned_kitties, from);
            lemma_transferred_inv(old(self)@, from, to, kitty_id);
        }
        self.owned_kitties.remove(from, kitty_id);
        self.owned_kitties.append(to, kitty_id);
        self.kitty_owners.insert(kitty_id, to);
        proof {
            assert(self@ =~= transferred(old(self)@, from, to, kitty_id));
        }
    }

    /// Transfers a live record the caller owns to `to`.
    pub fn transfer(&mut self, sender: u64, now: u64, to: u64, kitty_id: u32) -> (r: Result<
        Event,
        Error,
    >)
        requires
            old(self).inv(),
            born_by(old(self)@, kitty_id, now),
        ensures
            final (self).inv(),
            match owner_op_err(old(self)@, sender, now, kitty_id) {
                Some(e) => r == Err::<Event, Error>(e) && final (self)@ == old(self)@,
                None => r == Ok::<Event, Error>(Event::Transferred(sender, to, kitty_id)) && final (
                self)@ == transferred(old(self)@, sender, to, kitty_id),
            },
    {
        if !self.initial {
            return Err(Error::NotInitialized);
        }
        if self.kitties.get(&kitty_id).is_none() {
            broadcast use vstd::std_specs::hash::group_hash_axioms;

            return Err(Error::NotFound);
        }
        if !self.check_liveness(now, kitty_id) {
            return Err(Error::Dead);
        }
        if self.owned_kitties.get(sender, Some(kitty_id)).is_none() {
            return Err(Error::Unauthorized);
        }
        proof {
            assert(self@.lists.contains_key(sender) && self@.lists[sender].contains(kitty_id));
        }
        self.do_transfer(sender, to, kitty_id);
        Ok(Event::Transferred(sender, to, kitty_id))
    }

    /// Sets (`Some(price)`) or clears (`None`) the sale listing of a live
    /// record the caller owns.
    pub fn ask(&mut self, sender: u64, now: u64, kitty_id: u32, new_price: Option<u64>) -> (r:
        Result<Event, Error>)
        requires
            old(self).inv(),
            born_by(old(self)@, kitty_id, now),
        ensures
            final (self).inv(),
            match owner_op_err(old(self)@, sender, now, kitty_id) {
                Some(e) => r == Err::<Event, Error>(e) && final (self)@ == old(self)@,
                None => r == Ok::<Event, Error>(Event::Ask(sender, kitty_id, new_price)) && final (
                self)@ == (KittiesView {
                    prices: match new_price {
                        Some(p) => old(self)@.prices.insert(kitty_id, p),
                        None => old(self)@.prices.remove(kitty_id),
                    },
                    ..old(self)@
                }),
            },
    {
        broadcast use vstd::std_specs::hash::group_hash_axioms;

        if !self.initial {
            return Err(Error::NotInitialized);
        }
        if self.kitties.get(&kitty_id).is_none() {
            return Err(Error::NotFound);
        }
        if !self.check_liveness(now, kitty_id) {
            return Err(Error::Dead);
        }
        if self.owned_kitties.get(sender, Some(kitty_id)).is_none() {
            return Err(Error::Unauthorized);
        }
        match new_price {
            Some(p) => {
                self.kitty_prices.insert(kitty_id, p);
            },
            None => {
                self.kitty_prices.remove(&kitty_id);
            },
        }
        proof {
            assert(self@ =~= (KittiesView {
                prices: match new_price {
                    Some(p) => old(self)@.prices.insert(kitty_id, p),
                    None => old(self)@.prices.remove(kitty_id),
                },
                ..old(self)@
            }));
        }
        Ok(Event::Ask(sender, kitty_id, new_price))
    }

    /// Derives a child record from two live, caller-owned parents of
    /// breeding age and the collaborator-provided selector: each child bit
    /// comes from the first parent where the selector bit is set, else from
    /// the second parent.
    pub fn breed(
        &mut self,
        sender: u64,
        now: u64,
        kitty_id_1: u32,
        kitty_id_2: u32,
        selector: [u8; 16],
    ) -> (r: Result<Event, Error>)
        requires
            old(self).inv(),
            born_by(old(self)@, kitty_id_1, now),
            born_by(old(self)@, kitty_id_2, now),
        ensures
            final (self).inv(),
            match breed_err(old(self)@, sender, now, kitty_id_1, kitty_id_2) {
                Some(e) => r == Err::<Event, Error>(e) && final (self)@ == old(self)@,
                None => ({
                    let id = old(self)@.next_id;
                    let child = final (self)@.records[id];
                    &&& r == Ok::<Event, Error>(Event::Created(sender, id))
                    &&& child.create_block_number == now
                    &&& child.dna@ == child_dna(
                        old(self)@.records[kitty_id_1].dna@,
                        old(self)@.records[kitty_id_2].dna@,
                        selector@,
                    )
                    &&& final (self)@ == with_record(old(self)@, sender, id, child)
                }),
            },
    {
        if !self.initial {
            return Err(Error::NotInitialized);
        }
        if self.kitties(kitty_id_1).is_none() {
            return Err(Error::NotFound);
        }
        if self.kitties(kitty_id_2).is_none() {
            return Err(Error::NotFound);
        }
        if !self.check_liveness(now, kitty_id_1) {
            return Err(Error::Dead);
        }
        if !self.check_liveness(now, kitty_id_2) {
            return Err(Error::Dead);
        }
        let kitty_id = match self.do_breed(sender, now, kitty_id_1, kitty_id_2, selector) {
            Ok(id) => id,
            Err(e) => {
                return Err(e);
            },
        };
        Ok(Event::Created(sender, kitty_id))
    }

    /// The breeding core: validates distinct parenthood, the caller's
    /// ownership of both parents, both ages against the breeding window and
    /// the counter, then derives the child payload and mints the child
    /// through the registry's single insertion point. Callers have already
    /// checked that both parents exist and are alive.
    fn do_breed(
        &mut self,
        sender: u64,
        now: u64,
        kitty_id_1: u32,
        kitty_id_2: u32,
        selector: [u8; 16],
    ) -> (r: Result<u32, Error>)
        requires
            old(self).inv(),
            old(self)@.records.contains_key(kitty_id_1),
            old(self)@.records.contains_key(kitty_id_2),
            born_by(old(self)@, kitty_id_1, now),
            born_by(old(self)@, kitty_id_2, now),
        ensures
            final (self).inv(),
            match do_breed_err(old(self)@, sender, now, kitty_id_1, kitty_id_2) {
                Some(e) => r == Err::<u32, Error>(e) && final (self)@ == old(self)@,
                None => ({
                    let id = old(self)@.next_id;
                    let child = final (self)@.records[id];
                    &&& r == Ok::<u32, Error>(id)
                    &&& child.create_block_number == now
                    &&& child.dna@ == child_dna(
                        old(self)@.records[kitty_id_1].dna@,
                        old(self)@.records[kitty_id_2].dna@,
                        selector@,
                    )
                    &&& final (self)@ == with_record(old(self)@, sender, id, child)
                }),
            },
    {
        let kitty1 = self.kitties(kitty_id_1).unwrap();
        let kitty2 = self.kitties(kitty_id_2).unwrap();
        if kitty_id_1 == kitty_id_2 {
            return Err(Error::SameParent);
        }
        let owned1 = match self.kitty_owner(kitty_id_1) {
            Some(o) => o == sender,
            None => false,
        };
        if !owned1 {
            return Err(Error::Unauthorized);
        }
        let owned2 = match self.kitty_owner(kitty_id_2) {
            Some(o) => o == sender,
            None => false,
        };
        if !owned2 {
            return Err(Error::Unauthorized);
        }
        let age1 = now - kitty1.create_block_number;
        if !(age1 >= self.min_breed_age as u64 && age1 <= self.max_breed_age as u64) {
            return Err(Error::IneligibleAge);
        }
        let age2 = now - kitty2.create_block_number;
        if !(age2 >= self.min_breed_age as u64 && age2 <= self.max_breed_age as u64) {
            return Err(Error::IneligibleAge);
        }
        let kitty_id = match self.next_kitty_id() {
            Ok(id) => id,
            Err(e) => {
                return Err(e);
            },
        };
        let mut new_dna = [0u8; 16];
        for i in 0..16usize
            invariant
                forall|j: int|
                    0 <= j < i ==> new_dna@[j] == combine_dna_spec(
                        kitty1.dna@[j],
                        kitty2.dna@[j],
                        selector@[j],
                    ),
        {
            new_dna[i] = combine_dna(kitty1.dna[i], kitty2.dna[i], selector[i]);
        }
        proof {
            assert(new_dna@ =~= child_dna(kitty1.dna@, kitty2.dna@, selector@));
        }
        self.insert_kitty(sender, kitty_id, new_dna, now);
        Ok(kitty_id)
    }

    /// Buys a listed, live record at or above its listed price: the currency
    /// collaborator moves the listed price from the caller to the seller,
    /// then the listing is cleared and ownership moves to the caller. A dead
    /// record discovered here is delisted before the operation fails. Whether
    /// the payment goes through is the collaborator's decision alone: when it
    /// fails, the operation aborts with `PaymentFailed` and no state change.
    pub fn buy<C: Currency>(
        &mut self,
        currency: &mut C,
        sender: u64,
        now: u64,
        kitty_id: u32,
        price: u64,
    ) -> (r: Result<Event, Error>)
        requires
            old(self).inv(),
            born_by(old(self)@, kitty_id, now),
        ensures
            final (self).inv(),
            match buy_err(old(self)@, now, kitty_id, price) {
                Some(e) => r == Err::<Event, Error>(e) && final (self)@ == (if e == Error::Dead {
                    (KittiesView { prices: old(self)@.prices.remove(kitty_id), ..old(self)@ })
                } else {
                    old(self)@
                }),
                None => ({
                    let seller = old(self)@.owners[kitty_id];
                    let amount = old(self)@.prices[kitty_id];
                    ||| (r == Ok::<Event, Error>(Event::Sold(seller, sender, kitty_id, amount))
                        && final (self)@ == transferred(
                        (KittiesView { prices: old(self)@.prices.remove(kitty_id), ..old(self)@ }),
                        seller,
                        sender,
                        kitty_id,
                    ))
                    ||| (r == Err::<Event, Error>(Error::PaymentFailed) && final (self)@ == old(
                        self,
                    )@)
                }),
            },
    {
        broadcast use vstd::std_specs::hash::group_hash_axioms;

        if !self.initial {
            return Err(Error::NotInitialized);
        }
        if self.kitties.get(&kitty_id).is_none() {
            return Err(Error::NotFound);
        }
        let is_live = self.check_liveness(now, kitty_id);
        if !is_live {
            self.kitty_prices.remove(&kitty_id);
            proof {
                assert(self@ =~= (KittiesView {
                    prices: old(self)@.prices.remove(kitty_id),
                    ..old(self)@
                }));
            }
            return Err(Error::Dead);
        }
        let owner = match self.kitty_owner(kitty_id) {
            Some(o) => o,
            None => {
                return Err(Error::NotFound);
            },
        };
        let kitty_price = match self.kitty_price(kitty_id) {
            Some(p) => p,
            None => {
                return Err(Error::NotForSale);
            },
        };
        if price < kitty_price {
            return Err(Error::PriceTooLow);
        }
        if currency.transfer(sender, owner, kitty_price, true).is_err() {
            return Err(Error::PaymentFailed);
        }
        self.kitty_prices.remove(&kitty_id);
        self.do_transfer(owner, sender, kitty_id);
        Ok(Event::Sold(owner, sender, kitty_id, kitty_price))
    }

    /// Updates the minimum breeding age; admin only, and the new value must
    /// keep `0 < min <= max_breed`.
    pub fn update_min_breed_age(&mut self, sender: u64, min_breed_age: u32) -> (r: Result<
        (),
        Error,
    >)
        requires
            old(self).inv(),
        ensures
            final (self).inv(),
            match admin_update_err(
                old(self)@,
                sender,
                0 < min_breed_age <= old(self)@.max_breed_age,
            ) {
                Some(e) => r == Err::<(), Error>(e) && final (self)@ == old(self)@,
                None => r == Ok::<(), Error>(()) && final (self)@ == (KittiesView {
                    min_breed_age: min_breed_age,
                    ..old(self)@
                }),
            },
    {
        if !self.initial {
            return Err(Error::NotInitialized);
        }
        if !(min_breed_age > 0 && min_breed_age <= self.max_breed_age) {
            return Err(Error::InvalidParameters);
        }
        if sender != self.owner {
            return Err(Error::Unauthorized);
        }
        self.min_breed_age = min_breed_age;
        Ok(())
    }

    /// Updates the maximum breeding age; admin only, and the new value must
    /// keep `min <= max_breed < max_age`.
    pub fn update_max_breed_age(&mut self, sender: u64, max_breed_age: u32) -> (r: Result<
        (),
        Error,
    >)
        requires
            old(self).inv(),
        ensures
            final (self).inv(),
            match admin_update_err(
                old(self)@,
                sender,
                old(self)@.min_breed_age <= max_breed_age < old(self)@.max_age,
            ) {
                Some(e) => r == Err::<(), Error>(e) && final (self)@ == old(self)@,
                None => r == Ok::<(), Error>(()) && final (self)@ == (KittiesView {
                    max_breed_age: max_breed_age,
                    ..old(self)@
                }),
            },
    {
        if !self.initial {
            return Err(Error::NotInitialized);
        }
        if !(self.min_breed_age <= max_breed_age && max_breed_age < self.max_age) {
            return Err(Error::InvalidParameters);
        }
        if sender != self.owner {
            return Err(Error::Unauthorized);
        }
        self.max_breed_age = max_breed_age;
        Ok(())
    }

    /// Updates the maximum age; admin only, and the new value must keep
    /// `max_breed < max_age`.
    pub fn update_max_age(&mut self, sender: u64, max_age: u32) -> (r: Result<(), Error>)
        requires
            old(self).inv(),
        ensures
            final (self).inv(),
            match admin_update_err(old(self)@, sender, old(self)@.max_breed_age < max_age) {
                Some(e) => r == Err::<(), Error>(e) && final (self)@ == old(self)@,
                None => r == Ok::<(), Error>(()) && final (self)@ == (KittiesView {
                    max_age: max_age,
                    ..old(self)@
                }),
            },
    {
        if !self.initial {
            return Err(Error::NotInitialized);
        }
        if !(self.max_breed_age < max_age) {
            return Err(Error::InvalidParameters);
        }
        if sender != self.owner {
            return Err(Error::Unauthorized);
        }
        self.max_age = max_age;
        Ok(())
    }

    /// Replaces the admin identity; admin only.
    pub fn update_owner(&mut self, sender: u64, new_owner: u64) -> (r: Result<(), Error>)
        requires
            old(self).inv(),
        ensures
            final (self).inv(),
            match admin_update_err(old(self)@, sender, true) {
                Some(e) => r == Err::<(), Error>(e) && final (self)@ == old(self)@,
                None => r == Ok::<(), Error>(()) && final (self)@ == (KittiesView {
                    admin: new_owner,
                    ..old(self)@
                }),
            },
    {
        if !self.initial {
            return Err(Error::NotInitialized);
        }
        if sender != self.owner {
            return Err(Error::Unauthorized);
        }
        self.owner = new_owner;
        Ok(())
    }
}

} // verus!
