//! A per-owner doubly-linked list of record identifiers, materialized as
//! key-value entries rather than native pointers.
//!
//! Each owner with at least one record has a sentinel entry holding the first
//! and last identifiers of its list (`head.next = first`, `head.prev = last`),
//! and one neighbor entry per identifier giving its predecessor and successor
//! (`None` meaning "no neighbor in that direction"). Both `append` and
//! `remove` touch a constant number of entries. The model of the whole index
//! is a map from owner to the owner's identifiers in list order; an owner with
//! no records is absent from the map, and removing the sole element of a list
//! deletes the sentinel entirely.

use std::collections::HashMap;
use vstd::prelude::*;

verus! {

broadcast use vstd::std_specs::hash::group_hash_axioms;

/// One key-value entry of the index: the neighbors of an identifier within
/// its owner's list, or, for the sentinel, the last (`prev`) and first
/// (`next`) identifiers of the list.
#[derive(Clone, Copy, PartialEq, Eq, Debug)]
pub struct LinkedItem {
    pub prev: Option<u32>,
    pub next: Option<u32>,
}

/// The neighbor entry that a well-formed list with order `s` holds for the
/// identifier at position `i`.
pub open spec fn chain_item(s: Seq<u32>, i: int) -> LinkedItem {
    LinkedItem {
        prev: if i == 0 {
            None
        } else {
            Some(s[i - 1])
        },
        next: if i == s.len() - 1 {
            None
        } else {
            Some(s[i + 1])
        },
    }
}

/// The entry that the index holds under `(owner, slot)` when its model is
/// `lists`: the sentinel for `slot == None`, the neighbor entry of an
/// identifier for `slot == Some(id)`, and `None` where no entry exists.
pub open spec fn entry_view(lists: Map<u64, Seq<u32>>, owner: u64, slot: Option<u32>) -> Option<
    LinkedItem,
> {
    if !lists.contains_key(owner) {
        None
    } else {
        let s = lists[owner];
        match slot {
            None => Some(LinkedItem { prev: Some(s.last()), next: Some(s.first()) }),
            Some(id) => if s.contains(id) {
                Some(chain_item(s, s.index_of(id)))
            } else {
                None
            },
        }
    }
}

/// The model after appending `id` as the new tail of `owner`'s list.
pub open spec fn appended(lists: Map<u64, Seq<u32>>, owner: u64, id: u32) -> Map<u64, Seq<u32>> {
    let s = if lists.contains_key(owner) {
        lists[owner]
    } else {
        Seq::empty()
    };
    lists.insert(owner, s.push(id))
}

/// The model after removing `id` from `owner`'s list: a no-op where `id` is
/// not in the list, and the whole list (sentinel included) disappears when
/// `id` was its sole element.
pub open spec fn removed(lists: Map<u64, Seq<u32>>, owner: u64, id: u32) -> Map<u64, Seq<u32>> {
    if lists.contains_key(owner) && lists[owner].contains(id) {
        let s = lists[owner].remove(lists[owner].index_of(id));
        if s.len() == 0 {
            lists.remove(owner)
        } else {
            lists.insert(owner, s)
        }
    } else {
        lists
    }
}

/// The identifier reached from `from` by following `next` through `owner`'s
/// neighbor entries for `hops` steps; `None` where the chain ends or an entry
/// is missing.
pub open spec fn walk(lists: Map<u64, Seq<u32>>, owner: u64, from: u32, hops: nat) -> Option<u32>
    decreases hops,
{
    if hops == 0 {
        Some(from)
    } else {
        match entry_view(lists, owner, Some(from)) {
            Some(item) => match item.next {
                Some(n) => walk(lists, owner, n, (hops - 1) as nat),
                None => None,
            },
            None => None,
        }
    }
}

/// In a duplicate-free list, the entry of the identifier at position `j` is
/// exactly its chain entry.
proof fn lemma_entry_at_index(lists: Map<u64, Seq<u32>>, owner: u64, j: int)
    requires
        lists.contains_key(owner),
        lists[owner].no_duplicates(),
        0 <= j < lists[owner].len(),
    ensures
        entry_view(lists, owner, Some(lists[owner][j])) == Some(chain_item(lists[owner], j)),
{
    let s = lists[owner];
    assert(s.contains(s[j]));
    let i0 = s.index_of(s[j]);
    assert(s[i0] == s[j]);
    assert(i0 == j);
}

/// Walking `hops` steps from position `j` of a duplicate-free list lands on
/// position `j + hops`.
proof fn lemma_walk_chain(lists: Map<u64, Seq<u32>>, owner: u64, j: int, hops: nat)
    requires
        lists.contains_key(owner),
        lists[owner].no_duplicates(),
        0 <= j,
        j + hops < lists[owner].len(),
    ensures
        walk(lists, owner, lists[owner][j], hops) == Some(lists[owner][j + hops]),
    decreases hops,
{
    if hops > 0 {
        lemma_entry_at_index(lists, owner, j);
        lemma_walk_chain(lists, owner, j + 1, (hops - 1) as nat);
    }
}

/// List integrity: for any owner present in a well-formed index, the owner's
/// identifiers are pairwise distinct, the sentinel names the first and last
/// of them, walking from the first via `next` reaches the identifier at
/// position `k` in exactly `k` hops — so the last in exactly one hop per
/// remaining identifier — the last has no successor, and identifiers outside
/// the list have no entry.
pub proof fn lemma_list_integrity(ll: &LinkedList, owner: u64)
    requires
        ll.wf(),
        ll@.contains_key(owner),
    ensures
        ll@[owner].len() >= 1,
        ll@[owner].no_duplicates(),
        entry_view(ll@, owner, None) == Some(
            LinkedItem { prev: Some(ll@[owner].last()), next: Some(ll@[owner].first()) },
        ),
        forall|k: int|
            0 <= k < ll@[owner].len() ==> walk(ll@, owner, ll@[owner].first(), k as nat) == Some(
                ll@[owner][k],
            ),
        walk(ll@, owner, ll@[owner].first(), (ll@[owner].len() - 1) as nat) == Some(
            ll@[owner].last(),
        ),
        forall|k: int|
            0 <= k < ll@[owner].len() ==> entry_view(ll@, owner, Some(ll@[owner][k])) == Some(
                chain_item(ll@[owner], k),
            ),
        entry_view(ll@, owner, Some(ll@[owner].last())) == Some(
            chain_item(ll@[owner], ll@[owner].len() - 1),
        ),
        chain_item(ll@[owner], ll@[owner].len() - 1).next is None,
        forall|id: u32|
            !ll@[owner].contains(id) ==> entry_view(ll@, owner, Some(id)) == None::<LinkedItem>,
{
    let s = ll@[owner];
    assert(ll.lists@[owner].wf());
    assert(s == ll.lists@[owner].order@);
    assert forall|k: int| 0 <= k < s.len() implies entry_view(ll@, owner, Some(s[k])) == Some(
        chain_item(s, k),
    ) by {
        lemma_entry_at_index(ll@, owner, k);
    }
    assert forall|k: int| 0 <= k < s.len() implies walk(ll@, owner, s.first(), k as nat) == Some(
        s[k],
    ) by {
        lemma_walk_chain(ll@, owner, 0, k as nat);
    }
    assert(s.contains(s[s.len() - 1]));
}

/// Round trip: appending an identifier that an owner's list does not hold and
/// then removing it restores the whole model exactly — in particular, a first
/// append followed by its removal leaves the owner with no sentinel and no
/// neighbor entries at all.
pub proof fn lemma_append_remove_roundtrip(lists: Map<u64, Seq<u32>>, owner: u64, id: u32)
    requires
        lists.contains_key(owner) ==> lists[owner].len() >= 1 && !lists[owner].contains(id),
    ensures
        removed(appended(lists, owner, id), owner, id) == lists,
{
    let a = appended(lists, owner, id);
    let s = if lists.contains_key(owner) {
        lists[owner]
    } else {
        Seq::<u32>::empty()
    };
    let s1 = s.push(id);
    assert(s1[s.len() as int] == id);
    assert(s1.contains(id));
    let i = s1.index_of(id);
    assert(s1[i] == id);
    if i < s.len() {
        assert(s[i] == s1[i]);
        assert(s.contains(s[i]));
    }
    assert(i == s.len());
    assert(s1.remove(i) =~= s);
    if s.len() == 0 {
        assert(removed(a, owner, id) =~= lists);
    } else {
        assert(removed(a, owner, id) =~= lists);
    }
}

/// How `appended` changes the model: only `owner`'s list changes, and it
/// gains exactly `id`.
pub proof fn lemma_appended_view(lists: Map<u64, Seq<u32>>, owner: u64, id: u32)
    ensures
        appended(lists, owner, id).contains_key(owner),
        forall|o: u64|
            #[trigger] appended(lists, owner, id).contains_key(o) <==> (lists.contains_key(o) || o
                == owner),
        forall|o: u64|
            o != owner && lists.contains_key(o) ==> #[trigger] appended(lists, owner, id)[o]
                == lists[o],
        forall|x: u32|
            #[trigger] appended(lists, owner, id)[owner].contains(x) <==> ((lists.contains_key(
                owner,
            ) && lists[owner].contains(x)) || x == id),
        appended(lists, owner, id)[owner].len() == (if lists.contains_key(owner) {
            lists[owner].len() + 1
        } else {
            1
        }),
{
    let s = if lists.contains_key(owner) {
        lists[owner]
    } else {
        Seq::<u32>::empty()
    };
    let s1 = s.push(id);
    assert(s1[s.len() as int] == id);
    assert forall|x: u32| #[trigger] s1.contains(x) implies ((lists.contains_key(owner)
        && lists[owner].contains(x)) || x == id) by {
        let j = choose|j: int| 0 <= j < s1.len() && s1[j] == x;
        if j < s.len() {
            assert(s[j] == x);
        }
    }
    assert forall|x: u32|
        ((lists.contains_key(owner) && lists[owner].contains(x)) || x == id) implies #[trigger] s1.contains(
        x,
    ) by {
        if lists.contains_key(owner) && lists[owner].contains(x) {
            let j = choose|j: int| 0 <= j < s.len() && s[j] == x;
            assert(s1[j] == x);
        } else {
            assert(s1[s.len() as int] == x);
        }
    }
}

/// How `removed` changes the model: only `owner`'s list changes; it loses
/// exactly `id`, and disappears when `id` was its sole element.
pub proof fn lemma_removed_view(lists: Map<u64, Seq<u32>>, owner: u64, id: u32)
    requires
        lists.contains_key(owner) ==> lists[owner].no_duplicates(),
    ensures
        forall|o: u64|
            o != owner ==> (#[trigger] removed(lists, owner, id).contains_key(o)
                <==> lists.contains_key(o)),
        forall|o: u64|
            o != owner && lists.contains_key(o) ==> #[trigger] removed(lists, owner, id)[o]
                == lists[o],
        !(lists.contains_key(owner) && lists[owner].contains(id)) ==> removed(lists, owner, id)
            == lists,
        (lists.contains_key(owner) && lists[owner].contains(id)) ==> {
            &&& removed(lists, owner, id).contains_key(owner) <==> lists[owner].len() > 1
            &&& lists[owner].len() > 1 ==> {
                &&& removed(lists, owner, id)[owner].len() == lists[owner].len() - 1
                &&& removed(lists, owner, id)[owner].no_duplicates()
                &&& forall|x: u32|
                    #[trigger] removed(lists, owner, id)[owner].contains(x) <==> (
                    lists[owner].contains(x) && x != id)
            }
        },
{
    if lists.contains_key(owner) && lists[owner].contains(id) {
        let s = lists[owner];
        let i = s.index_of(id);
        assert(0 <= i < s.len() && s[i] == id);
        s.remove_ensures(i);
        let s2 = s.remove(i);
        if s.len() > 1 {
            assert forall|j: int, k: int|
                0 <= j < s2.len() && 0 <= k < s2.len() && j != k implies s2[j] != s2[k] by {
                let jj = if j < i {
                    j
                } else {
                    j + 1
                };
                let kk = if k < i {
                    k
                } else {
                    k + 1
                };
                assert(s2[j] == s[jj] && s2[k] == s[kk]);
            }
            assert forall|x: u32| #[trigger] s2.contains(x) implies (s.contains(x) && x != id) by {
                let j = choose|j: int| 0 <= j < s2.len() && s2[j] == x;
                let jj = if j < i {
                    j
                } else {
                    j + 1
                };
                assert(s[jj] == x);
                assert(s.contains(s[jj]));
            }
            assert forall|x: u32| s.contains(x) && x != id implies #[trigger] s2.contains(x) by {
                let jj = s.index_of(x);
                assert(s[jj] == x);
                assert(jj != i);
                let j = if jj < i {
                    jj
                } else {
                    jj - 1
                };
                assert(s2[j] == x);
            }
        }
    }
}

/// The entries of one owner's list: the sentinel, the neighbor entries keyed
/// by identifier, and (ghost) the identifiers in list order.
struct OwnerList {
    head: LinkedItem,
    nodes: HashMap<u32, LinkedItem>,
    order: Ghost<Seq<u32>>,
}

impl OwnerList {
    spec fn wf(self) -> bool {
        let s = self.order@;
        &&& s.len() >= 1
        &&& s.no_duplicates()
        &&& self.head.prev == Some(s.last())
        &&& self.head.next == Some(s.first())
        &&& forall|id: u32| #[trigger] self.nodes@.contains_key(id) ==> s.contains(id)
        &&& forall|id: u32| #[trigger] s.contains(id) ==> self.nodes@.contains_key(id)
        &&& forall|i: int| #![trigger s[i]] 0 <= i < s.len() ==> self.nodes@[s[i]] == chain_item(s, i)
    }
}

/// The per-owner linked index. Its view is the map from each owner with at
/// least one record to that owner's identifiers in list order.
pub struct LinkedList {
    lists: HashMap<u64, OwnerList>,
}

impl View for LinkedList {
    type V = Map<u64, Seq<u32>>;

    closed spec fn view(&self) -> Map<u64, Seq<u32>> {
        Map::new(|o: u64| self.lists@.contains_key(o), |o: u64| self.lists@[o].order@)
    }
}

impl LinkedList {
    /// Every present owner's entries form one well-formed chain.
    pub closed spec fn wf(self) -> bool {
        forall|o: u64| #[trigger] self.lists@.contains_key(o) ==> self.lists@[o].wf()
    }

    /// An empty index: no owner has any entry.
    pub fn new() -> (r: Self)
        ensures
            r.wf(),
            r@ == Map::<u64, Seq<u32>>::empty(),
    {
        let r = LinkedList { lists: HashMap::new() };
        proof {
            assert(r@ =~= Map::<u64, Seq<u32>>::empty());
        }
        r
    }

    /// Reads the entry under `(owner, slot)`: the sentinel for `None`, the
    /// neighbor entry of an identifier for `Some(id)`.
    pub fn get(&self, owner: u64, slot: Option<u32>) -> (r: Option<LinkedItem>)
        requires
            self.wf(),
        ensures
            r == entry_view(self@, owner, slot),
    {
        match self.lists.get(&owner) {
            None => None,
            Some(ol) => match slot {
                None => Some(ol.head),
                Some(id) => match ol.nodes.get(&id) {
                    Some(item) => {
                        proof {
                            let s = ol.order@;
                            let i = s.index_of(id);
                            assert(s.contains(id));
                            assert(0 <= i < s.len() && s[i] == id);
                            assert(ol.nodes@[s[i]] == chain_item(s, i));
                        }
                        Some(*item)
                    },
                    None => None,
                },
            },
        }
    }

    /// Inserts `id` as the new tail of `owner`'s list, writing a constant
    /// number of entries. Callers guarantee that `id` is not already in the
    /// list.
    pub fn append(&mut self, owner: u64, id: u32)
        requires
            old(self).wf(),
            old(self)@.contains_key(owner) ==> !old(self)@[owner].contains(id),
        ensures
            final (self).wf(),
            final (self)@ == appended(old(self)@, owner, id),
    {
        let ghost old_view = self@;
        match self.lists.remove(&owner) {
            None => {
                let mut nodes: HashMap<u32, LinkedItem> = HashMap::new();
                nodes.insert(id, LinkedItem { prev: None, next: None });
                let ghost one: Seq<u32> = seq![id];
                let ol = OwnerList {
                    head: LinkedItem { prev: Some(id), next: Some(id) },
                    nodes,
                    order: Ghost(one),
                };
                self.lists.insert(owner, ol);
                proof {
                    let s2 = seq![id];
                    assert(s2.last() == id && s2.first() == id);
                    assert forall|x: u32| #[trigger] s2.contains(x) implies x == id by {}
                    assert(s2.contains(id));
                    assert(self.lists@[owner].wf());
                    assert(self@ =~= appended(old_view, owner, id));
                }
            },
            Some(mut ol) => {
                let ghost s = ol.order@;
                let old_last = ol.head.prev.unwrap();
                proof {
                    assert(s.contains(s[s.len() - 1]));
                    assert(old_last == s.last());
                }
                let last_item = *ol.nodes.get(&old_last).unwrap();
                ol.nodes.insert(old_last, LinkedItem { prev: last_item.prev, next: Some(id) });
                ol.nodes.insert(id, LinkedItem { prev: Some(old_last), next: None });
                ol.head = LinkedItem { prev: Some(id), next: ol.head.next };
                ol.order = Ghost(s.push(id));
                self.lists.insert(owner, ol);
                proof {
                    let s2 = s.push(id);
                    assert(!s.contains(id));
                    assert(last_item == chain_item(s, s.len() - 1));
                    assert forall|i: int, j: int|
                        0 <= i < s2.len() && 0 <= j < s2.len() && i != j implies s2[i] != s2[j] by {
                        if i < s.len() && j < s.len() {
                        } else if i == s.len() as int {
                            assert(s.contains(s[j]));
                        } else {
                            assert(s.contains(s[i]));
                        }
                    }
                    assert(s2.no_duplicates());
                    assert forall|x: u32| #[trigger] s2.contains(x) implies self.lists@[owner].nodes@.contains_key(
                        x,
                    ) by {
                        let i = choose|i: int| 0 <= i < s2.len() && s2[i] == x;
                        if i < s.len() {
                            assert(s.contains(s[i]));
                        }
                    }
                    assert forall|x: u32| #[trigger] self.lists@[owner].nodes@.contains_key(x)
                        implies s2.contains(x) by {
                        if x != id && x != old_last {
                            let i = s.index_of(x);
                            assert(s[i] == s2[i]);
                        } else if x == old_last {
                            assert(s2[s.len() - 1] == old_last);
                        } else {
                            assert(s2[s.len() as int] == id);
                        }
                    }
                    assert forall|i: int| #![trigger s2[i]] 0 <= i < s2.len() implies self.lists@[owner].nodes@[s2[i]]
                        == chain_item(s2, i) by {
                        if i < s.len() - 1 {
                            assert(s2[i] == s[i]);
                            assert(s[i] != id);
                            assert(s[i] != old_last);
                            assert(self.lists@[owner].nodes@[s[i]] == chain_item(s, i));
                        } else if i == s.len() - 1 {
                            assert(s2[i] == old_last);
                        } else {
                            assert(s2[i] == id);
                        }
                    }
                    assert(self.lists@[owner].wf());
                    assert(old_view[owner] == s);
                    assert(self@ =~= appended(old_view, owner, id));
                }
            },
        }
    }

    /// Excises `kitty_id` from wherever it sits in `owner`'s list, splicing
    /// its neighbors together with a constant number of entry writes. A no-op
    /// where no such entry exists; removing the sole element deletes the
    /// owner's sentinel entirely.
    pub fn remove(&mut self, owner: u64, kitty_id: u32)
        requires
            old(self).wf(),
        ensures
            final (self).wf(),
            final (self)@ == removed(old(self)@, owner, kitty_id),
    {
        let ghost old_view = self@;
        match self.lists.remove(&owner) {
            None => {
                proof {
                    assert(self@ =~= removed(old_view, owner, kitty_id));
                }
            },
            Some(mut ol) => {
                let ghost s = ol.order@;
                match ol.nodes.remove(&kitty_id) {
                    None => {
                        self.lists.insert(owner, ol);
                        proof {
                            assert(ol.nodes@ =~= old(self).lists@[owner].nodes@);
                            assert(self.lists@[owner].wf());
                            assert(!s.contains(kitty_id));
                            assert(self@ =~= removed(old_view, owner, kitty_id));
                        }
                    },
                    Some(item) => {
                        let ghost i = s.index_of(kitty_id);
                        proof {
                            assert(s.contains(kitty_id));
                            assert(0 <= i < s.len() && s[i] == kitty_id);
                            assert(item == chain_item(s, i));
                            s.remove_ensures(i);
                        }
                        match item.prev {
                            None => {
                                ol.head = LinkedItem { prev: ol.head.prev, next: item.next };
                            },
                            Some(p) => {
                                proof {
                                    assert(i != 0 && p == s[i - 1]);
                                    assert(s.contains(s[i - 1]));
                                }
                                let pi = *ol.nodes.get(&p).unwrap();
                                ol.nodes.insert(p, LinkedItem { prev: pi.prev, next: item.next });
                            },
                        }
                        match item.next {
                            None => {
                                ol.head = LinkedItem { prev: item.prev, next: ol.head.next };
                            },
                            Some(n) => {
                                proof {
                                    assert(i != s.len() - 1 && n == s[i + 1]);
                                    assert(s.contains(s[i + 1]));
                                    assert(i > 0 ==> n != s[i - 1]);
                                }
                                let ni = *ol.nodes.get(&n).unwrap();
                                ol.nodes.insert(n, LinkedItem { prev: item.prev, next: ni.next });
                            },
                        }
                        if item.prev.is_none() && item.next.is_none() {
                            proof {
                                assert(i == 0 && i == s.len() - 1);
                                assert(s.remove(i).len() == 0);
                                assert(self@ =~= removed(old_view, owner, kitty_id));
                            }
                        } else {
                            let ghost s2 = s.remove(i);
                            ol.order = Ghost(s2);
                            self.lists.insert(owner, ol);
                            proof {
                                let nm = self.lists@[owner].nodes@;
                                assert(s.len() >= 2);
                                assert(s2.len() == s.len() - 1 >= 1);
                                assert forall|j: int, k: int|
                                    0 <= j < s2.len() && 0 <= k < s2.len() && j != k implies s2[j]
                                    != s2[k] by {
                                    let jj = if j < i {
                                        j
                                    } else {
                                        j + 1
                                    };
                                    let kk = if k < i {
                                        k
                                    } else {
                                        k + 1
                                    };
                                    assert(s2[j] == s[jj] && s2[k] == s[kk]);
                                }
                                assert(s2.no_duplicates());
                                assert forall|x: u32| #[trigger] s2.contains(x) implies nm.contains_key(
                                    x,
                                ) by {
                                    let j = choose|j: int| 0 <= j < s2.len() && s2[j] == x;
                                    let jj = if j < i {
                                        j
                                    } else {
                                        j + 1
                                    };
                                    assert(s[jj] == x);
                                    assert(s.contains(s[jj]));
                                    assert(x != kitty_id);
                                }
                                assert forall|x: u32| #[trigger] nm.contains_key(x) implies s2.contains(
                                    x,
                                ) by {
                                    assert(s.contains(x));
                                    let jj = s.index_of(x);
                                    assert(s[jj] == x);
                                    assert(x != kitty_id);
                                    assert(jj != i);
                                    let j = if jj < i {
                                        jj
                                    } else {
                                        jj - 1
                                    };
                                    assert(s2[j] == x);
                                }
                                assert forall|j: int| #![trigger s2[j]]
                                    0 <= j < s2.len() implies nm[s2[j]] == chain_item(s2, j) by {
                                    let jj = if j < i {
                                        j
                                    } else {
                                        j + 1
                                    };
                                    assert(s2[j] == s[jj]);
                                    assert(s[jj] != kitty_id);
                                    if jj == i - 1 {
                                        assert(nm[s[jj]].prev == chain_item(s, jj).prev);
                                        assert(nm[s[jj]].next == item.next);
                                    } else if jj == i + 1 {
                                        assert(nm[s[jj]].prev == item.prev);
                                        assert(nm[s[jj]].next == chain_item(s, jj).next);
                                    } else {
                                        assert(i > 0 ==> s[jj] != s[i - 1]);
                                        assert(i < s.len() - 1 ==> s[jj] != s[i + 1]);
                                        assert(nm[s[jj]] == chain_item(s, jj));
                                    }
                                    if j > 0 {
                                        let pj = if j - 1 < i {
                                            j - 1
                                        } else {
                                            j
                                        };
                                        assert(s2[j - 1] == s[pj]);
                                    }
                                    if j < s2.len() - 1 {
                                        let nj = if j + 1 < i {
                                            j + 1
                                        } else {
                                            j + 2
                                        };
                                        assert(s2[j + 1] == s[nj]);
                                    }
                                }
                                assert(self.lists@[owner].wf());
                                assert(self@ =~= removed(old_view, owner, kitty_id));
                            }
                        }
                    },
                }
            },
        }
    }
}

} // verus!
