//! Per-party state: a set of tree items and a store of whole objects.
//!
//! The reconciliation tree of a party is modelled by the set of item keys it
//! contains; the object store maps each item key to the posted object. The
//! party invariant is that the two always agree: the tree holds exactly the
//! keys of the store.

use vstd::prelude::*;

use crate::objects::SimObject;

verus! {

/// The item key of an object: author in the high 64 bits, post id in the low
/// 64 bits. Distinct `(author, post_id)` pairs give distinct keys.
pub open spec fn obj_key(obj: SimObject) -> u128 {
    ((obj.author as u128) * 0x10000000000000000 + (obj.post_id as u128)) as u128
}

/// Distinct `(author, post_id)` pairs give distinct keys.
pub proof fn lemma_obj_key_injective(a: SimObject, b: SimObject)
    requires
        obj_key(a) == obj_key(b),
    ensures
        a.author == b.author && a.post_id == b.post_id,
{
    assert(a.author == b.author && a.post_id == b.post_id) by (nonlinear_arith)
        requires
            obj_key(a) == obj_key(b),
            a.author <= u64::MAX,
            b.author <= u64::MAX,
            a.post_id <= u64::MAX,
            b.post_id <= u64::MAX,
            obj_key(a) == (a.author as u128) * 0x10000000000000000 + (a.post_id as u128),
            obj_key(b) == (b.author as u128) * 0x10000000000000000 + (b.post_id as u128),
    ;
}

/// The item key of an object, computed.
pub fn compute_obj_key(obj: &SimObject) -> (r: u128)
    ensures
        r == obj_key(*obj),
{
    (obj.author as u128) * 0x10000000000000000 + (obj.post_id as u128)
}

/// A set of item keys, sorted strictly ascending.
pub struct ItemSet {
    keys: Vec<u128>,
}

/// Whether the keys are sorted strictly ascending.
pub open spec fn keys_sorted(s: Seq<u128>) -> bool {
    forall|i: int, j: int| 0 <= i < j < s.len() ==> s[i] < s[j]
}

impl ItemSet {
    #[verifier::type_invariant]
    spec fn wf(self) -> bool {
        keys_sorted(self.keys@)
    }
}

impl View for ItemSet {
    type V = Set<u128>;

    closed spec fn view(&self) -> Set<u128> {
        self.keys@.to_set()
    }
}

impl ItemSet {
    /// An empty item set.
    pub fn new() -> (r: Self)
        ensures
            r@ == Set::<u128>::empty(),
    {
        let r = ItemSet { keys: Vec::new() };
        proof {
            assert(r@ =~= Set::<u128>::empty());
        }
        r
    }

    /// The position of the first key at least `k`.
    fn lower_bound(&self, k: u128) -> (pos: usize)
        ensures
            pos <= self.keys@.len(),
            forall|i: int| 0 <= i < pos ==> self.keys@[i] < k,
            forall|i: int| pos <= i < self.keys@.len() ==> self.keys@[i] >= k,
    {
        proof {
            use_type_invariant(self);
        }
        let mut lo: usize = 0;
        let mut hi: usize = self.keys.len();
        while lo < hi
            invariant
                keys_sorted(self.keys@),
                lo <= hi <= self.keys@.len(),
                forall|i: int| 0 <= i < lo ==> self.keys@[i] < k,
                forall|i: int| hi <= i < self.keys@.len() ==> self.keys@[i] >= k,
            decreases hi - lo,
        {
            let mid = lo + (hi - lo) / 2;
            if self.keys[mid] < k {
                lo = mid + 1;
            } else {
                hi = mid;
            }
        }
        lo
    }

    /// Whether the set contains `k`.
    pub fn contains(&self, k: u128) -> (r: bool)
        ensures
            r == self@.contains(k),
    {
        proof {
            use_type_invariant(self);
        }
        let pos = self.lower_bound(k);
        if pos < self.keys.len() && self.keys[pos] == k {
            proof {
                assert(self.keys@.contains(k));
            }
            true
        } else {
            proof {
                if self.keys@.contains(k) {
                    let i = choose|i: int| 0 <= i < self.keys@.len() && self.keys@[i] == k;
                    assert(self.keys@[i] >= k);
                }
            }
            false
        }
    }

    /// Adds `k` to the set.
    pub fn insert(&mut self, k: u128)
        ensures
            final(self)@ == old(self)@.insert(k),
    {
        proof {
            use_type_invariant(&*self);
        }
        let ghost pre = self.keys@;
        let pos = self.lower_bound(k);
        if pos < self.keys.len() && self.keys[pos] == k {
            proof {
                assert(pre.contains(k));
                assert(self@ =~= old(self)@.insert(k));
            }
        } else {
            let mut keys = Vec::new();
            core::mem::swap(&mut keys, &mut self.keys);
            keys.insert(pos, k);
            proof {
                assert(forall|i: int| 0 <= i < pos ==> #[trigger] keys@[i] == pre[i]);
                assert(forall|i: int| pos < i < keys@.len() ==> #[trigger] keys@[i] == pre[i - 1]);
                assert(keys@[pos as int] == k);
                assert(keys_sorted(keys@));
            }
            core::mem::swap(&mut keys, &mut self.keys);
            proof {
                let cur = self.keys@;
                assert forall|x: u128| #[trigger] self@.contains(x) implies old(self)@.insert(
                    k,
                ).contains(x) by {
                    let i = choose|i: int| 0 <= i < cur.len() && cur[i] == x;
                    if i < pos {
                        assert(pre[i] == x);
                        assert(pre.contains(x));
                    } else if i > pos {
                        assert(pre[i - 1] == x);
                        assert(pre.contains(x));
                    }
                }
                assert forall|x: u128| old(self)@.insert(k).contains(x) implies #[trigger] self@.contains(
                    x,
                ) by {
                    if x == k {
                        assert(cur[pos as int] == x);
                        assert(cur.contains(x));
                    } else {
                        let i = choose|i: int| 0 <= i < pre.len() && pre[i] == x;
                        if i < pos {
                            assert(cur[i] == x);
                        } else {
                            assert(cur[i + 1] == x);
                        }
                        assert(cur.contains(x));
                    }
                }
                assert(self@ =~= old(self)@.insert(k));
            }
        }
    }

    /// How many keys the set holds.
    pub fn len(&self) -> (r: usize)
        ensures
            r == self@.len(),
            self@.finite(),
    {
        proof {
            use_type_invariant(self);
            lemma_sorted_keys_len(self.keys@);
        }
        self.keys.len()
    }
}

/// A sorted key sequence converts to a finite set of the same size.
proof fn lemma_sorted_keys_len(s: Seq<u128>)
    requires
        keys_sorted(s),
    ensures
        s.to_set().finite(),
        s.to_set().len() == s.len(),
    decreases s.len(),
{
    broadcast use vstd::seq_lib::seq_to_set_is_finite;

    if s.len() == 0 {
        assert(s.to_set() =~= Set::<u128>::empty());
    } else {
        let s2 = s.drop_last();
        assert(keys_sorted(s2));
        lemma_sorted_keys_len(s2);
        assert(!s2.contains(s.last())) by {
            if s2.contains(s.last()) {
                let i = choose|i: int| 0 <= i < s2.len() && s2[i] == s.last();
                assert(s[i] < s[s.len() - 1]);
            }
        }
        assert(s.to_set() =~= s2.to_set().insert(s.last())) by {
            assert forall|x: u128| #[trigger] s.contains(x) implies s2.contains(x) || x
                == s.last() by {
                let i = choose|i: int| 0 <= i < s.len() && s[i] == x;
                if i < s.len() - 1 {
                    assert(s2[i] == x);
                }
            }
            assert forall|x: u128| s2.contains(x) implies #[trigger] s.contains(x) by {
                let i = choose|i: int| 0 <= i < s2.len() && s2[i] == x;
                assert(s[i] == x);
            }
            assert(s.contains(s.last()));
        }
    }
}

/// One stored object with its item key.
pub type StoreSlot = (u128, SimObject);

/// An object store: item keys mapped to the objects behind them, sorted
/// strictly ascending by key.
pub struct ObjectStore {
    entries: Vec<StoreSlot>,
}

/// Whether the slots are sorted strictly ascending by key.
pub open spec fn store_sorted(s: Seq<StoreSlot>) -> bool {
    forall|i: int, j: int| 0 <= i < j < s.len() ==> #[trigger] s[i].0 < #[trigger] s[j].0
}

/// Whether the slot list has an entry with key `k`.
pub open spec fn store_contains(s: Seq<StoreSlot>, k: u128) -> bool {
    exists|i: int| 0 <= i < s.len() && s[i].0 == k
}

/// The object stored under `k` (meaningful when the keys are unique).
pub open spec fn store_obj_at(s: Seq<StoreSlot>, k: u128) -> SimObject {
    s[choose|i: int| 0 <= i < s.len() && s[i].0 == k].1
}

/// The slot list as a map from key to object.
pub open spec fn store_as_map(s: Seq<StoreSlot>) -> Map<u128, SimObject> {
    Map::new(|k: u128| store_contains(s, k), |k: u128| store_obj_at(s, k))
}

impl ObjectStore {
    #[verifier::type_invariant]
    spec fn wf(self) -> bool {
        store_sorted(self.entries@)
    }
}

impl View for ObjectStore {
    type V = Map<u128, SimObject>;

    closed spec fn view(&self) -> Map<u128, SimObject> {
        store_as_map(self.entries@)
    }
}

/// In a sorted slot list, the key of position `pos` occurs nowhere else, and
/// `store_obj_at` of that key picks position `pos`.
proof fn lemma_store_unique(s: Seq<StoreSlot>, pos: int, k: u128)
    requires
        store_sorted(s),
        0 <= pos < s.len(),
        s[pos].0 == k,
    ensures
        store_contains(s, k),
        store_obj_at(s, k) == s[pos].1,
        forall|i: int| 0 <= i < s.len() && i != pos ==> #[trigger] s[i].0 != k,
{
    assert(forall|i: int| 0 <= i < s.len() && i != pos ==> #[trigger] s[i].0 != k);
    let j = choose|i: int| 0 <= i < s.len() && s[i].0 == k;
    assert(j == pos);
}

/// A sorted slot list converts to a map with a finite domain of the same
/// size.
proof fn lemma_store_dom_len(s: Seq<StoreSlot>)
    requires
        store_sorted(s),
    ensures
        store_as_map(s).dom().finite(),
        store_as_map(s).dom().len() == s.len(),
    decreases s.len(),
{
    if s.len() == 0 {
        assert(store_as_map(s).dom() =~= Set::<u128>::empty());
    } else {
        let s2 = s.drop_last();
        assert(store_sorted(s2));
        lemma_store_dom_len(s2);
        let lastk = s.last().0;
        assert(!store_contains(s2, lastk)) by {
            if store_contains(s2, lastk) {
                let i = choose|i: int| 0 <= i < s2.len() && s2[i].0 == lastk;
                assert(s[i].0 < s[s.len() - 1].0);
            }
        }
        assert(store_as_map(s).dom() =~= store_as_map(s2).dom().insert(lastk)) by {
            assert forall|k: u128| #[trigger] store_contains(s, k) implies k == lastk
                || store_contains(s2, k) by {
                let i = choose|i: int| 0 <= i < s.len() && s[i].0 == k;
                if i < s.len() - 1 {
                    assert(s2[i].0 == k);
                }
            }
            assert(forall|k: u128|
                #[trigger] store_contains(s2, k) ==> store_contains(s, k));
            assert(store_contains(s, lastk));
        }
    }
}

impl ObjectStore {
    /// An empty store.
    pub fn new() -> (r: Self)
        ensures
            r@ == Map::<u128, SimObject>::empty(),
    {
        let r = ObjectStore { entries: Vec::new() };
        proof {
            assert(r@ =~= Map::<u128, SimObject>::empty());
        }
        r
    }

    /// The stored slots in ascending key order.
    pub fn slots(&self) -> (r: &Vec<StoreSlot>)
        ensures
            store_sorted(r@),
            store_as_map(r@) == self@,
    {
        proof {
            use_type_invariant(self);
        }
        &self.entries
    }

    /// The position of the first slot with key at least `k`.
    fn lower_bound(&self, k: u128) -> (pos: usize)
        ensures
            pos <= self.entries@.len(),
            forall|i: int| 0 <= i < pos ==> #[trigger] self.entries@[i].0 < k,
            forall|i: int| pos <= i < self.entries@.len() ==> #[trigger] self.entries@[i].0 >= k,
    {
        proof {
            use_type_invariant(self);
        }
        let mut lo: usize = 0;
        let mut hi: usize = self.entries.len();
        while lo < hi
            invariant
                store_sorted(self.entries@),
                lo <= hi <= self.entries@.len(),
                forall|i: int| 0 <= i < lo ==> #[trigger] self.entries@[i].0 < k,
                forall|i: int| hi <= i < self.entries@.len() ==> #[trigger] self.entries@[i].0 >= k,
            decreases hi - lo,
        {
            let mid = lo + (hi - lo) / 2;
            if self.entries[mid].0 < k {
                lo = mid + 1;
            } else {
                hi = mid;
            }
        }
        lo
    }

    /// Whether the store holds an object under `k`.
    pub fn contains_key(&self, k: u128) -> (r: bool)
        ensures
            r == self@.contains_key(k),
    {
        proof {
            use_type_invariant(self);
        }
        let pos = self.lower_bound(k);
        if pos < self.entries.len() && self.entries[pos].0 == k {
            proof {
                assert(store_contains(self.entries@, k));
            }
            true
        } else {
            proof {
                if store_contains(self.entries@, k) {
                    let i = choose|i: int| 0 <= i < self.entries@.len() && self.entries@[i].0 == k;
                    assert(self.entries@[i].0 >= k);
                }
            }
            false
        }
    }

    /// The object stored under `k`, if any.
    pub fn get(&self, k: u128) -> (r: Option<&SimObject>)
        ensures
            match r {
                Some(obj) => self@.contains_key(k) && *obj == self@[k],
                None => !self@.contains_key(k),
            },
    {
        proof {
            use_type_invariant(self);
        }
        let pos = self.lower_bound(k);
        if pos < self.entries.len() && self.entries[pos].0 == k {
            proof {
                lemma_store_unique(self.entries@, pos as int, k);
            }
            Some(&self.entries[pos].1)
        } else {
            proof {
                if store_contains(self.entries@, k) {
                    let i = choose|i: int| 0 <= i < self.entries@.len() && self.entries@[i].0 == k;
                    assert(self.entries@[i].0 >= k);
                }
            }
            None
        }
    }

    /// Stores `obj` under `k`, replacing any object already there.
    pub fn insert(&mut self, k: u128, obj: SimObject)
        ensures
            final(self)@ == old(self)@.insert(k, obj),
    {
        proof {
            use_type_invariant(&*self);
        }
        let ghost pre = self.entries@;
        let pos = self.lower_bound(k);
        let mut entries = Vec::new();
        core::mem::swap(&mut entries, &mut self.entries);
        if pos < entries.len() && entries[pos].0 == k {
            proof {
                lemma_store_unique(pre, pos as int, k);
            }
            entries.remove(pos);
            entries.insert(pos, (k, obj));
            proof {
                assert(entries@ =~= pre.update(pos as int, (k, obj)));
                assert(forall|i: int|
                    0 <= i < entries@.len() && i != pos ==> #[trigger] entries@[i] == pre[i]);
                assert(store_sorted(entries@));
            }
            core::mem::swap(&mut entries, &mut self.entries);
            proof {
                let cur = self.entries@;
                lemma_store_unique(cur, pos as int, k);
                assert forall|x: u128| x != k && #[trigger] store_contains(cur, x) implies
                    store_contains(pre, x) && store_obj_at(cur, x) == store_obj_at(pre, x) by {
                    let i = choose|i: int| 0 <= i < cur.len() && cur[i].0 == x;
                    lemma_store_unique(cur, i, x);
                    lemma_store_unique(pre, i, x);
                }
                assert forall|x: u128| x != k && #[trigger] store_contains(pre, x) implies
                    store_contains(cur, x) by {
                    let i = choose|i: int| 0 <= i < pre.len() && pre[i].0 == x;
                    assert(cur[i].0 == x);
                }
                assert(self@ =~= old(self)@.insert(k, obj));
            }
        } else {
            proof {
                if store_contains(pre, k) {
                    let i = choose|i: int| 0 <= i < pre.len() && pre[i].0 == k;
                    assert(pre[i].0 >= k);
                }
            }
            entries.insert(pos, (k, obj));
            proof {
                assert(forall|i: int| 0 <= i < pos ==> #[trigger] entries@[i] == pre[i]);
                assert(forall|i: int|
                    pos < i < entries@.len() ==> #[trigger] entries@[i] == pre[i - 1]);
                assert(entries@[pos as int] == (k, obj));
                assert(store_sorted(entries@));
            }
            core::mem::swap(&mut entries, &mut self.entries);
            proof {
                let cur = self.entries@;
                lemma_store_unique(cur, pos as int, k);
                assert forall|x: u128| x != k && #[trigger] store_contains(cur, x) implies
                    store_contains(pre, x) && store_obj_at(cur, x) == store_obj_at(pre, x) by {
                    let i = choose|i: int| 0 <= i < cur.len() && cur[i].0 == x;
                    lemma_store_unique(cur, i, x);
                    if i < pos {
                        lemma_store_unique(pre, i, x);
                    } else {
                        lemma_store_unique(pre, i - 1, x);
                    }
                }
                assert forall|x: u128| x != k && #[trigger] store_contains(pre, x) implies
                    store_contains(cur, x) by {
                    let i = choose|i: int| 0 <= i < pre.len() && pre[i].0 == x;
                    if i < pos {
                        assert(cur[i].0 == x);
                    } else {
                        assert(cur[i + 1].0 == x);
                    }
                }
                assert(self@ =~= old(self)@.insert(k, obj));
            }
        }
    }

    /// How many objects the store holds.
    pub fn len(&self) -> (r: usize)
        ensures
            r == self@.dom().len(),
            self@.dom().finite(),
    {
        proof {
            use_type_invariant(self);
            lemma_store_dom_len(self.entries@);
        }
        self.entries.len()
    }
}

/// Whether every object of the store sits under its own item key.
pub open spec fn store_keyed(m: Map<u128, SimObject>) -> bool {
    forall|k: u128| #[trigger] m.contains_key(k) ==> obj_key(m[k]) == k
}

/// The state of one simulated party.
pub struct PartyState {
    /// The item keys in the party's reconciliation tree.
    tree: ItemSet,
    /// The party's object store.
    objects: ObjectStore,
}

impl PartyState {
    /// The tree always holds exactly the keys of the object store, and every
    /// object sits under its own item key.
    #[verifier::type_invariant]
    spec fn agree(self) -> bool {
        self.tree@ == self.objects@.dom() && store_keyed(self.objects@)
    }

    /// The party's objects, as a map from item key to object.
    pub closed spec fn store(&self) -> Map<u128, SimObject> {
        self.objects@
    }

    /// A party with no objects.
    pub fn new() -> (r: Self)
        ensures
            r.store() == Map::<u128, SimObject>::empty(),
            r.tree_items() == r.store().dom(),
            store_keyed(r.store()),
    {
        let r = PartyState { tree: ItemSet::new(), objects: ObjectStore::new() };
        proof {
            assert(r.tree@ =~= r.objects@.dom());
        }
        r
    }

    /// Adds one object: its item into the tree and the object itself into the
    /// store. Re-posting an object with the same key replaces the stored
    /// object and leaves the tree unchanged.
    pub fn post(&mut self, obj: SimObject)
        ensures
            final(self).store() == old(self).store().insert(obj_key(obj), obj),
            final(self).tree_items() == final(self).store().dom(),
            store_keyed(final(self).store()),
    {
        proof {
            use_type_invariant(&*self);
        }
        let key = compute_obj_key(&obj);
        let mut tmp = PartyState::new();
        core::mem::swap(self, &mut tmp);
        let PartyState { mut tree, mut objects } = tmp;
        tree.insert(key);
        objects.insert(key, obj);
        proof {
            assert(tree@ =~= objects@.dom());
            assert(store_keyed(objects@));
        }
        let mut built = PartyState { tree, objects };
        core::mem::swap(self, &mut built);
    }

    /// The item keys in the party's reconciliation tree. Every constructor
    /// and mutator ensures that this set equals `store().dom()`: the tree
    /// holds exactly the keys of the object store, after every operation.
    pub closed spec fn tree_items(&self) -> Set<u128> {
        self.tree@
    }

    /// Whether the party's tree holds the item key `k`.
    pub fn tree_contains(&self, k: u128) -> (r: bool)
        ensures
            r == self.store().contains_key(k),
    {
        proof {
            use_type_invariant(self);
        }
        self.tree.contains(k)
    }

    /// The object stored under `k`, if any.
    pub fn get(&self, k: u128) -> (r: Option<&SimObject>)
        ensures
            match r {
                Some(obj) => self.store().contains_key(k) && *obj == self.store()[k],
                None => !self.store().contains_key(k),
            },
    {
        self.objects.get(k)
    }

    /// How many objects the party holds.
    pub fn objects_len(&self) -> (r: usize)
        ensures
            r == self.store().dom().len(),
            self.store().dom().finite(),
    {
        self.objects.len()
    }

    /// The stored slots in ascending key order.
    pub fn slots(&self) -> (r: &Vec<StoreSlot>)
        ensures
            store_sorted(r@),
            store_as_map(r@) == self.store(),
    {
        self.objects.slots()
    }

    /// Whether the store holds an object under `k`.
    pub fn contains_key(&self, k: u128) -> (r: bool)
        ensures
            r == self.store().contains_key(k),
    {
        self.objects.contains_key(k)
    }
}


/// Whether `l` lists exactly the objects of `from` that are missing from
/// `into`: every listed object is stored in `from` under its own key and
/// absent from `into`, every such missing object appears in the list, and no
/// key is listed twice.
pub open spec fn learned_ok(
    from: Map<u128, SimObject>,
    into: Map<u128, SimObject>,
    l: Seq<SimObject>,
) -> bool {
    &&& forall|i: int|
        0 <= i < l.len() ==> {
            &&& from.contains_key(#[trigger] obj_key(l[i]))
            &&& from[obj_key(l[i])] == l[i]
            &&& !into.contains_key(obj_key(l[i]))
        }
    &&& forall|k: u128|
        #[trigger] from.contains_key(k) && !into.contains_key(k) ==> l.contains(from[k])
    &&& forall|i: int, j: int|
        0 <= i < j < l.len() ==> obj_key(#[trigger] l[i]) != obj_key(#[trigger] l[j])
}

/// The objects of `from` whose item keys are missing from `into`, in
/// ascending key order: what `into` learns when `from` sends everything it
/// has.
#[verifier::rlimit(30)]
pub fn diff_missing(from: &PartyState, into: &PartyState) -> (r: Vec<SimObject>)
    ensures
        learned_ok(from.store(), into.store(), r@),
{
    proof {
        use_type_invariant(from);
    }
    let ghost fromstore = from.store();
    let ghost intostore = into.store();
    let slots = from.objects.slots();
    let n = slots.len();
    proof {
        assert(store_keyed(fromstore));
        assert forall|m: int| 0 <= m < slots@.len() implies (fromstore.contains_key(
            #[trigger] slots@[m].0,
        ) && fromstore[slots@[m].0] == slots@[m].1 && obj_key(slots@[m].1) == slots@[m].0) by {
            lemma_store_unique(slots@, m, slots@[m].0);
            assert(store_contains(slots@, slots@[m].0));
            assert(store_as_map(slots@).contains_key(slots@[m].0));
            assert(store_as_map(slots@)[slots@[m].0] == store_obj_at(slots@, slots@[m].0));
        }
    }
    let mut out: Vec<SimObject> = Vec::new();
    let mut i: usize = 0;
    while i < n
        invariant
            i <= n,
            n == slots@.len(),
            store_sorted(slots@),
            intostore == into.store(),
            forall|m: int|
                0 <= m < slots@.len() ==> (fromstore.contains_key(#[trigger] slots@[m].0)
                    && fromstore[slots@[m].0] == slots@[m].1 && obj_key(slots@[m].1)
                    == slots@[m].0),
            forall|j: int|
                0 <= j < out@.len() ==> {
                    &&& fromstore.contains_key(#[trigger] obj_key(out@[j]))
                    &&& fromstore[obj_key(out@[j])] == out@[j]
                    &&& !intostore.contains_key(obj_key(out@[j]))
                },
            forall|m: int|
                0 <= m < i && !intostore.contains_key(#[trigger] slots@[m].0) ==> out@.contains(
                    slots@[m].1,
                ),
            forall|j1: int, j2: int|
                0 <= j1 < j2 < out@.len() ==> obj_key(#[trigger] out@[j1]) < obj_key(
                    #[trigger] out@[j2],
                ),
            out@.len() > 0 ==> exists|m: int|
                0 <= m < i && slots@[m].0 == obj_key(out@.last()),
        decreases n - i,
    {
        let slot = &slots[i];
        if !into.contains_key(slot.0) {
            let ghost pre = out@;
            out.push(slot.1);
            proof {
                assert(out@.last() == slots@[i as int].1);
                assert(out@.contains(slots@[i as int].1));
                assert forall|m: int|
                    0 <= m < i + 1 && !intostore.contains_key(
                        #[trigger] slots@[m].0,
                    ) implies out@.contains(slots@[m].1) by {
                    if m < i {
                        let j = choose|j: int| 0 <= j < pre.len() && pre[j] == slots@[m].1;
                        assert(out@[j] == slots@[m].1);
                    }
                }
                assert forall|j: int| 0 <= j < out@.len() implies {
                    &&& fromstore.contains_key(#[trigger] obj_key(out@[j]))
                    &&& fromstore[obj_key(out@[j])] == out@[j]
                    &&& !intostore.contains_key(obj_key(out@[j]))
                } by {
                    if j == pre.len() {
                        assert(out@[j] == slots@[i as int].1);
                        assert(obj_key(out@[j]) == slots@[i as int].0);
                    } else {
                        assert(out@[j] == pre[j]);
                    }
                }
                if pre.len() > 0 {
                    let m0 = choose|m: int| 0 <= m < i && slots@[m].0 == obj_key(pre.last());
                    assert(slots@[m0].0 < slots@[i as int].0);
                    assert(obj_key(pre.last()) < obj_key(out@.last()));
                }
                assert forall|j1: int, j2: int|
                    0 <= j1 < j2 < out@.len() implies obj_key(#[trigger] out@[j1]) < obj_key(
                    #[trigger] out@[j2],
                ) by {
                    if j2 == pre.len() {
                        assert(out@[j1] == pre[j1]);
                        if j1 < pre.len() - 1 {
                            assert(obj_key(pre[j1]) < obj_key(pre[pre.len() - 1]));
                        }
                        assert(pre.last() == pre[pre.len() - 1]);
                    } else {
                        assert(out@[j1] == pre[j1] && out@[j2] == pre[j2]);
                    }
                }
                assert(slots@[i as int].0 == obj_key(out@.last()));
            }
        }
        i = i + 1;
    }
    proof {
        assert forall|k: u128|
            #[trigger] fromstore.contains_key(k) && !intostore.contains_key(k) implies out@.contains(
            fromstore[k],
        ) by {
            assert(store_contains(slots@, k));
            let m = choose|m: int| 0 <= m < slots@.len() && slots@[m].0 == k;
            assert(!intostore.contains_key(slots@[m].0));
            assert(out@.contains(slots@[m].1));
            assert(fromstore[k] == slots@[m].1);
        }
    }
    out
}

} // verus!
