//! The two trigger collections that drive the simulator: a schedule of events
//! keyed by time, and a list of probabilistic entries evaluated every tick.
//!
//! The schedule keeps, for every instant, the entries in the order they were
//! added; the simulator relies on that order. It is stored as an association
//! list sorted strictly by time, so lookups are binary searches and the whole
//! structure is verified with no trusted code.

use vstd::prelude::*;

use crate::events::{
    prob_entries_view, sched_entries_view, sched_entry_view, ProbEntry, ProbEntryV, SchedEntry,
    SchedEntryV,
};

verus! {

/// One instant's slot in the schedule: the minute and its entries in order.
pub type SchedSlot = (u64, Vec<SchedEntry>);

/// A mapping from simulated minute to the scheduled trigger entries of that
/// minute, in insertion order.
pub struct ScheduleMap {
    entries: Vec<SchedSlot>,
}

/// Whether the slots are sorted strictly by time, so each minute occurs at
/// most once.
pub open spec fn slots_sorted(s: Seq<SchedSlot>) -> bool {
    forall|i: int, j: int| 0 <= i < j < s.len() ==> #[trigger] s[i].0 < #[trigger] s[j].0
}

/// Whether the slot list has an entry for time `t`.
pub open spec fn sched_contains(s: Seq<SchedSlot>, t: u64) -> bool {
    exists|i: int| 0 <= i < s.len() && s[i].0 == t
}

/// The entry list stored for time `t` (meaningful when the keys are unique).
pub open spec fn sched_list_at(s: Seq<SchedSlot>, t: u64) -> Vec<SchedEntry> {
    s[choose|i: int| 0 <= i < s.len() && s[i].0 == t].1
}

/// The slot list as a map from minute to the views of its entries.
pub open spec fn slots_as_map(s: Seq<SchedSlot>) -> Map<u64, Seq<SchedEntryV>> {
    Map::new(|t: u64| sched_contains(s, t), |t: u64| sched_entries_view(sched_list_at(s, t)@))
}

/// The scheduled entries of `m` at time `t`, or the empty sequence where `m`
/// has none.
pub open spec fn sched_at(m: Map<u64, Seq<SchedEntryV>>, t: u64) -> Seq<SchedEntryV> {
    if m.contains_key(t) {
        m[t]
    } else {
        Seq::empty()
    }
}

/// In a sorted slot list, the key of position `pos` occurs nowhere else, and
/// `sched_list_at` of that key picks position `pos`.
proof fn lemma_sorted_unique(s: Seq<SchedSlot>, pos: int, t: u64)
    requires
        slots_sorted(s),
        0 <= pos < s.len(),
        s[pos].0 == t,
    ensures
        sched_contains(s, t),
        sched_list_at(s, t) == s[pos].1,
        forall|i: int| 0 <= i < s.len() && i != pos ==> #[trigger] s[i].0 != t,
{
    assert(forall|i: int| 0 <= i < s.len() && i != pos ==> #[trigger] s[i].0 != t);
    let k = choose|i: int| 0 <= i < s.len() && s[i].0 == t;
    assert(k == pos);
}

impl ScheduleMap {
    #[verifier::type_invariant]
    spec fn wf(self) -> bool {
        slots_sorted(self.entries@)
    }
}

impl View for ScheduleMap {
    type V = Map<u64, Seq<SchedEntryV>>;

    closed spec fn view(&self) -> Map<u64, Seq<SchedEntryV>> {
        slots_as_map(self.entries@)
    }
}

impl ScheduleMap {
    /// An empty schedule.
    pub fn new() -> (r: Self)
        ensures
            r@ == Map::<u64, Seq<SchedEntryV>>::empty(),
    {
        let r = ScheduleMap { entries: Vec::new() };
        proof {
            assert(r@ =~= Map::<u64, Seq<SchedEntryV>>::empty());
        }
        r
    }

    /// The slots in time order (for walking the whole schedule).
    pub fn slots(&self) -> (r: &Vec<SchedSlot>)
        ensures
            slots_sorted(r@),
            slots_as_map(r@) == self@,
    {
        proof {
            use_type_invariant(self);
        }
        &self.entries
    }

    /// The position of the first slot with key at least `t`.
    fn lower_bound(&self, t: u64) -> (pos: usize)
        ensures
            pos <= self.entries@.len(),
            forall|i: int| 0 <= i < pos ==> #[trigger] self.entries@[i].0 < t,
            forall|i: int| pos <= i < self.entries@.len() ==> #[trigger] self.entries@[i].0 >= t,
    {
        proof {
            use_type_invariant(self);
        }
        let mut lo: usize = 0;
        let mut hi: usize = self.entries.len();
        while lo < hi
            invariant
                slots_sorted(self.entries@),
                lo <= hi <= self.entries@.len(),
                forall|i: int| 0 <= i < lo ==> #[trigger] self.entries@[i].0 < t,
                forall|i: int| hi <= i < self.entries@.len() ==> #[trigger] self.entries@[i].0 >= t,
            decreases hi - lo,
        {
            let mid = lo + (hi - lo) / 2;
            if self.entries[mid].0 < t {
                lo = mid + 1;
            } else {
                hi = mid;
            }
        }
        lo
    }

    /// Whether any entries are scheduled at time `t`.
    pub fn contains(&self, t: u64) -> (r: bool)
        ensures
            r == self@.contains_key(t),
    {
        proof {
            use_type_invariant(self);
        }
        let pos = self.lower_bound(t);
        if pos < self.entries.len() && self.entries[pos].0 == t {
            proof {
                assert(sched_contains(self.entries@, t));
            }
            true
        } else {
            proof {
                if sched_contains(self.entries@, t) {
                    let i = choose|i: int| 0 <= i < self.entries@.len() && self.entries@[i].0 == t;
                    assert(self.entries@[i].0 >= t);
                }
            }
            false
        }
    }

    /// Removes and returns the entries scheduled at time `t`.
    pub fn take_at(&mut self, t: u64) -> (r: Option<Vec<SchedEntry>>)
        ensures
            final(self)@ == old(self)@.remove(t),
            match r {
                Some(v) => old(self)@.contains_key(t) && sched_entries_view(v@) == old(self)@[t],
                None => !old(self)@.contains_key(t),
            },
    {
        proof {
            use_type_invariant(&*self);
        }
        let ghost pre = self.entries@;
        let pos = self.lower_bound(t);
        if pos < self.entries.len() && self.entries[pos].0 == t {
            proof {
                lemma_sorted_unique(pre, pos as int, t);
            }
            let mut entries = Vec::new();
            core::mem::swap(&mut entries, &mut self.entries);
            let slot = entries.remove(pos);
            proof {
                assert(forall|i: int| 0 <= i < pos ==> #[trigger] entries@[i] == pre[i]);
                assert(forall|i: int|
                    pos <= i < entries@.len() ==> #[trigger] entries@[i] == pre[i + 1]);
                assert(slots_sorted(entries@));
            }
            core::mem::swap(&mut entries, &mut self.entries);
            proof {
                let cur = self.entries@;
                assert(!sched_contains(cur, t)) by {
                    if sched_contains(cur, t) {
                        let i = choose|i: int| 0 <= i < cur.len() && cur[i].0 == t;
                        assert(i < pos ==> pre[i].0 == t);
                        assert(i >= pos ==> pre[i + 1].0 == t);
                    }
                }
                assert forall|u: u64| u != t implies (#[trigger] sched_contains(cur, u)
                    <==> sched_contains(pre, u)) by {
                    if sched_contains(cur, u) {
                        let i = choose|i: int| 0 <= i < cur.len() && cur[i].0 == u;
                        assert(i < pos ==> pre[i].0 == u);
                        assert(i >= pos ==> pre[i + 1].0 == u);
                    }
                    if sched_contains(pre, u) {
                        let i = choose|i: int| 0 <= i < pre.len() && pre[i].0 == u;
                        assert(i != pos);
                        assert(i < pos ==> cur[i].0 == u);
                        assert(i > pos ==> cur[i - 1].0 == u);
                    }
                }
                assert forall|u: u64| u != t && sched_contains(cur, u) implies #[trigger] sched_list_at(
                    cur,
                    u,
                ) == sched_list_at(pre, u) by {
                    let i = choose|i: int| 0 <= i < cur.len() && cur[i].0 == u;
                    lemma_sorted_unique(cur, i, u);
                    if i < pos {
                        lemma_sorted_unique(pre, i, u);
                    } else {
                        lemma_sorted_unique(pre, i + 1, u);
                    }
                }
                assert(self@ =~= old(self)@.remove(t));
            }
            Some(slot.1)
        } else {
            proof {
                if sched_contains(pre, t) {
                    let i = choose|i: int| 0 <= i < pre.len() && pre[i].0 == t;
                    assert(pre[i].0 >= t);
                }
                assert(self@ =~= old(self)@.remove(t));
            }
            None
        }
    }

    /// Appends the whole `list` behind the entries scheduled at time `t`,
    /// creating the slot if the time is new.
    pub fn extend_at(&mut self, t: u64, list: Vec<SchedEntry>)
        ensures
            final(self)@ == old(self)@.insert(
                t,
                sched_at(old(self)@, t) + sched_entries_view(list@),
            ),
    {
        proof {
            use_type_invariant(&*self);
        }
        let ghost pre = self.entries@;
        let ghost listv = list@;
        let pos = self.lower_bound(t);
        let mut entries = Vec::new();
        core::mem::swap(&mut entries, &mut self.entries);
        if pos < entries.len() && entries[pos].0 == t {
            proof {
                lemma_sorted_unique(pre, pos as int, t);
            }
            let mut slot = entries.remove(pos);
            let ghost slotv = slot.1@;
            let mut tail = list;
            slot.1.append(&mut tail);
            entries.insert(pos, slot);
            proof {
                assert(entries@ =~= pre.update(pos as int, (t, slot.1)));
                assert(forall|i: int|
                    0 <= i < entries@.len() && i != pos ==> #[trigger] entries@[i] == pre[i]);
                assert(slots_sorted(entries@));
            }
            core::mem::swap(&mut entries, &mut self.entries);
            proof {
                let cur = self.entries@;
                assert(cur[pos as int].0 == t && cur[pos as int].1@ == slotv + listv);
                lemma_sorted_unique(cur, pos as int, t);
                assert forall|u: u64| (#[trigger] sched_contains(cur, u) <==> sched_contains(
                    pre,
                    u,
                )) by {
                    if sched_contains(cur, u) {
                        let i = choose|i: int| 0 <= i < cur.len() && cur[i].0 == u;
                        assert(pre[i].0 == u);
                    }
                    if sched_contains(pre, u) {
                        let i = choose|i: int| 0 <= i < pre.len() && pre[i].0 == u;
                        assert(cur[i].0 == u);
                    }
                }
                assert forall|u: u64| u != t && sched_contains(cur, u) implies #[trigger] sched_list_at(
                    cur,
                    u,
                ) == sched_list_at(pre, u) by {
                    let i = choose|i: int| 0 <= i < cur.len() && cur[i].0 == u;
                    lemma_sorted_unique(cur, i, u);
                    lemma_sorted_unique(pre, i, u);
                }
                assert(sched_entries_view(slotv + listv) =~= sched_entries_view(slotv)
                    + sched_entries_view(listv));
                assert(sched_entries_view(sched_list_at(pre, t)@) == sched_at(old(self)@, t));
                assert(self@ =~= old(self)@.insert(
                    t,
                    sched_at(old(self)@, t) + sched_entries_view(listv),
                ));
            }
        } else {
            proof {
                if sched_contains(pre, t) {
                    let i = choose|i: int| 0 <= i < pre.len() && pre[i].0 == t;
                    assert(pre[i].0 >= t);
                }
            }
            entries.insert(pos, (t, list));
            proof {
                assert(forall|i: int| 0 <= i < pos ==> #[trigger] entries@[i] == pre[i]);
                assert(forall|i: int|
                    pos < i < entries@.len() ==> #[trigger] entries@[i] == pre[i - 1]);
                assert(entries@[pos as int].0 == t);
                assert(slots_sorted(entries@));
            }
            core::mem::swap(&mut entries, &mut self.entries);
            proof {
                let cur = self.entries@;
                lemma_sorted_unique(cur, pos as int, t);
                assert forall|u: u64| u != t implies (#[trigger] sched_contains(cur, u)
                    <==> sched_contains(pre, u)) by {
                    if sched_contains(cur, u) {
                        let i = choose|i: int| 0 <= i < cur.len() && cur[i].0 == u;
                        assert(i != pos);
                        assert(i < pos ==> pre[i].0 == u);
                        assert(i > pos ==> pre[i - 1].0 == u);
                    }
                    if sched_contains(pre, u) {
                        let i = choose|i: int| 0 <= i < pre.len() && pre[i].0 == u;
                        assert(i < pos ==> cur[i].0 == u);
                        assert(i >= pos ==> cur[i + 1].0 == u);
                    }
                }
                assert forall|u: u64| u != t && sched_contains(cur, u) implies #[trigger] sched_list_at(
                    cur,
                    u,
                ) == sched_list_at(pre, u) by {
                    let i = choose|i: int| 0 <= i < cur.len() && cur[i].0 == u;
                    lemma_sorted_unique(cur, i, u);
                    if i < pos {
                        lemma_sorted_unique(pre, i, u);
                    } else {
                        lemma_sorted_unique(pre, i - 1, u);
                    }
                }
                assert(!sched_contains(pre, t));
                assert(sched_entries_view(listv) =~= Seq::empty() + sched_entries_view(listv));
                assert(self@ =~= old(self)@.insert(
                    t,
                    sched_at(old(self)@, t) + sched_entries_view(listv),
                ));
            }
        }
    }

    /// Appends one entry behind the entries scheduled at time `t`.
    pub fn push_at(&mut self, t: u64, entry: SchedEntry)
        ensures
            final(self)@ == old(self)@.insert(
                t,
                sched_at(old(self)@, t).push(sched_entry_view(entry)),
            ),
    {
        let ghost e = entry;
        let mut list: Vec<SchedEntry> = Vec::new();
        list.push(entry);
        proof {
            assert(sched_entries_view(list@) =~= seq![sched_entry_view(e)]);
        }
        self.extend_at(t, list);
        proof {
            assert(sched_at(old(self)@, t) + seq![sched_entry_view(e)] =~= sched_at(
                old(self)@,
                t,
            ).push(sched_entry_view(e)));
        }
    }
}

/// The ghost model of a `Triggers` value: the schedule as a map and the
/// probabilistic entries as a sequence.
pub struct TriggersV {
    pub scheduled: Map<u64, Seq<SchedEntryV>>,
    pub probabilistic: Seq<ProbEntryV>,
}

/// The two trigger collections of a running simulation.
pub struct Triggers {
    /// Events that fire at fixed instants.
    pub scheduled: ScheduleMap,
    /// Events that fire by chance, evaluated once per tick each.
    pub probabilistic: Vec<ProbEntry>,
}

impl View for Triggers {
    type V = TriggersV;

    open spec fn view(&self) -> TriggersV {
        TriggersV {
            scheduled: self.scheduled@,
            probabilistic: prob_entries_view(self.probabilistic@),
        }
    }
}

impl Triggers {
    /// A trigger set from its two parts.
    pub fn new(scheduled: ScheduleMap, probabilistic: Vec<ProbEntry>) -> (r: Self)
        ensures
            r@.scheduled == scheduled@,
            r@.probabilistic == prob_entries_view(probabilistic@),
    {
        Triggers { scheduled, probabilistic }
    }

    /// An empty trigger set.
    pub fn empty() -> (r: Self)
        ensures
            r@.scheduled == Map::<u64, Seq<SchedEntryV>>::empty(),
            r@.probabilistic == Seq::<ProbEntryV>::empty(),
    {
        let r = Triggers { scheduled: ScheduleMap::new(), probabilistic: Vec::new() };
        proof {
            assert(prob_entries_view(r.probabilistic@) =~= Seq::<ProbEntryV>::empty());
        }
        r
    }

    /// Moves every trigger of `other` into `self`: scheduled entries are
    /// appended behind `self`'s entries of the same instant, and probabilistic
    /// entries behind `self`'s list. `other` is left empty.
    pub fn append(&mut self, other: &mut Triggers)
        ensures
            forall|t: u64|
                #[trigger] sched_at(final(self)@.scheduled, t) == sched_at(
                    old(self)@.scheduled,
                    t,
                ) + sched_at(old(other)@.scheduled, t),
            forall|t: u64|
                #[trigger] final(self)@.scheduled.contains_key(t) <==> (old(
                    self,
                )@.scheduled.contains_key(t) || old(other)@.scheduled.contains_key(t)),
            final(self)@.probabilistic == old(self)@.probabilistic + old(other)@.probabilistic,
            final(other)@.scheduled == Map::<u64, Seq<SchedEntryV>>::empty(),
            final(other)@.probabilistic == Seq::<ProbEntryV>::empty(),
    {
        let mut osched = ScheduleMap::new();
        core::mem::swap(&mut osched, &mut other.scheduled);
        let mut oprob: Vec<ProbEntry> = Vec::new();
        core::mem::swap(&mut oprob, &mut other.probabilistic);
        proof {
            assert(prob_entries_view(other.probabilistic@) =~= Seq::<ProbEntryV>::empty());
        }
        let ghost selfprob = self.probabilistic@;
        let ghost oprobv = oprob@;
        let ghost presched = self@.scheduled;
        let ghost ov = osched@;
        self.merge_schedule(osched);
        let ghost midsched = self@.scheduled;
        self.probabilistic.append(&mut oprob);
        proof {
            assert(prob_entries_view(self.probabilistic@) =~= prob_entries_view(selfprob)
                + prob_entries_view(oprobv));
            assert(self@.scheduled == midsched);
            assert forall|t: u64| #[trigger] sched_at(self@.scheduled, t) == sched_at(
                old(self)@.scheduled,
                t,
            ) + sched_at(old(other)@.scheduled, t) by {
                assert(sched_at(midsched, t) == sched_at(presched, t) + sched_at(ov, t));
            }
            assert forall|t: u64|
                #[trigger] self@.scheduled.contains_key(t) <==> (old(
                    self,
                )@.scheduled.contains_key(t) || old(other)@.scheduled.contains_key(t)) by {
                assert(midsched.contains_key(t) <==> (presched.contains_key(t)
                    || ov.contains_key(t)));
            }
        }
    }

    /// Appends every scheduled entry of `m` behind `self`'s entries of the
    /// same instant.
    fn merge_schedule(&mut self, m: ScheduleMap)
        ensures
            forall|t: u64|
                #[trigger] sched_at(final(self)@.scheduled, t) == sched_at(
                    old(self)@.scheduled,
                    t,
                ) + sched_at(m@, t),
            forall|t: u64|
                #[trigger] final(self)@.scheduled.contains_key(t) <==> (old(
                    self,
                )@.scheduled.contains_key(t) || m@.contains_key(t)),
            final(self).probabilistic == old(self).probabilistic,
    {
        proof {
            use_type_invariant(&m);
        }
        let ghost m0 = m@;
        let ScheduleMap { entries: mut slots } = m;
        let ghost sv = slots@;
        proof {
            assert(sv.subrange(0, sv.len() as int) =~= sv);
        }
        while slots.len() > 0
            invariant
                slots@.len() <= sv.len(),
                slots@ == sv.subrange(0, slots@.len() as int),
                slots_sorted(sv),
                slots_as_map(sv) == m0,
                self.probabilistic == old(self).probabilistic,
                forall|t: u64|
                    #[trigger] sched_at(self@.scheduled, t) =~= sched_at(old(self)@.scheduled, t)
                        + sched_at(
                        slots_as_map(sv.subrange(slots@.len() as int, sv.len() as int)),
                        t,
                    ),
                forall|t: u64|
                    #[trigger] self@.scheduled.contains_key(t) <==> (old(
                        self,
                    )@.scheduled.contains_key(t) || slots_as_map(
                        sv.subrange(slots@.len() as int, sv.len() as int),
                    ).contains_key(t)),
            decreases slots@.len(),
        {
            let ghost k = slots@.len() - 1;
            let ghost prepop = slots@;
            let ghost prev = self@.scheduled;
            let slot = slots.pop().unwrap();
            proof {
                assert(0 <= k < sv.len());
                assert(slot == prepop[k]);
                assert(prepop == sv.subrange(0, k + 1));
                assert(prepop[k] == sv.subrange(0, k + 1)[k]);
                assert(slot == sv[k]);
                assert(slots@ == prepop.subrange(0, k));
                assert(slots@ =~= sv.subrange(0, k));
            }
            let (t0, list) = slot;
            self.scheduled.extend_at(t0, list);
            proof {
                assert forall|t: u64| #[trigger] sched_at(self@.scheduled, t) =~= sched_at(
                    old(self)@.scheduled,
                    t,
                ) + sched_at(slots_as_map(sv.subrange(k, sv.len() as int)), t) by {
                    lemma_suffix_step(sv, k, t);
                    if t == t0 {
                        assert(sched_at(prev, t) == sched_at(old(self)@.scheduled, t));
                        assert(sched_at(self@.scheduled, t) == sched_at(prev, t)
                            + sched_entries_view(sv[k].1@));
                    } else {
                        assert(sched_at(self@.scheduled, t) == sched_at(prev, t));
                    }
                }
                assert forall|t: u64|
                    #[trigger] self@.scheduled.contains_key(t) <==> (old(
                        self,
                    )@.scheduled.contains_key(t) || slots_as_map(
                        sv.subrange(k, sv.len() as int),
                    ).contains_key(t)) by {
                    lemma_suffix_step(sv, k, t);
                    assert(self@.scheduled.contains_key(t) <==> (t == t0 || prev.contains_key(t)));
                }
            }
        }
        proof {
            assert(sv.subrange(0, sv.len() as int) =~= sv);
        }
    }
}

/// Peeling slot `k` off the suffix starting at `k`: at the slot's own instant
/// the suffix holds exactly that slot's entries, and at every other instant
/// the suffixes starting at `k` and at `k + 1` agree.
proof fn lemma_suffix_step(sv: Seq<SchedSlot>, k: int, t: u64)
    requires
        slots_sorted(sv),
        0 <= k < sv.len(),
    ensures
        t == sv[k].0 ==> sched_at(slots_as_map(sv.subrange(k, sv.len() as int)), t)
            == sched_entries_view(sv[k].1@),
        t == sv[k].0 ==> sched_at(slots_as_map(sv.subrange(k + 1, sv.len() as int)), t) == Seq::<
            SchedEntryV,
        >::empty(),
        t != sv[k].0 ==> sched_at(slots_as_map(sv.subrange(k, sv.len() as int)), t) == sched_at(
            slots_as_map(sv.subrange(k + 1, sv.len() as int)),
            t,
        ),
        slots_as_map(sv.subrange(k, sv.len() as int)).contains_key(t) <==> (t == sv[k].0
            || slots_as_map(sv.subrange(k + 1, sv.len() as int)).contains_key(t)),
{
    let s1 = sv.subrange(k, sv.len() as int);
    let s2 = sv.subrange(k + 1, sv.len() as int);
    assert(slots_sorted(s1));
    assert(slots_sorted(s2));
    assert(s1[0] == sv[k]);
    assert(forall|i: int| 0 <= i < s2.len() ==> #[trigger] s2[i] == s1[i + 1]);
    if t == sv[k].0 {
        lemma_sorted_unique(s1, 0, t);
        if sched_contains(s2, t) {
            let i = choose|i: int| 0 <= i < s2.len() && s2[i].0 == t;
            assert(s1[i + 1].0 == t);
        }
    } else {
        if sched_contains(s1, t) {
            let i = choose|i: int| 0 <= i < s1.len() && s1[i].0 == t;
            assert(i != 0);
            assert(s2[i - 1].0 == t);
            lemma_sorted_unique(s1, i, t);
            lemma_sorted_unique(s2, i - 1, t);
        }
        if sched_contains(s2, t) {
            let i = choose|i: int| 0 <= i < s2.len() && s2[i].0 == t;
            assert(s1[i + 1].0 == t);
        }
    }
}

} // verus!
