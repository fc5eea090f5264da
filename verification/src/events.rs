//! The event algebra of the simulator, and the filters over trigger entries.
//!
//! An `Event` is what a party does at a tick: post an object, synchronize with
//! a partner, or edit the trigger sets themselves. Trigger entries must be
//! value-comparable so that `DropProbabilities` can remove exactly the entries
//! that an earlier `AddProbabilities` put in; `events_equal` computes that
//! comparison, and contracts state it as equality of the events' views.

use vstd::prelude::*;

use crate::time::{Probability, SimDuration};

verus! {

/// A probabilistic trigger entry: the acting party, the per-tick firing
/// chance, and the event that fires.
pub type ProbEntry = (usize, Probability, Event);

/// A scheduled trigger entry: the acting party and the event.
pub type SchedEntry = (usize, Event);

/// The mathematical shape of a probabilistic trigger entry.
pub type ProbEntryV = (usize, Probability, EventV);

/// The mathematical shape of a scheduled trigger entry.
pub type SchedEntryV = (usize, EventV);

/// What a party does when a trigger fires.
#[derive(Debug)]
pub enum Event {
    /// The party posts one new object, stamped with the current time.
    Post,
    /// The party reconciles its object store with the named partner.
    Sync(usize),
    /// Remove every probabilistic trigger entry that the filter matches.
    DropProbabilities(ProbabilisticEventFilterFn),
    /// Append the listed entries to the probabilistic trigger set.
    AddProbabilities(Vec<ProbEntry>),
    /// Schedule the listed entries at the current time plus the offset.
    ScheduleRelative(SimDuration, Vec<SchedEntry>),
    /// Run the inner event now, and re-schedule this whole event one period
    /// from now.
    Repeat(SimDuration, Box<Event>),
}

/// The mathematical shape of an `Event`: the same tree with sequences for
/// lists. Two events are interchangeable as trigger entries exactly when
/// their views are equal.
pub enum EventV {
    Post,
    Sync(usize),
    DropProbabilities(Seq<ProbEntryV>),
    AddProbabilities(Seq<ProbEntryV>),
    ScheduleRelative(SimDuration, Seq<SchedEntryV>),
    Repeat(SimDuration, Box<EventV>),
}

/// A value-comparable filter over probabilistic trigger entries: it matches an
/// entry exactly when the entry equals one of the listed entries, component by
/// component.
#[derive(Debug)]
pub struct ProbabilisticEventFilterFn {
    pub entries: Vec<ProbEntry>,
}

impl View for Event {
    type V = EventV;

    open spec fn view(&self) -> EventV
        decreases *self,
    {
        match self {
            Event::Post => EventV::Post,
            Event::Sync(p) => EventV::Sync(*p),
            Event::DropProbabilities(f) => EventV::DropProbabilities(
                prob_entries_view(f.entries@),
            ),
            Event::AddProbabilities(l) => EventV::AddProbabilities(prob_entries_view(l@)),
            Event::ScheduleRelative(d, l) => EventV::ScheduleRelative(*d, sched_entries_view(l@)),
            Event::Repeat(d, e) => EventV::Repeat(*d, Box::new((**e)@)),
        }
    }
}

/// The views of a sequence of probabilistic trigger entries, elementwise.
pub open spec fn prob_entries_view(s: Seq<ProbEntry>) -> Seq<ProbEntryV>
    decreases s,
{
    Seq::new(
        s.len(),
        |i: int|
            if 0 <= i < s.len() {
                prob_entry_view(s[i])
            } else {
                vstd::pervasive::arbitrary()
            },
    )
}

/// The views of a sequence of scheduled trigger entries, elementwise.
pub open spec fn sched_entries_view(s: Seq<SchedEntry>) -> Seq<SchedEntryV>
    decreases s,
{
    Seq::new(
        s.len(),
        |i: int|
            if 0 <= i < s.len() {
                sched_entry_view(s[i])
            } else {
                vstd::pervasive::arbitrary()
            },
    )
}

impl View for ProbabilisticEventFilterFn {
    type V = Seq<ProbEntryV>;

    open spec fn view(&self) -> Seq<ProbEntryV> {
        prob_entries_view(self.entries@)
    }
}

/// Whether two events are structurally equal: their views coincide.
pub fn events_equal(a: &Event, b: &Event) -> (r: bool)
    ensures
        r == (a@ == b@),
    decreases *a,
{
    match (a, b) {
        (Event::Post, Event::Post) => true,
        (Event::Sync(pa), Event::Sync(pb)) => pa == pb,
        (Event::DropProbabilities(fa), Event::DropProbabilities(fb)) => prob_entry_lists_equal(
            &fa.entries,
            &fb.entries,
        ),
        (Event::AddProbabilities(la), Event::AddProbabilities(lb)) => prob_entry_lists_equal(
            la,
            lb,
        ),
        (Event::ScheduleRelative(da, la), Event::ScheduleRelative(db, lb)) => {
            if da.0 != db.0 || la.len() != lb.len() {
                assert(da.0 != db.0 ==> *da != *db);
                assert(sched_entries_view(la@).len() == la@.len());
                assert(sched_entries_view(lb@).len() == lb@.len());
                assert(la.len() != lb.len() ==> sched_entries_view(la@) != sched_entries_view(
                    lb@,
                ));
                false
            } else {
                let n = la.len();
                let mut i: usize = 0;
                let mut same = true;
                proof {
                    assert(decreases_to!(*a => *la));
                }
                while i < n
                    invariant
                        decreases_to!(*a => *la),
                        i <= n,
                        n == la.len() == lb.len(),
                        same ==> forall|j: int|
                            0 <= j < i ==> #[trigger] sched_entries_view(la@)[j]
                                == sched_entries_view(lb@)[j],
                        !same ==> sched_entries_view(la@) != sched_entries_view(lb@),
                    decreases n - i,
                {
                    let ea = &la[i];
                    let eb = &lb[i];
                    proof {
                        assert(decreases_to!(*la => la@[i as int]));
                    }
                    if ea.0 != eb.0 || !events_equal(&ea.1, &eb.1) {
                        assert(sched_entries_view(la@)[i as int] != sched_entries_view(lb@)[
                        i as int]);
                        same = false;
                    }
                    i = i + 1;
                }
                if same {
                    assert(sched_entries_view(la@) =~= sched_entries_view(lb@));
                }
                same
            }
        },
        (Event::Repeat(da, ea), Event::Repeat(db, eb)) => da.0 == db.0 && events_equal(ea, eb),
        _ => false,
    }
}

/// Whether two lists of probabilistic trigger entries are equal element by
/// element: their views coincide.
pub fn prob_entry_lists_equal(a: &Vec<ProbEntry>, b: &Vec<ProbEntry>) -> (r: bool)
    ensures
        r == (prob_entries_view(a@) == prob_entries_view(b@)),
    decreases a@,
{
    if a.len() != b.len() {
        assert(prob_entries_view(a@).len() == a@.len());
        assert(prob_entries_view(b@).len() == b@.len());
        assert(prob_entries_view(a@) != prob_entries_view(b@));
        return false;
    }
    let n = a.len();
    let mut i: usize = 0;
    let mut same = true;
    while i < n
        invariant
            i <= n,
            n == a.len() == b.len(),
            same ==> forall|j: int|
                0 <= j < i ==> #[trigger] prob_entries_view(a@)[j] == prob_entries_view(b@)[j],
            !same ==> prob_entries_view(a@) != prob_entries_view(b@),
        decreases n - i,
    {
        let ea = &a[i];
        let eb = &b[i];
        if ea.0 != eb.0 || ea.1 != eb.1 || !events_equal(&ea.2, &eb.2) {
            assert(prob_entries_view(a@)[i as int] != prob_entries_view(b@)[i as int]);
            same = false;
        }
        i = i + 1;
    }
    if same {
        assert(prob_entries_view(a@) =~= prob_entries_view(b@));
    }
    same
}

/// Clones a list of probabilistic trigger entries, preserving its view.
pub fn clone_prob_entries(v: &Vec<ProbEntry>) -> (r: Vec<ProbEntry>)
    ensures
        prob_entries_view(r@) == prob_entries_view(v@),
    decreases v@,
{
    let n = v.len();
    let mut out: Vec<ProbEntry> = Vec::new();
    let mut i: usize = 0;
    while i < n
        invariant
            i <= n,
            n == v.len(),
            out@.len() == i,
            forall|j: int|
                0 <= j < i ==> prob_entries_view(out@)[j] == #[trigger] prob_entries_view(v@)[j],
        decreases n - i,
    {
        let ghost pre = out@;
        let e = &v[i];
        out.push((e.0, e.1, e.2.clone()));
        proof {
            assert forall|j: int| 0 <= j < i + 1 implies prob_entries_view(out@)[j]
                == #[trigger] prob_entries_view(v@)[j] by {
                if j < i {
                    assert(out@[j] == pre[j]);
                    assert(prob_entries_view(pre)[j] == prob_entries_view(v@)[j]);
                }
            }
        }
        i = i + 1;
    }
    assert(prob_entries_view(out@) =~= prob_entries_view(v@));
    out
}

/// Clones a list of scheduled trigger entries, preserving its view.
pub fn clone_sched_entries(v: &Vec<SchedEntry>) -> (r: Vec<SchedEntry>)
    ensures
        sched_entries_view(r@) == sched_entries_view(v@),
    decreases v@,
{
    let n = v.len();
    let mut out: Vec<SchedEntry> = Vec::new();
    let mut i: usize = 0;
    while i < n
        invariant
            i <= n,
            n == v.len(),
            out@.len() == i,
            forall|j: int|
                0 <= j < i ==> sched_entries_view(out@)[j] == #[trigger] sched_entries_view(v@)[j],
        decreases n - i,
    {
        let ghost pre = out@;
        let e = &v[i];
        out.push((e.0, e.1.clone()));
        proof {
            assert forall|j: int| 0 <= j < i + 1 implies sched_entries_view(out@)[j]
                == #[trigger] sched_entries_view(v@)[j] by {
                if j < i {
                    assert(out@[j] == pre[j]);
                    assert(sched_entries_view(pre)[j] == sched_entries_view(v@)[j]);
                }
            }
        }
        i = i + 1;
    }
    assert(sched_entries_view(out@) =~= sched_entries_view(v@));
    out
}

impl Clone for Event {
    /// A structural copy: the clone's view equals the original's.
    fn clone(&self) -> (r: Self)
        ensures
            r@ == self@,
        decreases *self,
    {
        match self {
            Event::Post => Event::Post,
            Event::Sync(p) => Event::Sync(*p),
            Event::DropProbabilities(f) => Event::DropProbabilities(
                ProbabilisticEventFilterFn { entries: clone_prob_entries(&f.entries) },
            ),
            Event::AddProbabilities(l) => Event::AddProbabilities(clone_prob_entries(l)),
            Event::ScheduleRelative(d, l) => Event::ScheduleRelative(
                *d,
                clone_sched_entries(l),
            ),
            Event::Repeat(d, e) => Event::Repeat(*d, Box::new((**e).clone())),
        }
    }
}

impl Clone for ProbabilisticEventFilterFn {
    /// A structural copy: the clone's view equals the original's.
    fn clone(&self) -> (r: Self)
        ensures
            r@ == self@,
    {
        ProbabilisticEventFilterFn { entries: clone_prob_entries(&self.entries) }
    }
}

impl Event {
    /// A `DropProbabilities` event that removes exactly the entries equal to
    /// one of the given entries.
    pub fn drop_probabilities(entries: Vec<ProbEntry>) -> (r: Event)
        ensures
            r@ == EventV::DropProbabilities(prob_entries_view(entries@)),
    {
        Event::DropProbabilities(ProbabilisticEventFilterFn { entries })
    }

    /// A `Repeat` event that runs `event` once per `period`.
    pub fn repeat(period: SimDuration, event: Event) -> (r: Event)
        ensures
            r@ == EventV::Repeat(period, Box::new(event@)),
    {
        Event::Repeat(period, Box::new(event))
    }
}

impl ProbabilisticEventFilterFn {
    /// Whether the filter matches the entry: the entry equals one of the
    /// filter's entries.
    pub fn filter(&self, entry: &ProbEntry) -> (r: bool)
        ensures
            r == filter_matches(self@, prob_entry_view(*entry)),
    {
        let n = self.entries.len();
        let mut i: usize = 0;
        let mut found = false;
        while i < n
            invariant
                i <= n,
                n == self.entries.len(),
                found == exists|j: int| 0 <= j < i && #[trigger] self@[j] == prob_entry_view(
                    *entry,
                ),
            decreases n - i,
        {
            let e = &self.entries[i];
            if e.0 == entry.0 && e.1 == entry.1 && events_equal(&e.2, &entry.2) {
                assert(self@[i as int] == prob_entry_view(*entry));
                found = true;
            }
            i = i + 1;
        }
        found
    }
}

/// The view of one probabilistic trigger entry.
pub open spec fn prob_entry_view(e: ProbEntry) -> ProbEntryV
    decreases e,
{
    (e.0, e.1, e.2@)
}

/// The view of one scheduled trigger entry.
pub open spec fn sched_entry_view(e: SchedEntry) -> SchedEntryV
    decreases e,
{
    (e.0, e.1@)
}

/// Whether the filter (as a sequence of entry views) matches the entry view:
/// the entry equals one of the filter's entries.
pub open spec fn filter_matches(f: Seq<ProbEntryV>, entry: ProbEntryV) -> bool {
    exists|j: int| 0 <= j < f.len() && f[j] == entry
}

/// The subsequence of `s` that the filter does not match, in the order of
/// `s`: what `DropProbabilities` leaves behind.
pub open spec fn kept_entries(s: Seq<ProbEntryV>, f: Seq<ProbEntryV>) -> Seq<ProbEntryV>
    decreases s.len(),
{
    if s.len() == 0 {
        Seq::empty()
    } else {
        let rest = kept_entries(s.drop_last(), f);
        if filter_matches(f, s.last()) {
            rest
        } else {
            rest.push(s.last())
        }
    }
}

} // verus!
