//! The discrete-event simulator core.
//!
//! Time advances one simulated minute per tick. Each tick first handles the
//! scheduled entries of that minute, in insertion order, and then evaluates
//! every probabilistic entry present at the start of that tick, in list
//! order, drawing exactly one dice roll per entry whether or not it fires.
//! Every handled event appends exactly one trace row.

use vstd::prelude::*;
use vstd::string::StringExecFns;

use crate::events::{
    clone_prob_entries, clone_sched_entries, prob_entries_view, sched_entries_view, Event, EventV,
    ProbEntryV, SchedEntryV,
};
use crate::objects::SimObject;
use crate::party::PartyState;
use crate::protocol::{applied, sync_outcome_ok, SyncError, SyncOutcome};
use crate::rng::SimRng;
use crate::stats::RunStats;
use crate::time::{DiceRoll, SimDuration, SimInstant, PROB_ONE};
use crate::triggers::{sched_at, Triggers};

verus! {

/// The decimal digits of `n`, most significant first.
pub open spec fn dec_label(n: int) -> Seq<char>
    decreases n,
{
    if n < 10 {
        seq![digit_char(n)]
    } else {
        dec_label(n / 10).push(digit_char(n % 10))
    }
}

/// The character of one decimal digit.
pub open spec fn digit_char(d: int) -> char {
    if d == 0 {
        '0'
    } else if d == 1 {
        '1'
    } else if d == 2 {
        '2'
    } else if d == 3 {
        '3'
    } else if d == 4 {
        '4'
    } else if d == 5 {
        '5'
    } else if d == 6 {
        '6'
    } else if d == 7 {
        '7'
    } else if d == 8 {
        '8'
    } else {
        '9'
    }
}

/// The human-readable description of an event: its variant name, with the
/// partner for a sync and the inner event for a repeat.
pub open spec fn event_label(e: EventV) -> Seq<char>
    decreases e,
{
    match e {
        EventV::Post => seq!['P', 'o', 's', 't'],
        EventV::Sync(p) => seq!['S', 'y', 'n', 'c', '('] + dec_label(p as int) + seq![')'],
        EventV::DropProbabilities(_) => seq![
            'D',
            'r',
            'o',
            'p',
            'P',
            'r',
            'o',
            'b',
            'a',
            'b',
            'i',
            'l',
            'i',
            't',
            'i',
            'e',
            's',
        ],
        EventV::AddProbabilities(_) => seq![
            'A',
            'd',
            'd',
            'P',
            'r',
            'o',
            'b',
            'a',
            'b',
            'i',
            'l',
            'i',
            't',
            'i',
            'e',
            's',
        ],
        EventV::ScheduleRelative(_, _) => seq![
            'S',
            'c',
            'h',
            'e',
            'd',
            'u',
            'l',
            'e',
            'R',
            'e',
            'l',
            'a',
            't',
            'i',
            'v',
            'e',
        ],
        EventV::Repeat(d, inner) => seq!['R', 'e', 'p', 'e', 'a', 't', '('] + dec_label(d.0 as int)
            + seq![',', ' '] + event_label(*inner) + seq![')'],
    }
}

/// Appends the decimal digits of `n`.
pub fn push_dec(s: &mut String, n: u64)
    ensures
        final(s)@ == old(s)@ + dec_label(n as int),
    decreases n,
{
    if n >= 10 {
        push_dec(s, n / 10);
    }
    let d = n % 10;
    let ds: &str = if d == 0 {
        "0"
    } else if d == 1 {
        "1"
    } else if d == 2 {
        "2"
    } else if d == 3 {
        "3"
    } else if d == 4 {
        "4"
    } else if d == 5 {
        "5"
    } else if d == 6 {
        "6"
    } else if d == 7 {
        "7"
    } else if d == 8 {
        "8"
    } else {
        "9"
    };
    proof {
        reveal_strlit("0");
        reveal_strlit("1");
        reveal_strlit("2");
        reveal_strlit("3");
        reveal_strlit("4");
        reveal_strlit("5");
        reveal_strlit("6");
        reveal_strlit("7");
        reveal_strlit("8");
        reveal_strlit("9");
        assert(ds@ =~= seq![digit_char(n as int % 10)]);
    }
    s.append(ds);
    proof {
        if n < 10 {
            assert(dec_label(n as int) =~= seq![digit_char(n as int)]);
            assert(final(s)@ =~= old(s)@ + dec_label(n as int));
        } else {
            assert(final(s)@ =~= old(s)@ + dec_label(n as int));
        }
    }
}

/// The event description, computed.
pub fn event_string(e: &Event) -> (r: String)
    ensures
        r@ == event_label(e@),
    decreases *e,
{
    let mut s = String::new();
    match e {
        Event::Post => {
            s.append("Post");
            proof {
                reveal_strlit("Post");
                assert(s@ =~= event_label(e@));
            }
        },
        Event::Sync(p) => {
            s.append("Sync(");
            push_dec(&mut s, *p as u64);
            s.append(")");
            proof {
                reveal_strlit("Sync(");
                reveal_strlit(")");
                assert(s@ =~= event_label(e@));
            }
        },
        Event::DropProbabilities(_) => {
            s.append("DropProbabilities");
            proof {
                reveal_strlit("DropProbabilities");
                assert(s@ =~= event_label(e@));
            }
        },
        Event::AddProbabilities(_) => {
            s.append("AddProbabilities");
            proof {
                reveal_strlit("AddProbabilities");
                assert(s@ =~= event_label(e@));
            }
        },
        Event::ScheduleRelative(_, _) => {
            s.append("ScheduleRelative");
            proof {
                reveal_strlit("ScheduleRelative");
                assert(s@ =~= event_label(e@));
            }
        },
        Event::Repeat(period, inner) => {
            s.append("Repeat(");
            push_dec(&mut s, period.0);
            s.append(", ");
            let t = event_string(inner);
            s.append(t.as_str());
            s.append(")");
            proof {
                reveal_strlit("Repeat(");
                reveal_strlit(", ");
                reveal_strlit(")");
                assert(s@ =~= event_label(e@));
            }
        },
    }
    s
}

/// The when, who and what of one trace row.
#[derive(Debug, PartialEq, Eq)]
pub struct TraceMeta {
    /// The minute the event was handled.
    pub time: SimInstant,
    /// The acting party.
    pub party_id: usize,
    /// The human-readable description of the event.
    pub event: String,
}

impl TraceMeta {
    /// Records when, who and what.
    pub fn new(time: SimInstant, party_id: usize, event: &Event) -> (r: TraceMeta)
        ensures
            r.time == time,
            r.party_id == party_id,
            r.event@ == event_label(event@),
    {
        TraceMeta { time, party_id, event: event_string(event) }
    }
}

/// The outcome of one handled event.
#[derive(Debug, PartialEq, Eq)]
pub enum TraceEntry {
    /// The acting party posted this object.
    Posted(SimObject),
    /// The acting party synchronized with the named partner, with the
    /// initiator's and the responder's accounting.
    Sync(usize, RunStats, RunStats),
    /// Probabilistic entries were dropped: the counts before and after.
    DropProbabilities(usize, usize),
    /// So many probabilistic entries were added.
    AddProbabilities(usize),
    /// So many scheduled entries were added.
    ScheduleRelative(usize),
}

/// One trace row.
pub type TraceRow = (TraceMeta, TraceEntry);

/// The full record of one simulation run, in event-handling order.
pub struct Trace {
    rows: Vec<TraceRow>,
}

impl View for Trace {
    type V = Seq<TraceRow>;

    closed spec fn view(&self) -> Seq<TraceRow> {
        self.rows@
    }
}

impl Trace {
    /// The rows in event-handling order.
    pub fn entries(&self) -> (r: &Vec<TraceRow>)
        ensures
            r@ == self@,
    {
        &self.rows
    }
}

/// How many rows of the trace are `Posted` rows.
pub open spec fn count_posted(s: Seq<TraceRow>) -> int
    decreases s.len(),
{
    if s.len() == 0 {
        0
    } else {
        count_posted(s.drop_last()) + (if s.last().1 is Posted {
            1int
        } else {
            0int
        })
    }
}

/// Whether every party named in the event exists.
pub open spec fn event_wf(e: EventV, n: int) -> bool
    decreases e,
{
    match e {
        EventV::Post => true,
        EventV::Sync(q) => (q as int) < n,
        EventV::DropProbabilities(_) => true,
        EventV::AddProbabilities(l) => forall|i: int|
            0 <= i < l.len() ==> (#[trigger] l[i]).0 < n && event_wf(l[i].2, n),
        EventV::ScheduleRelative(_, l) => forall|i: int|
            0 <= i < l.len() ==> (#[trigger] l[i]).0 < n && event_wf(l[i].1, n),
        EventV::Repeat(_, inner) => event_wf(*inner, n),
    }
}

/// Whether every duration inside the event is at most `b` minutes, so that
/// adding it to any instant at most `u64::MAX - b` cannot overflow.
pub open spec fn offsets_bounded(e: EventV, b: int) -> bool
    decreases e,
{
    match e {
        EventV::Post => true,
        EventV::Sync(_) => true,
        EventV::DropProbabilities(_) => true,
        EventV::AddProbabilities(l) => forall|i: int|
            0 <= i < l.len() ==> offsets_bounded((#[trigger] l[i]).2, b),
        EventV::ScheduleRelative(d, l) => d.0 <= b && forall|i: int|
            0 <= i < l.len() ==> offsets_bounded((#[trigger] l[i]).1, b),
        EventV::Repeat(d, inner) => d.0 <= b && offsets_bounded(*inner, b),
    }
}

/// The event left when every `Repeat` wrapper is unwrapped: what actually
/// runs at the tick the event is handled.
pub open spec fn base_event(e: EventV) -> EventV
    decreases e,
{
    match e {
        EventV::Repeat(_, inner) => base_event(*inner),
        _ => e,
    }
}

/// The schedule after every `Repeat` wrapper of `e`, outermost first, has
/// appended itself (wrapper included) at the handling time plus its period.
pub open spec fn sched_with_repeats(
    m: Map<u64, Seq<SchedEntryV>>,
    e: EventV,
    t: u64,
    pid: usize,
) -> Map<u64, Seq<SchedEntryV>>
    decreases e,
{
    match e {
        EventV::Repeat(d, inner) => {
            let target = (t + d.0) as u64;
            sched_with_repeats(
                m.insert(target, sched_at(m, target).push((pid, e))),
                *inner,
                t,
                pid,
            )
        },
        _ => m,
    }
}

/// No base event is a `Repeat`: unwrapping stops at the first other variant.
pub proof fn lemma_base_event_not_repeat(e: EventV)
    ensures
        !(base_event(e) is Repeat),
    decreases e,
{
    match e {
        EventV::Repeat(_, inner) => lemma_base_event_not_repeat(*inner),
        _ => {},
    }
}

/// Whether every slot of `m2` extends the corresponding slot of `m1`: event
/// handlers only append to the schedule, never reorder or remove.
pub open spec fn sched_extends(
    m1: Map<u64, Seq<SchedEntryV>>,
    m2: Map<u64, Seq<SchedEntryV>>,
) -> bool {
    forall|u: u64| (#[trigger] sched_at(m1, u)).is_prefix_of(sched_at(m2, u))
}

/// Every schedule extends itself.
pub proof fn lemma_sched_extends_refl(m: Map<u64, Seq<SchedEntryV>>)
    ensures
        sched_extends(m, m),
{
    assert forall|u: u64| (#[trigger] sched_at(m, u)).is_prefix_of(sched_at(m, u)) by {
        assert(sched_at(m, u) =~= sched_at(m, u).subrange(0, sched_at(m, u).len() as int));
    }
}

/// A prefix of a prefix is a prefix.
pub proof fn lemma_prefix_trans(a: Seq<SchedEntryV>, b: Seq<SchedEntryV>, c: Seq<SchedEntryV>)
    requires
        a.is_prefix_of(b),
        b.is_prefix_of(c),
    ensures
        a.is_prefix_of(c),
{
    assert forall|i: int| 0 <= i < a.len() implies a[i] == c.subrange(0, a.len() as int)[i] by {
        assert(a[i] == b.subrange(0, a.len() as int)[i]);
        assert(b[i] == c.subrange(0, b.len() as int)[i]);
    }
    assert(a =~= c.subrange(0, a.len() as int));
}

/// Extending slot by slot is transitive.
pub proof fn lemma_sched_extends_trans(
    m1: Map<u64, Seq<SchedEntryV>>,
    m2: Map<u64, Seq<SchedEntryV>>,
    m3: Map<u64, Seq<SchedEntryV>>,
)
    requires
        sched_extends(m1, m2),
        sched_extends(m2, m3),
    ensures
        sched_extends(m1, m3),
{
    assert forall|u: u64| (#[trigger] sched_at(m1, u)).is_prefix_of(sched_at(m3, u)) by {
        let a = sched_at(m1, u);
        let b = sched_at(m2, u);
        let c = sched_at(m3, u);
        assert(a.is_prefix_of(b));
        assert(b.is_prefix_of(c));
        assert forall|i: int| 0 <= i < a.len() implies a[i] == c.subrange(0, a.len() as int)[i] by {
            assert(a[i] == b.subrange(0, a.len() as int)[i]);
            assert(b[i] == c.subrange(0, b.len() as int)[i]);
        }
        assert(a =~= c.subrange(0, a.len() as int));
    }
}

/// Appending entries to one slot extends the schedule.
pub proof fn lemma_sched_extends_append(
    m: Map<u64, Seq<SchedEntryV>>,
    target: u64,
    lv: Seq<SchedEntryV>,
)
    ensures
        sched_extends(m, m.insert(target, sched_at(m, target) + lv)),
{
    let m2 = m.insert(target, sched_at(m, target) + lv);
    assert forall|u: u64| (#[trigger] sched_at(m, u)).is_prefix_of(sched_at(m2, u)) by {
        let a = sched_at(m, u);
        if u == target {
            assert(a =~= sched_at(m2, u).subrange(0, a.len() as int));
        } else {
            assert(sched_at(m2, u) == a);
            assert(a =~= a.subrange(0, a.len() as int));
        }
    }
}

/// Whether one scheduled entry is well-formed for `n` parties and bound `b`.
pub open spec fn sched_entryv_wf(en: SchedEntryV, n: int, b: int) -> bool {
    en.0 < n && event_wf(en.1, n) && offsets_bounded(en.1, b)
}

/// Whether one probabilistic entry is well-formed for `n` parties and bound
/// `b`.
pub open spec fn prob_entryv_wf(en: ProbEntryV, n: int, b: int) -> bool {
    en.0 < n && event_wf(en.2, n) && offsets_bounded(en.2, b)
}

/// Whether every trigger entry is well-formed for `n` parties and bound `b`.
pub open spec fn triggers_wf(tv: crate::triggers::TriggersV, n: int, b: int) -> bool {
    &&& forall|t: u64|
        #[trigger] tv.scheduled.contains_key(t) ==> (forall|i: int|
            0 <= i < tv.scheduled[t].len() ==> sched_entryv_wf(#[trigger] tv.scheduled[t][i], n, b))
    &&& forall|i: int|
        0 <= i < tv.probabilistic.len() ==> prob_entryv_wf(#[trigger] tv.probabilistic[i], n, b)
}

/// Trigger well-formedness carries over when the schedule is unchanged and
/// every probabilistic entry of the new state is well-formed.
pub proof fn lemma_triggers_wf_same_sched(
    a: crate::triggers::TriggersV,
    b: crate::triggers::TriggersV,
    n: int,
    bd: int,
)
    requires
        triggers_wf(a, n, bd),
        b.scheduled == a.scheduled,
        forall|i: int|
            0 <= i < b.probabilistic.len() ==> prob_entryv_wf(#[trigger] b.probabilistic[i], n, bd),
    ensures
        triggers_wf(b, n, bd),
{
    assert forall|t: u64| #[trigger] b.scheduled.contains_key(t) implies (forall|i: int|
        0 <= i < b.scheduled[t].len() ==> sched_entryv_wf(#[trigger] b.scheduled[t][i], n, bd)) by {
        assert(a.scheduled.contains_key(t));
        assert(forall|i: int|
            0 <= i < a.scheduled[t].len() ==> sched_entryv_wf(#[trigger] a.scheduled[t][i], n, bd));
        assert(b.scheduled[t] == a.scheduled[t]);
    }
}

/// Trigger well-formedness carries over when the probabilistic entries are
/// unchanged and every scheduled entry of the new state is well-formed.
pub proof fn lemma_triggers_wf_same_prob(
    a: crate::triggers::TriggersV,
    b: crate::triggers::TriggersV,
    n: int,
    bd: int,
)
    requires
        triggers_wf(a, n, bd),
        b.probabilistic == a.probabilistic,
        forall|t: u64|
            #[trigger] b.scheduled.contains_key(t) ==> (forall|i: int|
                0 <= i < b.scheduled[t].len() ==> sched_entryv_wf(
                    #[trigger] b.scheduled[t][i],
                    n,
                    bd,
                )),
    ensures
        triggers_wf(b, n, bd),
{
    assert forall|i: int| 0 <= i < b.probabilistic.len() implies prob_entryv_wf(
        #[trigger] b.probabilistic[i],
        n,
        bd,
    ) by {
        assert(a.probabilistic[i] == b.probabilistic[i]);
        assert(prob_entryv_wf(a.probabilistic[i], n, bd));
    }
}

/// The whole state of a running simulation.
pub struct SystemState {
    /// The live trigger collections.
    pub triggers: Triggers,
    /// Every party's state, indexed by party id.
    pub party_states: Vec<PartyState>,
    /// The next post id: strictly increasing over all posts of the run.
    pub cur_post_id: usize,
}

impl SystemState {
    /// A fresh system: the given triggers, `n_parties` empty parties, and the
    /// post counter at zero.
    pub fn new(n_parties: usize, initial_triggers: Triggers) -> (r: SystemState)
        ensures
            r.triggers@ == initial_triggers@,
            r.party_states@.len() == n_parties,
            forall|p: int|
                0 <= p < n_parties ==> (#[trigger] r.party_states@[p]).store() == Map::<
                    u128,
                    SimObject,
                >::empty(),
            r.cur_post_id == 0,
    {
        let mut party_states: Vec<PartyState> = Vec::new();
        let mut i: usize = 0;
        while i < n_parties
            invariant
                i <= n_parties,
                party_states@.len() == i,
                forall|p: int|
                    0 <= p < i ==> (#[trigger] party_states@[p]).store() == Map::<
                        u128,
                        SimObject,
                    >::empty(),
            decreases n_parties - i,
        {
            party_states.push(PartyState::new());
            i = i + 1;
        }
        SystemState { triggers: initial_triggers, party_states, cur_post_id: 0 }
    }
}


impl SystemState {
    /// Handles one event for one party at one instant, appending exactly one
    /// trace row. A `Repeat` first re-schedules itself, wrapper included, one
    /// period ahead, then handles its inner event at this same instant, so
    /// the appended row is the inner event's row. Only a synchronization can
    /// fail, and a protocol failure is fatal: nothing but the `Repeat`
    /// re-enqueues is applied and no row is appended. Handlers only append to
    /// the schedule, never reorder or remove.
    #[verifier::rlimit(100)]
    pub fn handle_event<F: Fn(&PartyState, &PartyState) -> Result<SyncOutcome, SyncError>>(
        &mut self,
        meta: TraceMeta,
        event: &Event,
        time: SimInstant,
        party_id: usize,
        run_protocol: &F,
        trace: &mut Vec<TraceRow>,
        Ghost(bound): Ghost<int>,
    ) -> (r: Result<(), SyncError>)
        requires
            party_id < old(self).party_states@.len(),
            event_wf(event@, old(self).party_states@.len() as int),
            0 <= bound,
            time.0 + bound <= u64::MAX,
            offsets_bounded(event@, bound),
            triggers_wf(old(self).triggers@, old(self).party_states@.len() as int, bound),
            old(self).cur_post_id <= old(trace)@.len(),
            forall|a: &PartyState, b: &PartyState| #[trigger] call_requires(*run_protocol, (a, b)),
            forall|a: &PartyState, b: &PartyState, ret: Result<SyncOutcome, SyncError>|
                #[trigger] call_ensures(*run_protocol, (a, b), ret) ==> (ret matches Ok(out)
                    ==> sync_outcome_ok(a.store(), b.store(), out)),
        ensures
            final(self).party_states@.len() == old(self).party_states@.len(),
            triggers_wf(final(self).triggers@, old(self).party_states@.len() as int, bound),
            final(self).cur_post_id >= old(self).cur_post_id,
            sched_extends(old(self).triggers@.scheduled, final(self).triggers@.scheduled),
            !(base_event(event@) is Sync) ==> r is Ok,
            (forall|a: &PartyState, b: &PartyState, ret: Result<SyncOutcome, SyncError>|
                #[trigger] call_ensures(*run_protocol, (a, b), ret) ==> ret is Ok) ==> r is Ok,
            r is Err ==> {
                &&& final(trace)@ == old(trace)@
                &&& final(self).cur_post_id == old(self).cur_post_id
                &&& final(self).party_states@ == old(self).party_states@
                &&& final(self).triggers@.probabilistic == old(self).triggers@.probabilistic
                &&& final(self).triggers@.scheduled == sched_with_repeats(
                    old(self).triggers@.scheduled,
                    event@,
                    time.0,
                    party_id,
                )
            },
            r is Ok ==> {
                let row = final(trace)@.last();
                &&& final(trace)@ == old(trace)@.push(row)
                &&& row.0 == meta
                &&& final(self).cur_post_id == old(self).cur_post_id + (if row.1 is Posted {
                    1int
                } else {
                    0int
                })
                &&& (row.1 matches TraceEntry::Posted(o) ==> o.post_id == old(self).cur_post_id
                    && o.author == party_id && o.timestamp == time)
                &&& final(self).cur_post_id <= final(trace)@.len()
            },
            r is Ok && base_event(event@) is Post ==> {
                let o = (SimObject {
                    author: party_id,
                    post_id: old(self).cur_post_id,
                    timestamp: time,
                });
                &&& final(trace)@.last().1 == TraceEntry::Posted(o)
                &&& final(self).party_states@[party_id as int].store() == old(self).party_states@[party_id as int].store().insert(crate::party::obj_key(o), o)
                &&& forall|q: int|
                    0 <= q < old(self).party_states@.len() && q != party_id ==> final(self).party_states@[q] == old(self).party_states@[q]
                &&& final(self).triggers@.probabilistic == old(self).triggers@.probabilistic
                &&& final(self).triggers@.scheduled == sched_with_repeats(
                    old(self).triggers@.scheduled,
                    event@,
                    time.0,
                    party_id,
                )
            },
            r is Ok ==> (base_event(event@) matches EventV::Sync(partner) ==> exists|
                out: SyncOutcome,
            |
                {
                    &&& #[trigger] sync_outcome_ok(
                        old(self).party_states@[party_id as int].store(),
                        old(self).party_states@[partner as int].store(),
                        out,
                    )
                    &&& final(trace)@.last().1 == TraceEntry::Sync(
                        partner,
                        out.initiator_stats,
                        out.responder_stats,
                    )
                    &&& (partner != party_id ==> {
                        &&& final(self).party_states@[party_id as int].store() == applied(
                            old(self).party_states@[party_id as int].store(),
                            out.learned_initiator@,
                        )
                        &&& final(self).party_states@[partner as int].store() == applied(
                            old(self).party_states@[partner as int].store(),
                            out.learned_responder@,
                        )
                        &&& forall|q: int|
                            0 <= q < old(self).party_states@.len() && q != party_id && q
                                != partner ==> final(self).party_states@[q] == old(self).party_states@[q]
                    })
                    &&& final(self).triggers@.probabilistic == old(self).triggers@.probabilistic
                    &&& final(self).triggers@.scheduled == sched_with_repeats(
                        old(self).triggers@.scheduled,
                        event@,
                        time.0,
                        party_id,
                    )
                }),
            r is Ok ==> (base_event(event@) matches EventV::DropProbabilities(fv) ==> {
                let newp = final(self).triggers@.probabilistic;
                let oldp = old(self).triggers@.probabilistic;
                &&& final(trace)@.last().1 == TraceEntry::DropProbabilities(
                    oldp.len() as usize,
                    newp.len() as usize,
                )
                &&& newp == crate::events::kept_entries(oldp, fv)
                &&& final(self).triggers@.scheduled == sched_with_repeats(
                    old(self).triggers@.scheduled,
                    event@,
                    time.0,
                    party_id,
                )
                &&& final(self).party_states@ == old(self).party_states@
            }),
            r is Ok ==> (base_event(event@) matches EventV::AddProbabilities(lv) ==> {
                &&& final(trace)@.last().1 == TraceEntry::AddProbabilities(lv.len() as usize)
                &&& final(self).triggers@.probabilistic == old(self).triggers@.probabilistic + lv
                &&& final(self).triggers@.scheduled == sched_with_repeats(
                    old(self).triggers@.scheduled,
                    event@,
                    time.0,
                    party_id,
                )
                &&& final(self).party_states@ == old(self).party_states@
            }),
            r is Ok ==> (base_event(event@) matches EventV::ScheduleRelative(d, lv) ==> {
                let swr = sched_with_repeats(
                    old(self).triggers@.scheduled,
                    event@,
                    time.0,
                    party_id,
                );
                let target = (time.0 + d.0) as u64;
                &&& final(trace)@.last().1 == TraceEntry::ScheduleRelative(lv.len() as usize)
                &&& (lv.len() == 0 ==> final(self).triggers@.scheduled == swr)
                &&& (lv.len() > 0 ==> final(self).triggers@.scheduled == swr.insert(
                    target,
                    sched_at(swr, target) + lv,
                ))
                &&& final(self).triggers@.probabilistic == old(self).triggers@.probabilistic
                &&& final(self).party_states@ == old(self).party_states@
            }),
        decreases *event,
    {
        let ghost n = old(self).party_states@.len() as int;
        match event {
            Event::Post => {
                let obj = SimObject {
                    author: party_id,
                    post_id: self.cur_post_id,
                    timestamp: time,
                };
                let p = &mut self.party_states[party_id];
                p.post(obj);
                trace.push((meta, TraceEntry::Posted(obj)));
                let post_cap = trace.len();
                proof {
                    assert(self.cur_post_id < post_cap);
                }
                self.cur_post_id = self.cur_post_id + 1;
                proof {
                    lemma_sched_extends_refl(old(self).triggers@.scheduled);
                }
                Ok(())
            },
            Event::Sync(partner) => {
                let res = run_protocol(&self.party_states[party_id], &self.party_states[*partner]);
                match res {
                    Err(e) => {
                        proof {
                            lemma_sched_extends_refl(old(self).triggers@.scheduled);
                        }
                        Err(e)
                    },
                    Ok(out) => {
                        let ghost a0 = self.party_states@[party_id as int].store();
                        let ghost b0 = self.party_states@[*partner as int].store();
                        let ghost gout = out;
                        let SyncOutcome {
                            learned_initiator,
                            learned_responder,
                            initiator_stats,
                            responder_stats,
                        } = out;
                        let ghost li = learned_initiator@;
                        let ghost lr = learned_responder@;
                        let ni = learned_initiator.len();
                        let mut j: usize = 0;
                        while j < ni
                            invariant
                                j <= ni,
                                ni == li.len(),
                                learned_initiator@ == li,
                                party_id < self.party_states@.len(),
                                self.party_states@.len() == old(self).party_states@.len(),
                                self.party_states@[party_id as int].store() == applied(
                                    a0,
                                    li.subrange(0, j as int),
                                ),
                                forall|q: int|
                                    0 <= q < self.party_states@.len() && q != party_id
                                        ==> self.party_states@[q] == old(self).party_states@[q],
                                self.triggers == old(self).triggers,
                                self.cur_post_id == old(self).cur_post_id,
                            decreases ni - j,
                        {
                            let o = learned_initiator[j];
                            proof {
                                assert(li.subrange(0, j + 1).drop_last() =~= li.subrange(
                                    0,
                                    j as int,
                                ));
                                assert(li.subrange(0, j + 1).last() == li[j as int]);
                            }
                            let p = &mut self.party_states[party_id];
                            p.post(o);
                            j = j + 1;
                        }
                        proof {
                            assert(li.subrange(0, li.len() as int) =~= li);
                        }
                        let ghost a1 = self.party_states@[party_id as int];
                        let nr = learned_responder.len();
                        let mut m: usize = 0;
                        while m < nr
                            invariant
                                m <= nr,
                                nr == lr.len(),
                                learned_responder@ == lr,
                                *partner < self.party_states@.len(),
                                party_id < self.party_states@.len(),
                                self.party_states@.len() == old(self).party_states@.len(),
                                *partner != party_id ==> self.party_states@[*partner as int].store()
                                    == applied(b0, lr.subrange(0, m as int)),
                                *partner != party_id ==> self.party_states@[party_id as int] == a1,
                                forall|q: int|
                                    0 <= q < self.party_states@.len() && q != party_id && q
                                        != *partner ==> self.party_states@[q] == old(self).party_states@[q],
                                self.triggers == old(self).triggers,
                                self.cur_post_id == old(self).cur_post_id,
                            decreases nr - m,
                        {
                            let o = learned_responder[m];
                            proof {
                                assert(lr.subrange(0, m + 1).drop_last() =~= lr.subrange(
                                    0,
                                    m as int,
                                ));
                                assert(lr.subrange(0, m + 1).last() == lr[m as int]);
                            }
                            let p = &mut self.party_states[*partner];
                            p.post(o);
                            m = m + 1;
                        }
                        proof {
                            assert(lr.subrange(0, lr.len() as int) =~= lr);
                        }
                        trace.push(
                            (meta, TraceEntry::Sync(*partner, initiator_stats, responder_stats)),
                        );
                        proof {
                            assert(sync_outcome_ok(a0, b0, gout));
                            lemma_sched_extends_refl(old(self).triggers@.scheduled);
                        }
                        Ok(())
                    },
                }
            },
            Event::DropProbabilities(filter) => {
                let ghost n0 = old(self).party_states@.len() as int;
                let ghost oldvec = self.triggers.probabilistic@;
                let ghost oldp = prob_entries_view(self.triggers.probabilistic@);
                let ghost fv = prob_entries_view(filter.entries@);
                proof {
                    assert forall|mm: int| 0 <= mm < oldp.len() implies prob_entryv_wf(
                        #[trigger] oldp[mm],
                        n0,
                        bound,
                    ) by {
                        assert(oldp == old(self).triggers@.probabilistic);
                        assert(old(self).triggers@.probabilistic[mm] == oldp[mm]);
                        assert(prob_entryv_wf(old(self).triggers@.probabilistic[mm], n0, bound));
                    }
                }
                let pre_len = self.triggers.probabilistic.len();
                let mut kept: Vec<crate::events::ProbEntry> = Vec::new();
                let mut i: usize = 0;
                while i < pre_len
                    invariant
                        i <= pre_len,
                        pre_len == self.triggers.probabilistic@.len(),
                        oldvec == self.triggers.probabilistic@,
                        oldp == prob_entries_view(oldvec),
                        fv == prob_entries_view(filter.entries@),
                        forall|mm: int|
                            0 <= mm < oldp.len() ==> prob_entryv_wf(#[trigger] oldp[mm], n0, bound),
                        forall|j: int|
                            #![trigger kept@[j]]
                            0 <= j < kept@.len() ==> (!crate::events::filter_matches(
                                fv,
                                crate::events::prob_entry_view(kept@[j]),
                            ) && prob_entryv_wf(
                                crate::events::prob_entry_view(kept@[j]),
                                n0,
                                bound,
                            )),
                        forall|mm: int|
                            #![trigger oldvec[mm]]
                            0 <= mm < i && !crate::events::filter_matches(
                                fv,
                                crate::events::prob_entry_view(oldvec[mm]),
                            ) ==> exists|j: int|
                                0 <= j < kept@.len() && crate::events::prob_entry_view(
                                    #[trigger] kept@[j],
                                ) == crate::events::prob_entry_view(oldvec[mm]),
                        prob_entries_view(kept@) == crate::events::kept_entries(
                            oldp.subrange(0, i as int),
                            fv,
                        ),
                    decreases pre_len - i,
                {
                    let ghost prekept = kept@;
                    let e = &self.triggers.probabilistic[i];
                    let keep = !filter.filter(e);
                    proof {
                        assert(oldp[i as int] == crate::events::prob_entry_view(oldvec[i as int]));
                        assert(keep == !crate::events::filter_matches(
                            fv,
                            crate::events::prob_entry_view(oldvec[i as int]),
                        ));
                    }
                    if keep {
                        kept.push((e.0, e.1, e.2.clone()));
                        proof {
                            assert(kept@[kept@.len() - 1].0 == oldvec[i as int].0);
                            assert(kept@[kept@.len() - 1].1 == oldvec[i as int].1);
                            assert(kept@[kept@.len() - 1].2@ == oldvec[i as int].2@);
                            assert(crate::events::prob_entry_view(kept@[kept@.len() - 1])
                                == crate::events::prob_entry_view(oldvec[i as int]));
                        }
                    }
                    proof {
                        assert forall|mm: int|
                            #![trigger oldvec[mm]]
                            0 <= mm < i + 1 && !crate::events::filter_matches(
                                fv,
                                crate::events::prob_entry_view(oldvec[mm]),
                            ) implies exists|j: int|
                            0 <= j < kept@.len() && crate::events::prob_entry_view(
                                #[trigger] kept@[j],
                            ) == crate::events::prob_entry_view(oldvec[mm]) by {
                            if mm < i {
                                let j = choose|j: int|
                                    0 <= j < prekept.len() && crate::events::prob_entry_view(
                                        prekept[j],
                                    ) == crate::events::prob_entry_view(oldvec[mm]);
                                assert(kept@[j] == prekept[j]);
                                assert(crate::events::prob_entry_view(kept@[j])
                                    == crate::events::prob_entry_view(oldvec[mm]));
                            } else {
                                assert(crate::events::prob_entry_view(kept@[kept@.len() - 1])
                                    == crate::events::prob_entry_view(oldvec[mm]));
                            }
                        }
                        assert(oldp.subrange(0, i + 1).drop_last() =~= oldp.subrange(0, i as int));
                        assert(oldp.subrange(0, i + 1).last() == oldp[i as int]);
                        assert(oldp[i as int] == crate::events::prob_entry_view(oldvec[i as int]));
                        if keep {
                            assert(prob_entries_view(kept@) =~= prob_entries_view(prekept).push(
                                crate::events::prob_entry_view(oldvec[i as int]),
                            ));
                        } else {
                            assert(prob_entries_view(kept@) == prob_entries_view(prekept));
                        }
                        assert(prob_entries_view(kept@) == crate::events::kept_entries(
                            oldp.subrange(0, i + 1),
                            fv,
                        ));
                    }
                    i = i + 1;
                }
                let after_len = kept.len();
                proof {
                    let keptv = prob_entries_view(kept@);
                    assert(event@ == EventV::DropProbabilities(fv));
                    assert(base_event(event@) == event@);
                    assert(oldp.subrange(0, oldp.len() as int) =~= oldp);
                    assert(keptv == crate::events::kept_entries(oldp, fv));
                    assert(keptv.len() == kept@.len());
                    assert forall|j: int| 0 <= j < keptv.len() implies (!crate::events::filter_matches(
                        fv,
                        #[trigger] keptv[j],
                    ) && prob_entryv_wf(keptv[j], n0, bound)) by {
                        assert(keptv[j] == crate::events::prob_entry_view(kept@[j]));
                    }
                    assert forall|mm: int|
                        0 <= mm < oldp.len() && !crate::events::filter_matches(
                            fv,
                            #[trigger] oldp[mm],
                        ) implies keptv.contains(oldp[mm]) by {
                        assert(oldp[mm] == crate::events::prob_entry_view(oldvec[mm]));
                        let j = choose|j: int|
                            0 <= j < kept@.len() && crate::events::prob_entry_view(
                                #[trigger] kept@[j],
                            ) == crate::events::prob_entry_view(oldvec[mm]);
                        assert(keptv[j] == oldp[mm]);
                    }
                }
                self.triggers.probabilistic = kept;
                proof {
                    lemma_triggers_wf_same_sched(old(self).triggers@, self.triggers@, n0, bound);
                    lemma_sched_extends_refl(old(self).triggers@.scheduled);
                }
                trace.push((meta, TraceEntry::DropProbabilities(pre_len, after_len)));
                Ok(())
            },
            Event::AddProbabilities(list) => {
                let ghost oldp = prob_entries_view(self.triggers.probabilistic@);
                let n_added = list.len();
                let mut added = clone_prob_entries(list);
                let ghost addv = prob_entries_view(added@);
                self.triggers.probabilistic.append(&mut added);
                proof {
                    assert(prob_entries_view(self.triggers.probabilistic@) =~= oldp + addv);
                    let ghost n0 = old(self).party_states@.len() as int;
                    assert(event@ matches EventV::AddProbabilities(lv) && lv == addv);
                    let newp = prob_entries_view(self.triggers.probabilistic@);
                    assert forall|idx: int|
                        0 <= idx < newp.len() implies prob_entryv_wf(
                            #[trigger] newp[idx],
                            n0,
                            bound,
                        ) by {
                        if idx < oldp.len() {
                            assert(newp[idx] == oldp[idx]);
                            assert(oldp == old(self).triggers@.probabilistic);
                            assert(old(self).triggers@.probabilistic[idx] == oldp[idx]);
                            assert(prob_entryv_wf(
                                old(self).triggers@.probabilistic[idx],
                                n0,
                                bound,
                            ));
                        } else {
                            assert(newp[idx] == addv[idx - oldp.len()]);
                        }
                    }
                    lemma_triggers_wf_same_sched(old(self).triggers@, self.triggers@, n0, bound);
                    lemma_sched_extends_refl(old(self).triggers@.scheduled);
                }
                trace.push((meta, TraceEntry::AddProbabilities(n_added)));
                Ok(())
            },
            Event::ScheduleRelative(offset, entries) => {
                let target = time.0 + offset.0;
                let ghost oldsched = self.triggers@.scheduled;
                let ghost lv = sched_entries_view(entries@);
                let n_entries = entries.len();
                let mut j: usize = 0;
                while j < n_entries
                    invariant
                        j <= n_entries,
                        n_entries == entries@.len(),
                        lv == sched_entries_view(entries@),
                        lv.len() == n_entries,
                        j == 0 ==> self.triggers@.scheduled == oldsched,
                        j > 0 ==> self.triggers@.scheduled == oldsched.insert(
                            target,
                            sched_at(oldsched, target) + lv.subrange(0, j as int),
                        ),
                        self.triggers@.probabilistic == old(self).triggers@.probabilistic,
                        self.party_states@ == old(self).party_states@,
                        self.cur_post_id == old(self).cur_post_id,
                    decreases n_entries - j,
                {
                    let en = &entries[j];
                    let ghost presched = self.triggers@.scheduled;
                    self.triggers.scheduled.push_at(target, (en.0, en.1.clone()));
                    proof {
                        assert(crate::events::sched_entry_view((en.0, en.1)) == lv[j as int]);
                        if j == 0 {
                            assert(sched_at(presched, target) =~= sched_at(oldsched, target)
                                + lv.subrange(0, 0));
                        }
                        assert(sched_at(presched, target) == sched_at(oldsched, target)
                            + lv.subrange(0, j as int));
                        assert((sched_at(oldsched, target) + lv.subrange(0, j as int)).push(
                            lv[j as int],
                        ) =~= sched_at(oldsched, target) + lv.subrange(0, j + 1));
                        assert(self.triggers@.scheduled =~= oldsched.insert(
                            target,
                            sched_at(oldsched, target) + lv.subrange(0, j + 1),
                        ));
                    }
                    j = j + 1;
                }
                proof {
                    assert(lv.subrange(0, lv.len() as int) =~= lv);
                    let ghost n0 = old(self).party_states@.len() as int;
                    let newsched = self.triggers@.scheduled;
                    assert forall|t: u64| #[trigger] newsched.contains_key(t) implies (forall|
                        idx: int,
                    |
                        0 <= idx < newsched[t].len() ==> sched_entryv_wf(
                            #[trigger] newsched[t][idx],
                            n0,
                            bound,
                        )) by {
                        if t == target && n_entries > 0 {
                            assert forall|idx: int|
                                0 <= idx < newsched[t].len() implies sched_entryv_wf(
                                    #[trigger] newsched[t][idx],
                                    n0,
                                    bound,
                                ) by {
                                let base = sched_at(oldsched, target);
                                assert(newsched[t] == base + lv);
                                if idx < base.len() {
                                    assert(newsched[t][idx] == base[idx]);
                                    if oldsched.contains_key(target) {
                                        assert(sched_entryv_wf(oldsched[target][idx], n0, bound));
                                    }
                                } else {
                                    let en2 = lv[idx - base.len()];
                                    assert(newsched[t][idx] == en2);
                                    assert(event@ matches EventV::ScheduleRelative(d2, l2) && l2
                                        == lv && d2 == *offset);
                                    assert(event_wf(event@, n0));
                                    assert(offsets_bounded(event@, bound as int));
                                    assert(en2.0 < n0 && event_wf(en2.1, n0));
                                    assert(offsets_bounded(en2.1, bound as int));
                                }
                            }
                        } else {
                            assert(oldsched.contains_key(t));
                            assert(newsched[t] == oldsched[t]);
                        }
                    }
                    lemma_triggers_wf_same_prob(old(self).triggers@, self.triggers@, n0, bound);
                    if n_entries > 0 {
                        lemma_sched_extends_append(oldsched, target, lv);
                    } else {
                        lemma_sched_extends_refl(oldsched);
                    }
                }
                trace.push((meta, TraceEntry::ScheduleRelative(n_entries)));
                Ok(())
            },
            Event::Repeat(period, inner) => {
                let target = time.0 + period.0;
                let ghost presched = self.triggers@.scheduled;
                self.triggers.scheduled.push_at(target, (party_id, event.clone()));
                proof {
                    assert(decreases_to!(*event => **inner));
                    let ghost n0 = old(self).party_states@.len() as int;
                    let newsched = self.triggers@.scheduled;
                    assert(sched_entryv_wf((party_id, event@), n0, bound));
                    assert forall|t: u64| #[trigger] newsched.contains_key(t) implies (forall|
                        idx: int,
                    |
                        0 <= idx < newsched[t].len() ==> sched_entryv_wf(
                            #[trigger] newsched[t][idx],
                            n0,
                            bound,
                        )) by {
                        if t == target {
                            assert forall|idx: int|
                                0 <= idx < newsched[t].len() implies sched_entryv_wf(
                                    #[trigger] newsched[t][idx],
                                    n0,
                                    bound,
                                ) by {
                                let base = sched_at(presched, target);
                                if idx < base.len() {
                                    assert(newsched[t][idx] == base[idx]);
                                    if presched.contains_key(target) {
                                        assert(sched_entryv_wf(presched[target][idx], n0, bound));
                                    }
                                } else {
                                    assert(newsched[t][idx] == crate::events::sched_entry_view(
                                        (party_id, *event),
                                    ));
                                }
                            }
                        } else {
                            assert(presched.contains_key(t));
                            assert(newsched[t] == presched[t]);
                        }
                    }
                    assert(self.triggers@.probabilistic == old(self).triggers@.probabilistic);
                    assert forall|idx: int|
                        0 <= idx < self.triggers@.probabilistic.len() implies prob_entryv_wf(
                            #[trigger] self.triggers@.probabilistic[idx],
                            n0,
                            bound,
                        ) by {
                        assert(old(self).triggers@.probabilistic[idx]
                            == self.triggers@.probabilistic[idx]);
                        assert(prob_entryv_wf(old(self).triggers@.probabilistic[idx], n0, bound));
                    }
                    assert(triggers_wf(self.triggers@, n0, bound));
                    assert(base_event(event@) == base_event(inner@));
                    assert(sched_with_repeats(
                        old(self).triggers@.scheduled,
                        event@,
                        time.0,
                        party_id,
                    ) == sched_with_repeats(self.triggers@.scheduled, inner@, time.0, party_id));
                }
                let ghost m1 = self.triggers@.scheduled;
                let res = self.handle_event(
                    meta,
                    inner,
                    time,
                    party_id,
                    run_protocol,
                    trace,
                    Ghost(bound),
                );
                proof {
                    assert(sched_at(presched, target).push((party_id, event@)) =~= sched_at(
                        presched,
                        target,
                    ) + seq![(party_id, event@)]);
                    lemma_sched_extends_append(presched, target, seq![(party_id, event@)]);
                    assert(m1 == presched.insert(
                        target,
                        sched_at(presched, target) + seq![(party_id, event@)],
                    ));
                    lemma_sched_extends_trans(presched, m1, self.triggers@.scheduled);
                }
                res
            },
        }
    }
}


/// The rows of the trace that carry time `t`, in trace order.
pub open spec fn rows_at_time(s: Seq<TraceRow>, t: u64) -> Seq<TraceRow>
    decreases s.len(),
{
    if s.len() == 0 {
        Seq::empty()
    } else {
        let rest = rows_at_time(s.drop_last(), t);
        if s.last().0.time.0 == t {
            rest.push(s.last())
        } else {
            rest
        }
    }
}

/// Appending one row changes only the rows of its own instant.
pub proof fn lemma_rows_at_time_push(s: Seq<TraceRow>, r: TraceRow, t: u64)
    ensures
        r.0.time.0 == t ==> rows_at_time(s.push(r), t) == rows_at_time(s, t).push(r),
        r.0.time.0 != t ==> rows_at_time(s.push(r), t) == rows_at_time(s, t),
{
    assert(s.push(r).drop_last() =~= s);
    assert(s.push(r).last() == r);
}

/// A trace whose times all lie below `t` has no rows at `t`.
pub proof fn lemma_rows_at_time_none(s: Seq<TraceRow>, t: u64)
    requires
        forall|i: int| 0 <= i < s.len() ==> (#[trigger] s[i]).0.time.0 < t,
    ensures
        rows_at_time(s, t) == Seq::<TraceRow>::empty(),
    decreases s.len(),
{
    if s.len() > 0 {
        lemma_rows_at_time_none(s.drop_last(), t);
    }
}

/// Whether the trace entry is an outcome that the base event of `e`, handled
/// for party `pid` at tick `t`, records: the kind matches and the payload
/// carries the event's own data.
pub open spec fn entry_matches_event(te: TraceEntry, e: EventV, pid: usize, t: u64) -> bool {
    match base_event(e) {
        EventV::Post => te matches TraceEntry::Posted(o) && o.author == pid && o.timestamp.0 == t,
        EventV::Sync(p) => te matches TraceEntry::Sync(q, _, _) && q == p,
        EventV::DropProbabilities(_) => te is DropProbabilities,
        EventV::AddProbabilities(l) => te == TraceEntry::AddProbabilities(l.len() as usize),
        EventV::ScheduleRelative(_, l) => te == TraceEntry::ScheduleRelative(l.len() as usize),
        EventV::Repeat(_, _) => false,
    }
}

/// Whether one row is what handling the scheduled entry `en` at tick `t`
/// records: the entry's time, party and event description, and an outcome of
/// the entry's base event.
pub open spec fn row_records_entry(row: TraceRow, en: SchedEntryV, t: u64) -> bool {
    &&& row.0.time.0 == t
    &&& row.0.party_id == en.0
    &&& row.0.event@ == event_label(en.1)
    &&& entry_matches_event(row.1, en.1, en.0, t)
}

/// The scheduled entries `es` of tick `t` lead the rows of that tick: the
/// tick holds at least one row per entry, and its `j`-th row records entry
/// `j`. Scheduled rows precede every probabilistic row of the same tick.
pub open spec fn scheduled_rows_lead(rows: Seq<TraceRow>, es: Seq<SchedEntryV>, t: u64) -> bool {
    let rt = rows_at_time(rows, t);
    &&& es.len() <= rt.len()
    &&& forall|j: int| 0 <= j < es.len() ==> row_records_entry(#[trigger] rt[j], es[j], t)
}

/// Whether the entry's event only posts, syncs or drops probabilistic
/// entries: handling it never edits the schedule, and never adds a
/// probabilistic entry.
pub open spec fn static_entry(en: SchedEntryV) -> bool {
    match en.1 {
        EventV::Post => true,
        EventV::Sync(_) => true,
        EventV::DropProbabilities(_) => true,
        _ => false,
    }
}

/// Whether the trigger set drives a fixed run: no probabilistic entries, and
/// every scheduled entry static. Such a run's trace holds exactly one row
/// per scheduled entry of each tick.
pub open spec fn static_triggers(tv: crate::triggers::TriggersV) -> bool {
    &&& tv.probabilistic.len() == 0
    &&& forall|t: u64, i: int|
        tv.scheduled.contains_key(t) && 0 <= i < tv.scheduled[t].len() ==> static_entry(
            #[trigger] tv.scheduled[t][i],
        )
}

/// The rows are ordered: times never decrease and never exceed `tmax`, and
/// every posted object carries the number of earlier `Posted` rows as its post
/// id and its poster as its author.
pub open spec fn rows_ok(s: Seq<TraceRow>, tmax: int) -> bool {
    &&& forall|i: int, j: int|
        0 <= i < j < s.len() ==> (#[trigger] s[i]).0.time.0 <= (#[trigger] s[j]).0.time.0
    &&& forall|i: int| 0 <= i < s.len() ==> (#[trigger] s[i]).0.time.0 <= tmax
    &&& forall|i: int|
        0 <= i < s.len() ==> ((#[trigger] s[i]).1 matches TraceEntry::Posted(o) ==> o.post_id
            == count_posted(s.subrange(0, i)) && o.author == s[i].0.party_id)
}

/// Appending one row at the current time keeps the rows ordered, and counts
/// one more posted row exactly when the new row is a `Posted` row.
pub proof fn lemma_rows_push(pre: Seq<TraceRow>, post: Seq<TraceRow>, t: int, cnt: int)
    requires
        post == pre.push(post.last()),
        rows_ok(pre, t),
        post.last().0.time.0 == t,
        cnt == count_posted(pre),
        post.last().1 matches TraceEntry::Posted(o) ==> o.post_id == cnt && o.author
            == post.last().0.party_id,
    ensures
        rows_ok(post, t),
        count_posted(post) == cnt + (if post.last().1 is Posted {
            1int
        } else {
            0int
        }),
{
    assert(post.drop_last() =~= pre);
    assert forall|i: int| 0 <= i <= pre.len() implies #[trigger] post.subrange(0, i)
        == pre.subrange(0, i) by {
        assert(post.subrange(0, i) =~= pre.subrange(0, i));
    }
    assert(post.subrange(0, pre.len() as int) == pre.subrange(0, pre.len() as int));
    assert(pre.subrange(0, pre.len() as int) =~= pre);
    assert forall|i: int|
        0 <= i < post.len() implies ((#[trigger] post[i]).1 matches TraceEntry::Posted(o)
            ==> o.post_id == count_posted(post.subrange(0, i)) && o.author
            == post[i].0.party_id) by {
        if i < pre.len() {
            assert(post[i] == pre[i]);
        } else {
            assert(post[i] == post.last());
        }
    }
}

/// The number of posted rows never decreases along a prefix, and steps by one
/// exactly at each posted row.
pub proof fn lemma_count_posted_step(s: Seq<TraceRow>, i: int)
    requires
        0 <= i < s.len(),
    ensures
        count_posted(s.subrange(0, i + 1)) == count_posted(s.subrange(0, i)) + (if s[i].1
            is Posted {
            1int
        } else {
            0int
        }),
{
    assert(s.subrange(0, i + 1).drop_last() =~= s.subrange(0, i));
    assert(s.subrange(0, i + 1).last() == s[i]);
}

/// The number of posted rows is monotone along prefixes.
pub proof fn lemma_count_posted_mono(s: Seq<TraceRow>, a: int, b: int)
    requires
        0 <= a <= b <= s.len(),
    ensures
        count_posted(s.subrange(0, a)) <= count_posted(s.subrange(0, b)),
    decreases b - a,
{
    if a < b {
        lemma_count_posted_mono(s, a, b - 1);
        lemma_count_posted_step(s, b - 1);
    }
}

/// Law: distinct `Posted` rows carry distinct `(author, post_id)` pairs, and
/// the post ids are exactly the number of earlier posted rows, so over a whole
/// trace they form a contiguous prefix of the naturals in posting order.
pub proof fn lemma_posted_ids_unique(s: Seq<TraceRow>, tmax: int, i: int, j: int)
    requires
        rows_ok(s, tmax),
        0 <= i < j < s.len(),
        s[i].1 is Posted,
        s[j].1 is Posted,
    ensures
        s[i].1->Posted_0.post_id < s[j].1->Posted_0.post_id,
{
    lemma_count_posted_step(s, i);
    lemma_count_posted_mono(s, i + 1, j);
}

/// Runs one simulation: for each of `length` minutes, handles that minute's
/// scheduled entries in order, then evaluates every probabilistic entry
/// present at the start of the minute, in order, drawing exactly one roll per
/// entry whether or not it fires. Returns the trace, or the first protocol
/// failure; a protocol that never fails makes the whole run succeed. In the
/// trace, each tick's rows start with one row per initially scheduled entry
/// of that tick, in schedule order, each recording its entry's time, party,
/// description and outcome kind; a configuration without probabilistic
/// entries or schedule-editing events yields exactly those rows.
#[verifier::rlimit(60)]
pub fn sim<F: Fn(&PartyState, &PartyState) -> Result<SyncOutcome, SyncError>>(
    rng: &mut SimRng,
    n_parties: usize,
    initial_triggers: Triggers,
    length: SimDuration,
    run_protocol: &F,
) -> (r: Result<Trace, SyncError>)
    requires
        triggers_wf(
            initial_triggers@,
            n_parties as int,
            u64::MAX - length.0,
        ),
        forall|a: &PartyState, b: &PartyState| #[trigger] call_requires(*run_protocol, (a, b)),
        forall|a: &PartyState, b: &PartyState, ret: Result<SyncOutcome, SyncError>|
            #[trigger] call_ensures(*run_protocol, (a, b), ret) ==> (ret matches Ok(out)
                ==> sync_outcome_ok(a.store(), b.store(), out)),
    ensures
        r matches Ok(tr) ==> rows_ok(tr@, length.0 - 1),
        (forall|a: &PartyState, b: &PartyState, ret: Result<SyncOutcome, SyncError>|
            #[trigger] call_ensures(*run_protocol, (a, b), ret) ==> ret is Ok) ==> r is Ok,
        r matches Ok(tr) ==> forall|t: u64|
            t < length.0 ==> #[trigger] scheduled_rows_lead(
                tr@,
                sched_at(initial_triggers@.scheduled, t),
                t,
            ),
        r matches Ok(tr) ==> (static_triggers(initial_triggers@) ==> forall|t: u64|
            t < length.0 ==> (#[trigger] rows_at_time(tr@, t)).len() == sched_at(
                initial_triggers@.scheduled,
                t,
            ).len()),
{
    let ghost n = n_parties as int;
    let ghost bound = u64::MAX - length.0;
    let ghost init_sched = initial_triggers@.scheduled;
    let ghost static_run = static_triggers(initial_triggers@);
    let mut state = SystemState::new(n_parties, initial_triggers);
    let mut trace: Vec<TraceRow> = Vec::new();
    let mut t: u64 = 0;
    proof {
        lemma_sched_extends_refl(init_sched);
    }
    while t < length.0
        invariant
            t <= length.0,
            n == n_parties as int,
            state.party_states@.len() == n_parties,
            triggers_wf(state.triggers@, n, bound as int),
            bound == u64::MAX - length.0,
            state.cur_post_id == count_posted(trace@),
            state.cur_post_id <= trace@.len(),
            rows_ok(trace@, t - 1),
            init_sched == initial_triggers@.scheduled,
            static_run == static_triggers(initial_triggers@),
            forall|u: u64|
                u >= t ==> (#[trigger] sched_at(init_sched, u)).is_prefix_of(
                    sched_at(state.triggers@.scheduled, u),
                ),
            forall|u: u64|
                u < t ==> #[trigger] scheduled_rows_lead(trace@, sched_at(init_sched, u), u),
            static_run ==> state.triggers@.probabilistic.len() == 0,
            static_run ==> forall|u: u64|
                u >= t ==> #[trigger] sched_at(state.triggers@.scheduled, u) == sched_at(
                    init_sched,
                    u,
                ),
            static_run ==> forall|u: u64|
                u < t ==> (#[trigger] rows_at_time(trace@, u)).len() == sched_at(
                    init_sched,
                    u,
                ).len(),
            forall|a: &PartyState, b: &PartyState| #[trigger] call_requires(*run_protocol, (a, b)),
            forall|a: &PartyState, b: &PartyState, ret: Result<SyncOutcome, SyncError>|
                #[trigger] call_ensures(*run_protocol, (a, b), ret) ==> (ret matches Ok(out)
                    ==> sync_outcome_ok(a.store(), b.store(), out)),
        decreases length.0 - t,
    {
        let now = SimInstant(t);
        let ghost pretrig = state.triggers@;
        let ghost es_init = sched_at(init_sched, t);
        let taken = state.triggers.scheduled.take_at(t);
        proof {
            lemma_rows_at_time_none(trace@, t);
            assert(es_init.is_prefix_of(sched_at(pretrig.scheduled, t)));
            assert forall|u: u64|
                u >= t + 1 implies (#[trigger] sched_at(init_sched, u)).is_prefix_of(
                    sched_at(state.triggers@.scheduled, u),
                ) by {
                assert(state.triggers@.scheduled == pretrig.scheduled.remove(t));
                assert(sched_at(state.triggers@.scheduled, u) == sched_at(pretrig.scheduled, u));
            }
            if static_run {
                assert forall|u: u64|
                    u >= t + 1 implies #[trigger] sched_at(state.triggers@.scheduled, u)
                    == sched_at(init_sched, u) by {
                    assert(sched_at(state.triggers@.scheduled, u) == sched_at(
                        pretrig.scheduled,
                        u,
                    ));
                }
            }
            assert forall|u: u64| #[trigger] state.triggers@.scheduled.contains_key(u) implies (
            forall|i: int|
                0 <= i < state.triggers@.scheduled[u].len() ==> sched_entryv_wf(
                    #[trigger] state.triggers@.scheduled[u][i],
                    n,
                    bound as int,
                )) by {
                assert(pretrig.scheduled.contains_key(u));
                assert(forall|i: int|
                    0 <= i < pretrig.scheduled[u].len() ==> sched_entryv_wf(
                        #[trigger] pretrig.scheduled[u][i],
                        n,
                        bound as int,
                    ));
                assert(state.triggers@.scheduled[u] == pretrig.scheduled[u]);
            }
            assert(state.triggers@.probabilistic == pretrig.probabilistic);
            assert forall|i: int|
                0 <= i < state.triggers@.probabilistic.len() implies prob_entryv_wf(
                    #[trigger] state.triggers@.probabilistic[i],
                    n,
                    bound as int,
                ) by {
                assert(pretrig.probabilistic[i] == state.triggers@.probabilistic[i]);
                assert(prob_entryv_wf(pretrig.probabilistic[i], n, bound as int));
            }
        }
        if let Some(entries) = taken {
            let ghost evs = sched_entries_view(entries@);
            proof {
                assert(evs == pretrig.scheduled[t]);
                assert forall|i: int| 0 <= i < evs.len() implies sched_entryv_wf(
                    #[trigger] evs[i],
                    n,
                    bound as int,
                ) by {
                    assert(pretrig.scheduled[t][i] == evs[i]);
                    assert(sched_entryv_wf(pretrig.scheduled[t][i], n, bound as int));
                }
                assert(sched_at(pretrig.scheduled, t) == evs);
                assert(es_init.is_prefix_of(evs));
                if static_run {
                    assert(evs == es_init);
                    assert forall|i2: int| 0 <= i2 < evs.len() implies static_entry(
                        #[trigger] evs[i2],
                    ) by {
                        assert(init_sched.contains_key(t));
                        assert(initial_triggers@.scheduled[t][i2] == evs[i2]);
                    }
                }
            }
            let n_entries = entries.len();
            let mut j: usize = 0;
            while j < n_entries
                invariant
                    j <= n_entries,
                    n_entries == entries@.len(),
                    evs == sched_entries_view(entries@),
                    evs.len() == n_entries,
                    forall|i: int|
                        0 <= i < evs.len() ==> sched_entryv_wf(#[trigger] evs[i], n, bound as int),
                    n == n_parties as int,
                    state.party_states@.len() == n_parties,
                    triggers_wf(state.triggers@, n, bound as int),
                    state.cur_post_id == count_posted(trace@),
                    state.cur_post_id <= trace@.len(),
                    rows_ok(trace@, t as int),
                    t < length.0,
                    now.0 == t,
                    bound == u64::MAX - length.0,
                    es_init == sched_at(init_sched, t),
                    es_init.is_prefix_of(evs),
                    static_run ==> evs == es_init,
                    static_run ==> (forall|i2: int|
                        0 <= i2 < evs.len() ==> static_entry(#[trigger] evs[i2])),
                    static_run ==> state.triggers@.probabilistic.len() == 0,
                    static_run ==> forall|u: u64|
                        u >= t + 1 ==> #[trigger] sched_at(state.triggers@.scheduled, u)
                            == sched_at(init_sched, u),
                    static_run ==> forall|u: u64|
                        u < t ==> (#[trigger] rows_at_time(trace@, u)).len() == sched_at(
                            init_sched,
                            u,
                        ).len(),
                    rows_at_time(trace@, t).len() == j,
                    forall|j2: int|
                        0 <= j2 < j ==> row_records_entry(
                            #[trigger] rows_at_time(trace@, t)[j2],
                            evs[j2],
                            t,
                        ),
                    forall|u: u64|
                        u >= t + 1 ==> (#[trigger] sched_at(init_sched, u)).is_prefix_of(
                            sched_at(state.triggers@.scheduled, u),
                        ),
                    forall|u: u64|
                        u < t ==> #[trigger] scheduled_rows_lead(
                            trace@,
                            sched_at(init_sched, u),
                            u,
                        ),
                    forall|a: &PartyState, b: &PartyState| #[trigger] call_requires(
                        *run_protocol,
                        (a, b),
                    ),
                    forall|a: &PartyState, b: &PartyState, ret: Result<SyncOutcome, SyncError>|
                        #[trigger] call_ensures(*run_protocol, (a, b), ret) ==> (ret matches Ok(out)
                            ==> sync_outcome_ok(a.store(), b.store(), out)),
                decreases n_entries - j,
            {
                let en = &entries[j];
                let meta = TraceMeta::new(now, en.0, &en.1);
                proof {
                    assert(evs[j as int] == (en.0, en.1@));
                    assert(sched_entryv_wf(evs[j as int], n, bound as int));
                }
                let ghost pretrace = trace@;
                let ghost precnt = count_posted(trace@);
                let ghost presched_loop = state.triggers@.scheduled;
                let ghost preprob_loop = state.triggers@.probabilistic;
                let res = state.handle_event(
                    meta,
                    &en.1,
                    now,
                    en.0,
                    run_protocol,
                    &mut trace,
                    Ghost(bound as int),
                );
                if let Err(e) = res {
                    return Err(e);
                }
                proof {
                    lemma_rows_push(pretrace, trace@, t as int, precnt);
                    let row = trace@.last();
                    lemma_rows_at_time_push(pretrace, row, t);
                    lemma_base_event_not_repeat(en.1@);
                    assert(row_records_entry(row, evs[j as int], t));
                    assert forall|j2: int|
                        0 <= j2 < j + 1 implies row_records_entry(
                            rows_at_time(trace@, t)[j2],
                            evs[j2],
                            t,
                        ) by {
                        if j2 < j {
                            assert(rows_at_time(trace@, t)[j2] == rows_at_time(pretrace, t)[j2]);
                        } else {
                            assert(rows_at_time(trace@, t)[j2] == row);
                        }
                    }
                    assert forall|u: u64|
                        u < t implies #[trigger] scheduled_rows_lead(
                            trace@,
                            sched_at(init_sched, u),
                            u,
                        ) by {
                        lemma_rows_at_time_push(pretrace, row, u);
                        assert(scheduled_rows_lead(pretrace, sched_at(init_sched, u), u));
                        assert(rows_at_time(trace@, u) == rows_at_time(pretrace, u));
                    }
                    assert forall|u: u64|
                        u >= t + 1 implies (#[trigger] sched_at(init_sched, u)).is_prefix_of(
                            sched_at(state.triggers@.scheduled, u),
                        ) by {
                        assert(sched_at(presched_loop, u).is_prefix_of(
                            sched_at(state.triggers@.scheduled, u),
                        ));
                        lemma_prefix_trans(
                            sched_at(init_sched, u),
                            sched_at(presched_loop, u),
                            sched_at(state.triggers@.scheduled, u),
                        );
                    }
                    if static_run {
                        assert(static_entry(evs[j as int]));
                        assert(base_event(en.1@) == en.1@);
                        assert(sched_with_repeats(presched_loop, en.1@, now.0, en.0)
                            == presched_loop) by {
                            assert(!(en.1@ is Repeat));
                        }
                        assert(state.triggers@.scheduled == presched_loop);
                        assert(state.triggers@.probabilistic.len() == 0) by {
                            assert(preprob_loop.len() == 0);
                            if en.1@ is DropProbabilities {
                                assert(crate::events::kept_entries(
                                    preprob_loop,
                                    en.1@->DropProbabilities_0,
                                ) == Seq::<ProbEntryV>::empty());
                            }
                        }
                        assert forall|u: u64|
                            u >= t + 1 implies #[trigger] sched_at(state.triggers@.scheduled, u)
                            == sched_at(init_sched, u) by {
                            assert(sched_at(presched_loop, u) == sched_at(init_sched, u));
                        }
                        assert forall|u: u64|
                            u < t implies (#[trigger] rows_at_time(trace@, u)).len() == sched_at(
                            init_sched,
                            u,
                        ).len() by {
                            lemma_rows_at_time_push(pretrace, row, u);
                        }
                    }
                }
                j = j + 1;
            }
            proof {
                assert forall|j2: int|
                    0 <= j2 < es_init.len() implies row_records_entry(
                        rows_at_time(trace@, t)[j2],
                        es_init[j2],
                        t,
                    ) by {
                    assert(es_init[j2] == evs.subrange(0, es_init.len() as int)[j2]);
                    assert(es_init[j2] == evs[j2]);
                }
                assert(scheduled_rows_lead(trace@, es_init, t));
                if static_run {
                    assert(rows_at_time(trace@, t).len() == es_init.len());
                }
            }
        } else {
            proof {
                assert(rows_ok(trace@, t as int));
                assert(sched_at(pretrig.scheduled, t) == Seq::<SchedEntryV>::empty());
                assert(es_init.len() == 0);
                assert(scheduled_rows_lead(trace@, es_init, t));
                if static_run {
                    assert(rows_at_time(trace@, t).len() == es_init.len());
                }
            }
        }
        let snapshot = clone_prob_entries(&state.triggers.probabilistic);
        let ghost pvs = prob_entries_view(snapshot@);
        proof {
            assert(pvs == state.triggers@.probabilistic);
            assert forall|i: int| 0 <= i < pvs.len() implies prob_entryv_wf(
                #[trigger] pvs[i],
                n,
                bound as int,
            ) by {
                assert(state.triggers@.probabilistic[i] == pvs[i]);
                assert(prob_entryv_wf(state.triggers@.probabilistic[i], n, bound as int));
            }
        }
        let n_prob = snapshot.len();
        let mut k: usize = 0;
        while k < n_prob
            invariant
                k <= n_prob,
                n_prob == snapshot@.len(),
                pvs == prob_entries_view(snapshot@),
                pvs.len() == n_prob,
                forall|i: int|
                    0 <= i < pvs.len() ==> prob_entryv_wf(#[trigger] pvs[i], n, bound as int),
                n == n_parties as int,
                state.party_states@.len() == n_parties,
                triggers_wf(state.triggers@, n, bound as int),
                state.cur_post_id == count_posted(trace@),
                state.cur_post_id <= trace@.len(),
                rows_ok(trace@, t as int),
                t < length.0,
                now.0 == t,
                bound == u64::MAX - length.0,
                es_init == sched_at(init_sched, t),
                scheduled_rows_lead(trace@, es_init, t),
                static_run ==> pvs.len() == 0,
                static_run ==> rows_at_time(trace@, t).len() == es_init.len(),
                static_run ==> state.triggers@.probabilistic.len() == 0,
                static_run ==> forall|u: u64|
                    u >= t + 1 ==> #[trigger] sched_at(state.triggers@.scheduled, u) == sched_at(
                        init_sched,
                        u,
                    ),
                static_run ==> forall|u: u64|
                    u < t ==> (#[trigger] rows_at_time(trace@, u)).len() == sched_at(
                        init_sched,
                        u,
                    ).len(),
                forall|u: u64|
                    u >= t + 1 ==> (#[trigger] sched_at(init_sched, u)).is_prefix_of(
                        sched_at(state.triggers@.scheduled, u),
                    ),
                forall|u: u64|
                    u < t ==> #[trigger] scheduled_rows_lead(trace@, sched_at(init_sched, u), u),
                forall|a: &PartyState, b: &PartyState| #[trigger] call_requires(
                    *run_protocol,
                    (a, b),
                ),
                forall|a: &PartyState, b: &PartyState, ret: Result<SyncOutcome, SyncError>|
                    #[trigger] call_ensures(*run_protocol, (a, b), ret) ==> (ret matches Ok(out)
                        ==> sync_outcome_ok(a.store(), b.store(), out)),
            decreases n_prob - k,
        {
            let roll = DiceRoll::<PROB_ONE>::roll(rng);
            let en = &snapshot[k];
            proof {
                assert(pvs[k as int] == (en.0, en.1, en.2@));
                assert(prob_entryv_wf(pvs[k as int], n, bound as int));
            }
            if en.1.does_fire(&roll) {
                let meta = TraceMeta::new(now, en.0, &en.2);
                let ghost pretrace = trace@;
                let ghost precnt = count_posted(trace@);
                let ghost presched_loop = state.triggers@.scheduled;
                let res = state.handle_event(
                    meta,
                    &en.2,
                    now,
                    en.0,
                    run_protocol,
                    &mut trace,
                    Ghost(bound as int),
                );
                if let Err(e) = res {
                    return Err(e);
                }
                proof {
                    lemma_rows_push(pretrace, trace@, t as int, precnt);
                    let row = trace@.last();
                    lemma_rows_at_time_push(pretrace, row, t);
                    assert forall|j2: int|
                        0 <= j2 < es_init.len() implies row_records_entry(
                            rows_at_time(trace@, t)[j2],
                            es_init[j2],
                            t,
                        ) by {
                        assert(scheduled_rows_lead(pretrace, es_init, t));
                        assert(rows_at_time(trace@, t)[j2] == rows_at_time(pretrace, t)[j2]);
                    }
                    assert(scheduled_rows_lead(trace@, es_init, t));
                    assert forall|u: u64|
                        u < t implies #[trigger] scheduled_rows_lead(
                            trace@,
                            sched_at(init_sched, u),
                            u,
                        ) by {
                        lemma_rows_at_time_push(pretrace, row, u);
                        assert(scheduled_rows_lead(pretrace, sched_at(init_sched, u), u));
                        assert(rows_at_time(trace@, u) == rows_at_time(pretrace, u));
                    }
                    assert forall|u: u64|
                        u >= t + 1 implies (#[trigger] sched_at(init_sched, u)).is_prefix_of(
                            sched_at(state.triggers@.scheduled, u),
                        ) by {
                        assert(sched_at(presched_loop, u).is_prefix_of(
                            sched_at(state.triggers@.scheduled, u),
                        ));
                        lemma_prefix_trans(
                            sched_at(init_sched, u),
                            sched_at(presched_loop, u),
                            sched_at(state.triggers@.scheduled, u),
                        );
                    }
                }
            }
            k = k + 1;
        }
        proof {
            assert forall|u: u64|
                u < t + 1 implies #[trigger] scheduled_rows_lead(
                    trace@,
                    sched_at(init_sched, u),
                    u,
                ) by {
                if u == t {
                    assert(sched_at(init_sched, u) == es_init);
                    assert(scheduled_rows_lead(trace@, es_init, t));
                }
            }
            if static_run {
                assert forall|u: u64|
                    u < t + 1 implies (#[trigger] rows_at_time(trace@, u)).len() == sched_at(
                    init_sched,
                    u,
                ).len() by {
                    if u == t {
                        assert(sched_at(init_sched, u) == es_init);
                    }
                }
            }
        }
        t = t + 1;
    }
    let ghost finaltrace = trace@;
    let result = Trace { rows: trace };
    proof {
        assert(result@ == finaltrace);
        assert forall|u: u64|
            u < length.0 implies #[trigger] scheduled_rows_lead(
                result@,
                sched_at(initial_triggers@.scheduled, u),
                u,
            ) by {
            assert(scheduled_rows_lead(finaltrace, sched_at(init_sched, u), u));
        }
        if static_run {
            assert forall|u: u64|
                u < length.0 implies (#[trigger] rows_at_time(result@, u)).len() == sched_at(
                initial_triggers@.scheduled,
                u,
            ).len() by {
                assert(rows_at_time(finaltrace, u).len() == sched_at(init_sched, u).len());
            }
        }
    }
    Ok(result)
}

} // verus!
