//! Experiment configurators: the sleep/wake schedules and the canonical
//! ten-party configuration that the reference experiments run.

use vstd::prelude::*;

use crate::events::{
    clone_prob_entries, prob_entries_view, Event, EventV, ProbEntry, ProbEntryV, SchedEntryV,
};
use crate::sim::{event_wf, offsets_bounded, prob_entryv_wf, sched_entryv_wf, triggers_wf};
use crate::time::{Frequency, Probability, SimDuration, DAY, HOUR, PER_MINUTE};
use crate::triggers::{sched_at, ScheduleMap, Triggers};

verus! {

/// The awake pairs of one party, tagged with that party: the probabilistic
/// entries that its sleep/wake schedule adds and later drops.
pub open spec fn tagged_entries(party_id: usize, l: Seq<(Probability, Event)>) -> Seq<ProbEntryV> {
    Seq::new(l.len(), |i: int| (party_id, l[i].0, l[i].1@))
}

/// The wake entry of a sleep/wake schedule: once per day, add the tagged
/// awake entries.
pub open spec fn wake_entry(party_id: usize, awake: Seq<ProbEntryV>) -> SchedEntryV {
    (party_id, EventV::Repeat(SimDuration(DAY), Box::new(EventV::AddProbabilities(awake))))
}

/// The sleep entry of a sleep/wake schedule: once per day, drop exactly the
/// tagged awake entries.
pub open spec fn sleep_entry(party_id: usize, awake: Seq<ProbEntryV>) -> SchedEntryV {
    (party_id, EventV::Repeat(SimDuration(DAY), Box::new(EventV::DropProbabilities(awake))))
}

/// The schedule a sleep/wake configuration builds: its wake entry at
/// `offset`, then its sleep entry pushed at `wake_end`.
pub open spec fn sleep_sched_map(
    party_id: usize,
    offset: u64,
    wake_end: u64,
    awake: Seq<ProbEntryV>,
) -> Map<u64, Seq<SchedEntryV>> {
    let m1 = Map::<u64, Seq<SchedEntryV>>::empty().insert(
        offset,
        seq![wake_entry(party_id, awake)],
    );
    m1.insert(wake_end, sched_at(m1, wake_end).push(sleep_entry(party_id, awake)))
}

/// A trigger set holding only probabilistic entries.
pub fn probabilistic_triggers(probabilistic: Vec<ProbEntry>) -> (r: Triggers)
    ensures
        r@.scheduled == Map::<u64, Seq<SchedEntryV>>::empty(),
        r@.probabilistic == prob_entries_view(probabilistic@),
{
    Triggers::new(ScheduleMap::new(), probabilistic)
}

/// A party's sleep/wake schedule: the party starts asleep; once per day from
/// `offset` on, the awake entries are added, and once per day from
/// `offset + time_awake` on, exactly those entries are dropped again.
pub fn sleep_schedule(
    party_id: usize,
    offset: SimDuration,
    time_awake: SimDuration,
    awake_probabilities: Vec<(Probability, Event)>,
) -> (r: Triggers)
    requires
        offset.0 + time_awake.0 <= u64::MAX,
    ensures
        r@.probabilistic == Seq::<crate::events::ProbEntryV>::empty(),
        r@.scheduled == sleep_sched_map(
            party_id,
            offset.0,
            (offset.0 + time_awake.0) as u64,
            tagged_entries(party_id, awake_probabilities@),
        ),
        forall|nn: int, bb: int|
            party_id < nn && DAY <= bb && (forall|i: int|
                0 <= i < awake_probabilities@.len() ==> event_wf(
                    (#[trigger] awake_probabilities@[i]).1@,
                    nn,
                ) && offsets_bounded(awake_probabilities@[i].1@, bb)) ==> #[trigger] triggers_wf(
                r@,
                nn,
                bb,
            ),
{
    let n_awake = awake_probabilities.len();
    let mut awake_entries: Vec<ProbEntry> = Vec::new();
    let mut i: usize = 0;
    while i < n_awake
        invariant
            i <= n_awake,
            n_awake == awake_probabilities@.len(),
            awake_entries@.len() == i,
            forall|j: int|
                0 <= j < i ==> (#[trigger] awake_entries@[j]).0 == party_id
                    && awake_entries@[j].1 == awake_probabilities@[j].0 && awake_entries@[j].2@
                    == awake_probabilities@[j].1@,
        decreases n_awake - i,
    {
        let pe = &awake_probabilities[i];
        awake_entries.push((party_id, pe.0, pe.1.clone()));
        i = i + 1;
    }
    let awake_copy = clone_prob_entries(&awake_entries);
    let ghost awake_view = prob_entries_view(awake_entries@);
    let awake_event = Event::repeat(SimDuration(DAY), Event::AddProbabilities(awake_copy));
    let sleep_event = Event::repeat(SimDuration(DAY), Event::drop_probabilities(awake_entries));
    let ghost awakev = awake_event@;
    let ghost sleepv = sleep_event@;
    let mut scheduled = ScheduleMap::new();
    scheduled.push_at(offset.0, (party_id, awake_event));
    let ghost s1 = scheduled@;
    scheduled.push_at(offset.0 + time_awake.0, (party_id, sleep_event));
    let r = Triggers::new(scheduled, Vec::new());
    proof {
        assert(prob_entries_view(Seq::<ProbEntry>::empty()) =~= Seq::<
            crate::events::ProbEntryV,
        >::empty());
        let tagged = tagged_entries(party_id, awake_probabilities@);
        assert(awake_view =~= tagged);
        assert((party_id, awakev) == wake_entry(party_id, tagged));
        assert((party_id, sleepv) == sleep_entry(party_id, tagged));
        let m1 = Map::<u64, Seq<SchedEntryV>>::empty().insert(
            offset.0,
            seq![wake_entry(party_id, tagged)],
        );
        assert(sched_at(Map::<u64, Seq<SchedEntryV>>::empty(), offset.0).push(
            (party_id, awakev),
        ) =~= seq![wake_entry(party_id, tagged)]);
        assert(s1 == m1);
        assert(r@.scheduled == s1.insert(
            (offset.0 + time_awake.0) as u64,
            sched_at(s1, (offset.0 + time_awake.0) as u64).push(sleep_entry(party_id, tagged)),
        ));
        assert(r@.scheduled == sleep_sched_map(
            party_id,
            offset.0,
            (offset.0 + time_awake.0) as u64,
            tagged,
        ));
        assert forall|nn: int, bb: int|
            party_id < nn && DAY <= bb && (forall|i2: int|
                0 <= i2 < awake_probabilities@.len() ==> event_wf(
                    (#[trigger] awake_probabilities@[i2]).1@,
                    nn,
                ) && offsets_bounded(awake_probabilities@[i2].1@, bb)) implies #[trigger] triggers_wf(
            r@,
            nn,
            bb,
        ) by {
            assert forall|j: int| 0 <= j < awake_view.len() implies prob_entryv_wf(
                #[trigger] awake_view[j],
                nn,
                bb,
            ) by {
                assert(awake_view[j] == crate::events::prob_entry_view(awake_entries@[j]));
                assert(awake_entries@[j].2@ == awake_probabilities@[j].1@);
            }
            assert(awakev == EventV::Repeat(
                SimDuration(DAY),
                Box::new(EventV::AddProbabilities(awake_view)),
            ));
            assert(sleepv == EventV::Repeat(
                SimDuration(DAY),
                Box::new(EventV::DropProbabilities(awake_view)),
            ));
            assert(event_wf(EventV::AddProbabilities(awake_view), nn));
            assert(offsets_bounded(EventV::AddProbabilities(awake_view), bb));
            assert(event_wf(EventV::DropProbabilities(awake_view), nn));
            assert(offsets_bounded(EventV::DropProbabilities(awake_view), bb));
            assert(sched_entryv_wf((party_id, awakev), nn, bb));
            assert(sched_entryv_wf((party_id, sleepv), nn, bb));
            assert forall|t: u64| #[trigger] r@.scheduled.contains_key(t) implies (forall|
                idx: int,
            |
                0 <= idx < r@.scheduled[t].len() ==> sched_entryv_wf(
                    #[trigger] r@.scheduled[t][idx],
                    nn,
                    bb,
                )) by {
                assert forall|idx: int|
                    0 <= idx < r@.scheduled[t].len() implies sched_entryv_wf(
                        #[trigger] r@.scheduled[t][idx],
                        nn,
                        bb,
                    ) by {
                    assert(r@.scheduled[t][idx] == (party_id, awakev) || r@.scheduled[t][idx] == (
                    party_id,
                    sleepv,
                ));
                }
            }
        }
    }
    r
}

/// The probabilistic entries of a sequence of trigger sets, concatenated in
/// order.
pub open spec fn cat_probabilistic(ts: Seq<Triggers>) -> Seq<ProbEntryV>
    decreases ts.len(),
{
    if ts.len() == 0 {
        Seq::empty()
    } else {
        cat_probabilistic(ts.drop_last()) + ts.last()@.probabilistic
    }
}

/// The scheduled entries of a sequence of trigger sets at one instant,
/// concatenated in order.
pub open spec fn cat_sched_at(ts: Seq<Triggers>, t: u64) -> Seq<SchedEntryV>
    decreases ts.len(),
{
    if ts.len() == 0 {
        Seq::empty()
    } else {
        cat_sched_at(ts.drop_last(), t) + sched_at(ts.last()@.scheduled, t)
    }
}

/// Whether any trigger set of the sequence schedules something at `t`.
pub open spec fn cat_sched_contains(ts: Seq<Triggers>, t: u64) -> bool
    decreases ts.len(),
{
    if ts.len() == 0 {
        false
    } else {
        cat_sched_contains(ts.drop_last(), t) || ts.last()@.scheduled.contains_key(t)
    }
}

/// Whether `r` is the concatenation, per instant and in ascending party
/// order, of the trigger sets `ts`, the `i`-th of which the configurator `f`
/// produced for party `lo + i`.
pub open spec fn concat_of_configs<F: Fn(usize) -> Triggers>(
    r: crate::triggers::TriggersV,
    f: F,
    lo: usize,
    hi: usize,
    ts: Seq<Triggers>,
) -> bool {
    &&& ts.len() == hi - lo
    &&& forall|i: int|
        0 <= i < ts.len() ==> call_ensures(f, (((lo + i) as usize),), #[trigger] ts[i])
    &&& r.probabilistic == cat_probabilistic(ts)
    &&& forall|t: u64| #[trigger] sched_at(r.scheduled, t) == cat_sched_at(ts, t)
    &&& forall|t: u64| #[trigger] r.scheduled.contains_key(t) <==> cat_sched_contains(ts, t)
}

/// The merged trigger sets of the parties `lo` to `hi` (exclusive), each
/// configured by `f`, appended in ascending party order.
pub fn many_parties<F: Fn(usize) -> Triggers>(lo: usize, hi: usize, f: &F) -> (r: Triggers)
    requires
        lo <= hi,
        forall|i: usize| lo <= i < hi ==> #[trigger] call_requires(*f, (i,)),
    ensures
        exists|ts: Seq<Triggers>| #[trigger] concat_of_configs(r@, *f, lo, hi, ts),
        forall|nn: int, bb: int|
            (forall|i: usize, tr: Triggers|
                lo <= i < hi && #[trigger] call_ensures(*f, (i,), tr) ==> triggers_wf(
                    tr@,
                    nn,
                    bb,
                )) ==> #[trigger] triggers_wf(r@, nn, bb),
{
    let mut triggers = Triggers::empty();
    let ghost mut ts = Seq::<Triggers>::empty();
    proof {
        assert forall|nn: int, bb: int| true implies #[trigger] triggers_wf(
            triggers@,
            nn,
            bb,
        ) by {}
        assert(triggers@.probabilistic =~= cat_probabilistic(ts));
        assert forall|t: u64| #[trigger] sched_at(triggers@.scheduled, t) == cat_sched_at(
            ts,
            t,
        ) by {
            assert(sched_at(triggers@.scheduled, t) =~= Seq::<SchedEntryV>::empty());
        }
    }
    let mut i: usize = lo;
    while i < hi
        invariant
            lo <= i <= hi,
            ts.len() == i - lo,
            forall|i2: int|
                0 <= i2 < ts.len() ==> call_ensures(*f, (((lo + i2) as usize),), #[trigger] ts[i2]),
            triggers@.probabilistic == cat_probabilistic(ts),
            forall|t: u64| #[trigger] sched_at(triggers@.scheduled, t) == cat_sched_at(ts, t),
            forall|t: u64| #[trigger] triggers@.scheduled.contains_key(t) <==> cat_sched_contains(
                ts,
                t,
            ),
            forall|i2: usize| lo <= i2 < hi ==> #[trigger] call_requires(*f, (i2,)),
            forall|nn: int, bb: int|
                (forall|i2: usize, tr: Triggers|
                    lo <= i2 < hi && #[trigger] call_ensures(*f, (i2,), tr) ==> triggers_wf(
                        tr@,
                        nn,
                        bb,
                    )) ==> #[trigger] triggers_wf(triggers@, nn, bb),
        decreases hi - i,
    {
        let mut party_triggers = f(i);
        let ghost pre = triggers@;
        let ghost part = party_triggers@;
        let ghost prets = ts;
        proof {
            ts = ts.push(party_triggers);
        }
        triggers.append(&mut party_triggers);
        proof {
            assert forall|nn: int, bb: int|
                (forall|i2: usize, tr: Triggers|
                    lo <= i2 < hi && #[trigger] call_ensures(*f, (i2,), tr) ==> triggers_wf(
                        tr@,
                        nn,
                        bb,
                    )) implies #[trigger] triggers_wf(triggers@, nn, bb) by {
                assert(triggers_wf(pre, nn, bb));
                assert(triggers_wf(part, nn, bb));
                lemma_append_wf(pre, part, triggers@, nn, bb);
            }
            assert(ts.drop_last() =~= prets);
            assert(ts.last()@ == part);
            assert(triggers@.probabilistic =~= cat_probabilistic(ts));
            assert forall|t: u64| #[trigger] sched_at(triggers@.scheduled, t) == cat_sched_at(
                ts,
                t,
            ) by {
                assert(sched_at(triggers@.scheduled, t) == sched_at(pre.scheduled, t) + sched_at(
                    part.scheduled,
                    t,
                ));
                assert(cat_sched_at(prets, t) == sched_at(pre.scheduled, t));
            }
        }
        i = i + 1;
    }
    proof {
        assert(concat_of_configs(triggers@, *f, lo, hi, ts));
    }
    triggers
}

/// Appending two well-formed trigger sets gives a well-formed trigger set,
/// given the appended schedule agrees with the parts instant by instant and
/// the probabilistic list is the parts' concatenation.
proof fn lemma_append_wf(
    a: crate::triggers::TriggersV,
    b: crate::triggers::TriggersV,
    c: crate::triggers::TriggersV,
    nn: int,
    bb: int,
)
    requires
        triggers_wf(a, nn, bb),
        triggers_wf(b, nn, bb),
        forall|t: u64| #[trigger] sched_at(c.scheduled, t) == sched_at(a.scheduled, t) + sched_at(
            b.scheduled,
            t,
        ),
        c.probabilistic == a.probabilistic + b.probabilistic,
    ensures
        triggers_wf(c, nn, bb),
{
    assert forall|t: u64| #[trigger] c.scheduled.contains_key(t) implies (forall|idx: int|
        0 <= idx < c.scheduled[t].len() ==> sched_entryv_wf(
            #[trigger] c.scheduled[t][idx],
            nn,
            bb,
        )) by {
        assert(c.scheduled[t] == sched_at(c.scheduled, t));
        assert forall|idx: int| 0 <= idx < c.scheduled[t].len() implies sched_entryv_wf(
            #[trigger] c.scheduled[t][idx],
            nn,
            bb,
        ) by {
            let alen = sched_at(a.scheduled, t).len();
            if idx < alen {
                assert(c.scheduled[t][idx] == sched_at(a.scheduled, t)[idx]);
                assert(a.scheduled.contains_key(t));
                assert(sched_entryv_wf(a.scheduled[t][idx], nn, bb));
            } else {
                assert(c.scheduled[t][idx] == sched_at(b.scheduled, t)[idx - alen]);
                assert(b.scheduled.contains_key(t));
                assert(sched_entryv_wf(b.scheduled[t][idx - alen], nn, bb));
            }
        }
    }
    assert forall|idx: int| 0 <= idx < c.probabilistic.len() implies prob_entryv_wf(
        #[trigger] c.probabilistic[idx],
        nn,
        bb,
    ) by {
        if idx < a.probabilistic.len() {
            assert(c.probabilistic[idx] == a.probabilistic[idx]);
            assert(prob_entryv_wf(a.probabilistic[idx], nn, bb));
        } else {
            assert(c.probabilistic[idx] == b.probabilistic[idx - a.probabilistic.len()]);
            assert(prob_entryv_wf(b.probabilistic[idx - a.probabilistic.len()], nn, bb));
        }
    }
}

/// The hub of a grouped party in the canonical ten-party configuration:
/// party 8 serves parties 0 to 3, party 9 serves parties 4 to 7.
pub open spec fn conf10_hub(i: int) -> usize {
    if i < 4 {
        8
    } else {
        9
    }
}

/// The awake entries of grouped party `i` in the canonical configuration:
/// post once per hour, sync the group's hub once per three hours.
pub open spec fn conf10_awake(i: usize) -> Seq<ProbEntryV> {
    seq![
        (i, Probability((PER_MINUTE / HOUR) as u64), EventV::Post),
        (
            i,
            Probability((PER_MINUTE as int / (3 * (HOUR as int))) as u64),
            EventV::Sync(conf10_hub(i as int)),
        ),
    ]
}

/// The canonical ten-party configuration: parties 0 to 3 and 4 to 7 sleep and
/// wake daily, awake for ten hours from the start of each day, posting once
/// per hour and syncing once per three hours with their group's hub (party 8
/// for the first group, party 9 for the second); the two hubs sync with each
/// other about once a day.
pub fn trigger_conf_10() -> (r: Triggers)
    ensures
        forall|bb: int| DAY <= bb ==> #[trigger] triggers_wf(r@, 10, bb),
        forall|t: u64|
            #[trigger] r@.scheduled.contains_key(t) ==> (t == 0 || t == (10 * HOUR) as u64),
        r@.scheduled.contains_key(0u64),
        r@.scheduled.contains_key((10 * HOUR) as u64),
        sched_at(r@.scheduled, 0) == Seq::new(
            8,
            |q: int| wake_entry(q as usize, conf10_awake(q as usize)),
        ),
        sched_at(r@.scheduled, (10 * HOUR) as u64) == Seq::new(
            8,
            |q: int| sleep_entry(q as usize, conf10_awake(q as usize)),
        ),
        r@.probabilistic == seq![
            (8usize, Probability((PER_MINUTE / DAY) as u64), EventV::Sync(9)),
            (9usize, Probability((PER_MINUTE / DAY) as u64), EventV::Sync(8)),
        ],
{
    let prob_hourly = Probability::from_frequency(Frequency::from_period(SimDuration(HOUR)));
    let prob_every_three_hours = Probability::from_frequency(
        Frequency::from_period(SimDuration(3 * HOUR)),
    );
    let prob_daily = Probability::from_frequency(Frequency::from_period(SimDuration(DAY)));

    let mut initial_triggers = Triggers::empty();
    proof {
        assert(sched_at(initial_triggers@.scheduled, 0) =~= Seq::new(
            0,
            |q: int| wake_entry(q as usize, conf10_awake(q as usize)),
        ));
        assert(sched_at(initial_triggers@.scheduled, (10 * HOUR) as u64) =~= Seq::new(
            0,
            |q: int| sleep_entry(q as usize, conf10_awake(q as usize)),
        ));
    }
    let mut i: usize = 0;
    while i < 8
        invariant
            i <= 8,
            prob_hourly == Probability((PER_MINUTE / HOUR) as u64),
            prob_every_three_hours == Probability(
                (PER_MINUTE as int / (3 * (HOUR as int))) as u64,
            ),
            forall|bb: int| DAY <= bb ==> #[trigger] triggers_wf(initial_triggers@, 10, bb),
            initial_triggers@.probabilistic == Seq::<ProbEntryV>::empty(),
            forall|t: u64|
                #[trigger] initial_triggers@.scheduled.contains_key(t) ==> (t == 0 || t == (10
                    * HOUR) as u64),
            i > 0 ==> initial_triggers@.scheduled.contains_key(0u64),
            i > 0 ==> initial_triggers@.scheduled.contains_key((10 * HOUR) as u64),
            sched_at(initial_triggers@.scheduled, 0) == Seq::new(
                i as nat,
                |q: int| wake_entry(q as usize, conf10_awake(q as usize)),
            ),
            sched_at(initial_triggers@.scheduled, (10 * HOUR) as u64) == Seq::new(
                i as nat,
                |q: int| sleep_entry(q as usize, conf10_awake(q as usize)),
            ),
        decreases 8 - i,
    {
        let hub: usize = if i < 4 {
            8
        } else {
            9
        };
        let mut awake: Vec<(Probability, Event)> = Vec::new();
        awake.push((prob_hourly, Event::Post));
        awake.push((prob_every_three_hours, Event::Sync(hub)));
        let ghost awakeseq = awake@;
        let mut party_triggers = sleep_schedule(
            i,
            SimDuration::zero(),
            SimDuration(10 * HOUR),
            awake,
        );
        let ghost pre = initial_triggers@;
        let ghost part = party_triggers@;
        proof {
            assert(tagged_entries(i, awakeseq) =~= conf10_awake(i)) by {
                assert(awakeseq[0] == (prob_hourly, Event::Post));
                assert(prob_hourly == Probability((PER_MINUTE / HOUR) as u64));
                assert(prob_every_three_hours == Probability((PER_MINUTE as int / (3 * (HOUR as int))) as u64));
                assert(hub == conf10_hub(i as int));
            }
            let aw = conf10_awake(i);
            let m1 = Map::<u64, Seq<SchedEntryV>>::empty().insert(0u64, seq![wake_entry(i, aw)]);
            assert(part.scheduled == m1.insert(
                (10 * HOUR) as u64,
                sched_at(m1, (10 * HOUR) as u64).push(sleep_entry(i, aw)),
            ));
            assert(!m1.contains_key((10 * HOUR) as u64));
            assert(sched_at(m1, (10 * HOUR) as u64).push(sleep_entry(i, aw)) =~= seq![
                sleep_entry(i, aw),
            ]);
            assert(sched_at(part.scheduled, 0) == seq![wake_entry(i, aw)]);
            assert(sched_at(part.scheduled, (10 * HOUR) as u64) == seq![sleep_entry(i, aw)]);
            assert(forall|t: u64|
                #[trigger] part.scheduled.contains_key(t) ==> (t == 0 || t == (10
                    * HOUR) as u64));
        }
        initial_triggers.append(&mut party_triggers);
        proof {
            assert forall|bb: int| DAY <= bb implies #[trigger] triggers_wf(
                initial_triggers@,
                10,
                bb,
            ) by {
                assert(triggers_wf(pre, 10, bb));
                assert(triggers_wf(part, 10, bb));
                lemma_append_wf(pre, part, initial_triggers@, 10, bb);
            }
            let aw = conf10_awake(i);
            assert(initial_triggers@.probabilistic =~= Seq::<ProbEntryV>::empty());
            assert(sched_at(initial_triggers@.scheduled, 0) =~= Seq::new(
                (i + 1) as nat,
                |q: int| wake_entry(q as usize, conf10_awake(q as usize)),
            )) by {
                assert(sched_at(initial_triggers@.scheduled, 0) == sched_at(pre.scheduled, 0)
                    + sched_at(part.scheduled, 0));
            }
            assert(sched_at(initial_triggers@.scheduled, (10 * HOUR) as u64) =~= Seq::new(
                (i + 1) as nat,
                |q: int| sleep_entry(q as usize, conf10_awake(q as usize)),
            )) by {
                assert(sched_at(initial_triggers@.scheduled, (10 * HOUR) as u64) == sched_at(
                    pre.scheduled,
                    (10 * HOUR) as u64,
                ) + sched_at(part.scheduled, (10 * HOUR) as u64));
            }
            assert(part.scheduled.contains_key(0u64));
            assert(part.scheduled.contains_key((10 * HOUR) as u64));
        }
        i = i + 1;
    }
    let mut hub_a: Vec<ProbEntry> = Vec::new();
    hub_a.push((8, prob_daily, Event::Sync(9)));
    let mut hub_a_triggers = probabilistic_triggers(hub_a);
    let ghost pre_a = initial_triggers@;
    let ghost part_a = hub_a_triggers@;
    initial_triggers.append(&mut hub_a_triggers);
    proof {
        assert forall|bb: int| DAY <= bb implies #[trigger] triggers_wf(
            initial_triggers@,
            10,
            bb,
        ) by {
            assert(triggers_wf(pre_a, 10, bb));
            assert(triggers_wf(part_a, 10, bb));
            lemma_append_wf(pre_a, part_a, initial_triggers@, 10, bb);
        }
        assert(prob_daily == Probability((PER_MINUTE / DAY) as u64));
        assert(part_a.probabilistic =~= seq![
            (8usize, Probability((PER_MINUTE / DAY) as u64), EventV::Sync(9usize)),
        ]);
        assert(initial_triggers@.probabilistic =~= seq![
            (8usize, Probability((PER_MINUTE / DAY) as u64), EventV::Sync(9usize)),
        ]);
        assert forall|t: u64| #[trigger] sched_at(initial_triggers@.scheduled, t) == sched_at(
            pre_a.scheduled,
            t,
        ) by {
            assert(sched_at(initial_triggers@.scheduled, t) =~= sched_at(pre_a.scheduled, t)
                + sched_at(part_a.scheduled, t));
            assert(sched_at(part_a.scheduled, t) =~= Seq::<SchedEntryV>::empty());
            assert(sched_at(pre_a.scheduled, t) + Seq::<SchedEntryV>::empty() =~= sched_at(
                pre_a.scheduled,
                t,
            ));
        }
    }
    let mut hub_b: Vec<ProbEntry> = Vec::new();
    hub_b.push((9, prob_daily, Event::Sync(8)));
    let mut hub_b_triggers = probabilistic_triggers(hub_b);
    let ghost pre_b = initial_triggers@;
    let ghost part_b = hub_b_triggers@;
    initial_triggers.append(&mut hub_b_triggers);
    proof {
        assert forall|bb: int| DAY <= bb implies #[trigger] triggers_wf(
            initial_triggers@,
            10,
            bb,
        ) by {
            assert(triggers_wf(pre_b, 10, bb));
            assert(triggers_wf(part_b, 10, bb));
            lemma_append_wf(pre_b, part_b, initial_triggers@, 10, bb);
        }
        assert(part_b.probabilistic =~= seq![
            (9usize, Probability((PER_MINUTE / DAY) as u64), EventV::Sync(8usize)),
        ]);
        assert(initial_triggers@.probabilistic =~= seq![
            (8usize, Probability((PER_MINUTE / DAY) as u64), EventV::Sync(9usize)),
            (9usize, Probability((PER_MINUTE / DAY) as u64), EventV::Sync(8usize)),
        ]);
        assert forall|t: u64| #[trigger] sched_at(initial_triggers@.scheduled, t) == sched_at(
            pre_b.scheduled,
            t,
        ) by {
            assert(sched_at(initial_triggers@.scheduled, t) =~= sched_at(pre_b.scheduled, t)
                + sched_at(part_b.scheduled, t));
            assert(sched_at(part_b.scheduled, t) =~= Seq::<SchedEntryV>::empty());
            assert(sched_at(pre_b.scheduled, t) + Seq::<SchedEntryV>::empty() =~= sched_at(
                pre_b.scheduled,
                t,
            ));
        }
    }
    initial_triggers
}

} // verus!
