//! End-to-end scenarios of the simulator with the baseline protocol.

use unionize_testbench::events::Event;
use unionize_testbench::experiments::{probabilistic_triggers, sleep_schedule, trigger_conf_10};
use unionize_testbench::protocol::full_exchange_protocol;
use unionize_testbench::rng::SimRng;
use unionize_testbench::sim::{sim, TraceEntry};
use unionize_testbench::time::{Probability, SimDuration, DAY, HOUR, PROB_ONE};
use unionize_testbench::triggers::{ScheduleMap, Triggers};

#[test]
fn two_party_trivial_sync() {
    // At minute zero party 0 posts one object; one minute later it syncs with
    // party 1. One Posted row, one Sync row, and the one object travels.
    let mut scheduled = ScheduleMap::new();
    scheduled.push_at(0, (0, Event::Post));
    scheduled.push_at(1, (0, Event::Sync(1)));
    let triggers = Triggers::new(scheduled, Vec::new());
    let mut rng = SimRng::from_seed([0u8; 32]);
    let trace = sim(&mut rng, 2, triggers, SimDuration(2), &full_exchange_protocol).unwrap();
    let rows = trace.entries();
    assert_eq!(rows.len(), 2);
    match &rows[0].1 {
        TraceEntry::Posted(obj) => {
            assert_eq!(obj.author, 0);
            assert_eq!(obj.post_id, 0);
            assert_eq!(obj.timestamp.0, 0);
        },
        other => panic!("expected a Posted row, got {other:?}"),
    }
    match &rows[1].1 {
        TraceEntry::Sync(partner, init, resp) => {
            assert_eq!(*partner, 1);
            assert_eq!(init.items_known, 1);
            assert_eq!(resp.items_known, 0);
            assert!(init.msgs_sent >= 1);
            assert!(resp.msgs_sent >= 1);
            // The initiator provides its one object; nothing comes back.
            assert_eq!(init.objects_sent + resp.objects_sent, 1);
            assert_eq!(init.objects_sent, 1);
        },
        other => panic!("expected a Sync row, got {other:?}"),
    }
    assert_eq!(rows[0].0.time.0, 0);
    assert_eq!(rows[1].0.time.0, 1);
    assert_eq!(rows[0].0.event, "Post");
    assert_eq!(rows[1].0.event, "Sync(1)");
}

#[test]
fn drop_probabilities_semantics() {
    // Two always-firing probabilistic posters; at minute 2 the first one is
    // dropped and must never fire again.
    let always = Probability(PROB_ONE);
    let a = (0usize, always, Event::Post);
    let b = (1usize, always, Event::Post);
    let mut scheduled = ScheduleMap::new();
    scheduled.push_at(
        2,
        (0, Event::drop_probabilities(vec![(0usize, always, Event::Post)])),
    );
    let triggers = Triggers::new(scheduled, vec![a, b]);
    let mut rng = SimRng::from_seed([0u8; 32]);
    let trace = sim(&mut rng, 2, triggers, SimDuration(4), &full_exchange_protocol).unwrap();
    let rows = trace.entries();
    // t=0: A, B; t=1: A, B; t=2: drop, then only B; t=3: B.
    assert_eq!(rows.len(), 7);
    match rows[4].1 {
        TraceEntry::DropProbabilities(before, after) => {
            assert_eq!(before, 2);
            assert_eq!(after, 1);
        },
        ref other => panic!("expected a DropProbabilities row, got {other:?}"),
    }
    for row in rows.iter() {
        if row.0.time.0 >= 2 {
            // Party 0's probabilistic Post never fires from minute 2 on.
            if let TraceEntry::Posted(obj) = &row.1 {
                assert_eq!(obj.author, 1);
            }
        }
    }
}

#[test]
fn repeat_posts_once_per_hour() {
    // Repeat(HOUR, Post) fires at the minute the repeat event fires, then one
    // period later, for five posts over five hours.
    let mut scheduled = ScheduleMap::new();
    scheduled.push_at(0, (0, Event::repeat(SimDuration(HOUR), Event::Post)));
    let triggers = Triggers::new(scheduled, Vec::new());
    let mut rng = SimRng::from_seed([0u8; 32]);
    let trace = sim(&mut rng, 1, triggers, SimDuration(5 * HOUR), &full_exchange_protocol)
        .unwrap();
    let rows = trace.entries();
    let times: Vec<u64> = rows
        .iter()
        .filter(|r| matches!(r.1, TraceEntry::Posted(_)))
        .map(|r| r.0.time.0)
        .collect();
    assert_eq!(times, vec![0, 60, 120, 180, 240]);
    assert_eq!(rows.len(), 5);
    assert_eq!(rows[0].0.event, "Repeat(60, Post)");
}

#[test]
fn sleep_wake_windows() {
    // One party, awake ten hours a day from the start of each day, posting
    // every awake minute: posts land only inside the awake windows.
    let always = Probability(PROB_ONE);
    let triggers = sleep_schedule(
        0,
        SimDuration(0),
        SimDuration(10 * HOUR),
        vec![(always, Event::Post)],
    );
    let mut rng = SimRng::from_seed([0u8; 32]);
    let trace = sim(&mut rng, 1, triggers, SimDuration(2 * DAY), &full_exchange_protocol)
        .unwrap();
    let mut posted = 0u64;
    for row in trace.entries().iter() {
        if let TraceEntry::Posted(_) = row.1 {
            let t = row.0.time.0;
            let in_first = t < 10 * HOUR;
            let in_second = t >= DAY && t < DAY + 10 * HOUR;
            assert!(
                in_first || in_second,
                "post outside the awake windows at minute {t}"
            );
            posted += 1;
        }
    }
    // Awake entries are added at minute 0 and evaluated from that same
    // minute on; each awake window contributes one post per minute.
    assert_eq!(posted, 2 * 10 * HOUR);
}

#[test]
fn canonical_config_deterministic() {
    // The canonical ten-party configuration, run twice from the same seed,
    // produces identical traces row by row.
    let seed = [0u8; 32];
    let mut rng1 = SimRng::from_seed(seed);
    let trace1 = sim(
        &mut rng1,
        10,
        trigger_conf_10(),
        SimDuration(3 * DAY),
        &full_exchange_protocol,
    )
    .unwrap();
    let mut rng2 = SimRng::from_seed(seed);
    let trace2 = sim(
        &mut rng2,
        10,
        trigger_conf_10(),
        SimDuration(3 * DAY),
        &full_exchange_protocol,
    )
    .unwrap();
    let rows1 = trace1.entries();
    let rows2 = trace2.entries();
    assert_eq!(rows1.len(), rows2.len());
    for (r1, r2) in rows1.iter().zip(rows2.iter()) {
        assert_eq!(r1, r2);
    }
}

#[test]
fn trace_is_ordered_and_post_ids_contiguous() {
    // Post-id uniqueness and trace ordering over a probabilistic run.
    let always = Probability(PROB_ONE);
    let triggers = probabilistic_triggers(vec![
        (0usize, always, Event::Post),
        (1usize, always, Event::Post),
    ]);
    let mut rng = SimRng::from_seed([7u8; 32]);
    let trace = sim(&mut rng, 2, triggers, SimDuration(10), &full_exchange_protocol).unwrap();
    let rows = trace.entries();
    let mut last_time = 0u64;
    let mut next_id = 0usize;
    for row in rows.iter() {
        assert!(row.0.time.0 >= last_time);
        last_time = row.0.time.0;
        if let TraceEntry::Posted(obj) = &row.1 {
            assert_eq!(obj.post_id, next_id);
            next_id += 1;
        }
    }
    assert_eq!(next_id, 20);
}
