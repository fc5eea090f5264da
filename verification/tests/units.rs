//! Unit checks of the time, probability, object, stats and event layers.

use unionize_testbench::events::{events_equal, Event, ProbabilisticEventFilterFn};
use unionize_testbench::objects::SimObject;
use unionize_testbench::party::{compute_obj_key, diff_missing, PartyState};
use unionize_testbench::protocol::run_full_exchange;
use unionize_testbench::rng::SimRng;
use unionize_testbench::stats::{MsgCounts, RunStats};
use unionize_testbench::record::{TraceEntryRecord, UniformSim};
use unionize_testbench::sim::TraceEntry;
use unionize_testbench::time::{
    DiceRoll, Frequency, Probability, SimDuration, SimInstant, DAY, HOUR, PER_DAY, PER_HOUR,
    PER_MINUTE, PROB_ONE, WEEK, YEAR,
};

#[test]
fn fixed_point_ladder() {
    assert_eq!(PER_MINUTE, 362_880_000);
    assert_eq!(PER_HOUR, 6_048_000);
    assert_eq!(PER_DAY, 252_000);
    assert_eq!(HOUR, 60);
    assert_eq!(DAY, 1440);
    assert_eq!(WEEK, 10080);
    assert_eq!(YEAR, 518_400);
    // One event per d minutes, times d, is one event per minute.
    for d in [1u64, 60, 180, 1440, 10080, 43200] {
        let f = Frequency::from_period(SimDuration(d));
        assert_eq!(f.0 * d, PER_MINUTE);
    }
}

#[test]
fn probability_constructors() {
    assert_eq!(Probability::from_percent(100).0, PROB_ONE);
    assert_eq!(Probability::from_percent(50).0, PROB_ONE / 2);
    assert_eq!(Probability::from_permille(1000).0, PROB_ONE);
    assert_eq!(Probability::from_permille(1).0, PROB_ONE / 1000);
    let hourly = Probability::from_frequency(Frequency::from_period(SimDuration(HOUR)));
    assert_eq!(hourly.0, PER_HOUR);
    assert!(hourly.does_fire(&DiceRoll(PER_HOUR)));
    assert!(!hourly.does_fire(&DiceRoll(PER_HOUR + 1)));
}

#[test]
fn dice_roll_quantile() {
    // The empirical firing rate of a once-per-hour probability converges to
    // one per sixty draws.
    let p = Probability::from_frequency(Frequency::from_period(SimDuration(HOUR)));
    let mut rng = SimRng::from_seed([1u8; 32]);
    let draws = 600_000u64;
    let mut fired = 0u64;
    for _ in 0..draws {
        let roll = DiceRoll::<PROB_ONE>::roll(&mut rng);
        assert!(roll.0 < PROB_ONE);
        if p.does_fire(&roll) {
            fired += 1;
        }
    }
    let expected = draws / 60;
    assert!(fired > expected * 8 / 10, "fired only {fired} of {expected}");
    assert!(fired < expected * 12 / 10, "fired {fired}, over {expected}");
}

#[test]
fn uniform_item_layout() {
    let obj = SimObject { author: 0x0102, post_id: 0x0304, timestamp: SimInstant(9) };
    let bytes = obj.to_item_bytes();
    let mut expected = [0u8; 30];
    expected[0] = 0x02;
    expected[1] = 0x01;
    expected[8] = 0x04;
    expected[9] = 0x03;
    assert_eq!(bytes, expected);
    assert_eq!(obj.to_timestamp(), SimInstant(9));
    assert_eq!(obj.author(), 0x0102);
    assert_eq!(obj.post_id(), 0x0304);
    let key = compute_obj_key(&obj);
    assert_eq!(key, (0x0102u128 << 64) | 0x0304u128);
}

#[test]
fn stats_consume_accumulates() {
    let mut stats = RunStats::new(5);
    assert_eq!(stats.items_known, 5);
    assert_eq!(stats.msgs_sent, 0);
    stats.consume(MsgCounts { item_sets: 1, fingerprints: 2, items: 3, wants: 4, provides: 5 });
    stats.consume(MsgCounts { item_sets: 0, fingerprints: 1, items: 0, wants: 0, provides: 2 });
    assert_eq!(stats.msgs_sent, 2);
    assert_eq!(stats.item_sets_sent, 1);
    assert_eq!(stats.fingerprints_sent, 3);
    assert_eq!(stats.items_sent, 3);
    assert_eq!(stats.items_wanted, 4);
    assert_eq!(stats.objects_sent, 7);
    assert_eq!(stats.items_known, 5);
}

#[test]
fn event_equality_and_filters() {
    let a = Event::repeat(SimDuration(60), Event::Post);
    let b = Event::repeat(SimDuration(60), Event::Post);
    let c = Event::repeat(SimDuration(61), Event::Post);
    assert!(events_equal(&a, &b));
    assert!(!events_equal(&a, &c));
    assert!(!events_equal(&a, &Event::Sync(3)));

    let p = Probability(7);
    let filter = ProbabilisticEventFilterFn {
        entries: vec![(2usize, p, Event::Sync(8))],
    };
    assert!(filter.filter(&(2usize, p, Event::Sync(8))));
    assert!(!filter.filter(&(2usize, p, Event::Sync(9))));
    assert!(!filter.filter(&(3usize, p, Event::Sync(8))));
    assert!(!filter.filter(&(2usize, Probability(8), Event::Sync(8))));
}

#[test]
fn party_store_and_full_exchange() {
    let mut alice = PartyState::new();
    let mut bob = PartyState::new();
    let o1 = SimObject { author: 0, post_id: 0, timestamp: SimInstant(1) };
    let o2 = SimObject { author: 0, post_id: 1, timestamp: SimInstant(2) };
    let o3 = SimObject { author: 1, post_id: 2, timestamp: SimInstant(3) };
    alice.post(o1);
    alice.post(o2);
    bob.post(o3);
    bob.post(o2);
    assert_eq!(alice.objects_len(), 2);
    assert_eq!(bob.objects_len(), 2);
    assert!(alice.contains_key(compute_obj_key(&o1)));
    assert!(!alice.contains_key(compute_obj_key(&o3)));
    assert_eq!(alice.get(compute_obj_key(&o2)), Some(&o2));
    assert!(alice.tree_contains(compute_obj_key(&o1)));

    // Alice lacks o3, bob lacks o1.
    let to_alice = diff_missing(&bob, &alice);
    let to_bob = diff_missing(&alice, &bob);
    assert_eq!(to_alice, vec![o3]);
    assert_eq!(to_bob, vec![o1]);

    let out = run_full_exchange(&alice, &bob);
    assert_eq!(out.learned_initiator, vec![o3]);
    assert_eq!(out.learned_responder, vec![o1]);
    assert_eq!(out.initiator_stats.msgs_sent, 2);
    assert_eq!(out.initiator_stats.item_sets_sent, 1);
    assert_eq!(out.initiator_stats.items_sent, 2);
    assert_eq!(out.initiator_stats.items_known, 2);
    assert_eq!(out.initiator_stats.objects_sent, 1);
    assert_eq!(out.responder_stats.msgs_sent, 1);
    assert_eq!(out.responder_stats.items_wanted, 1);
    assert_eq!(out.responder_stats.objects_sent, 1);
    assert_eq!(out.responder_stats.items_known, 2);

    // Convergence: applying what each side learned equalizes the stores.
    alice.post(o3);
    bob.post(o1);
    assert_eq!(alice.objects_len(), 3);
    assert_eq!(bob.objects_len(), 3);
}

#[test]
fn record_flattening() {
    let init = RunStats {
        msgs_sent: 3,
        item_sets_sent: 2,
        fingerprints_sent: 4,
        items_sent: 5,
        items_wanted: 1,
        objects_sent: 1,
        items_known: 7,
    };
    let resp = RunStats { msgs_sent: 2, ..init };
    let entry = TraceEntry::Sync(9, init, resp);
    let rec = TraceEntryRecord::from_entry(
        &entry,
        UniformSim::item_size(),
        UniformSim::monoid_size(),
    );
    assert_eq!(rec.kind, "Sync");
    assert_eq!(rec.sync_resp_party_id, Some(9));
    assert_eq!(rec.sync_initiator_msgs_sent, Some(3));
    assert_eq!(rec.sync_responder_msgs_sent, Some(2));
    // (2 * 30 + 60) * 4 + (2 * 30) * 2 + 30 * 5 = 480 + 120 + 150.
    assert_eq!(rec.sync_initiator_bytes_sent, Some(750));
    assert_eq!(rec.posted_object_author, None);

    let posted = TraceEntry::Posted(SimObject {
        author: 3,
        post_id: 11,
        timestamp: SimInstant(4),
    });
    let rec2 = TraceEntryRecord::from_entry(&posted, 30, 60);
    assert_eq!(rec2.kind, "Posted");
    assert_eq!(rec2.posted_object_author, Some(3));
    assert_eq!(rec2.posted_object_post_id, Some(11));
    assert_eq!(rec2.sync_initiator_bytes_sent, None);
}

#[test]
fn seeded_rolls_reproducible() {
    let mut a = SimRng::from_seed([7u8; 32]);
    let mut b = SimRng::from_seed([7u8; 32]);
    for _ in 0..64 {
        let ra = DiceRoll::<PROB_ONE>::roll(&mut a);
        let rb = DiceRoll::<PROB_ONE>::roll(&mut b);
        assert_eq!(ra.0, rb.0);
    }
}

#[test]
fn sleep_schedule_structure() {
    let p = Probability::from_frequency(Frequency::from_period(SimDuration(HOUR)));
    let triggers = unionize_testbench::experiments::sleep_schedule(
        3,
        SimDuration(5),
        SimDuration(10),
        vec![(p, Event::Post)],
    );
    assert!(triggers.probabilistic.is_empty());
    let slots = triggers.scheduled.slots();
    assert_eq!(slots.len(), 2);
    assert_eq!(slots[0].0, 5);
    assert_eq!(slots[1].0, 15);
    assert_eq!(slots[0].1.len(), 1);
    assert_eq!(slots[1].1.len(), 1);
    assert_eq!(slots[0].1[0].0, 3);
    assert_eq!(slots[1].1[0].0, 3);
    let wake_expected = Event::repeat(
        SimDuration(DAY),
        Event::AddProbabilities(vec![(3, p, Event::Post)]),
    );
    let sleep_expected = Event::repeat(
        SimDuration(DAY),
        Event::drop_probabilities(vec![(3, p, Event::Post)]),
    );
    assert!(events_equal(&slots[0].1[0].1, &wake_expected));
    assert!(events_equal(&slots[1].1[0].1, &sleep_expected));
}

#[test]
fn canonical_config_structure() {
    let triggers = unionize_testbench::experiments::trigger_conf_10();
    let slots = triggers.scheduled.slots();
    assert_eq!(slots.len(), 2);
    assert_eq!(slots[0].0, 0);
    assert_eq!(slots[1].0, 10 * HOUR);
    assert_eq!(slots[0].1.len(), 8);
    assert_eq!(slots[1].1.len(), 8);
    for (i, entry) in slots[0].1.iter().enumerate() {
        assert_eq!(entry.0, i);
    }
    assert_eq!(triggers.probabilistic.len(), 2);
    assert_eq!(triggers.probabilistic[0].0, 8);
    assert_eq!((triggers.probabilistic[0].1).0, PER_DAY);
    assert!(events_equal(&triggers.probabilistic[0].2, &Event::Sync(9)));
    assert_eq!(triggers.probabilistic[1].0, 9);
    assert!(events_equal(&triggers.probabilistic[1].2, &Event::Sync(8)));
}
