//! Flattening trace entries to the wide columnar row schema used for
//! serialization: a `kind` discriminator plus one optional column per payload
//! element, with estimated bytes sent per side of a sync.

use vstd::prelude::*;
use vstd::string::StringExecFns;

use crate::sim::TraceEntry;
use crate::stats::{sat_add, RunStats};

verus! {

/// The uniform suite: 30-byte items, and a monoid summary of about 60 bytes.
pub struct UniformSim;

impl UniformSim {
    /// The wire size of one uniform item.
    pub fn item_size() -> (r: usize)
        ensures
            r == 30,
    {
        30
    }

    /// The wire size of one encoded monoid summary.
    pub fn monoid_size() -> (r: usize)
        ensures
            r == 60,
    {
        60
    }
}

/// The timestamped suite: a minute stamp in front of each 30-byte item, and a
/// correspondingly larger monoid summary.
pub struct TimestampSim;

impl TimestampSim {
    /// The wire size of one timestamped item.
    pub fn item_size() -> (r: usize)
        ensures
            r == 38,
    {
        38
    }

    /// The wire size of one encoded monoid summary.
    pub fn monoid_size() -> (r: usize)
        ensures
            r == 68,
    {
        68
    }
}

/// Multiplication capped at the largest representable count.
pub open spec fn sat_mul(a: usize, b: usize) -> usize {
    if a * b <= usize::MAX {
        (a * b) as usize
    } else {
        usize::MAX
    }
}

/// The estimated bytes one side sent: full fingerprints cost two items plus a
/// monoid summary, item-set headers two items, and each sent item one item.
pub open spec fn spec_bytes_sent(item_size: usize, monoid_size: usize, s: RunStats) -> usize {
    sat_add(
        sat_add(
            sat_mul(sat_add(sat_mul(2, item_size), monoid_size), s.fingerprints_sent),
            sat_mul(sat_mul(2, item_size), s.item_sets_sent),
        ),
        sat_mul(item_size, s.items_sent),
    )
}

/// Multiplication capped at the largest representable count, computed.
pub fn mul_sat(a: usize, b: usize) -> (r: usize)
    ensures
        r == sat_mul(a, b),
{
    match a.checked_mul(b) {
        Some(v) => v,
        None => usize::MAX,
    }
}

/// The estimated bytes one side sent, computed.
pub fn bytes_sent(item_size: usize, monoid_size: usize, s: &RunStats) -> (r: usize)
    ensures
        r == spec_bytes_sent(item_size, monoid_size, *s),
{
    let fp_cost = mul_sat(2, item_size).saturating_add(monoid_size);
    mul_sat(fp_cost, s.fingerprints_sent).saturating_add(
        mul_sat(mul_sat(2, item_size), s.item_sets_sent),
    ).saturating_add(mul_sat(item_size, s.items_sent))
}

/// One wide row of the serialized trace: the row kind, and one optional
/// column per payload element of any kind.
#[derive(Debug, PartialEq, Eq)]
pub struct TraceEntryRecord {
    pub kind: String,
    pub posted_object_author: Option<usize>,
    pub posted_object_post_id: Option<usize>,
    pub sync_resp_party_id: Option<usize>,
    pub sync_initiator_msgs_sent: Option<usize>,
    pub sync_initiator_item_sets_sent: Option<usize>,
    pub sync_initiator_fingerprints_sent: Option<usize>,
    pub sync_initiator_items_sent: Option<usize>,
    pub sync_initiator_items_wanted: Option<usize>,
    pub sync_initiator_objects_sent: Option<usize>,
    pub sync_initiator_items_known: Option<usize>,
    pub sync_initiator_bytes_sent: Option<usize>,
    pub sync_responder_msgs_sent: Option<usize>,
    pub sync_responder_item_sets_sent: Option<usize>,
    pub sync_responder_fingerprints_sent: Option<usize>,
    pub sync_responder_items_sent: Option<usize>,
    pub sync_responder_items_wanted: Option<usize>,
    pub sync_responder_objects_sent: Option<usize>,
    pub sync_responder_items_known: Option<usize>,
    pub sync_responder_bytes_sent: Option<usize>,
    pub drop_probabilities_entries_before: Option<usize>,
    pub drop_probabilities_entries_after: Option<usize>,
    pub add_probabilities_added: Option<usize>,
    pub schedule_relative_added: Option<usize>,
}

/// The kind column of a flattened entry.
pub open spec fn kind_label(entry: TraceEntry) -> Seq<char> {
    match entry {
        TraceEntry::Posted(_) => seq!['P', 'o', 's', 't', 'e', 'd'],
        TraceEntry::Sync(_, _, _) => seq!['S', 'y', 'n', 'c'],
        TraceEntry::DropProbabilities(_, _) => seq![
            'D',
            'r',
            'o',
            'p',
            'P',
            'r',
            'o',
            'b',
            'a',
            'b',
            'i',
            'l',
            'i',
            't',
            'i',
            'e',
            's',
        ],
        TraceEntry::AddProbabilities(_) => seq![
            'A',
            'd',
            'd',
            'P',
            'r',
            'o',
            'b',
            'a',
            'b',
            'i',
            'l',
            'i',
            't',
            'i',
            'e',
            's',
        ],
        TraceEntry::ScheduleRelative(_) => seq![
            'S',
            'c',
            'h',
            'e',
            'd',
            'u',
            'l',
            'e',
            'R',
            'e',
            'l',
            'a',
            't',
            'i',
            'v',
            'e',
        ],
    }
}

/// Whether the record is exactly the flattening of the entry: the matching
/// kind, the entry's own payload columns filled, and every other column
/// empty.
pub open spec fn record_matches(
    r: TraceEntryRecord,
    entry: TraceEntry,
    item_size: usize,
    monoid_size: usize,
) -> bool {
    &&& r.kind@ == kind_label(entry)
    &&& r.posted_object_author == (match entry {
        TraceEntry::Posted(o) => Some(o.author),
        _ => None,
    })
    &&& r.posted_object_post_id == (match entry {
        TraceEntry::Posted(o) => Some(o.post_id),
        _ => None,
    })
    &&& r.sync_resp_party_id == (match entry {
        TraceEntry::Sync(p, _, _) => Some(p),
        _ => None,
    })
    &&& r.sync_initiator_msgs_sent == (match entry {
        TraceEntry::Sync(_, i, _) => Some(i.msgs_sent),
        _ => None,
    })
    &&& r.sync_initiator_item_sets_sent == (match entry {
        TraceEntry::Sync(_, i, _) => Some(i.item_sets_sent),
        _ => None,
    })
    &&& r.sync_initiator_fingerprints_sent == (match entry {
        TraceEntry::Sync(_, i, _) => Some(i.fingerprints_sent),
        _ => None,
    })
    &&& r.sync_initiator_items_sent == (match entry {
        TraceEntry::Sync(_, i, _) => Some(i.items_sent),
        _ => None,
    })
    &&& r.sync_initiator_items_wanted == (match entry {
        TraceEntry::Sync(_, i, _) => Some(i.items_wanted),
        _ => None,
    })
    &&& r.sync_initiator_objects_sent == (match entry {
        TraceEntry::Sync(_, i, _) => Some(i.objects_sent),
        _ => None,
    })
    &&& r.sync_initiator_items_known == (match entry {
        TraceEntry::Sync(_, i, _) => Some(i.items_known),
        _ => None,
    })
    &&& r.sync_initiator_bytes_sent == (match entry {
        TraceEntry::Sync(_, i, _) => Some(spec_bytes_sent(item_size, monoid_size, i)),
        _ => None,
    })
    &&& r.sync_responder_msgs_sent == (match entry {
        TraceEntry::Sync(_, _, p) => Some(p.msgs_sent),
        _ => None,
    })
    &&& r.sync_responder_item_sets_sent == (match entry {
        TraceEntry::Sync(_, _, p) => Some(p.item_sets_sent),
        _ => None,
    })
    &&& r.sync_responder_fingerprints_sent == (match entry {
        TraceEntry::Sync(_, _, p) => Some(p.fingerprints_sent),
        _ => None,
    })
    &&& r.sync_responder_items_sent == (match entry {
        TraceEntry::Sync(_, _, p) => Some(p.items_sent),
        _ => None,
    })
    &&& r.sync_responder_items_wanted == (match entry {
        TraceEntry::Sync(_, _, p) => Some(p.items_wanted),
        _ => None,
    })
    &&& r.sync_responder_objects_sent == (match entry {
        TraceEntry::Sync(_, _, p) => Some(p.objects_sent),
        _ => None,
    })
    &&& r.sync_responder_items_known == (match entry {
        TraceEntry::Sync(_, _, p) => Some(p.items_known),
        _ => None,
    })
    &&& r.sync_responder_bytes_sent == (match entry {
        TraceEntry::Sync(_, _, p) => Some(spec_bytes_sent(item_size, monoid_size, p)),
        _ => None,
    })
    &&& r.drop_probabilities_entries_before == (match entry {
        TraceEntry::DropProbabilities(b, _) => Some(b),
        _ => None,
    })
    &&& r.drop_probabilities_entries_after == (match entry {
        TraceEntry::DropProbabilities(_, a) => Some(a),
        _ => None,
    })
    &&& r.add_probabilities_added == (match entry {
        TraceEntry::AddProbabilities(n) => Some(n),
        _ => None,
    })
    &&& r.schedule_relative_added == (match entry {
        TraceEntry::ScheduleRelative(n) => Some(n),
        _ => None,
    })
}

impl TraceEntryRecord {
    /// A row with no kind and every column empty.
    pub fn empty() -> (r: TraceEntryRecord)
        ensures
            r.kind@ == Seq::<char>::empty(),
            r.posted_object_author is None,
            r.posted_object_post_id is None,
            r.sync_resp_party_id is None,
            r.sync_initiator_msgs_sent is None,
            r.sync_initiator_item_sets_sent is None,
            r.sync_initiator_fingerprints_sent is None,
            r.sync_initiator_items_sent is None,
            r.sync_initiator_items_wanted is None,
            r.sync_initiator_objects_sent is None,
            r.sync_initiator_items_known is None,
            r.sync_initiator_bytes_sent is None,
            r.sync_responder_msgs_sent is None,
            r.sync_responder_item_sets_sent is None,
            r.sync_responder_fingerprints_sent is None,
            r.sync_responder_items_sent is None,
            r.sync_responder_items_wanted is None,
            r.sync_responder_objects_sent is None,
            r.sync_responder_items_known is None,
            r.sync_responder_bytes_sent is None,
            r.drop_probabilities_entries_before is None,
            r.drop_probabilities_entries_after is None,
            r.add_probabilities_added is None,
            r.schedule_relative_added is None,
    {
        TraceEntryRecord {
            kind: String::new(),
            posted_object_author: None,
            posted_object_post_id: None,
            sync_resp_party_id: None,
            sync_initiator_msgs_sent: None,
            sync_initiator_item_sets_sent: None,
            sync_initiator_fingerprints_sent: None,
            sync_initiator_items_sent: None,
            sync_initiator_items_wanted: None,
            sync_initiator_objects_sent: None,
            sync_initiator_items_known: None,
            sync_initiator_bytes_sent: None,
            sync_responder_msgs_sent: None,
            sync_responder_item_sets_sent: None,
            sync_responder_fingerprints_sent: None,
            sync_responder_items_sent: None,
            sync_responder_items_wanted: None,
            sync_responder_objects_sent: None,
            sync_responder_items_known: None,
            sync_responder_bytes_sent: None,
            drop_probabilities_entries_before: None,
            drop_probabilities_entries_after: None,
            add_probabilities_added: None,
            schedule_relative_added: None,
        }
    }

    /// Flattens one trace entry with the given schema constants: both sides
    /// of a sync are estimated with the same formula.
    pub fn from_entry(entry: &TraceEntry, item_size: usize, monoid_size: usize) -> (r:
        TraceEntryRecord)
        ensures
            record_matches(r, *entry, item_size, monoid_size),
    {
        let mut r = TraceEntryRecord::empty();
        match entry {
            TraceEntry::Posted(obj) => {
                r.kind = String::from_str("Posted");
                proof {
                    reveal_strlit("Posted");
                    assert(r.kind@ =~= kind_label(*entry));
                }
                r.posted_object_post_id = Some(obj.post_id);
                r.posted_object_author = Some(obj.author);
            },
            TraceEntry::Sync(resp_party_id, init, resp) => {
                r.kind = String::from_str("Sync");
                proof {
                    reveal_strlit("Sync");
                    assert(r.kind@ =~= kind_label(*entry));
                }
                r.sync_resp_party_id = Some(*resp_party_id);
                r.sync_initiator_msgs_sent = Some(init.msgs_sent);
                r.sync_initiator_item_sets_sent = Some(init.item_sets_sent);
                r.sync_initiator_fingerprints_sent = Some(init.fingerprints_sent);
                r.sync_initiator_items_sent = Some(init.items_sent);
                r.sync_initiator_items_wanted = Some(init.items_wanted);
                r.sync_initiator_objects_sent = Some(init.objects_sent);
                r.sync_initiator_items_known = Some(init.items_known);
                r.sync_initiator_bytes_sent = Some(bytes_sent(item_size, monoid_size, init));
                r.sync_responder_msgs_sent = Some(resp.msgs_sent);
                r.sync_responder_item_sets_sent = Some(resp.item_sets_sent);
                r.sync_responder_fingerprints_sent = Some(resp.fingerprints_sent);
                r.sync_responder_items_sent = Some(resp.items_sent);
                r.sync_responder_items_wanted = Some(resp.items_wanted);
                r.sync_responder_objects_sent = Some(resp.objects_sent);
                r.sync_responder_items_known = Some(resp.items_known);
                r.sync_responder_bytes_sent = Some(bytes_sent(item_size, monoid_size, resp));
            },
            TraceEntry::DropProbabilities(before, after) => {
                r.kind = String::from_str("DropProbabilities");
                proof {
                    reveal_strlit("DropProbabilities");
                    assert(r.kind@ =~= kind_label(*entry));
                }
                r.drop_probabilities_entries_before = Some(*before);
                r.drop_probabilities_entries_after = Some(*after);
            },
            TraceEntry::AddProbabilities(added) => {
                r.kind = String::from_str("AddProbabilities");
                proof {
                    reveal_strlit("AddProbabilities");
                    assert(r.kind@ =~= kind_label(*entry));
                }
                r.add_probabilities_added = Some(*added);
            },
            TraceEntry::ScheduleRelative(added) => {
                r.kind = String::from_str("ScheduleRelative");
                proof {
                    reveal_strlit("ScheduleRelative");
                    assert(r.kind@ =~= kind_label(*entry));
                }
                r.schedule_relative_added = Some(*added);
            },
        }
        r
    }
}

} // verus!
