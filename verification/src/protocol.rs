//! The synchronization protocol boundary, and the library's own baseline
//! protocol.
//!
//! The simulator is abstract over the reconciliation protocol: a sync is any
//! function from two parties to the objects each side learned plus per-side
//! accounting, constrained by `sync_outcome_ok`. The baseline here is a
//! three-message full exchange: the initiator offers its whole item set, the
//! responder answers with the items it wants and the objects the initiator
//! lacks, and the initiator provides the wanted objects.

use vstd::prelude::*;

use crate::objects::SimObject;
use crate::party::{learned_ok, PartyState};
use crate::stats::RunStats;

verus! {

/// What one synchronization produced: the objects each side learned, and each
/// side's accounting.
pub struct SyncOutcome {
    /// Objects the initiator did not have and now learns.
    pub learned_initiator: Vec<SimObject>,
    /// Objects the responder did not have and now learns.
    pub learned_responder: Vec<SimObject>,
    /// The initiator's accounting.
    pub initiator_stats: RunStats,
    /// The responder's accounting.
    pub responder_stats: RunStats,
}

/// A fatal protocol failure: the whole simulation run is invalid.
#[derive(Debug, Clone, Copy, PartialEq, Eq, Structural)]
pub struct SyncError;

/// What every synchronization must satisfy, whatever protocol ran it: each
/// side learns exactly the objects of the other side's store missing from its
/// own, each side's `items_known` is the size of its store when the sync
/// began, and each side sent at least one message.
pub open spec fn sync_outcome_ok(
    a: Map<u128, SimObject>,
    b: Map<u128, SimObject>,
    out: SyncOutcome,
) -> bool {
    &&& learned_ok(b, a, out.learned_initiator@)
    &&& learned_ok(a, b, out.learned_responder@)
    &&& out.initiator_stats.items_known == a.dom().len()
    &&& out.responder_stats.items_known == b.dom().len()
    &&& out.initiator_stats.msgs_sent >= 1
    &&& out.responder_stats.msgs_sent >= 1
}

/// Runs the baseline full exchange between two parties and accounts it as a
/// three-message run: the initiator sends its whole item set and later the
/// objects the responder wants; the responder sends one message carrying its
/// wants and the objects the initiator lacks.
pub fn run_full_exchange(initiator: &PartyState, responder: &PartyState) -> (out: SyncOutcome)
    ensures
        sync_outcome_ok(initiator.store(), responder.store(), out),
        out.initiator_stats == (RunStats {
            msgs_sent: 2,
            item_sets_sent: 1,
            fingerprints_sent: 0,
            items_sent: initiator.store().dom().len() as usize,
            items_wanted: 0,
            objects_sent: out.learned_responder@.len() as usize,
            items_known: initiator.store().dom().len() as usize,
        }),
        out.responder_stats == (RunStats {
            msgs_sent: 1,
            item_sets_sent: 0,
            fingerprints_sent: 0,
            items_sent: 0,
            items_wanted: out.learned_responder@.len() as usize,
            objects_sent: out.learned_initiator@.len() as usize,
            items_known: responder.store().dom().len() as usize,
        }),
{
    let learned_initiator = crate::party::diff_missing(responder, initiator);
    let learned_responder = crate::party::diff_missing(initiator, responder);
    let na = initiator.objects_len();
    let nb = responder.objects_len();
    let initiator_stats = RunStats {
        msgs_sent: 2,
        item_sets_sent: 1,
        fingerprints_sent: 0,
        items_sent: na,
        items_wanted: 0,
        objects_sent: learned_responder.len(),
        items_known: na,
    };
    let responder_stats = RunStats {
        msgs_sent: 1,
        item_sets_sent: 0,
        fingerprints_sent: 0,
        items_sent: 0,
        items_wanted: learned_responder.len(),
        objects_sent: learned_initiator.len(),
        items_known: nb,
    };
    SyncOutcome { learned_initiator, learned_responder, initiator_stats, responder_stats }
}

/// The baseline protocol in the shape the simulator consumes: it never fails.
pub fn full_exchange_protocol(initiator: &PartyState, responder: &PartyState) -> (r: Result<
    SyncOutcome,
    SyncError,
>)
    ensures
        r matches Ok(out) && sync_outcome_ok(initiator.store(), responder.store(), out),
{
    Ok(run_full_exchange(initiator, responder))
}

/// The store after learning a list of objects, one insert per object in list
/// order.
pub open spec fn applied(m: Map<u128, SimObject>, l: Seq<SimObject>) -> Map<u128, SimObject>
    decreases l.len(),
{
    if l.len() == 0 {
        m
    } else {
        applied(m, l.drop_last()).insert(crate::party::obj_key(l.last()), l.last())
    }
}

/// Membership in an applied store: a key is present when it was present
/// before or some learned object carries it, and present values come from the
/// old store or the list.
pub proof fn lemma_applied_membership(m: Map<u128, SimObject>, l: Seq<SimObject>, k: u128)
    ensures
        applied(m, l).contains_key(k) <==> (m.contains_key(k) || exists|i: int|
            0 <= i < l.len() && crate::party::obj_key(#[trigger] l[i]) == k),
        applied(m, l).contains_key(k) && !m.contains_key(k) ==> exists|i: int|
            0 <= i < l.len() && crate::party::obj_key(#[trigger] l[i]) == k && applied(m, l)[k]
                == l[i],
        m.contains_key(k) && (forall|i: int|
            0 <= i < l.len() ==> crate::party::obj_key(#[trigger] l[i]) != k) ==> applied(m, l)[k]
            == m[k],
        l.contains(m[k]) && crate::party::obj_key(m[k]) == k ==> (applied(m, l).contains_key(k)
            && (applied(m, l)[k] == m[k] || exists|i: int|
            0 <= i < l.len() && crate::party::obj_key(#[trigger] l[i]) == k && l[i] != m[k])),
    decreases l.len(),
{
    if l.len() > 0 {
        lemma_applied_membership(m, l.drop_last(), k);
        let l2 = l.drop_last();
        assert(forall|i: int| 0 <= i < l2.len() ==> #[trigger] l2[i] == l[i]);
        if exists|i: int| 0 <= i < l.len() && crate::party::obj_key(#[trigger] l[i]) == k {
            let i = choose|i: int| 0 <= i < l.len() && crate::party::obj_key(#[trigger] l[i]) == k;
            if i < l.len() - 1 {
                assert(crate::party::obj_key(l2[i]) == k);
            }
        }
        if exists|i: int| 0 <= i < l2.len() && crate::party::obj_key(#[trigger] l2[i]) == k {
            let i = choose|i: int|
                0 <= i < l2.len() && crate::party::obj_key(#[trigger] l2[i]) == k;
            assert(crate::party::obj_key(l[i]) == k);
        }
        if crate::party::obj_key(l.last()) == k {
            assert(crate::party::obj_key(l[l.len() - 1]) == k);
        }
        if l.contains(m[k]) && crate::party::obj_key(m[k]) == k {
            let i = choose|i: int| 0 <= i < l.len() && l[i] == m[k];
            if i < l.len() - 1 {
                assert(l.drop_last().contains(m[k])) by {
                    assert(l.drop_last()[i] == m[k]);
                }
            }
        }
    }
}

/// Eventual consistency of one sync: if the learned lists are faithful (each
/// side learns exactly what it lacks, with values drawn from the other side's
/// store), then after both sides apply what they learned, the two stores
/// agree on every key of the union of the stores before the sync.
pub proof fn lemma_sync_converges(
    a: Map<u128, SimObject>,
    b: Map<u128, SimObject>,
    li: Seq<SimObject>,
    lr: Seq<SimObject>,
    k: u128,
)
    requires
        learned_ok(b, a, li),
        learned_ok(a, b, lr),
        crate::party::store_keyed(a),
        crate::party::store_keyed(b),
        a.contains_key(k) || b.contains_key(k),
        a.contains_key(k) && b.contains_key(k) ==> a[k] == b[k],
    ensures
        applied(a, li).contains_key(k),
        applied(b, lr).contains_key(k),
        applied(a, li)[k] == applied(b, lr)[k],
{
    lemma_applied_membership(a, li, k);
    lemma_applied_membership(b, lr, k);
    if a.contains_key(k) && b.contains_key(k) {
        assert(forall|i: int| 0 <= i < li.len() ==> crate::party::obj_key(#[trigger] li[i]) != k);
        assert(forall|i: int| 0 <= i < lr.len() ==> crate::party::obj_key(#[trigger] lr[i]) != k);
    } else if a.contains_key(k) {
        // The responder learns a's object under k.
        assert(forall|i: int| 0 <= i < li.len() ==> crate::party::obj_key(#[trigger] li[i]) != k);
        assert(applied(a, li)[k] == a[k]);
        assert(lr.contains(a[k]));
        assert(applied(b, lr).contains_key(k)) by {
            let i = choose|i: int| 0 <= i < lr.len() && lr[i] == a[k];
            assert(crate::party::obj_key(lr[i]) == k);
        }
        assert(applied(b, lr)[k] == a[k]) by {
            if !b.contains_key(k) {
                let i = choose|i: int|
                    0 <= i < lr.len() && crate::party::obj_key(#[trigger] lr[i]) == k && applied(
                        b,
                        lr,
                    )[k] == lr[i];
                assert(a[crate::party::obj_key(lr[i])] == lr[i]);
            }
        }
    } else {
        assert(forall|i: int| 0 <= i < lr.len() ==> crate::party::obj_key(#[trigger] lr[i]) != k);
        assert(applied(b, lr)[k] == b[k]);
        assert(li.contains(b[k]));
        assert(applied(a, li).contains_key(k)) by {
            let i = choose|i: int| 0 <= i < li.len() && li[i] == b[k];
            assert(crate::party::obj_key(li[i]) == k);
        }
        assert(applied(a, li)[k] == b[k]) by {
            if !a.contains_key(k) {
                let i = choose|i: int|
                    0 <= i < li.len() && crate::party::obj_key(#[trigger] li[i]) == k && applied(
                        a,
                        li,
                    )[k] == li[i];
                assert(b[crate::party::obj_key(li[i])] == li[i]);
            }
        }
    }
}

} // verus!
