//! Per-participant accounting of one synchronization run.

use vstd::prelude::*;

verus! {

/// Byte- and message-level accounting for one side of a sync. All counters
/// start at zero except `items_known`, which records the size of the owner's
/// object store when the sync began.
#[derive(Debug, Clone, Copy, PartialEq, Eq, Structural)]
pub struct RunStats {
    /// Messages this side sent.
    pub msgs_sent: usize,
    /// Explicit item sets among them.
    pub item_sets_sent: usize,
    /// Fingerprints among them.
    pub fingerprints_sent: usize,
    /// Items inside the explicit item sets.
    pub items_sent: usize,
    /// Items this side asked the other side to provide.
    pub items_wanted: usize,
    /// Whole objects this side provided.
    pub objects_sent: usize,
    /// Objects this side held when the sync began.
    pub items_known: usize,
}

/// Addition capped at the largest representable count.
pub open spec fn sat_add(a: usize, b: usize) -> usize {
    if a + b <= usize::MAX {
        (a + b) as usize
    } else {
        usize::MAX
    }
}

/// The counts of one protocol message, as consumed into `RunStats`.
#[derive(Debug, Clone, Copy, PartialEq, Eq, Structural)]
pub struct MsgCounts {
    /// Item sets in the message.
    pub item_sets: usize,
    /// Fingerprints in the message.
    pub fingerprints: usize,
    /// Items across all the item sets.
    pub items: usize,
    /// Item ranges wanted.
    pub wants: usize,
    /// Objects provided.
    pub provides: usize,
}

/// What `RunStats` looks like after consuming one message with the given
/// counts.
pub open spec fn consumed(s: RunStats, c: MsgCounts) -> RunStats {
    RunStats {
        msgs_sent: sat_add(s.msgs_sent, 1),
        item_sets_sent: sat_add(s.item_sets_sent, c.item_sets),
        fingerprints_sent: sat_add(s.fingerprints_sent, c.fingerprints),
        items_sent: sat_add(s.items_sent, c.items),
        items_wanted: sat_add(s.items_wanted, c.wants),
        objects_sent: sat_add(s.objects_sent, c.provides),
        items_known: s.items_known,
    }
}

impl RunStats {
    /// Fresh accounting for a party that holds `items_known` objects.
    pub fn new(items_known: usize) -> (r: Self)
        ensures
            r == (RunStats {
                msgs_sent: 0,
                item_sets_sent: 0,
                fingerprints_sent: 0,
                items_sent: 0,
                items_wanted: 0,
                objects_sent: 0,
                items_known,
            }),
    {
        RunStats {
            msgs_sent: 0,
            item_sets_sent: 0,
            fingerprints_sent: 0,
            items_sent: 0,
            items_wanted: 0,
            objects_sent: 0,
            items_known,
        }
    }

    /// Accounts one sent message: one more message, plus the message's item
    /// sets, fingerprints, items, wants and provides. Counters saturate at
    /// the largest representable count.
    pub fn consume(&mut self, c: MsgCounts)
        ensures
            *final(self) == consumed(*old(self), c),
    {
        self.msgs_sent = self.msgs_sent.saturating_add(1);
        self.item_sets_sent = self.item_sets_sent.saturating_add(c.item_sets);
        self.fingerprints_sent = self.fingerprints_sent.saturating_add(c.fingerprints);
        self.items_sent = self.items_sent.saturating_add(c.items);
        self.items_wanted = self.items_wanted.saturating_add(c.wants);
        self.objects_sent = self.objects_sent.saturating_add(c.provides);
    }
}

} // verus!
