//! Conflict detection and resolution.
//!
//! A conflict record moves from pending to resolved exactly once and is
//! deleted only by retention cleanup after resolution. The resolver owns the
//! full record list (the model of the persisted store) plus an in-memory
//! pending index that is rebuildable from the records at any time. Every
//! state change is pinned down through `record_lookup` over the records and
//! the index.

use vstd::prelude::*;
use crate::clock::{now_rfc3339, now_millis, parse_rfc3339_millis, rfc3339_millis};
use crate::crypto::new_uuid;
use crate::error::Error;
use crate::models::{
    ClipboardPayload, ConflictResolution, ConflictResolutionStrategy, ConflictStatus,
    ConflictType, PayloadView, SyncConflict, str_eq, opt_i32_eq,
};

verus! {

// ==================== detection ====================

/// Whether two snapshots' contents disagree: differing kinds always
/// conflict; images additionally compare their dimensions; every other kind
/// compares the raw value.
pub open spec fn content_conflict(l: PayloadView, r: PayloadView) -> bool {
    if l.kind != r.kind {
        true
    } else if l.kind == "image"@ {
        l.value != r.value || l.width != r.width || l.height != r.height
    } else {
        l.value != r.value
    }
}

/// Whether two snapshots conflict. The near-simultaneity check on their
/// timestamps is advisory: both the near-simultaneous path and the fallback
/// path compare contents, so detection reduces to the content comparison.
pub open spec fn has_conflict_spec(l: PayloadView, r: PayloadView) -> bool {
    content_conflict(l, r)
}

/// How a detected conflict is classified, in priority order: differing kinds
/// outrank differing values, which outrank metadata drift.
pub open spec fn classify(l: PayloadView, r: PayloadView) -> ConflictType {
    if l.kind != r.kind {
        ConflictType::TypeMismatch
    } else if l.value != r.value {
        ConflictType::ContentMismatch
    } else {
        ConflictType::MetadataMismatch
    }
}

/// Detection is symmetric: swapping the two snapshots changes neither
/// whether a conflict is seen nor how it is classified.
pub proof fn lemma_detection_symmetric(l: PayloadView, r: PayloadView)
    ensures
        has_conflict_spec(l, r) == has_conflict_spec(r, l),
        classify(l, r) == classify(r, l),
{
}

/// What `UseLatest` resolution returns: the snapshot with the strictly newer
/// timestamp, ties and unordered pairs favoring the remote one; nothing if
/// either timestamp fails to parse.
pub open spec fn use_latest_spec(l: PayloadView, r: PayloadView) -> Option<PayloadView> {
    match (rfc3339_millis(l.timestamp), rfc3339_millis(r.timestamp)) {
        (Some(lt), Some(rt)) => if lt > rt {
            Some(l)
        } else {
            Some(r)
        },
        _ => None,
    }
}

/// Whether a pair of snapshots can be merged: both must be text.
pub open spec fn mergeable(l: PayloadView, r: PayloadView) -> bool {
    l.kind == "text"@ && r.kind == "text"@
}

// ==================== the record store ====================

/// The first record with this conflict id, if any.
pub open spec fn record_lookup(records: Seq<SyncConflict>, id: Seq<char>) -> Option<
    crate::models::ConflictView,
>
    decreases records.len(),
{
    if records.len() == 0 {
        None
    } else if records[0].conflict_id@ == id {
        Some(records[0]@)
    } else {
        record_lookup(records.skip(1), id)
    }
}

/// Whether conflict ids are pairwise distinct.
pub open spec fn unique_ids(records: Seq<SyncConflict>) -> bool {
    forall|i: int, j: int|
        0 <= i < j < records.len() ==> (#[trigger] records[i]).conflict_id@ != (
        #[trigger] records[j]).conflict_id@
}

/// The records with the given status, in order.
pub open spec fn with_status(records: Seq<SyncConflict>, st: ConflictStatus) -> Seq<SyncConflict>
    decreases records.len(),
{
    if records.len() == 0 {
        Seq::empty()
    } else if records[0].status == st {
        seq![records[0]] + with_status(records.skip(1), st)
    } else {
        with_status(records.skip(1), st)
    }
}

/// Whether retention cleanup keeps a record: everything but resolved records
/// whose detection instant parses and lies strictly before the cutoff.
pub open spec fn kept_after_cleanup(c: crate::models::ConflictView, cutoff: int) -> bool {
    !(c.status == ConflictStatus::Resolved && match rfc3339_millis(c.detected_at) {
        Some(t) => t < cutoff,
        None => false,
    })
}

/// The records surviving retention cleanup at `cutoff`, in order.
pub open spec fn cleanup_filter(records: Seq<SyncConflict>, cutoff: int) -> Seq<SyncConflict>
    decreases records.len(),
{
    if records.len() == 0 {
        Seq::empty()
    } else if kept_after_cleanup(records[0]@, cutoff) {
        seq![records[0]] + cleanup_filter(records.skip(1), cutoff)
    } else {
        cleanup_filter(records.skip(1), cutoff)
    }
}

// ==================== store lemmas ====================

/// A record whose id no earlier record shares is what lookup by its id finds.
pub proof fn lemma_lookup_member(records: Seq<SyncConflict>, i: int)
    requires
        0 <= i < records.len(),
        forall|j: int| 0 <= j < i ==> (#[trigger] records[j]).conflict_id@ != records[i].conflict_id@,
    ensures
        record_lookup(records, records[i].conflict_id@) == Some(records[i]@),
    decreases i,
{
    if i > 0 {
        assert(records.skip(1)[i - 1] == records[i]);
        assert(forall|j: int|
            0 <= j < i - 1 ==> (#[trigger] records.skip(1)[j]).conflict_id@ != records.skip(
                1,
            )[i - 1].conflict_id@);
        lemma_lookup_member(records.skip(1), i - 1);
    }
}

/// Replacing the record at `i` with one carrying the same id changes lookup
/// only for that id, provided no earlier record shadows it.
pub proof fn lemma_lookup_update(records: Seq<SyncConflict>, i: int, e: SyncConflict)
    requires
        0 <= i < records.len(),
        forall|j: int| 0 <= j < i ==> (#[trigger] records[j]).conflict_id@ != e.conflict_id@,
        records[i].conflict_id@ == e.conflict_id@,
    ensures
        record_lookup(records.update(i, e), e.conflict_id@) == Some(e@),
        forall|id: Seq<char>|
            id != e.conflict_id@ ==> #[trigger] record_lookup(records.update(i, e), id)
                == record_lookup(records, id),
    decreases i,
{
    if i == 0 {
        assert(records.update(0, e)[0] == e);
        assert forall|id: Seq<char>| id != e.conflict_id@ implies #[trigger] record_lookup(
            records.update(0, e),
            id,
        ) == record_lookup(records, id) by {
            assert(records.update(0, e).skip(1) =~= records.skip(1));
            assert(record_lookup(records.update(0, e), id) == record_lookup(
                records.update(0, e).skip(1),
                id,
            ));
            assert(record_lookup(records, id) == record_lookup(records.skip(1), id));
        }
    } else {
        let tail = records.skip(1);
        assert(records.update(i, e).skip(1) =~= tail.update(i - 1, e));
        assert(records.update(i, e)[0] == records[0]);
        assert(forall|j: int|
            0 <= j < i - 1 ==> (#[trigger] tail[j]).conflict_id@ != e.conflict_id@);
        assert(tail[i - 1] == records[i]);
        lemma_lookup_update(tail, i - 1, e);
        assert(records[0].conflict_id@ != e.conflict_id@);
        assert(record_lookup(records.update(i, e), e.conflict_id@) == record_lookup(
            tail.update(i - 1, e),
            e.conflict_id@,
        ));
        assert forall|id: Seq<char>| id != e.conflict_id@ implies #[trigger] record_lookup(
            records.update(i, e),
            id,
        ) == record_lookup(records, id) by {
            if records[0].conflict_id@ == id {
                assert(record_lookup(records.update(i, e), id) == Some(records[0]@));
                assert(record_lookup(records, id) == Some(records[0]@));
            } else {
                assert(record_lookup(records.update(i, e), id) == record_lookup(
                    tail.update(i - 1, e),
                    id,
                ));
                assert(record_lookup(records, id) == record_lookup(tail, id));
            }
        }
    }
}

/// Appending a record with a fresh id adds exactly that record to lookup.
pub proof fn lemma_lookup_push(records: Seq<SyncConflict>, e: SyncConflict)
    requires
        forall|j: int|
            0 <= j < records.len() ==> (#[trigger] records[j]).conflict_id@ != e.conflict_id@,
    ensures
        record_lookup(records.push(e), e.conflict_id@) == Some(e@),
        forall|id: Seq<char>|
            id != e.conflict_id@ ==> #[trigger] record_lookup(records.push(e), id) == record_lookup(
                records,
                id,
            ),
    decreases records.len(),
{
    if records.len() == 0 {
        assert(records.push(e)[0] == e);
        assert forall|id: Seq<char>| id != e.conflict_id@ implies #[trigger] record_lookup(
            records.push(e),
            id,
        ) == record_lookup(records, id) by {
            assert(records.push(e).skip(1) =~= records);
            assert(record_lookup(records.push(e), id) == record_lookup(
                records.push(e).skip(1),
                id,
            ));
        }
    } else {
        let tail = records.skip(1);
        assert(records.push(e)[0] == records[0]);
        assert(records.push(e).skip(1) =~= tail.push(e));
        assert(records[0].conflict_id@ != e.conflict_id@);
        lemma_lookup_push(tail, e);
        assert(record_lookup(records.push(e), e.conflict_id@) == record_lookup(
            tail.push(e),
            e.conflict_id@,
        ));
        assert forall|id: Seq<char>| id != e.conflict_id@ implies #[trigger] record_lookup(
            records.push(e),
            id,
        ) == record_lookup(records, id) by {
            if records[0].conflict_id@ == id {
                assert(record_lookup(records.push(e), id) == Some(records[0]@));
                assert(record_lookup(records, id) == Some(records[0]@));
            } else {
                assert(record_lookup(records.push(e), id) == record_lookup(tail.push(e), id));
                assert(record_lookup(records, id) == record_lookup(tail, id));
            }
        }
    }
}

/// Removing the record at `i` removes exactly its id from lookup, provided
/// ids are unique.
pub proof fn lemma_lookup_remove(records: Seq<SyncConflict>, i: int)
    requires
        unique_ids(records),
        0 <= i < records.len(),
    ensures
        record_lookup(records.remove(i), records[i].conflict_id@) is None,
        forall|id: Seq<char>|
            id != records[i].conflict_id@ ==> #[trigger] record_lookup(records.remove(i), id)
                == record_lookup(records, id),
    decreases i,
{
    let rid = records[i].conflict_id@;
    if i == 0 {
        assert(records.remove(0) =~= records.skip(1));
        lemma_lookup_none_when_absent(records.skip(1), rid);
        assert forall|id: Seq<char>| id != rid implies #[trigger] record_lookup(
            records.remove(0),
            id,
        ) == record_lookup(records, id) by {
            assert(record_lookup(records, id) == record_lookup(records.skip(1), id));
        }
    } else {
        let tail = records.skip(1);
        assert(records.remove(i).skip(1) =~= tail.remove(i - 1));
        assert(records.remove(i)[0] == records[0]);
        assert(tail[i - 1] == records[i]);
        assert(unique_ids(tail)) by {
            assert(forall|a: int, b: int|
                0 <= a < b < tail.len() ==> (#[trigger] tail[a]).conflict_id@ != (
                #[trigger] tail[b]).conflict_id@) by {
                assert(forall|a: int| 0 <= a < tail.len() ==> tail[a] == records[a + 1]);
            }
        }
        lemma_lookup_remove(tail, i - 1);
        assert(records[0].conflict_id@ != rid);
        assert(record_lookup(records.remove(i), rid) == record_lookup(tail.remove(i - 1), rid));
        assert forall|id: Seq<char>| id != rid implies #[trigger] record_lookup(
            records.remove(i),
            id,
        ) == record_lookup(records, id) by {
            if records[0].conflict_id@ == id {
                assert(record_lookup(records.remove(i), id) == Some(records[0]@));
                assert(record_lookup(records, id) == Some(records[0]@));
            } else {
                assert(record_lookup(records.remove(i), id) == record_lookup(
                    tail.remove(i - 1),
                    id,
                ));
                assert(record_lookup(records, id) == record_lookup(tail, id));
            }
        }
    }
}

/// Lookup misses when no record carries the id.
pub proof fn lemma_lookup_none_when_absent(records: Seq<SyncConflict>, id: Seq<char>)
    requires
        forall|j: int| 0 <= j < records.len() ==> (#[trigger] records[j]).conflict_id@ != id,
    ensures
        record_lookup(records, id) is None,
    decreases records.len(),
{
    if records.len() > 0 {
        assert(forall|j: int|
            0 <= j < records.skip(1).len() ==> (#[trigger] records.skip(1)[j]).conflict_id@ != id);
        lemma_lookup_none_when_absent(records.skip(1), id);
    }
}

/// Lookup finding a record means some record carries the id.
pub proof fn lemma_lookup_witness(records: Seq<SyncConflict>, id: Seq<char>)
    requires
        record_lookup(records, id) is Some,
    ensures
        exists|i: int|
            0 <= i < records.len() && (#[trigger] records[i]).conflict_id@ == id && records[i]@
                == record_lookup(records, id)->Some_0,
    decreases records.len(),
{
    if records[0].conflict_id@ == id {
        assert(records[0]@ == record_lookup(records, id)->Some_0);
    } else {
        lemma_lookup_witness(records.skip(1), id);
        let j = choose|j: int|
            0 <= j < records.skip(1).len() && (#[trigger] records.skip(1)[j]).conflict_id@ == id
                && records.skip(1)[j]@ == record_lookup(records.skip(1), id)->Some_0;
        assert(records[j + 1] == records.skip(1)[j]);
    }
}

/// Filtering by status appends distributively.
pub proof fn lemma_with_status_snoc(records: Seq<SyncConflict>, st: ConflictStatus, c: SyncConflict)
    ensures
        with_status(records.push(c), st) == if c.status == st {
            with_status(records, st).push(c)
        } else {
            with_status(records, st)
        },
    decreases records.len(),
{
    if records.len() == 0 {
        assert(records.push(c)[0] == c);
        assert(records.push(c).skip(1) =~= records);
        if c.status == st {
            assert(with_status(records.push(c), st) =~= with_status(records, st).push(c));
        }
    } else {
        assert(records.push(c)[0] == records[0]);
        assert(records.push(c).skip(1) =~= records.skip(1).push(c));
        lemma_with_status_snoc(records.skip(1), st, c);
        if c.status == st {
            if records[0].status == st {
                assert(with_status(records.push(c), st) =~= with_status(records, st).push(c));
            }
        }
    }
}

/// Every record a status filter returns carries that status, appears among
/// the records, and the filter never grows the list.
pub proof fn lemma_with_status_props(records: Seq<SyncConflict>, st: ConflictStatus)
    ensures
        with_status(records, st).len() <= records.len(),
        forall|j: int|
            0 <= j < with_status(records, st).len() ==> (#[trigger] with_status(records, st)[j])
                .status == st,
        forall|j: int|
            0 <= j < with_status(records, st).len() ==> exists|i: int|
                0 <= i < records.len() && records[i] == (#[trigger] with_status(records, st)[j]),
    decreases records.len(),
{
    if records.len() > 0 {
        lemma_with_status_props(records.skip(1), st);
        let ws = with_status(records, st);
        let wtail = with_status(records.skip(1), st);
        assert forall|j: int| 0 <= j < ws.len() implies (#[trigger] ws[j]).status == st && exists|
            i: int,
        | 0 <= i < records.len() && records[i] == ws[j] by {
            if records[0].status == st {
                if j == 0 {
                    assert(ws[j] == records[0]);
                } else {
                    assert(ws[j] == wtail[j - 1]);
                    let i = choose|i: int|
                        0 <= i < records.skip(1).len() && records.skip(1)[i] == wtail[j - 1];
                    assert(records[i + 1] == ws[j]);
                }
            } else {
                assert(ws[j] == wtail[j]);
                let i = choose|i: int|
                    0 <= i < records.skip(1).len() && records.skip(1)[i] == wtail[j];
                assert(records[i + 1] == ws[j]);
            }
        }
    }
}

/// Once a conflict's record is resolved, the pending listing never shows its
/// id again, and the resolved listing shows it.
pub proof fn lemma_resolved_leaves_pending(records: Seq<SyncConflict>, id: Seq<char>)
    requires
        unique_ids(records),
        match record_lookup(records, id) {
            Some(v) => v.status == ConflictStatus::Resolved,
            None => true,
        },
    ensures
        forall|j: int|
            0 <= j < with_status(records, ConflictStatus::Pending).len() ==> (#[trigger] with_status(
                records,
                ConflictStatus::Pending,
            )[j]).conflict_id@ != id,
        record_lookup(records, id) is Some ==> exists|j: int|
            0 <= j < with_status(records, ConflictStatus::Resolved).len() && (
            #[trigger] with_status(records, ConflictStatus::Resolved)[j]).conflict_id@ == id,
    decreases records.len(),
{
    if records.len() > 0 {
        let tail = records.skip(1);
        assert(unique_ids(tail)) by {
            assert(forall|a: int| 0 <= a < tail.len() ==> tail[a] == records[a + 1]);
        }
        if records[0].conflict_id@ == id {
            // the head record carries the id; it is resolved
            assert(record_lookup(records, id) == Some(records[0]@));
            assert(records[0].status == ConflictStatus::Resolved);
            assert(forall|j: int|
                0 <= j < tail.len() ==> (#[trigger] tail[j]).conflict_id@ != id);
            lemma_lookup_none_when_absent(tail, id);
            lemma_resolved_leaves_pending(tail, id);
            lemma_with_status_props(records, ConflictStatus::Pending);
            assert forall|j: int|
                0 <= j < with_status(records, ConflictStatus::Pending).len() implies (
            #[trigger] with_status(records, ConflictStatus::Pending)[j]).conflict_id@ != id by {
                assert(with_status(records, ConflictStatus::Pending) == with_status(
                    tail,
                    ConflictStatus::Pending,
                ));
            }
            assert(with_status(records, ConflictStatus::Resolved)[0] == records[0]);
        } else {
            lemma_resolved_leaves_pending(tail, id);
            if records[0].status == ConflictStatus::Pending {
                assert(with_status(records, ConflictStatus::Pending) == seq![records[0]]
                    + with_status(tail, ConflictStatus::Pending));
            }
            if record_lookup(records, id) is Some {
                assert(record_lookup(records, id) == record_lookup(tail, id));
                let j = choose|j: int|
                    0 <= j < with_status(tail, ConflictStatus::Resolved).len() && (
                    #[trigger] with_status(tail, ConflictStatus::Resolved)[j]).conflict_id@ == id;
                if records[0].status == ConflictStatus::Resolved {
                    assert(with_status(records, ConflictStatus::Resolved)[j + 1] == with_status(
                        tail,
                        ConflictStatus::Resolved,
                    )[j]);
                } else {
                    assert(with_status(records, ConflictStatus::Resolved)[j] == with_status(
                        tail,
                        ConflictStatus::Resolved,
                    )[j]);
                }
            }
        }
    }
}

/// Cleanup appends distributively.
pub proof fn lemma_cleanup_snoc(records: Seq<SyncConflict>, cutoff: int, c: SyncConflict)
    ensures
        cleanup_filter(records.push(c), cutoff) == if kept_after_cleanup(c@, cutoff) {
            cleanup_filter(records, cutoff).push(c)
        } else {
            cleanup_filter(records, cutoff)
        },
    decreases records.len(),
{
    if records.len() == 0 {
        assert(records.push(c)[0] == c);
        assert(records.push(c).skip(1) =~= records);
        if kept_after_cleanup(c@, cutoff) {
            assert(cleanup_filter(records.push(c), cutoff) =~= cleanup_filter(
                records,
                cutoff,
            ).push(c));
        }
    } else {
        assert(records.push(c)[0] == records[0]);
        assert(records.push(c).skip(1) =~= records.skip(1).push(c));
        lemma_cleanup_snoc(records.skip(1), cutoff, c);
        if kept_after_cleanup(c@, cutoff) && kept_after_cleanup(records[0]@, cutoff) {
            assert(cleanup_filter(records.push(c), cutoff) =~= cleanup_filter(
                records,
                cutoff,
            ).push(c));
        }
    }
}

/// Cleanup keeps a subsequence: lookup afterwards returns exactly the kept
/// records, uniqueness survives, and nothing grows.
pub proof fn lemma_cleanup_lookup(records: Seq<SyncConflict>, cutoff: int, id: Seq<char>)
    requires
        unique_ids(records),
    ensures
        record_lookup(cleanup_filter(records, cutoff), id) == match record_lookup(records, id) {
            Some(v) => if kept_after_cleanup(v, cutoff) {
                Some(v)
            } else {
                None
            },
            None => None,
        },
    decreases records.len(),
{
    if records.len() > 0 {
        let tail = records.skip(1);
        assert(unique_ids(tail)) by {
            assert(forall|a: int| 0 <= a < tail.len() ==> tail[a] == records[a + 1]);
        }
        lemma_cleanup_lookup(tail, cutoff, id);
        if records[0].conflict_id@ == id {
            if kept_after_cleanup(records[0]@, cutoff) {
                assert(cleanup_filter(records, cutoff)[0] == records[0]);
            } else {
                assert(forall|j: int|
                    0 <= j < tail.len() ==> (#[trigger] tail[j]).conflict_id@ != id);
                lemma_lookup_none_when_absent(tail, id);
                assert(record_lookup(tail, id) is None);
                assert(cleanup_filter(records, cutoff) == cleanup_filter(tail, cutoff));
            }
        } else {
            if kept_after_cleanup(records[0]@, cutoff) {
                assert(cleanup_filter(records, cutoff)[0] == records[0]);
                assert(cleanup_filter(records, cutoff).skip(1) =~= cleanup_filter(tail, cutoff));
            } else {
                assert(cleanup_filter(records, cutoff) == cleanup_filter(tail, cutoff));
            }
        }
    }
}

/// Cleanup preserves id uniqueness and membership of what it keeps.
pub proof fn lemma_cleanup_props(records: Seq<SyncConflict>, cutoff: int)
    requires
        unique_ids(records),
    ensures
        cleanup_filter(records, cutoff).len() <= records.len(),
        unique_ids(cleanup_filter(records, cutoff)),
        forall|j: int|
            0 <= j < cleanup_filter(records, cutoff).len() ==> kept_after_cleanup(
                (#[trigger] cleanup_filter(records, cutoff)[j])@,
                cutoff,
            ),
        forall|j: int|
            0 <= j < cleanup_filter(records, cutoff).len() ==> exists|i: int|
                0 <= i < records.len() && records[i] == (#[trigger] cleanup_filter(
                    records,
                    cutoff,
                )[j]),
    decreases records.len(),
{
    if records.len() > 0 {
        let tail = records.skip(1);
        assert(unique_ids(tail)) by {
            assert(forall|a: int| 0 <= a < tail.len() ==> tail[a] == records[a + 1]);
        }
        lemma_cleanup_props(tail, cutoff);
        let cf = cleanup_filter(records, cutoff);
        let cftail = cleanup_filter(tail, cutoff);
        assert forall|j: int| 0 <= j < cf.len() implies kept_after_cleanup(
            (#[trigger] cf[j])@,
            cutoff,
        ) && exists|i: int| 0 <= i < records.len() && records[i] == cf[j] by {
            if kept_after_cleanup(records[0]@, cutoff) {
                if j == 0 {
                    assert(cf[j] == records[0]);
                } else {
                    assert(cf[j] == cftail[j - 1]);
                    let i = choose|i: int| 0 <= i < tail.len() && tail[i] == cftail[j - 1];
                    assert(records[i + 1] == cf[j]);
                }
            } else {
                assert(cf[j] == cftail[j]);
                let i = choose|i: int| 0 <= i < tail.len() && tail[i] == cftail[j];
                assert(records[i + 1] == cf[j]);
            }
        }
        assert forall|a: int, b: int| 0 <= a < b < cf.len() implies (
        #[trigger] cf[a]).conflict_id@ != (#[trigger] cf[b]).conflict_id@ by {
            if kept_after_cleanup(records[0]@, cutoff) {
                if a == 0 {
                    assert(cf[b] == cftail[b - 1]);
                    let i = choose|i: int| 0 <= i < tail.len() && tail[i] == cftail[b - 1];
                    assert(records[0].conflict_id@ != records[i + 1].conflict_id@);
                } else {
                    assert(cf[a] == cftail[a - 1] && cf[b] == cftail[b - 1]);
                }
            } else {
                assert(cf[a] == cftail[a] && cf[b] == cftail[b]);
            }
        }
    }
}


// ==================== the resolver ====================

/// Counts of conflict records by status and by classification.
#[derive(Debug, Clone)]
pub struct ConflictStats {
    pub total: usize,
    pub pending: usize,
    pub resolved: usize,
    pub type_mismatch: usize,
    pub content_mismatch: usize,
    pub metadata_mismatch: usize,
}

/// Detects conflicting concurrent updates and applies resolution strategies.
/// Owns the full conflict record list and an in-memory pending index that is
/// rebuildable from the records at any time.
pub struct ConflictResolver {
    records: Vec<SyncConflict>,
    pending: Vec<SyncConflict>,
}

impl ConflictResolver {
    /// The full record list, the model of the persisted store.
    pub closed spec fn spec_records(&self) -> Seq<SyncConflict> {
        self.records@
    }

    /// The in-memory pending index.
    pub closed spec fn spec_pending(&self) -> Seq<SyncConflict> {
        self.pending@
    }

    /// Well-formedness: ids are unique on both sides, and every indexed
    /// pending conflict is a pending record, identically.
    pub closed spec fn wf(&self) -> bool {
        &&& unique_ids(self.records@)
        &&& unique_ids(self.pending@)
        &&& forall|i: int|
            0 <= i < self.pending@.len() ==> (#[trigger] self.pending@[i]).status
                == ConflictStatus::Pending && record_lookup(
                self.records@,
                self.pending@[i].conflict_id@,
            ) == Some(self.pending@[i]@)
    }

    /// A resolver with no conflict records.
    pub fn new() -> (r: ConflictResolver)
        ensures
            r.wf(),
            r.spec_records().len() == 0,
            r.spec_pending().len() == 0,
    {
        ConflictResolver { records: Vec::new(), pending: Vec::new() }
    }

    /// Whether two snapshots' contents disagree.
    pub fn has_content_conflict(
        &self,
        local_data: &ClipboardPayload,
        remote_data: &ClipboardPayload,
    ) -> (r: bool)
        ensures
            r == content_conflict(local_data@, remote_data@),
    {
        if !str_eq(local_data.kind.as_str(), remote_data.kind.as_str()) {
            return true;
        }
        if str_eq(local_data.kind.as_str(), "image") {
            !str_eq(local_data.value.as_str(), remote_data.value.as_str()) || !opt_i32_eq(
                &local_data.width,
                &remote_data.width,
            ) || !opt_i32_eq(&local_data.height, &remote_data.height)
        } else {
            !str_eq(local_data.value.as_str(), remote_data.value.as_str())
        }
    }

    /// Whether two snapshots conflict. Near-simultaneous edits (timestamps
    /// within five seconds) are checked for content conflicts, and so is
    /// every other pair: the timing check routes to the same comparison.
    pub fn has_conflict(
        &self,
        local_data: &ClipboardPayload,
        remote_data: &ClipboardPayload,
    ) -> (r: bool)
        ensures
            r == has_conflict_spec(local_data@, remote_data@),
    {
        let local_time = parse_rfc3339_millis(local_data.timestamp.as_str());
        let remote_time = parse_rfc3339_millis(remote_data.timestamp.as_str());
        match (local_time, remote_time) {
            (Some(lt), Some(rt)) => {
                let diff: i128 = lt as i128 - rt as i128;
                if -5000 < diff && diff < 5000 {
                    // near-simultaneous edit: fall through to content comparison
                    return self.has_content_conflict(local_data, remote_data);
                }
                self.has_content_conflict(local_data, remote_data)
            },
            _ => self.has_content_conflict(local_data, remote_data),
        }
    }

    /// Classifies a conflict by priority: kind mismatch, then content
    /// mismatch, then metadata mismatch.
    pub fn determine_conflict_type(
        &self,
        local_data: &ClipboardPayload,
        remote_data: &ClipboardPayload,
    ) -> (r: ConflictType)
        ensures
            r == classify(local_data@, remote_data@),
    {
        if !str_eq(local_data.kind.as_str(), remote_data.kind.as_str()) {
            ConflictType::TypeMismatch
        } else if !str_eq(local_data.value.as_str(), remote_data.value.as_str()) {
            ConflictType::ContentMismatch
        } else {
            ConflictType::MetadataMismatch
        }
    }

    /// Picks the snapshot with the strictly newer timestamp; ties and
    /// remote-newer pairs yield the remote snapshot; unparseable timestamps
    /// are an error.
    pub fn resolve_use_latest(
        &self,
        local_data: &ClipboardPayload,
        remote_data: &ClipboardPayload,
    ) -> (r: Result<ClipboardPayload, Error>)
        ensures
            match r {
                Ok(p) => use_latest_spec(local_data@, remote_data@) == Some(p@),
                Err(e) => use_latest_spec(local_data@, remote_data@) is None && e is Unknown,
            },
    {
        let local_time = match parse_rfc3339_millis(local_data.timestamp.as_str()) {
            Some(t) => t,
            None => {
                return Err(Error::Unknown(String::from_str("Invalid local timestamp")));
            },
        };
        let remote_time = match parse_rfc3339_millis(remote_data.timestamp.as_str()) {
            Some(t) => t,
            None => {
                return Err(Error::Unknown(String::from_str("Invalid remote timestamp")));
            },
        };
        if local_time > remote_time {
            Ok(local_data.duplicate())
        } else {
            Ok(remote_data.duplicate())
        }
    }

    /// Merges two text snapshots by concatenating their values under a fresh
    /// timestamp; any other pair falls back to `resolve_use_latest`.
    pub fn resolve_merge(
        &self,
        local_data: &ClipboardPayload,
        remote_data: &ClipboardPayload,
    ) -> (r: Result<ClipboardPayload, Error>)
        ensures
            mergeable(local_data@, remote_data@) ==> match r {
                Ok(m) => merged_ok(local_data@, remote_data@, m@),
                Err(_) => false,
            },
            !mergeable(local_data@, remote_data@) ==> match r {
                Ok(p) => use_latest_spec(local_data@, remote_data@) == Some(p@),
                Err(e) => use_latest_spec(local_data@, remote_data@) is None && e is Unknown,
            },
    {
        if str_eq(local_data.kind.as_str(), "text") && str_eq(remote_data.kind.as_str(), "text") {
            let merged_value = local_data.value.clone().concat(" | ").concat(
                remote_data.value.as_str(),
            );
            let mut merged = local_data.duplicate();
            merged.value = merged_value;
            merged.timestamp = now_rfc3339();
            Ok(merged)
        } else {
            self.resolve_use_latest(local_data, remote_data)
        }
    }

    /// The position of `conflict_id` in the pending index, if present.
    fn find_pending_index(&self, conflict_id: &str) -> (r: Option<usize>)
        ensures
            match r {
                Some(i) => {
                    &&& i < self.spec_pending().len()
                    &&& self.spec_pending()[i as int].conflict_id@ == conflict_id@
                    &&& forall|j: int|
                        0 <= j < i ==> (#[trigger] self.spec_pending()[j]).conflict_id@
                            != conflict_id@
                    &&& record_lookup(self.spec_pending(), conflict_id@) == Some(
                        self.spec_pending()[i as int]@,
                    )
                },
                None => record_lookup(self.spec_pending(), conflict_id@) is None,
            },
    {
        let mut i: usize = 0;
        while i < self.pending.len()
            invariant
                i <= self.pending@.len(),
                forall|j: int|
                    0 <= j < i ==> (#[trigger] self.pending@[j]).conflict_id@ != conflict_id@,
            decreases self.pending@.len() - i,
        {
            if str_eq(self.pending[i].conflict_id.as_str(), conflict_id) {
                proof {
                    lemma_lookup_member(self.pending@, i as int);
                }
                return Some(i);
            }
            i = i + 1;
        }
        proof {
            lemma_lookup_none_when_absent(self.pending@, conflict_id@);
        }
        None
    }

    /// The position of `conflict_id` among the records, if present.
    fn find_record_index(&self, conflict_id: &str) -> (r: Option<usize>)
        ensures
            match r {
                Some(i) => {
                    &&& i < self.spec_records().len()
                    &&& self.spec_records()[i as int].conflict_id@ == conflict_id@
                    &&& forall|j: int|
                        0 <= j < i ==> (#[trigger] self.spec_records()[j]).conflict_id@
                            != conflict_id@
                    &&& record_lookup(self.spec_records(), conflict_id@) == Some(
                        self.spec_records()[i as int]@,
                    )
                },
                None => record_lookup(self.spec_records(), conflict_id@) is None,
            },
    {
        let mut i: usize = 0;
        while i < self.records.len()
            invariant
                i <= self.records@.len(),
                forall|j: int|
                    0 <= j < i ==> (#[trigger] self.records@[j]).conflict_id@ != conflict_id@,
            decreases self.records@.len() - i,
        {
            if str_eq(self.records[i].conflict_id.as_str(), conflict_id) {
                proof {
                    lemma_lookup_member(self.records@, i as int);
                }
                return Some(i);
            }
            i = i + 1;
        }
        proof {
            lemma_lookup_none_when_absent(self.records@, conflict_id@);
        }
        None
    }

    /// Detects a conflict between a local and a remote snapshot. On
    /// detection the conflict is recorded pending under a fresh id and
    /// indexed; otherwise nothing changes. The error case is the freak event
    /// that the generated id collides with an existing record.
    pub fn detect_conflict(
        &mut self,
        local_data: &ClipboardPayload,
        remote_data: &ClipboardPayload,
        device_id: &str,
    ) -> (r: Result<Option<SyncConflict>, Error>)
        requires
            old(self).wf(),
        ensures
            final(self).wf(),
            match r {
                Ok(opt) => match opt {
                    None => !has_conflict_spec(local_data@, remote_data@) && final(self).spec_records() == old(self).spec_records() && final(self).spec_pending()
                        == old(self).spec_pending(),
                    Some(c) => {
                        &&& has_conflict_spec(local_data@, remote_data@)
                        &&& c@.local_item == local_data@
                        &&& c@.remote_item == remote_data@
                        &&& c@.conflict_type == classify(local_data@, remote_data@)
                        &&& c@.device_id == device_id@
                        &&& c@.status == ConflictStatus::Pending
                        &&& c@.resolution is None
                        &&& rfc3339_millis(c@.detected_at) is Some
                        &&& record_lookup(old(self).spec_records(), c@.conflict_id) is None
                        &&& record_lookup(final(self).spec_records(), c@.conflict_id) == Some(c@)
                        &&& record_lookup(final(self).spec_pending(), c@.conflict_id) == Some(c@)
                        &&& forall|id: Seq<char>|
                            id != c@.conflict_id ==> #[trigger] record_lookup(
                                final(self).spec_records(),
                                id,
                            ) == record_lookup(old(self).spec_records(), id)
                        &&& forall|id: Seq<char>|
                            id != c@.conflict_id ==> #[trigger] record_lookup(
                                final(self).spec_pending(),
                                id,
                            ) == record_lookup(old(self).spec_pending(), id)
                    },
                },
                Err(e) => has_conflict_spec(local_data@, remote_data@) && final(self).spec_records()
                    == old(self).spec_records() && final(self).spec_pending() == old(self).spec_pending() && e is Unknown,
            },
    {
        if !self.has_conflict(local_data, remote_data) {
            return Ok(None);
        }
        let conflict_id = new_uuid();
        match self.find_record_index(conflict_id.as_str()) {
            Some(_) => {
                return Err(Error::Unknown(String::from_str("Conflict id collision")));
            },
            None => {},
        }
        let conflict_type = self.determine_conflict_type(local_data, remote_data);
        let conflict = SyncConflict {
            conflict_id,
            local_item: local_data.duplicate(),
            remote_item: remote_data.duplicate(),
            conflict_type,
            detected_at: now_rfc3339(),
            device_id: String::from_str(device_id),
            status: ConflictStatus::Pending,
            resolution: None,
        };
        let copy = conflict.duplicate();
        let returned = conflict.duplicate();
        let ghost records0 = self.records@;
        let ghost pending0 = self.pending@;
        proof {
            // the fresh id is absent from the pending index too
            if record_lookup(pending0, conflict.conflict_id@) is Some {
                lemma_lookup_witness(pending0, conflict.conflict_id@);
            }
            assert(record_lookup(pending0, conflict.conflict_id@) is None);
            if exists|j: int|
                0 <= j < records0.len() && (#[trigger] records0[j]).conflict_id@
                    == conflict.conflict_id@ {
                let j = choose|j: int|
                    0 <= j < records0.len() && (#[trigger] records0[j]).conflict_id@
                        == conflict.conflict_id@;
                assert(forall|k: int|
                    0 <= k < j ==> (#[trigger] records0[k]).conflict_id@
                        != records0[j].conflict_id@);
                lemma_lookup_member(records0, j);
                assert(false);
            }
            if exists|j: int|
                0 <= j < pending0.len() && (#[trigger] pending0[j]).conflict_id@
                    == conflict.conflict_id@ {
                let j = choose|j: int|
                    0 <= j < pending0.len() && (#[trigger] pending0[j]).conflict_id@
                        == conflict.conflict_id@;
                assert(forall|k: int|
                    0 <= k < j ==> (#[trigger] pending0[k]).conflict_id@
                        != pending0[j].conflict_id@);
                lemma_lookup_member(pending0, j);
                assert(false);
            }
        }
        self.records.push(conflict);
        self.pending.push(copy);
        proof {
            let rec = self.records@[records0.len() as int];
            let pen = self.pending@[pending0.len() as int];
            assert(self.records@ =~= records0.push(rec));
            assert(self.pending@ =~= pending0.push(pen));
            lemma_lookup_push(records0, rec);
            lemma_lookup_push(pending0, pen);
        }
        Ok(Some(returned))
    }
}

/// What a merged text payload looks like: the local snapshot with the two
/// values joined by a separator and a fresh, parseable timestamp.
pub open spec fn merged_ok(l: PayloadView, r: PayloadView, d: PayloadView) -> bool {
    &&& d.kind == l.kind
    &&& d.value == l.value + " | "@ + r.value
    &&& d.group == l.group
    &&& d.subtype == l.subtype
    &&& d.count == l.count
    &&& d.search == l.search
    &&& d.width == l.width
    &&& d.height == l.height
    &&& rfc3339_millis(d.timestamp) is Some
}


/// What a resolution's payload must be for each automatic strategy.
pub open spec fn resolution_data_ok(
    c: crate::models::ConflictView,
    strategy: ConflictResolutionStrategy,
    d: PayloadView,
) -> bool {
    match strategy {
        ConflictResolutionStrategy::UseLocal => d == c.local_item,
        ConflictResolutionStrategy::UseRemote => d == c.remote_item,
        ConflictResolutionStrategy::UseLatest => use_latest_spec(c.local_item, c.remote_item)
            == Some(d),
        ConflictResolutionStrategy::Merge => if mergeable(c.local_item, c.remote_item) {
            merged_ok(c.local_item, c.remote_item, d)
        } else {
            use_latest_spec(c.local_item, c.remote_item) == Some(d)
        },
        ConflictResolutionStrategy::Manual => false,
    }
}

/// The view of a conflict record after it is resolved with `res`.
pub open spec fn resolved_view(
    c: crate::models::ConflictView,
    res: crate::models::ResolutionView,
) -> crate::models::ConflictView {
    crate::models::ConflictView { status: ConflictStatus::Resolved, resolution: Some(res), ..c }
}

impl ConflictResolver {
    /// Removes the conflict from the pending index and updates its record to
    /// resolved with the resolution attached.
    fn mark_conflict_resolved(&mut self, conflict_id: &str, resolution: ConflictResolution)
        requires
            old(self).wf(),
            record_lookup(old(self).spec_pending(), conflict_id@) is Some,
            resolution.conflict_id@ == conflict_id@,
        ensures
            final(self).wf(),
            record_lookup(final(self).spec_pending(), conflict_id@) is None,
            forall|id: Seq<char>|
                id != conflict_id@ ==> #[trigger] record_lookup(final(self).spec_pending(), id)
                    == record_lookup(old(self).spec_pending(), id),
            record_lookup(final(self).spec_records(), conflict_id@) == Some(
                resolved_view(
                    record_lookup(old(self).spec_pending(), conflict_id@)->Some_0,
                    resolution@,
                ),
            ),
            forall|id: Seq<char>|
                id != conflict_id@ ==> #[trigger] record_lookup(final(self).spec_records(), id)
                    == record_lookup(old(self).spec_records(), id),
    {
        let ghost records0 = self.records@;
        let ghost pending0 = self.pending@;
        let pi = match self.find_pending_index(conflict_id) {
            Some(i) => i,
            None => {
                proof {
                    assert(false);
                }
                vstd::pervasive::unreached()
            },
        };
        let entry = self.pending[pi].duplicate();
        self.pending.remove(pi);
        proof {
            assert(self.pending@ =~= pending0.remove(pi as int));
            lemma_lookup_remove(pending0, pi as int);
            assert(forall|j: int|
                0 <= j < self.pending@.len() ==> #[trigger] self.pending@[j] == (
                if j < pi as int {
                    pending0[j]
                } else {
                    pending0[j + 1]
                }));
        }
        let updated = SyncConflict {
            conflict_id: entry.conflict_id,
            local_item: entry.local_item,
            remote_item: entry.remote_item,
            conflict_type: entry.conflict_type,
            detected_at: entry.detected_at,
            device_id: entry.device_id,
            status: ConflictStatus::Resolved,
            resolution: Some(resolution),
        };
        let ri = match self.find_record_index(conflict_id) {
            Some(i) => i,
            None => {
                proof {
                    assert(false);
                }
                vstd::pervasive::unreached()
            },
        };
        self.records.remove(ri);
        self.records.insert(ri, updated);
        proof {
            let e = self.records@[ri as int];
            assert(self.records@ =~= records0.update(ri as int, e));
            lemma_lookup_update(records0, ri as int, e);
            assert(e@ == resolved_view(record_lookup(pending0, conflict_id@)->Some_0, resolution@));
            // ids are untouched, so uniqueness carries over
            assert(forall|j: int|
                0 <= j < self.records@.len() ==> (#[trigger] self.records@[j]).conflict_id@
                    == records0[j].conflict_id@);
            // surviving pending entries keep their records
            assert forall|j: int| 0 <= j < self.pending@.len() implies (
            #[trigger] self.pending@[j]).status == ConflictStatus::Pending && record_lookup(
                self.records@,
                self.pending@[j].conflict_id@,
            ) == Some(self.pending@[j]@) by {
                let oldj = if j < pi as int {
                    j
                } else {
                    j + 1
                };
                assert(self.pending@[j] == pending0[oldj]);
                assert(pending0[oldj].conflict_id@ != conflict_id@);
            }
            assert(unique_ids(self.pending@)) by {
                assert forall|a: int, b: int|
                    0 <= a < b < self.pending@.len() implies (
                #[trigger] self.pending@[a]).conflict_id@ != (
                #[trigger] self.pending@[b]).conflict_id@ by {
                    let oa = if a < pi as int {
                        a
                    } else {
                        a + 1
                    };
                    let ob = if b < pi as int {
                        b
                    } else {
                        b + 1
                    };
                    assert(self.pending@[a] == pending0[oa] && self.pending@[b] == pending0[ob]);
                }
            }
        }
    }

    /// Applies an automatic strategy to a pending conflict: the snapshot the
    /// strategy selects (or the merge of the two) becomes the resolution, the
    /// conflict leaves the pending index, and its record turns resolved with
    /// the resolution attached. `Manual` is not automatic and is refused.
    pub fn auto_resolve_conflict(
        &mut self,
        conflict_id: &str,
        strategy: ConflictResolutionStrategy,
        device_id: &str,
    ) -> (r: Result<ConflictResolution, Error>)
        requires
            old(self).wf(),
        ensures
            final(self).wf(),
            match record_lookup(old(self).spec_pending(), conflict_id@) {
                None => r is Err && final(self).spec_records() == old(self).spec_records() && final(self).spec_pending() == old(self).spec_pending(),
                Some(c) => {
                    &&& (strategy == ConflictResolutionStrategy::Manual ==> r is Err)
                    &&& (strategy == ConflictResolutionStrategy::UseLocal || strategy
                        == ConflictResolutionStrategy::UseRemote ==> r is Ok)
                    &&& (strategy == ConflictResolutionStrategy::UseLatest ==> (r is Ok
                        <==> use_latest_spec(c.local_item, c.remote_item) is Some))
                    &&& (strategy == ConflictResolutionStrategy::Merge ==> (r is Ok <==> (mergeable(
                        c.local_item,
                        c.remote_item,
                    ) || use_latest_spec(c.local_item, c.remote_item) is Some)))
                    &&& match r {
                        Ok(res) => {
                            &&& res@.conflict_id == conflict_id@
                            &&& res@.strategy == strategy
                            &&& res@.resolved_by == device_id@
                            &&& res@.notes is None
                            &&& rfc3339_millis(res@.resolved_at) is Some
                            &&& match res@.resolved_data {
                                Some(d) => resolution_data_ok(c, strategy, d),
                                None => false,
                            }
                            &&& record_lookup(final(self).spec_pending(), conflict_id@) is None
                            &&& forall|id: Seq<char>|
                                id != conflict_id@ ==> #[trigger] record_lookup(
                                    final(self).spec_pending(),
                                    id,
                                ) == record_lookup(old(self).spec_pending(), id)
                            &&& record_lookup(final(self).spec_records(), conflict_id@) == Some(
                                resolved_view(c, res@),
                            )
                            &&& forall|id: Seq<char>|
                                id != conflict_id@ ==> #[trigger] record_lookup(
                                    final(self).spec_records(),
                                    id,
                                ) == record_lookup(old(self).spec_records(), id)
                        },
                        Err(e) => final(self).spec_records() == old(self).spec_records() && final(self).spec_pending() == old(self).spec_pending() && e is Unknown,
                    }
                },
            },
    {
        let pi = match self.find_pending_index(conflict_id) {
            Some(i) => i,
            None => {
                return Err(Error::Unknown(String::from_str("Conflict not found")));
            },
        };
        let local_item = self.pending[pi].local_item.duplicate();
        let remote_item = self.pending[pi].remote_item.duplicate();
        let resolved_data = match strategy {
            ConflictResolutionStrategy::UseLatest => {
                match self.resolve_use_latest(&local_item, &remote_item) {
                    Ok(p) => p,
                    Err(e) => {
                        return Err(e);
                    },
                }
            },
            ConflictResolutionStrategy::UseLocal => local_item,
            ConflictResolutionStrategy::UseRemote => remote_item,
            ConflictResolutionStrategy::Merge => {
                match self.resolve_merge(&local_item, &remote_item) {
                    Ok(p) => p,
                    Err(e) => {
                        return Err(e);
                    },
                }
            },
            ConflictResolutionStrategy::Manual => {
                return Err(
                    Error::Unknown(String::from_str("Manual resolution requires user input")),
                );
            },
        };
        let resolution = ConflictResolution {
            conflict_id: String::from_str(conflict_id),
            strategy,
            resolved_data: Some(resolved_data),
            resolved_by: String::from_str(device_id),
            resolved_at: now_rfc3339(),
            notes: None,
        };
        let returned = resolution.duplicate();
        self.mark_conflict_resolved(conflict_id, resolution);
        Ok(returned)
    }

    /// Attaches a caller-supplied resolution to a pending conflict: the
    /// manual counterpart of `auto_resolve_conflict`.
    pub fn manual_resolve_conflict(
        &mut self,
        conflict_id: &str,
        resolved_data: ClipboardPayload,
        device_id: &str,
        notes: Option<String>,
    ) -> (r: Result<ConflictResolution, Error>)
        requires
            old(self).wf(),
        ensures
            final(self).wf(),
            match record_lookup(old(self).spec_pending(), conflict_id@) {
                None => r is Err && final(self).spec_records() == old(self).spec_records() && final(self).spec_pending() == old(self).spec_pending(),
                Some(c) => match r {
                    Ok(res) => {
                        &&& res@.conflict_id == conflict_id@
                        &&& res@.strategy == ConflictResolutionStrategy::Manual
                        &&& res@.resolved_data == Some(resolved_data@)
                        &&& res@.resolved_by == device_id@
                        &&& res@.notes == notes.deep_view()
                        &&& rfc3339_millis(res@.resolved_at) is Some
                        &&& record_lookup(final(self).spec_pending(), conflict_id@) is None
                        &&& forall|id: Seq<char>|
                            id != conflict_id@ ==> #[trigger] record_lookup(
                                final(self).spec_pending(),
                                id,
                            ) == record_lookup(old(self).spec_pending(), id)
                        &&& record_lookup(final(self).spec_records(), conflict_id@) == Some(
                            resolved_view(c, res@),
                        )
                        &&& forall|id: Seq<char>|
                            id != conflict_id@ ==> #[trigger] record_lookup(
                                final(self).spec_records(),
                                id,
                            ) == record_lookup(old(self).spec_records(), id)
                    },
                    Err(_) => false,
                },
            },
    {
        match self.find_pending_index(conflict_id) {
            Some(_) => {},
            None => {
                return Err(Error::Unknown(String::from_str("Conflict not found")));
            },
        }
        let resolution = ConflictResolution {
            conflict_id: String::from_str(conflict_id),
            strategy: ConflictResolutionStrategy::Manual,
            resolved_data: Some(resolved_data),
            resolved_by: String::from_str(device_id),
            resolved_at: now_rfc3339(),
            notes,
        };
        let returned = resolution.duplicate();
        self.mark_conflict_resolved(conflict_id, resolution);
        Ok(returned)
    }
}


/// Whether two record lists agree element by element at the view level.
pub open spec fn views_match(a: Seq<SyncConflict>, b: Seq<SyncConflict>) -> bool {
    a.len() == b.len() && forall|j: int| 0 <= j < a.len() ==> (#[trigger] a[j])@ == b[j]@
}

/// View-matched record lists agree on every lookup.
pub proof fn lemma_lookup_views(a: Seq<SyncConflict>, b: Seq<SyncConflict>, id: Seq<char>)
    requires
        views_match(a, b),
    ensures
        record_lookup(a, id) == record_lookup(b, id),
    decreases a.len(),
{
    if a.len() > 0 {
        assert(a[0]@ == b[0]@);
        assert(a[0].conflict_id@ == b[0].conflict_id@);
        assert(views_match(a.skip(1), b.skip(1))) by {
            assert(forall|j: int| 0 <= j < a.skip(1).len() ==> (#[trigger] a.skip(1)[j]) == a[j + 1]
                && b.skip(1)[j] == b[j + 1]);
        }
        lemma_lookup_views(a.skip(1), b.skip(1), id);
    }
}

/// The records classified as the given type, in order.
pub open spec fn with_type(records: Seq<SyncConflict>, t: ConflictType) -> Seq<SyncConflict>
    decreases records.len(),
{
    if records.len() == 0 {
        Seq::empty()
    } else if records[0].conflict_type == t {
        seq![records[0]] + with_type(records.skip(1), t)
    } else {
        with_type(records.skip(1), t)
    }
}

/// Filtering by type appends distributively.
pub proof fn lemma_with_type_snoc(records: Seq<SyncConflict>, t: ConflictType, c: SyncConflict)
    ensures
        with_type(records.push(c), t) == if c.conflict_type == t {
            with_type(records, t).push(c)
        } else {
            with_type(records, t)
        },
    decreases records.len(),
{
    if records.len() == 0 {
        assert(records.push(c)[0] == c);
        assert(records.push(c).skip(1) =~= records);
        if c.conflict_type == t {
            assert(with_type(records.push(c), t) =~= with_type(records, t).push(c));
        }
    } else {
        assert(records.push(c)[0] == records[0]);
        assert(records.push(c).skip(1) =~= records.skip(1).push(c));
        lemma_with_type_snoc(records.skip(1), t, c);
        if c.conflict_type == t && records[0].conflict_type == t {
            assert(with_type(records.push(c), t) =~= with_type(records, t).push(c));
        }
    }
}

impl ConflictResolver {
    /// Copies of the records with the given status, in record order.
    fn conflicts_with_status(&self, st: ConflictStatus) -> (r: Vec<SyncConflict>)
        ensures
            views_match(r@, with_status(self.spec_records(), st)),
    {
        let mut out: Vec<SyncConflict> = Vec::new();
        let mut i: usize = 0;
        while i < self.records.len()
            invariant
                i <= self.records@.len(),
                views_match(out@, with_status(self.records@.take(i as int), st)),
            decreases self.records@.len() - i,
        {
            proof {
                lemma_with_status_snoc(self.records@.take(i as int), st, self.records@[i as int]);
                assert(self.records@.take(i as int).push(self.records@[i as int])
                    =~= self.records@.take(i as int + 1));
            }
            if self.records[i].status == st {
                out.push(self.records[i].duplicate());
            }
            i = i + 1;
        }
        proof {
            assert(self.records@.take(self.records@.len() as int) =~= self.records@);
        }
        out
    }

    /// The pending conflicts, from the record list (never the index).
    pub fn get_pending_conflicts(&self) -> (r: Vec<SyncConflict>)
        ensures
            views_match(r@, with_status(self.spec_records(), ConflictStatus::Pending)),
    {
        self.conflicts_with_status(ConflictStatus::Pending)
    }

    /// The resolved conflicts, from the record list.
    pub fn get_resolved_conflicts(&self) -> (r: Vec<SyncConflict>)
        ensures
            views_match(r@, with_status(self.spec_records(), ConflictStatus::Resolved)),
    {
        self.conflicts_with_status(ConflictStatus::Resolved)
    }

    /// Deletes exactly the resolved records whose detection instant lies
    /// strictly before `cutoff_millis` (epoch milliseconds); pending records
    /// of any age survive, and the pending index is untouched.
    pub fn cleanup_resolved_before(&mut self, cutoff_millis: i64) -> (removed: usize)
        requires
            old(self).wf(),
        ensures
            final(self).wf(),
            views_match(
                final(self).spec_records(),
                cleanup_filter(old(self).spec_records(), cutoff_millis as int),
            ),
            final(self).spec_pending() == old(self).spec_pending(),
            removed == old(self).spec_records().len() - final(self).spec_records().len(),
    {
        let ghost records0 = self.records@;
        let ghost cutoff = cutoff_millis as int;
        let total = self.records.len();
        let recs = &self.records;
        let mut kept: Vec<SyncConflict> = Vec::new();
        let mut i: usize = 0;
        while i < recs.len()
            invariant
                i <= recs@.len(),
                recs@ == records0,
                cutoff == cutoff_millis as int,
                views_match(kept@, cleanup_filter(records0.take(i as int), cutoff)),
            decreases recs@.len() - i,
        {
            proof {
                lemma_cleanup_snoc(records0.take(i as int), cutoff, records0[i as int]);
                assert(records0.take(i as int).push(records0[i as int]) =~= records0.take(
                    i as int + 1,
                ));
            }
            let rec = &recs[i];
            assert(rec.detected_at@ == records0[i as int]@.detected_at);
            assert(rec.status == records0[i as int]@.status);
            let drop_it: bool;
            if rec.status == ConflictStatus::Resolved {
                let parsed = parse_rfc3339_millis(rec.detected_at.as_str());
                match parsed {
                    Some(t) => {
                        assert(rfc3339_millis(records0[i as int]@.detected_at) == Some(t as int));
                        drop_it = t < cutoff_millis;
                    },
                    None => {
                        assert(rfc3339_millis(records0[i as int]@.detected_at) is None);
                        drop_it = false;
                    },
                }
            } else {
                drop_it = false;
            }
            if !drop_it {
                assert(kept_after_cleanup(records0[i as int]@, cutoff));
                kept.push(recs[i].duplicate());
            } else {
                assert(!kept_after_cleanup(records0[i as int]@, cutoff));
            }
            i = i + 1;
        }
        proof {
            assert(records0.take(records0.len() as int) =~= records0);
            lemma_cleanup_props(records0, cutoff);
        }
        let removed = total - kept.len();
        self.records = kept;
        proof {
            let cf = cleanup_filter(records0, cutoff);
            // lookups through the kept records match lookups through the filter
            assert forall|j: int| 0 <= j < self.pending@.len() implies (
            #[trigger] self.pending@[j]).status == ConflictStatus::Pending && record_lookup(
                self.records@,
                self.pending@[j].conflict_id@,
            ) == Some(self.pending@[j]@) by {
                let id = self.pending@[j].conflict_id@;
                lemma_lookup_views(self.records@, cf, id);
                lemma_cleanup_lookup(records0, cutoff, id);
                assert(record_lookup(records0, id) == Some(self.pending@[j]@));
                assert(kept_after_cleanup(self.pending@[j]@, cutoff));
            }
            assert(unique_ids(self.records@)) by {
                assert forall|a: int, b: int|
                    0 <= a < b < self.records@.len() implies (
                #[trigger] self.records@[a]).conflict_id@ != (
                #[trigger] self.records@[b]).conflict_id@ by {
                    assert(self.records@[a]@ == cf[a]@ && self.records@[b]@ == cf[b]@);
                }
            }
        }
        removed
    }

    /// Retention cleanup: deletes resolved conflicts detected strictly more
    /// than `older_than_days` days before now; pending conflicts are never
    /// deleted. Returns how many records were removed.
    pub fn cleanup_resolved_conflicts(&mut self, older_than_days: i64) -> (r: Result<i32, Error>)
        requires
            old(self).wf(),
        ensures
            final(self).wf(),
            final(self).spec_pending() == old(self).spec_pending(),
            exists|cutoff: int|
                views_match(
                    final(self).spec_records(),
                    #[trigger] cleanup_filter(old(self).spec_records(), cutoff),
                ),
            match r {
                Ok(n) => n as int == if old(self).spec_records().len() - final(self).spec_records().len() > i32::MAX as int {
                    i32::MAX as int
                } else {
                    old(self).spec_records().len() - final(self).spec_records().len()
                },
                Err(_) => false,
            },
    {
        let now = now_millis();
        let span: i64 = if older_than_days > i64::MAX / 86_400_000 {
            i64::MAX
        } else if older_than_days < i64::MIN / 86_400_000 {
            i64::MIN
        } else {
            older_than_days * 86_400_000
        };
        let cutoff: i64 = if span >= 0 {
            if now < i64::MIN + span {
                i64::MIN
            } else {
                now - span
            }
        } else {
            if now > i64::MAX + span {
                i64::MAX
            } else {
                now - span
            }
        };
        let removed = self.cleanup_resolved_before(cutoff);
        let n: i32 = if removed > i32::MAX as usize {
            i32::MAX
        } else {
            removed as i32
        };
        Ok(n)
    }

    /// Counts of records by status and by classification.
    pub fn get_conflict_stats(&self) -> (r: ConflictStats)
        ensures
            r.total == self.spec_records().len(),
            r.pending == with_status(self.spec_records(), ConflictStatus::Pending).len(),
            r.resolved == with_status(self.spec_records(), ConflictStatus::Resolved).len(),
            r.type_mismatch == with_type(self.spec_records(), ConflictType::TypeMismatch).len(),
            r.content_mismatch == with_type(
                self.spec_records(),
                ConflictType::ContentMismatch,
            ).len(),
            r.metadata_mismatch == with_type(
                self.spec_records(),
                ConflictType::MetadataMismatch,
            ).len(),
    {
        let ghost records0 = self.records@;
        let mut pending_count: usize = 0;
        let mut resolved_count: usize = 0;
        let mut type_count: usize = 0;
        let mut content_count: usize = 0;
        let mut metadata_count: usize = 0;
        let mut i: usize = 0;
        while i < self.records.len()
            invariant
                i <= records0.len(),
                self.records@ == records0,
                pending_count == with_status(records0.take(i as int), ConflictStatus::Pending).len(),
                resolved_count == with_status(
                    records0.take(i as int),
                    ConflictStatus::Resolved,
                ).len(),
                type_count == with_type(records0.take(i as int), ConflictType::TypeMismatch).len(),
                content_count == with_type(
                    records0.take(i as int),
                    ConflictType::ContentMismatch,
                ).len(),
                metadata_count == with_type(
                    records0.take(i as int),
                    ConflictType::MetadataMismatch,
                ).len(),
                pending_count <= i && resolved_count <= i && type_count <= i && content_count <= i
                    && metadata_count <= i,
            decreases records0.len() - i,
        {
            proof {
                let pre = records0.take(i as int);
                let c = records0[i as int];
                lemma_with_status_snoc(pre, ConflictStatus::Pending, c);
                lemma_with_status_snoc(pre, ConflictStatus::Resolved, c);
                lemma_with_type_snoc(pre, ConflictType::TypeMismatch, c);
                lemma_with_type_snoc(pre, ConflictType::ContentMismatch, c);
                lemma_with_type_snoc(pre, ConflictType::MetadataMismatch, c);
                assert(pre.push(c) =~= records0.take(i as int + 1));
            }
            match self.records[i].status {
                ConflictStatus::Pending => {
                    pending_count = pending_count + 1;
                },
                ConflictStatus::Resolved => {
                    resolved_count = resolved_count + 1;
                },
            }
            match self.records[i].conflict_type {
                ConflictType::TypeMismatch => {
                    type_count = type_count + 1;
                },
                ConflictType::ContentMismatch => {
                    content_count = content_count + 1;
                },
                ConflictType::MetadataMismatch => {
                    metadata_count = metadata_count + 1;
                },
            }
            i = i + 1;
        }
        proof {
            assert(records0.take(records0.len() as int) =~= records0);
        }
        ConflictStats {
            total: self.records.len(),
            pending: pending_count,
            resolved: resolved_count,
            type_mismatch: type_count,
            content_mismatch: content_count,
            metadata_mismatch: metadata_count,
        }
    }

    /// Rebuilds the in-memory pending index from the record list; the index
    /// is a cache and survives being dropped and reloaded at any time.
    pub fn load_pending_conflicts(&mut self) -> (r: Result<(), Error>)
        requires
            old(self).wf(),
        ensures
            r is Ok,
            final(self).wf(),
            final(self).spec_records() == old(self).spec_records(),
            views_match(
                final(self).spec_pending(),
                with_status(final(self).spec_records(), ConflictStatus::Pending),
            ),
    {
        let ghost records0 = self.records@;
        let recs = &self.records;
        let mut out: Vec<SyncConflict> = Vec::new();
        let mut i: usize = 0;
        while i < recs.len()
            invariant
                i <= records0.len(),
                recs@ == records0,
                unique_ids(records0),
                views_match(out@, with_status(records0.take(i as int), ConflictStatus::Pending)),
                forall|j: int|
                    0 <= j < out@.len() ==> (#[trigger] out@[j]).status == ConflictStatus::Pending
                        && record_lookup(records0, out@[j].conflict_id@) == Some(out@[j]@),
                forall|j: int|
                    0 <= j < out@.len() ==> exists|k: int|
                        0 <= k < i && (#[trigger] out@[j]).conflict_id@ == records0[k].conflict_id@,
                unique_ids(out@),
            decreases records0.len() - i,
        {
            proof {
                lemma_with_status_snoc(
                    records0.take(i as int),
                    ConflictStatus::Pending,
                    records0[i as int],
                );
                assert(records0.take(i as int).push(records0[i as int]) =~= records0.take(
                    i as int + 1,
                ));
            }
            if recs[i].status == ConflictStatus::Pending {
                let ghost out_pre = out@;
                let dup = recs[i].duplicate();
                proof {
                    assert(forall|k: int|
                        0 <= k < i ==> (#[trigger] records0[k]).conflict_id@
                            != records0[i as int].conflict_id@);
                    lemma_lookup_member(records0, i as int);
                }
                out.push(dup);
                proof {
                    assert(out@[out_pre.len() as int] == dup);
                    assert(forall|j: int| 0 <= j < out_pre.len() ==> out@[j] == out_pre[j]);
                    assert forall|a: int, b: int|
                        0 <= a < b < out@.len() implies (#[trigger] out@[a]).conflict_id@ != (
                    #[trigger] out@[b]).conflict_id@ by {
                        if b == out_pre.len() as int {
                            let k = choose|k: int|
                                0 <= k < i && (#[trigger] out_pre[a]).conflict_id@
                                    == records0[k].conflict_id@;
                            assert(records0[k].conflict_id@ != records0[i as int].conflict_id@);
                        }
                    }
                }
            }
            i = i + 1;
        }
        proof {
            assert(records0.take(records0.len() as int) =~= records0);
        }
        self.pending = out;
        Ok(())
    }

    /// Applies one strategy to every currently pending conflict, collecting
    /// the successful resolutions and skipping (not aborting on) per-item
    /// failures. No conflict becomes pending, and the survivors are exactly
    /// what they were.
    pub fn batch_resolve_conflicts(
        &mut self,
        strategy: ConflictResolutionStrategy,
        device_id: &str,
    ) -> (r: Result<Vec<ConflictResolution>, Error>)
        requires
            old(self).wf(),
        ensures
            final(self).wf(),
            forall|id: Seq<char>|
                #[trigger] record_lookup(final(self).spec_pending(), id) is Some ==> record_lookup(
                    final(self).spec_pending(),
                    id,
                ) == record_lookup(old(self).spec_pending(), id),
            strategy == ConflictResolutionStrategy::UseLocal || strategy
                == ConflictResolutionStrategy::UseRemote ==> final(self).spec_pending().len() == 0,
            match r {
                Ok(v) => {
                    &&& v@.len() <= old(self).spec_pending().len()
                    &&& forall|i: int|
                        0 <= i < v@.len() ==> (#[trigger] v@[i])@.strategy == strategy && v@[i]@
                            .resolved_by == device_id@ && record_lookup(
                            final(self).spec_pending(),
                            v@[i]@.conflict_id,
                        ) is None
                    &&& forall|id: Seq<char>|
                        record_lookup(old(self).spec_pending(), id) is Some && #[trigger]
                            record_lookup(final(self).spec_pending(), id) is None ==> exists|
                            i: int,
                        | 0 <= i < v@.len() && (#[trigger] v@[i])@.conflict_id == id
                },
                Err(_) => false,
            },
    {
        let never_fails = matches!(
            strategy,
            ConflictResolutionStrategy::UseLocal | ConflictResolutionStrategy::UseRemote
        );
        let mut work = ConflictResolver::new();
        core::mem::swap(self, &mut work);
        let ghost pending0 = work.spec_pending();
        let mut ids: Vec<String> = Vec::new();
        let mut i: usize = 0;
        while i < work.pending.len()
            invariant
                i <= pending0.len(),
                work.spec_pending() == pending0,
                ids@.len() == i,
                forall|j: int| 0 <= j < i ==> (#[trigger] ids@[j])@ == pending0[j].conflict_id@,
            decreases pending0.len() - i,
        {
            ids.push(work.pending[i].conflict_id.clone());
            i = i + 1;
        }
        let mut resolutions: Vec<ConflictResolution> = Vec::new();
        let mut k: usize = 0;
        proof {
            // every pending id appears in the snapshot
            assert forall|id: Seq<char>| #[trigger] record_lookup(work.spec_pending(), id)
                is Some implies exists|j: int|
                0 <= j < ids@.len() && (#[trigger] ids@[j])@ == id by {
                lemma_lookup_witness(pending0, id);
                let w = choose|w: int|
                    0 <= w < pending0.len() && (#[trigger] pending0[w]).conflict_id@ == id
                        && pending0[w]@ == record_lookup(pending0, id)->Some_0;
                assert(ids@[w]@ == id);
            }
        }
        while k < ids.len()
            invariant
                k <= ids@.len(),
                ids@.len() == pending0.len(),
                work.wf(),
                resolutions@.len() <= k,
                never_fails == (strategy == ConflictResolutionStrategy::UseLocal || strategy
                    == ConflictResolutionStrategy::UseRemote),
                forall|id: Seq<char>|
                    #[trigger] record_lookup(work.spec_pending(), id) is Some ==> record_lookup(
                        work.spec_pending(),
                        id,
                    ) == record_lookup(pending0, id),
                never_fails ==> forall|id: Seq<char>|
                    #[trigger] record_lookup(work.spec_pending(), id) is Some ==> exists|j: int|
                        k <= j < ids@.len() && (#[trigger] ids@[j])@ == id,
                forall|i: int|
                    0 <= i < resolutions@.len() ==> (#[trigger] resolutions@[i])@.strategy
                        == strategy && resolutions@[i]@.resolved_by == device_id@ && record_lookup(
                        work.spec_pending(),
                        resolutions@[i]@.conflict_id,
                    ) is None,
                forall|id: Seq<char>|
                    record_lookup(pending0, id) is Some && #[trigger] record_lookup(
                        work.spec_pending(),
                        id,
                    ) is None ==> exists|i: int|
                        0 <= i < resolutions@.len() && (#[trigger] resolutions@[i])@.conflict_id
                            == id,
            decreases ids@.len() - k,
        {
            let ghost before = work.spec_pending();
            let ghost res_pre = resolutions@;
            match work.auto_resolve_conflict(ids[k].as_str(), strategy, device_id) {
                Ok(res) => {
                    let ghost resolved_id = ids@[k as int]@;
                    proof {
                        assert(record_lookup(before, resolved_id) is Some);
                    }
                    resolutions.push(res);
                    proof {
                        assert(resolutions@[res_pre.len() as int]@.conflict_id == resolved_id);
                        assert(forall|i: int|
                            0 <= i < res_pre.len() ==> #[trigger] resolutions@[i] == res_pre[i]);
                        assert forall|id: Seq<char>|
                            record_lookup(pending0, id) is Some && #[trigger] record_lookup(
                                work.spec_pending(),
                                id,
                            ) is None implies exists|i: int|
                            0 <= i < resolutions@.len() && (#[trigger] resolutions@[i])@
                                .conflict_id == id by {
                            if id == resolved_id {
                                assert(resolutions@[res_pre.len() as int]@.conflict_id == id);
                            } else {
                                assert(record_lookup(before, id) is None);
                                let i = choose|i: int|
                                    0 <= i < res_pre.len() && (#[trigger] res_pre[i])@.conflict_id
                                        == id;
                                assert(resolutions@[i]@.conflict_id == id);
                            }
                        }
                    }
                },
                Err(_) => {
                    // per-item failures are skipped, not fatal
                },
            }
            k = k + 1;
            proof {
                if never_fails {
                    assert forall|id: Seq<char>| #[trigger] record_lookup(work.spec_pending(), id)
                        is Some implies exists|j: int|
                        k <= j < ids@.len() && (#[trigger] ids@[j])@ == id by {
                        assert(id != ids@[k - 1]@);
                        assert(record_lookup(before, id) is Some);
                        let j = choose|j: int|
                            k - 1 <= j < ids@.len() && (#[trigger] ids@[j])@ == id;
                        assert(j != k - 1);
                    }
                }
            }
        }
        proof {
            if never_fails && work.spec_pending().len() > 0 {
                lemma_lookup_member(work.spec_pending(), 0);
                assert(record_lookup(work.spec_pending(), work.spec_pending()[0].conflict_id@)
                    is Some);
                assert(false);
            }
        }
        core::mem::swap(self, &mut work);
        Ok(resolutions)
    }
}


} // verus!
