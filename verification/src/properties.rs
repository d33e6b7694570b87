//! The laws of the reconciliation engine: well-formedness of reachable
//! states, exactness of pruning, and idempotence of the finalization
//! query.
//!
//! Well-formedness of a state says that each event sequence is internally
//! contiguous (each range starts right after its predecessor ends), holds
//! proper ranges of its own kind only, and agrees with its watermark.
//! The lemmas here show that the cycle's operations preserve it, as long
//! as the fed attestations respect the watermarks — a truncating revert is
//! the known exception: it leaves the watermarks stale on purpose.

use crate::events::{BlockEvent, EventSignatures, EventType, Log, LogTransition,
    ZkLinkContractVersion, spec_classify};
use crate::events_state::{
    EventsModel, ends_above, ends_at_most, first_straddler, spec_apply_logs,
    spec_apply_transition, spec_checkpoint, spec_finalize, spec_prune, split_at, straddles,
};
use vstd::prelude::*;

verus! {

/// Each event's range starts right after its predecessor's range ends.
pub open spec fn events_contiguous(s: Seq<BlockEvent>) -> bool {
    forall|i: int|
        #![trigger s[i], s[i - 1]]
        0 < i < s.len() ==> s[i].start_block_num == s[i - 1].end_block_num + 1
}

/// Each event's range is proper: it ends no earlier than it starts.
pub open spec fn events_proper(s: Seq<BlockEvent>) -> bool {
    forall|i: int| 0 <= i < s.len() ==> (#[trigger] s[i]).start_block_num <= s[i].end_block_num
}

/// Every event of `s` carries the tag `kind`.
pub open spec fn events_of_kind(s: Seq<BlockEvent>, kind: EventType) -> bool {
    forall|i: int| 0 <= i < s.len() ==> (#[trigger] s[i]).block_type == kind
}

/// The watermark sits one past the end of the last event, when any.
pub open spec fn watermark_consistent(s: Seq<BlockEvent>, watermark: u32) -> bool {
    s.len() > 0 ==> watermark == s.last().end_block_num + 1
}

/// Well-formedness of the whole reconciliation state.
pub open spec fn state_well_formed(m: EventsModel) -> bool {
    &&& events_contiguous(m.committed_events)
    &&& events_proper(m.committed_events)
    &&& events_of_kind(m.committed_events, EventType::Committed)
    &&& watermark_consistent(m.committed_events, m.last_committed_num)
    &&& events_contiguous(m.verified_events)
    &&& events_proper(m.verified_events)
    &&& events_of_kind(m.verified_events, EventType::Verified)
    &&& watermark_consistent(m.verified_events, m.last_verified_num)
}

/// Contiguity instantiated at one index.
proof fn lemma_contiguous_at(s: Seq<BlockEvent>, i: int)
    requires
        events_contiguous(s),
        0 < i < s.len(),
    ensures
        s[i].start_block_num == s[i - 1].end_block_num + 1,
{
}

/// Both range ends and range starts grow strictly along a contiguous
/// sequence of proper ranges.
proof fn lemma_order_step(s: Seq<BlockEvent>, i: int, j: int)
    requires
        events_contiguous(s),
        events_proper(s),
        0 <= i < j < s.len(),
    ensures
        s[i].end_block_num < s[j].end_block_num,
        s[i].start_block_num < s[j].start_block_num,
        s[i].end_block_num < s[j].start_block_num,
    decreases j - i,
{
    if j > i + 1 {
        lemma_order_step(s, i, j - 1);
        lemma_order_step(s, j - 1, j);
    } else {
        lemma_contiguous_at(s, j);
        assert(s[j - 1] == s[i]);
    }
}

/// A contiguous sequence of proper ranges is sorted ascending: ends,
/// starts, and whole ranges grow strictly with the index.
pub proof fn lemma_contiguous_sorted(s: Seq<BlockEvent>)
    requires
        events_contiguous(s),
        events_proper(s),
    ensures
        forall|i: int, j: int|
            0 <= i < j < s.len() ==> (#[trigger] s[i]).end_block_num < (
            #[trigger] s[j]).end_block_num && s[i].start_block_num < s[j].start_block_num
                && s[i].end_block_num < s[j].start_block_num,
{
    assert forall|i: int, j: int| 0 <= i < j < s.len() implies (
    #[trigger] s[i]).end_block_num < (#[trigger] s[j]).end_block_num && s[i].start_block_num
        < s[j].start_block_num && s[i].end_block_num < s[j].start_block_num by {
        lemma_order_step(s, i, j);
    }
}

/// When every range ends at or below the bound, the truncation keeps all.
proof fn lemma_ends_at_most_all(s: Seq<BlockEvent>, bound: u32)
    requires
        forall|i: int| 0 <= i < s.len() ==> (#[trigger] s[i]).end_block_num <= bound,
    ensures
        ends_at_most(s, bound) == s,
    decreases s.len(),
{
    if s.len() > 0 {
        lemma_ends_at_most_all(s.drop_last(), bound);
        assert(s.drop_last().push(s.last()) =~= s);
    }
}

/// When every range ends at or below the bound, nothing lies above it.
proof fn lemma_ends_above_none(s: Seq<BlockEvent>, bound: u32)
    requires
        forall|i: int| 0 <= i < s.len() ==> (#[trigger] s[i]).end_block_num <= bound,
    ensures
        ends_above(s, bound) == Seq::<BlockEvent>::empty(),
    decreases s.len(),
{
    if s.len() > 0 {
        lemma_ends_above_none(s.drop_last(), bound);
    } else {
        assert(ends_above(s, bound) =~= Seq::<BlockEvent>::empty());
    }
}

/// On a sequence with strictly ascending ends, truncation at a bound
/// keeps exactly a prefix.
pub proof fn lemma_ends_at_most_prefix(s: Seq<BlockEvent>, bound: u32)
    requires
        forall|i: int, j: int|
            0 <= i < j < s.len() ==> (#[trigger] s[i]).end_block_num < (
            #[trigger] s[j]).end_block_num,
    ensures
        exists|k: int| 0 <= k <= s.len() && ends_at_most(s, bound) == s.take(k),
    decreases s.len(),
{
    if s.len() == 0 {
        assert(ends_at_most(s, bound) =~= s.take(0));
    } else if s.last().end_block_num <= bound {
        assert(forall|i: int|
            0 <= i < s.len() ==> (#[trigger] s[i]).end_block_num <= bound) by {
            assert forall|i: int| 0 <= i < s.len() implies (
            #[trigger] s[i]).end_block_num <= bound by {
                if i < s.len() - 1 {
                    assert(s[i].end_block_num < s[s.len() - 1].end_block_num);
                }
            }
        }
        lemma_ends_at_most_all(s, bound);
        assert(ends_at_most(s, bound) =~= s.take(s.len() as int));
    } else {
        let d = s.drop_last();
        assert(forall|i: int, j: int|
            0 <= i < j < d.len() ==> (#[trigger] d[i]).end_block_num < (
            #[trigger] d[j]).end_block_num);
        lemma_ends_at_most_prefix(d, bound);
        let k = choose|k: int| 0 <= k <= d.len() && ends_at_most(d, bound) == d.take(k);
        assert(d.take(k) =~= s.take(k));
        assert(ends_at_most(s, bound) == s.take(k));
    }
}

/// On a sequence with strictly ascending ends, pruning at a bound keeps
/// exactly a suffix.
pub proof fn lemma_ends_above_suffix(s: Seq<BlockEvent>, bound: u32)
    requires
        forall|i: int, j: int|
            0 <= i < j < s.len() ==> (#[trigger] s[i]).end_block_num < (
            #[trigger] s[j]).end_block_num,
    ensures
        exists|k: int| 0 <= k <= s.len() && ends_above(s, bound) == s.skip(k),
    decreases s.len(),
{
    if s.len() == 0 {
        assert(ends_above(s, bound) =~= s.skip(0));
    } else if s.last().end_block_num > bound {
        let d = s.drop_last();
        assert(forall|i: int, j: int|
            0 <= i < j < d.len() ==> (#[trigger] d[i]).end_block_num < (
            #[trigger] d[j]).end_block_num);
        lemma_ends_above_suffix(d, bound);
        let k = choose|k: int| 0 <= k <= d.len() && ends_above(d, bound) == d.skip(k);
        assert(d.skip(k).push(s.last()) =~= s.skip(k));
        assert(ends_above(s, bound) == s.skip(k));
    } else {
        assert(forall|i: int|
            0 <= i < s.len() ==> (#[trigger] s[i]).end_block_num <= bound) by {
            assert forall|i: int| 0 <= i < s.len() implies (
            #[trigger] s[i]).end_block_num <= bound by {
                if i < s.len() - 1 {
                    assert(s[i].end_block_num < s[s.len() - 1].end_block_num);
                }
            }
        }
        lemma_ends_above_none(s, bound);
        assert(ends_above(s, bound) =~= s.skip(s.len() as int));
    }
}

/// Pruning correctness: the truncation at a checkpoint retains exactly
/// the events whose range ends above it — fully-verified history goes,
/// partially-verified or unverified entries stay, nothing else changes.
pub proof fn lemma_prune_retains_exactly_unverified(s: Seq<BlockEvent>, checkpoint: u32)
    ensures
        forall|e: BlockEvent|
            #[trigger] ends_above(s, checkpoint).contains(e) <==> s.contains(e)
                && e.end_block_num > checkpoint,
    decreases s.len(),
{
    if s.len() == 0 {
        assert forall|e: BlockEvent| #[trigger] ends_above(s, checkpoint).contains(e) implies false by {}
    } else {
        let d = s.drop_last();
        lemma_prune_retains_exactly_unverified(d, checkpoint);
        assert forall|e: BlockEvent|
            #[trigger] ends_above(s, checkpoint).contains(e) implies s.contains(e)
            && e.end_block_num > checkpoint by {
            let f = ends_above(s, checkpoint);
            let i = choose|i: int| 0 <= i < f.len() && f[i] == e;
            if s.last().end_block_num > checkpoint && i == f.len() - 1 {
                assert(s[s.len() - 1] == e);
            } else {
                assert(ends_above(d, checkpoint).contains(e));
                let j = choose|j: int| 0 <= j < d.len() && d[j] == e;
                assert(s[j] == e);
            }
        }
        assert forall|e: BlockEvent|
            s.contains(e) && e.end_block_num > checkpoint implies #[trigger] ends_above(
            s,
            checkpoint,
        ).contains(e) by {
            let i = choose|i: int| 0 <= i < s.len() && s[i] == e;
            let f = ends_above(s, checkpoint);
            if i == s.len() - 1 {
                assert(f.last() == e);
            } else {
                assert(d[i] == e);
                assert(d.contains(e));
                assert(ends_above(d, checkpoint).contains(e));
                let j = choose|j: int|
                    0 <= j < ends_above(d, checkpoint).len() && ends_above(d, checkpoint)[j] == e;
                assert(f[j] == e);
            }
        }
    }
}

/// Pruning preserves well-formedness: what stays is a suffix of the
/// committed history, still contiguous, sorted, and true to its
/// watermark; the verified side is emptied outright.
pub proof fn lemma_prune_preserves_well_formed(m: EventsModel)
    requires
        state_well_formed(m),
    ensures
        state_well_formed(spec_prune(m)),
{
    match spec_checkpoint(m.verified_events) {
        None => {},
        Some(checkpoint) => {
            let s = m.committed_events;
            lemma_contiguous_sorted(s);
            lemma_ends_above_suffix(s, checkpoint);
            let k = choose|k: int| 0 <= k <= s.len() && ends_above(s, checkpoint) == s.skip(k);
            let f = s.skip(k);
            assert forall|i: int|
                #![trigger f[i], f[i - 1]]
                0 < i < f.len() implies f[i].start_block_num == f[i - 1].end_block_num + 1 by {
                assert(f[i] == s[i + k]);
                assert(f[i - 1] == s[i + k - 1]);
                lemma_contiguous_at(s, i + k);
            }
            assert(events_proper(f));
            assert(events_of_kind(f, EventType::Committed));
            if f.len() > 0 {
                assert(f.last() == s.last());
            }
        },
    }
}

/// A transition is admissible when it extends history above the current
/// watermark of its kind, or changes nothing.  Truncating reverts are not
/// admissible: by design they leave the watermarks stale.
pub open spec fn transition_admissible(m: EventsModel, t: LogTransition) -> bool {
    match t {
        LogTransition::Ignored => true,
        LogTransition::Revert { .. } => false,
        LogTransition::NewCommitted(end) => m.last_committed_num <= end && end < u32::MAX,
        LogTransition::NewVerified(end) => m.last_verified_num <= end && end < u32::MAX,
    }
}

/// A batch is admissible when every log decodes and asks, in turn, for an
/// admissible transition of the state it meets.
pub open spec fn batch_admissible(
    m: EventsModel,
    logs: Seq<Log>,
    signatures: EventSignatures,
    contract_version: ZkLinkContractVersion,
) -> bool
    decreases logs.len(),
{
    if logs.len() == 0 {
        true
    } else {
        &&& batch_admissible(m, logs.drop_last(), signatures, contract_version)
        &&& match spec_classify(logs.last(), signatures) {
            Ok(t) => transition_admissible(
                spec_apply_logs(m, logs.drop_last(), signatures, contract_version).0,
                t,
            ),
            Err(_) => false,
        }
    }
}

/// One admissible transition preserves well-formedness.
pub proof fn lemma_transition_preserves_well_formed(
    m: EventsModel,
    t: LogTransition,
    tx_hash: [u8; 32],
    contract_version: ZkLinkContractVersion,
)
    requires
        state_well_formed(m),
        transition_admissible(m, t),
    ensures
        state_well_formed(spec_apply_transition(m, t, tx_hash, contract_version)),
{
    match t {
        LogTransition::Ignored => {},
        LogTransition::Revert { .. } => {},
        LogTransition::NewCommitted(end) => {
            let s = m.committed_events;
            let f = spec_apply_transition(m, t, tx_hash, contract_version).committed_events;
            assert forall|i: int|
                #![trigger f[i], f[i - 1]]
                0 < i < f.len() implies f[i].start_block_num == f[i - 1].end_block_num + 1 by {
                if i < s.len() {
                    assert(f[i] == s[i]);
                    assert(f[i - 1] == s[i - 1]);
                    lemma_contiguous_at(s, i);
                } else {
                    assert(f[i - 1] == s.last());
                }
            }
        },
        LogTransition::NewVerified(end) => {
            let s = m.verified_events;
            let f = spec_apply_transition(m, t, tx_hash, contract_version).verified_events;
            assert forall|i: int|
                #![trigger f[i], f[i - 1]]
                0 < i < f.len() implies f[i].start_block_num == f[i - 1].end_block_num + 1 by {
                if i < s.len() {
                    assert(f[i] == s[i]);
                    assert(f[i - 1] == s[i - 1]);
                    lemma_contiguous_at(s, i);
                } else {
                    assert(f[i - 1] == s.last());
                }
            }
        },
    }
}

/// Contiguity and watermark consistency hold for every state an
/// admissible batch can reach: from a well-formed state, applying the
/// whole batch succeeds and lands in a well-formed state — each sequence
/// stays contiguous and sorted ascending, and each watermark stays one
/// past its last range end.
pub proof fn lemma_cycle_preserves_well_formed(
    m: EventsModel,
    logs: Seq<Log>,
    signatures: EventSignatures,
    contract_version: ZkLinkContractVersion,
)
    requires
        state_well_formed(m),
        batch_admissible(m, logs, signatures, contract_version),
    ensures
        spec_apply_logs(m, logs, signatures, contract_version).1,
        state_well_formed(spec_apply_logs(m, logs, signatures, contract_version).0),
    decreases logs.len(),
{
    if logs.len() > 0 {
        lemma_cycle_preserves_well_formed(m, logs.drop_last(), signatures, contract_version);
        let prev = spec_apply_logs(m, logs.drop_last(), signatures, contract_version).0;
        match spec_classify(logs.last(), signatures) {
            Ok(t) => {
                lemma_transition_preserves_well_formed(
                    prev,
                    t,
                    logs.last().transaction_hash,
                    contract_version,
                );
            },
            Err(_) => {},
        }
    }
}

/// After a split at the checkpoint, no committed event straddles it any
/// more: the split halves sit flush against the boundary, and everything
/// beyond starts past it.
pub proof fn lemma_split_no_straddler(s: Seq<BlockEvent>, checkpoint: u32, i: int)
    requires
        events_contiguous(s),
        events_proper(s),
        first_straddler(s, checkpoint, i),
    ensures
        forall|j: int|
            0 <= j < split_at(s, checkpoint, i).len() ==> !straddles(
                #[trigger] split_at(s, checkpoint, i)[j],
                checkpoint,
            ),
{
    let f = split_at(s, checkpoint, i);
    lemma_contiguous_sorted(s);
    s.update(i, BlockEvent { end_block_num: checkpoint, ..s[i] }).insert_ensures(
        i + 1,
        BlockEvent { start_block_num: (checkpoint + 1) as u32, ..s[i] },
    );
    assert forall|j: int| 0 <= j < f.len() implies !straddles(#[trigger] f[j], checkpoint) by {
        if j < i {
            assert(f[j] == s[j]);
        } else if j == i {
            assert(f[j].end_block_num == checkpoint);
        } else if j == i + 1 {
            assert(f[j].start_block_num == checkpoint + 1);
        } else {
            assert(f[j] == s[j - 1]);
            assert(s[i].end_block_num < s[j - 1].start_block_num);
        }
    }
}

/// The split keeps the committed history well formed: the two halves
/// partition the split range exactly, contiguity holds across both new
/// boundaries, and the last range end — hence the watermark — is
/// untouched.
pub proof fn lemma_split_preserves_well_formed(s: Seq<BlockEvent>, checkpoint: u32, i: int)
    requires
        events_contiguous(s),
        events_proper(s),
        first_straddler(s, checkpoint, i),
    ensures
        events_contiguous(split_at(s, checkpoint, i)),
        events_proper(split_at(s, checkpoint, i)),
        split_at(s, checkpoint, i).len() == s.len() + 1,
        split_at(s, checkpoint, i).last().end_block_num == s.last().end_block_num,
{
    let a = BlockEvent { end_block_num: checkpoint, ..s[i] };
    let b = BlockEvent { start_block_num: (checkpoint + 1) as u32, ..s[i] };
    let u = s.update(i, a);
    let f = split_at(s, checkpoint, i);
    u.insert_ensures(i + 1, b);
    assert(f == u.insert(i + 1, b));
    assert(f.len() == s.len() + 1);
    assert forall|j: int| 0 <= j < i implies #[trigger] f[j] == s[j] by {
        assert(f[j] == u[j]);
    }
    assert(f[i] == a);
    assert(f[i + 1] == b);
    assert forall|j: int| i + 2 <= j < f.len() implies #[trigger] f[j] == s[j - 1] by {
        assert(f[j] == u[j - 1]);
    }
    assert forall|j: int|
        #![trigger f[j], f[j - 1]]
        0 < j < f.len() implies f[j].start_block_num == f[j - 1].end_block_num + 1 by {
        if j < i {
            assert(f[j] == s[j]);
            assert(f[j - 1] == s[j - 1]);
        } else if j == i {
            if j > 0 {
                assert(f[j - 1] == s[j - 1]);
                lemma_contiguous_at(s, i);
            }
        } else if j == i + 1 {
            assert(f[j] == b && f[j - 1] == a);
        } else if j == i + 2 {
            assert(f[j] == s[i + 1] && f[j - 1] == b);
            lemma_contiguous_at(s, i + 1);
        } else {
            assert(f[j] == s[j - 1]);
            assert(f[j - 1] == s[j - 2]);
            lemma_contiguous_at(s, j - 1);
        }
    }
    assert forall|j: int|
        0 <= j < f.len() implies (#[trigger] f[j]).start_block_num <= f[j].end_block_num by {
        if j < i {
            assert(f[j] == s[j]);
        } else if j == i {
            assert(f[j] == a);
        } else if j == i + 1 {
            assert(f[j] == b);
        } else {
            assert(f[j] == s[j - 1]);
        }
    }
    if i + 1 == f.len() - 1 {
        assert(f.last() == b);
    } else {
        assert(f.last() == s[s.len() - 1]);
        assert(s.last() == s[s.len() - 1]);
    }
}

/// The empty state — no events, both watermarks at zero — is well
/// formed: the basis of every reachable state.
pub proof fn lemma_empty_state_well_formed(m: EventsModel)
    requires
        m.committed_events == Seq::<BlockEvent>::empty(),
        m.verified_events == Seq::<BlockEvent>::empty(),
    ensures
        state_well_formed(m),
{
}

/// A revert keeps each sequence internally contiguous and sorted: the
/// wholesale truncation retains a prefix of ranges.  Only the watermarks
/// can go stale — a revert does not recompute them.
pub proof fn lemma_revert_preserves_order(s: Seq<BlockEvent>, bound: u32)
    requires
        events_contiguous(s),
        events_proper(s),
    ensures
        events_contiguous(ends_at_most(s, bound)),
        events_proper(ends_at_most(s, bound)),
{
    lemma_contiguous_sorted(s);
    lemma_ends_at_most_prefix(s, bound);
    let k = choose|k: int| 0 <= k <= s.len() && ends_at_most(s, bound) == s.take(k);
    let f = s.take(k);
    assert forall|i: int|
        #![trigger f[i], f[i - 1]]
        0 < i < f.len() implies f[i].start_block_num == f[i - 1].end_block_num + 1 by {
        assert(f[i] == s[i]);
        assert(f[i - 1] == s[i - 1]);
        lemma_contiguous_at(s, i);
    }
    assert forall|i: int|
        0 <= i < f.len() implies (#[trigger] f[i]).start_block_num <= f[i].end_block_num by {
        assert(f[i] == s[i]);
    }
}

/// Split idempotence: the finalization query applied twice from a
/// well-formed state changes nothing the second time and returns the same
/// events — the first query leaves no straddling event behind.
pub proof fn lemma_finalize_idempotent(m: EventsModel)
    requires
        state_well_formed(m),
    ensures
        spec_finalize(spec_finalize(m).0).0 == spec_finalize(m).0,
        spec_finalize(spec_finalize(m).0).1 == spec_finalize(m).1,
{
    match spec_checkpoint(m.verified_events) {
        None => {},
        Some(checkpoint) => {
            let m1 = spec_finalize(m).0;
            assert(m1.verified_events == m.verified_events);
            if exists|i: int| first_straddler(m.committed_events, checkpoint, i) {
                let i = choose|i: int| first_straddler(m.committed_events, checkpoint, i);
                lemma_split_no_straddler(m.committed_events, checkpoint, i);
                assert forall|j: int| !first_straddler(m1.committed_events, checkpoint, j) by {
                    if 0 <= j < m1.committed_events.len() {
                        assert(!straddles(m1.committed_events[j], checkpoint));
                    }
                }
            } else {
                assert(m1.committed_events == m.committed_events);
            }
        },
    }
}

} // verus!

