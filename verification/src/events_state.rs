//! The reconciliation state: committed/verified event sequences, their
//! watermarks, and the operations of one reconciliation cycle.
//!
//! The mathematical model of the state is [`EventsModel`]; every operation
//! is specified as a function on that model.  A cycle is: prune finalized
//! history, advance the layer-1 cursor, apply the classified transitions of
//! a fetched batch in log order, and hand back the accumulated events.

use crate::events::{
    BlockEvent, BlockNumber, EventSignatures, EventType, Log, LogTransition, RecoverError,
    ZkLinkContractVersion, classify_log, spec_classify,
};
use vstd::prelude::*;

verus! {

/// Rollup contract events state description.
#[derive(Clone, Debug)]
pub struct RollUpEvents {
    /// Watermark: one past the end of the last committed range seen.
    pub last_committed_num: BlockNumber,
    /// Committed operations blocks events.
    pub committed_events: Vec<BlockEvent>,
    /// Watermark: one past the end of the last verified range seen.
    pub last_verified_num: BlockNumber,
    /// Verified operations blocks events.
    pub verified_events: Vec<BlockEvent>,
    /// Last watched layer-1 block number.
    pub last_watched_block_number: u64,
}

/// Mathematical model of [`RollUpEvents`].
pub ghost struct EventsModel {
    pub last_committed_num: BlockNumber,
    pub committed_events: Seq<BlockEvent>,
    pub last_verified_num: BlockNumber,
    pub verified_events: Seq<BlockEvent>,
    pub last_watched_block_number: u64,
}

impl Default for RollUpEvents {
    /// The empty state: no events seen, both watermarks at zero, the
    /// layer-1 cursor not yet seeded.
    fn default() -> (r: Self)
        ensures
            r.last_committed_num == 0,
            r.committed_events@ == Seq::<BlockEvent>::empty(),
            r.last_verified_num == 0,
            r.verified_events@ == Seq::<BlockEvent>::empty(),
            r.last_watched_block_number == 0,
    {
        RollUpEvents {
            last_committed_num: 0,
            committed_events: Vec::new(),
            last_verified_num: 0,
            verified_events: Vec::new(),
            last_watched_block_number: 0,
        }
    }
}

impl View for RollUpEvents {
    type V = EventsModel;

    open spec fn view(&self) -> EventsModel {
        EventsModel {
            last_committed_num: self.last_committed_num,
            committed_events: self.committed_events@,
            last_verified_num: self.last_verified_num,
            verified_events: self.verified_events@,
            last_watched_block_number: self.last_watched_block_number,
        }
    }
}

/// The events of `s` whose range end is at most `bound`, in order.
pub open spec fn ends_at_most(s: Seq<BlockEvent>, bound: u32) -> Seq<BlockEvent>
    decreases s.len(),
{
    if s.len() == 0 {
        s
    } else {
        let rest = ends_at_most(s.drop_last(), bound);
        if s.last().end_block_num <= bound {
            rest.push(s.last())
        } else {
            rest
        }
    }
}

/// The events of `s` whose range end is above `bound`, in order.
pub open spec fn ends_above(s: Seq<BlockEvent>, bound: u32) -> Seq<BlockEvent>
    decreases s.len(),
{
    if s.len() == 0 {
        s
    } else {
        let rest = ends_above(s.drop_last(), bound);
        if s.last().end_block_num > bound {
            rest.push(s.last())
        } else {
            rest
        }
    }
}

/// The greatest range end among the events of `s`, if any: the verification
/// checkpoint when `s` is the verified sequence.
pub open spec fn spec_checkpoint(s: Seq<BlockEvent>) -> Option<u32>
    decreases s.len(),
{
    if s.len() == 0 {
        None
    } else {
        match spec_checkpoint(s.drop_last()) {
            None => Some(s.last().end_block_num),
            Some(m) => Some(
                if s.last().end_block_num > m {
                    s.last().end_block_num
                } else {
                    m
                },
            ),
        }
    }
}

/// Effect of pruning on the model: the verified events are dropped
/// entirely (the caller has consumed them), and if they reached a
/// checkpoint, every committed event wholly at or below it is discarded.
pub open spec fn spec_prune(m: EventsModel) -> EventsModel {
    EventsModel {
        committed_events: match spec_checkpoint(m.verified_events) {
            None => m.committed_events,
            Some(checkpoint) => ends_above(m.committed_events, checkpoint),
        },
        verified_events: Seq::empty(),
        ..m
    }
}

/// Effect of one classified transition on the model.  An appended event
/// starts at the current watermark of its kind; the watermark then moves
/// one past the new range end.  A revert truncates both sequences
/// wholesale and leaves the watermarks untouched.
pub open spec fn spec_apply_transition(
    m: EventsModel,
    t: LogTransition,
    tx_hash: [u8; 32],
    contract_version: ZkLinkContractVersion,
) -> EventsModel {
    match t {
        LogTransition::Ignored => m,
        LogTransition::Revert { total_committed, total_verified } => EventsModel {
            committed_events: ends_at_most(m.committed_events, total_committed),
            verified_events: ends_at_most(m.verified_events, total_verified),
            ..m
        },
        LogTransition::NewCommitted(end) => EventsModel {
            committed_events: m.committed_events.push(
                BlockEvent {
                    start_block_num: m.last_committed_num,
                    end_block_num: end,
                    transaction_hash: tx_hash,
                    block_type: EventType::Committed,
                    contract_version,
                },
            ),
            last_committed_num: (end + 1) as u32,
            ..m
        },
        LogTransition::NewVerified(end) => EventsModel {
            verified_events: m.verified_events.push(
                BlockEvent {
                    start_block_num: m.last_verified_num,
                    end_block_num: end,
                    transaction_hash: tx_hash,
                    block_type: EventType::Verified,
                    contract_version,
                },
            ),
            last_verified_num: (end + 1) as u32,
            ..m
        },
    }
}

/// Effect of applying a batch of logs in order.  The boolean is false when
/// a log failed to decode; the model is then the state reached just before
/// that log, every earlier transition staying applied.
pub open spec fn spec_apply_logs(
    m: EventsModel,
    logs: Seq<Log>,
    signatures: EventSignatures,
    contract_version: ZkLinkContractVersion,
) -> (EventsModel, bool)
    decreases logs.len(),
{
    if logs.len() == 0 {
        (m, true)
    } else {
        let (prev, ok) = spec_apply_logs(m, logs.drop_last(), signatures, contract_version);
        if !ok {
            (prev, false)
        } else {
            match spec_classify(logs.last(), signatures) {
                Err(_) => (prev, false),
                Ok(t) => (
                    spec_apply_transition(prev, t, logs.last().transaction_hash, contract_version),
                    true,
                ),
            }
        }
    }
}

/// No commit or verify attestation in the batch ends at the largest block
/// number: the watermark after it, one past the range end, must itself be
/// a block number.
pub open spec fn spec_logs_end_ok(logs: Seq<Log>, signatures: EventSignatures) -> bool {
    forall|i: int|
        0 <= i < logs.len() ==> match #[trigger] spec_classify(logs[i], signatures) {
            Ok(LogTransition::NewCommitted(end)) => end < u32::MAX,
            Ok(LogTransition::NewVerified(end)) => end < u32::MAX,
            _ => true,
        }
}

/// The event's range straddles the checkpoint: it starts at or below it
/// and ends strictly above it.
pub open spec fn straddles(e: BlockEvent, checkpoint: u32) -> bool {
    e.start_block_num <= checkpoint < e.end_block_num
}

/// `i` is the first index of `s` whose event straddles the checkpoint.
pub open spec fn first_straddler(s: Seq<BlockEvent>, checkpoint: u32, i: int) -> bool {
    &&& 0 <= i < s.len()
    &&& straddles(s[i], checkpoint)
    &&& forall|j: int| 0 <= j < i ==> !straddles(#[trigger] s[j], checkpoint)
}

/// The sequence `s` with the event at `i` split at the checkpoint: the
/// original entry keeps the range up to the checkpoint, and a copy holding
/// the rest is inserted right after it.  The two ranges partition the
/// original exactly.
pub open spec fn split_at(s: Seq<BlockEvent>, checkpoint: u32, i: int) -> Seq<BlockEvent> {
    s.update(i, BlockEvent { end_block_num: checkpoint, ..s[i] }).insert(
        i + 1,
        BlockEvent { start_block_num: (checkpoint + 1) as u32, ..s[i] },
    )
}

/// Effect of the finalization query on the model, paired with what it
/// returns: the committed sequence, split at the verification checkpoint
/// if one event straddles it, and the fully-verified prefix handed out.
pub open spec fn spec_finalize(m: EventsModel) -> (EventsModel, Seq<BlockEvent>) {
    match spec_checkpoint(m.verified_events) {
        None => (m, Seq::empty()),
        Some(checkpoint) => {
            let committed = if exists|i: int| first_straddler(m.committed_events, checkpoint, i) {
                split_at(
                    m.committed_events,
                    checkpoint,
                    choose|i: int| first_straddler(m.committed_events, checkpoint, i),
                )
            } else {
                m.committed_events
            };
            (
                EventsModel { committed_events: committed, ..m },
                ends_at_most(committed, checkpoint),
            )
        },
    }
}

/// The events of `events` whose range end is at most `bound`, as copies.
fn events_with_end_at_most(events: &Vec<BlockEvent>, bound: u32) -> (r: Vec<BlockEvent>)
    ensures
        r@ == ends_at_most(events@, bound),
{
    let mut out: Vec<BlockEvent> = Vec::new();
    let mut i: usize = 0;
    while i < events.len()
        invariant
            i <= events@.len(),
            out@ == ends_at_most(events@.take(i as int), bound),
        decreases events@.len() - i,
    {
        proof {
            assert(events@.take(i + 1).drop_last() =~= events@.take(i as int));
            assert(events@.take(i + 1).last() == events@[i as int]);
        }
        if events[i].end_block_num <= bound {
            out.push(events[i]);
        }
        i += 1;
    }
    proof {
        assert(events@.take(events@.len() as int) =~= events@);
    }
    out
}

/// The events of `events` whose range end is above `bound`, as copies.
fn events_with_end_above(events: &Vec<BlockEvent>, bound: u32) -> (r: Vec<BlockEvent>)
    ensures
        r@ == ends_above(events@, bound),
{
    let mut out: Vec<BlockEvent> = Vec::new();
    let mut i: usize = 0;
    while i < events.len()
        invariant
            i <= events@.len(),
            out@ == ends_above(events@.take(i as int), bound),
        decreases events@.len() - i,
    {
        proof {
            assert(events@.take(i + 1).drop_last() =~= events@.take(i as int));
            assert(events@.take(i + 1).last() == events@[i as int]);
        }
        if events[i].end_block_num > bound {
            out.push(events[i]);
        }
        i += 1;
    }
    proof {
        assert(events@.take(events@.len() as int) =~= events@);
    }
    out
}

/// The greatest range end among `events`, if any.
fn max_end(events: &Vec<BlockEvent>) -> (r: Option<u32>)
    ensures
        r == spec_checkpoint(events@),
{
    let mut r: Option<u32> = None;
    let mut i: usize = 0;
    while i < events.len()
        invariant
            i <= events@.len(),
            r == spec_checkpoint(events@.take(i as int)),
        decreases events@.len() - i,
    {
        proof {
            assert(events@.take(i + 1).drop_last() =~= events@.take(i as int));
            assert(events@.take(i + 1).last() == events@[i as int]);
        }
        let end = events[i].end_block_num;
        r = match r {
            None => Some(end),
            Some(m) => Some(
                if end > m {
                    end
                } else {
                    m
                },
            ),
        };
        i += 1;
    }
    proof {
        assert(events@.take(events@.len() as int) =~= events@);
    }
    r
}

/// First index at which an event of `events` straddles the checkpoint.
fn find_first_straddler(events: &Vec<BlockEvent>, checkpoint: u32) -> (r: Option<usize>)
    ensures
        match r {
            Some(i) => first_straddler(events@, checkpoint, i as int),
            None => forall|j: int|
                0 <= j < events@.len() ==> !straddles(#[trigger] events@[j], checkpoint),
        },
{
    let mut i: usize = 0;
    while i < events.len()
        invariant
            i <= events@.len(),
            forall|j: int| 0 <= j < i ==> !straddles(#[trigger] events@[j], checkpoint),
        decreases events@.len() - i,
    {
        let e = events[i];
        if e.start_block_num <= checkpoint && checkpoint < e.end_block_num {
            return Some(i);
        }
        i += 1;
    }
    None
}

/// Once a log of the batch fails to decode, the whole batch fails, and the
/// state stays as the logs before it left it.
proof fn lemma_apply_logs_stuck(
    m: EventsModel,
    logs: Seq<Log>,
    signatures: EventSignatures,
    contract_version: ZkLinkContractVersion,
    i: int,
)
    requires
        0 <= i < logs.len(),
        spec_apply_logs(m, logs.take(i), signatures, contract_version).1,
        spec_classify(logs[i], signatures) is Err,
    ensures
        spec_apply_logs(m, logs, signatures, contract_version) == (
            spec_apply_logs(m, logs.take(i), signatures, contract_version).0,
            false,
        ),
    decreases logs.len(),
{
    if logs.len() == i + 1 {
        assert(logs.take(i) =~= logs.drop_last());
        assert(logs.last() == logs[i]);
    } else {
        assert(logs.drop_last().take(i) =~= logs.take(i));
        assert(logs.drop_last()[i] == logs[i]);
        lemma_apply_logs_stuck(m, logs.drop_last(), signatures, contract_version, i);
    }
}

impl RollUpEvents {
    /// Saves the genesis layer-1 block number as the last watched number
    /// and returns it; fails when the genesis transaction carries none.
    pub fn set_last_watched_block_number(&mut self, genesis_block_number: Option<u64>) -> (r:
        Result<u64, RecoverError>)
        ensures
            match genesis_block_number {
                Some(n) => r == Ok::<u64, RecoverError>(n) && final(self)@ == (EventsModel {
                    last_watched_block_number: n,
                    ..old(self)@
                }),
                None => r == Err::<u64, RecoverError>(RecoverError::GenesisInfoMissing)
                    && final(self)@ == old(self)@,
            },
    {
        match genesis_block_number {
            None => Err(RecoverError::GenesisInfoMissing),
            Some(n) => {
                self.last_watched_block_number = n;
                Ok(n)
            },
        }
    }

    /// One reconciliation cycle over an already-fetched batch: prune the
    /// finalized history, advance the layer-1 cursor to `to_block_number`,
    /// apply the batch in log order, and return the accumulated committed
    /// then verified events together with the new cursor.
    ///
    /// A batch whose log fails to decode yields a decode error; the
    /// transitions before the offending log stay applied.
    pub fn update_block_events(
        &mut self,
        signatures: &EventSignatures,
        logs: &Vec<Log>,
        to_block_number: u64,
        contract_version: ZkLinkContractVersion,
    ) -> (r: Result<(Vec<BlockEvent>, u64), RecoverError>)
        requires
            spec_logs_end_ok(logs@, *signatures),
        ensures
            ({
                let watched = EventsModel {
                    last_watched_block_number: to_block_number,
                    ..spec_prune(old(self)@)
                };
                let (applied, ok) = spec_apply_logs(watched, logs@, *signatures, contract_version);
                &&& final(self)@ == applied
                &&& match r {
                    Ok(p) => ok && p.0@ == applied.committed_events + applied.verified_events
                        && p.1 == to_block_number,
                    Err(e) => !ok && e == RecoverError::Decode,
                }
            }),
    {
        self.remove_verified_events();
        self.last_watched_block_number = to_block_number;
        match self.update_blocks_state(signatures, logs, contract_version) {
            Err(e) => {
                return Err(e);
            },
            Ok(()) => {},
        }
        let mut events_to_return: Vec<BlockEvent> = Vec::new();
        let mut i: usize = 0;
        while i < self.committed_events.len()
            invariant
                i <= self.committed_events@.len(),
                events_to_return@ == self.committed_events@.take(i as int),
            decreases self.committed_events@.len() - i,
        {
            events_to_return.push(self.committed_events[i]);
            proof {
                assert(self.committed_events@.take(i + 1) =~= self.committed_events@.take(
                    i as int,
                ).push(self.committed_events@[i as int]));
            }
            i += 1;
        }
        proof {
            assert(self.committed_events@.take(self.committed_events@.len() as int)
                =~= self.committed_events@);
        }
        let mut j: usize = 0;
        while j < self.verified_events.len()
            invariant
                j <= self.verified_events@.len(),
                events_to_return@ == self.committed_events@ + self.verified_events@.take(j as int),
            decreases self.verified_events@.len() - j,
        {
            events_to_return.push(self.verified_events[j]);
            proof {
                assert(self.committed_events@ + self.verified_events@.take(j + 1)
                    =~= (self.committed_events@ + self.verified_events@.take(j as int)).push(
                    self.verified_events@[j as int],
                ));
            }
            j += 1;
        }
        proof {
            assert(self.verified_events@.take(self.verified_events@.len() as int)
                =~= self.verified_events@);
        }
        Ok((events_to_return, to_block_number))
    }

    /// Applies a batch of decoded logs to the committed and verified
    /// sequences, in original order, stopping at the first log that fails
    /// to decode.
    pub fn update_blocks_state(
        &mut self,
        signatures: &EventSignatures,
        logs: &Vec<Log>,
        contract_version: ZkLinkContractVersion,
    ) -> (r: Result<(), RecoverError>)
        requires
            spec_logs_end_ok(logs@, *signatures),
        ensures
            ({
                let (applied, ok) = spec_apply_logs(
                    old(self)@,
                    logs@,
                    *signatures,
                    contract_version,
                );
                &&& final(self)@ == applied
                &&& r == (if ok {
                    Ok::<(), RecoverError>(())
                } else {
                    Err::<(), RecoverError>(RecoverError::Decode)
                })
            }),
    {
        let ghost m0 = self@;
        let mut idx: usize = 0;
        while idx < logs.len()
            invariant
                idx <= logs@.len(),
                m0 == old(self)@,
                spec_logs_end_ok(logs@, *signatures),
                spec_apply_logs(m0, logs@.take(idx as int), *signatures, contract_version) == (
                    self@,
                    true,
                ),
            decreases logs@.len() - idx,
        {
            let log = &logs[idx];
            proof {
                assert(logs@.take(idx + 1).drop_last() =~= logs@.take(idx as int));
                assert(logs@.take(idx + 1).last() == logs@[idx as int]);
            }
            match classify_log(log, signatures) {
                Err(_) => {
                    proof {
                        lemma_apply_logs_stuck(
                            m0,
                            logs@,
                            *signatures,
                            contract_version,
                            idx as int,
                        );
                    }
                    return Err(RecoverError::Decode);
                },
                Ok(LogTransition::Ignored) => {},
                Ok(LogTransition::Revert { total_committed, total_verified }) => {
                    let committed_retained = events_with_end_at_most(
                        &self.committed_events,
                        total_committed,
                    );
                    self.committed_events = committed_retained;
                    let verified_retained = events_with_end_at_most(
                        &self.verified_events,
                        total_verified,
                    );
                    self.verified_events = verified_retained;
                },
                Ok(LogTransition::NewCommitted(end)) => {
                    let block = BlockEvent {
                        start_block_num: self.last_committed_num,
                        end_block_num: end,
                        transaction_hash: log.transaction_hash,
                        block_type: EventType::Committed,
                        contract_version,
                    };
                    self.committed_events.push(block);
                    self.last_committed_num = end + 1;
                },
                Ok(LogTransition::NewVerified(end)) => {
                    let block = BlockEvent {
                        start_block_num: self.last_verified_num,
                        end_block_num: end,
                        transaction_hash: log.transaction_hash,
                        block_type: EventType::Verified,
                        contract_version,
                    };
                    self.verified_events.push(block);
                    self.last_verified_num = end + 1;
                },
            }
            idx += 1;
        }
        proof {
            assert(logs@.take(logs@.len() as int) =~= logs@);
        }
        Ok(())
    }

    /// Prunes the engine's memory: drops all verified events (the caller
    /// has consumed them) and discards every committed event whose range
    /// lies wholly at or below the verification checkpoint.
    fn remove_verified_events(&mut self)
        ensures
            final(self)@ == spec_prune(old(self)@),
    {
        let verified_block_checkpoint = max_end(&self.verified_events);
        self.verified_events.clear();
        if let Some(checkpoint) = verified_block_checkpoint {
            let retained = events_with_end_above(&self.committed_events, checkpoint);
            self.committed_events = retained;
        }
    }

    /// Returns copies of the committed events that are wholly covered by
    /// verification, splitting in place the one event that straddles the
    /// verification checkpoint so that the boundary aligns exactly.
    pub fn get_only_verified_committed_events(&mut self) -> (r: Vec<BlockEvent>)
        ensures
            final(self)@ == spec_finalize(old(self)@).0,
            r@ == spec_finalize(old(self)@).1,
    {
        let verified_block_checkpoint = max_end(&self.verified_events);
        match verified_block_checkpoint {
            None => Vec::new(),
            Some(checkpoint) => {
                match find_first_straddler(&self.committed_events, checkpoint) {
                    Some(index) => {
                        let n = self.committed_events.len();
                        let first_event = self.committed_events[index];
                        let mut updated = first_event;
                        updated.end_block_num = checkpoint;
                        let mut second_event = first_event;
                        second_event.start_block_num = checkpoint + 1;
                        self.committed_events[index] = updated;
                        self.committed_events.insert(index + 1, second_event);
                        proof {
                            let ce0 = old(self)@.committed_events;
                            let i = choose|i: int| first_straddler(ce0, checkpoint, i);
                            assert(first_straddler(ce0, checkpoint, index as int));
                            if i < index as int {
                                assert(straddles(ce0[i], checkpoint));
                            }
                            if i > index as int {
                                assert(straddles(ce0[index as int], checkpoint));
                            }
                            assert(i == index as int);
                            assert(self.committed_events@ =~= split_at(
                                ce0,
                                checkpoint,
                                index as int,
                            ));
                        }
                    },
                    None => {
                        proof {
                            let ce0 = old(self)@.committed_events;
                            assert forall|i: int| !first_straddler(ce0, checkpoint, i) by {
                                if 0 <= i < ce0.len() {
                                    assert(!straddles(ce0[i], checkpoint));
                                }
                            }
                        }
                    },
                }
                events_with_end_at_most(&self.committed_events, checkpoint)
            },
        }
    }
}

} // verus!
