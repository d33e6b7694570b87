//! Event records decoded from layer-1 logs, and the log classifier.
//!
//! A layer-1 contract announces progress of the rollup chain through three
//! kinds of logs: a commit attestation, a verify attestation, and a revert
//! notification.  [`classify_log`] turns one decoded log into a
//! [`LogTransition`], the closed set of state transitions that the
//! reconciliation engine applies.

use vstd::prelude::*;

verus! {

/// A rollup (layer-2) block height.
pub type BlockNumber = u32;

/// Tag telling whether a [`BlockEvent`] attests a commit or a verification.
#[derive(Clone, Copy, Debug, PartialEq, Eq, Structural)]
pub enum EventType {
    Committed,
    Verified,
}

/// Revision of the layer-1 contract that emitted a log.  It is carried
/// opaquely on each event; only downstream decoding elsewhere depends on it.
#[derive(Clone, Copy, Debug, PartialEq, Eq, Structural)]
pub enum ZkLinkContractVersion {
    V0,
    V1,
    V2,
    V3,
    V4,
    V5,
}

/// One contiguous range of rollup block numbers attested by a single
/// layer-1 transaction.
///
/// `start_block_num ..= end_block_num` is the attested range, both ends
/// inclusive.  The start is never carried by the log itself: the engine
/// assigns it from its watermark at the moment of insertion.
#[derive(Clone, Copy, Debug, PartialEq, Eq)]
pub struct BlockEvent {
    /// First rollup block of the attested range (inclusive).
    pub start_block_num: BlockNumber,
    /// Last rollup block of the attested range (inclusive).
    pub end_block_num: BlockNumber,
    /// Hash of the layer-1 transaction that produced this attestation.
    pub transaction_hash: [u8; 32],
    /// Commit or verification.
    pub block_type: EventType,
    /// Contract revision that emitted the log.
    pub contract_version: ZkLinkContractVersion,
}

/// A decoded layer-1 log record, as handed in by the log source.
///
/// `topics` are the indexed 32-byte words of the log; `data` is the raw
/// non-indexed payload.
#[derive(Clone, Debug)]
pub struct Log {
    /// Indexed topic words; `topics[0]` identifies the log kind.
    pub topics: Vec<[u8; 32]>,
    /// Non-indexed payload bytes.
    pub data: Vec<u8>,
    /// Hash of the transaction the log belongs to.
    pub transaction_hash: [u8; 32],
}

/// The three stable topic identifiers the classifier recognizes.
#[derive(Clone, Copy, Debug)]
pub struct EventSignatures {
    /// Topic of a commit attestation.
    pub committed: [u8; 32],
    /// Topic of a verify attestation.
    pub verified: [u8; 32],
    /// Topic of a revert notification.
    pub reverted: [u8; 32],
}

/// The state transition one log asks for.
#[derive(Clone, Copy, Debug, PartialEq, Eq, Structural)]
pub enum LogTransition {
    /// Truncate history: drop committed events past `total_committed` and
    /// verified events past `total_verified`.
    Revert { total_committed: u32, total_verified: u32 },
    /// Append a committed range ending at the given block.
    NewCommitted(BlockNumber),
    /// Append a verified range ending at the given block.
    NewVerified(BlockNumber),
    /// Topic matches none of the known signatures; skipped silently.
    Ignored,
}

/// Errors of the reconciliation engine.
#[derive(Clone, Copy, Debug, PartialEq, Eq, Structural)]
pub enum RecoverError {
    /// A log's topics or payload do not have the expected byte layout.
    Decode,
    /// The genesis transaction carries no block number.
    GenesisInfoMissing,
}

/// Value of a 32-byte big-endian word truncated to 32 bits: the last four
/// bytes, most significant first.
pub open spec fn spec_be_u32(w: Seq<u8>) -> u32 {
    (w[28] * 0x100_0000 + w[29] * 0x1_0000 + w[30] * 0x100 + w[31]) as u32
}

/// How one decoded log is classified, given the three known topic
/// identifiers.
///
/// - no topics at all: the log cannot be identified, a decode error;
/// - revert topic: the payload must be exactly two 32-byte big-endian
///   integers, total verified first, total committed second;
/// - commit/verify topic: the second topic word carries the attested range
///   end, truncated to 32 bits;
/// - anything else is ignored.
pub open spec fn spec_classify(log: Log, signatures: EventSignatures) -> Result<
    LogTransition,
    RecoverError,
> {
    if log.topics@.len() == 0 {
        Err(RecoverError::Decode)
    } else if log.topics@[0]@ == signatures.reverted@ {
        if log.data@.len() != 64 {
            Err(RecoverError::Decode)
        } else {
            Ok(
                LogTransition::Revert {
                    total_verified: spec_be_u32(log.data@.take(32)),
                    total_committed: spec_be_u32(log.data@.skip(32)),
                },
            )
        }
    } else if log.topics@[0]@ == signatures.verified@ {
        if log.topics@.len() < 2 {
            Err(RecoverError::Decode)
        } else {
            Ok(LogTransition::NewVerified(spec_be_u32(log.topics@[1]@)))
        }
    } else if log.topics@[0]@ == signatures.committed@ {
        if log.topics@.len() < 2 {
            Err(RecoverError::Decode)
        } else {
            Ok(LogTransition::NewCommitted(spec_be_u32(log.topics@[1]@)))
        }
    } else {
        Ok(LogTransition::Ignored)
    }
}

/// Byte-wise equality of two 32-byte words.
fn word_eq(a: &[u8; 32], b: &[u8; 32]) -> (r: bool)
    ensures
        r == (a@ == b@),
{
    let mut i: usize = 0;
    while i < 32
        invariant
            i <= 32,
            forall|j: int| 0 <= j < i ==> a@[j] == b@[j],
        decreases 32 - i,
    {
        if a[i] != b[i] {
            return false;
        }
        i += 1;
    }
    proof {
        assert(a@ =~= b@);
    }
    true
}

/// Big-endian 32-bit value of the tail of a 32-byte topic word.
fn be_u32_of_word(w: &[u8; 32]) -> (r: u32)
    ensures
        r == spec_be_u32(w@),
{
    (w[28] as u32) * 0x100_0000 + (w[29] as u32) * 0x1_0000 + (w[30] as u32) * 0x100 + (
    w[31] as u32)
}

/// Big-endian 32-bit value of the tail of the 32-byte word starting at
/// `off` in `bytes`.
fn be_u32_at(bytes: &Vec<u8>, off: usize) -> (r: u32)
    requires
        off + 32 <= bytes@.len() <= usize::MAX,
    ensures
        r == spec_be_u32(bytes@.subrange(off as int, off as int + 32)),
{
    (bytes[off + 28] as u32) * 0x100_0000 + (bytes[off + 29] as u32) * 0x1_0000 + (bytes[off + 30]
        as u32) * 0x100 + (bytes[off + 31] as u32)
}

/// Classifies one decoded log against the known topic identifiers.
pub fn classify_log(log: &Log, signatures: &EventSignatures) -> (r: Result<
    LogTransition,
    RecoverError,
>)
    ensures
        r == spec_classify(*log, *signatures),
{
    if log.topics.len() == 0 {
        return Err(RecoverError::Decode);
    }
    let topic = log.topics[0];
    if word_eq(&topic, &signatures.reverted) {
        if log.data.len() != 64 {
            return Err(RecoverError::Decode);
        }
        let total_verified = be_u32_at(&log.data, 0);
        let total_committed = be_u32_at(&log.data, 32);
        proof {
            assert(log.data@.subrange(0, 32) =~= log.data@.take(32));
            assert(log.data@.subrange(32, 64) =~= log.data@.skip(32));
        }
        Ok(LogTransition::Revert { total_committed, total_verified })
    } else if word_eq(&topic, &signatures.verified) {
        if log.topics.len() < 2 {
            return Err(RecoverError::Decode);
        }
        Ok(LogTransition::NewVerified(be_u32_of_word(&log.topics[1])))
    } else if word_eq(&topic, &signatures.committed) {
        if log.topics.len() < 2 {
            return Err(RecoverError::Decode);
        }
        Ok(LogTransition::NewCommitted(be_u32_of_word(&log.topics[1])))
    } else {
        Ok(LogTransition::Ignored)
    }
}

} // verus!
