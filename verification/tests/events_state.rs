use rollup_events::events::{
    BlockEvent, EventSignatures, EventType, Log, LogTransition, RecoverError,
    ZkLinkContractVersion,
};
use rollup_events::events_state::RollUpEvents;

fn u32_to_32bytes(v: u32) -> [u8; 32] {
    let mut w = [0u8; 32];
    w[28..32].copy_from_slice(&v.to_be_bytes());
    w
}

fn signatures() -> EventSignatures {
    EventSignatures { committed: [1u8; 32], verified: [2u8; 32], reverted: [3u8; 32] }
}

fn make_log(topic: [u8; 32], end: u32, tx: u32) -> Log {
    Log {
        topics: vec![topic, u32_to_32bytes(end)],
        data: vec![],
        transaction_hash: u32_to_32bytes(tx),
    }
}

fn revert_log(total_verified: u32, total_committed: u32) -> Log {
    let mut data = vec![];
    data.extend(&u32_to_32bytes(total_verified));
    data.extend(&u32_to_32bytes(total_committed));
    Log { topics: vec![[3u8; 32], u32_to_32bytes(3)], data, transaction_hash: u32_to_32bytes(1) }
}

#[test]
fn event_state() {
    let mut events_state = RollUpEvents::default();
    let sigs = signatures();

    let mut logs = vec![];
    for i in 0..32 {
        logs.push(make_log(sigs.committed, i, i));
        logs.push(make_log(sigs.verified, i, i));
    }

    let v0 = ZkLinkContractVersion::V0;
    events_state.update_blocks_state(&sigs, &logs, v0).unwrap();
    assert_eq!(events_state.committed_events.len(), 32);
    assert_eq!(events_state.verified_events.len(), 32);

    let last_block_ver = u32_to_32bytes(15);
    let last_block_com = u32_to_32bytes(10);
    let mut data = vec![];
    data.extend(&last_block_com);
    data.extend(&last_block_ver);
    let log = Log {
        topics: vec![[3u8; 32], u32_to_32bytes(3)],
        data,
        transaction_hash: u32_to_32bytes(1),
    };
    events_state.update_blocks_state(&sigs, &vec![log], v0).unwrap();
    assert_eq!(events_state.committed_events.len(), 16);
    assert_eq!(events_state.verified_events.len(), 11);
}

#[test]
fn end_to_end_scenario() {
    let mut events_state = RollUpEvents::default();
    let sigs = signatures();
    let v0 = ZkLinkContractVersion::V0;

    let mut logs = vec![];
    for i in 0..32 {
        logs.push(make_log(sigs.committed, i, i));
        logs.push(make_log(sigs.verified, i, i));
    }
    events_state.update_blocks_state(&sigs, &logs, v0).unwrap();
    assert_eq!(events_state.committed_events.len(), 32);
    assert_eq!(events_state.verified_events.len(), 32);
    assert_eq!(events_state.last_committed_num, 32);
    assert_eq!(events_state.last_verified_num, 32);
    for i in 0..32usize {
        assert_eq!(events_state.committed_events[i].start_block_num, i as u32);
        assert_eq!(events_state.committed_events[i].end_block_num, i as u32);
        assert_eq!(events_state.committed_events[i].block_type, EventType::Committed);
        assert_eq!(events_state.verified_events[i].block_type, EventType::Verified);
    }

    // payload halves: total executed (verified) first, total committed second
    events_state.update_blocks_state(&sigs, &vec![revert_log(15, 10)], v0).unwrap();
    assert_eq!(events_state.committed_events.len(), 11);
    assert_eq!(events_state.verified_events.len(), 16);
    assert_eq!(events_state.committed_events.last().unwrap().end_block_num, 10);
    assert_eq!(events_state.verified_events.last().unwrap().end_block_num, 15);
}

#[test]
fn revert_truncation() {
    let mut events_state = RollUpEvents::default();
    let sigs = signatures();
    let v0 = ZkLinkContractVersion::V0;

    let logs = vec![
        make_log(sigs.committed, 9, 1),
        make_log(sigs.committed, 19, 2),
        make_log(sigs.committed, 29, 3),
        make_log(sigs.verified, 9, 4),
        make_log(sigs.verified, 19, 5),
    ];
    events_state.update_blocks_state(&sigs, &logs, v0).unwrap();

    events_state.update_blocks_state(&sigs, &vec![revert_log(9, 15)], v0).unwrap();
    assert_eq!(events_state.committed_events.len(), 1);
    assert_eq!(events_state.committed_events[0].end_block_num, 9);
    assert_eq!(events_state.verified_events.len(), 1);
    assert_eq!(events_state.verified_events[0].end_block_num, 9);
}

#[test]
fn split_correctness() {
    let mut events_state = RollUpEvents::default();
    let sigs = signatures();
    let v0 = ZkLinkContractVersion::V0;

    let logs = vec![make_log(sigs.committed, 31, 1), make_log(sigs.verified, 15, 2)];
    events_state.update_blocks_state(&sigs, &logs, v0).unwrap();

    let finalized = events_state.get_only_verified_committed_events();
    assert_eq!(finalized.len(), 1);
    assert_eq!(finalized[0].start_block_num, 0);
    assert_eq!(finalized[0].end_block_num, 15);

    assert_eq!(events_state.committed_events.len(), 2);
    assert_eq!(events_state.committed_events[0].start_block_num, 0);
    assert_eq!(events_state.committed_events[0].end_block_num, 15);
    assert_eq!(events_state.committed_events[1].start_block_num, 16);
    assert_eq!(events_state.committed_events[1].end_block_num, 31);
    assert_eq!(events_state.committed_events[1].block_type, EventType::Committed);
}

#[test]
fn split_idempotence() {
    let mut events_state = RollUpEvents::default();
    let sigs = signatures();
    let v0 = ZkLinkContractVersion::V0;

    let logs = vec![
        make_log(sigs.committed, 7, 1),
        make_log(sigs.committed, 31, 2),
        make_log(sigs.verified, 15, 3),
    ];
    events_state.update_blocks_state(&sigs, &logs, v0).unwrap();

    let first = events_state.get_only_verified_committed_events();
    let state_after_first = events_state.clone();
    let second = events_state.get_only_verified_committed_events();
    assert_eq!(first, second);
    assert_eq!(events_state.committed_events, state_after_first.committed_events);
    assert_eq!(events_state.verified_events, state_after_first.verified_events);
    assert_eq!(first.len(), 2);
    assert_eq!(first[0].end_block_num, 7);
    assert_eq!(first[1].start_block_num, 8);
    assert_eq!(first[1].end_block_num, 15);
}

#[test]
fn query_without_checkpoint_is_empty() {
    let mut events_state = RollUpEvents::default();
    let sigs = signatures();
    let v0 = ZkLinkContractVersion::V0;

    let logs = vec![make_log(sigs.committed, 5, 1)];
    events_state.update_blocks_state(&sigs, &logs, v0).unwrap();
    let finalized = events_state.get_only_verified_committed_events();
    assert!(finalized.is_empty());
    assert_eq!(events_state.committed_events.len(), 1);
}

#[test]
fn cycle_prunes_finalized_history() {
    let mut events_state = RollUpEvents::default();
    let sigs = signatures();
    let v0 = ZkLinkContractVersion::V0;

    let logs = vec![
        make_log(sigs.committed, 9, 1),
        make_log(sigs.committed, 19, 2),
        make_log(sigs.verified, 9, 3),
    ];
    events_state.update_blocks_state(&sigs, &logs, v0).unwrap();

    let (events, watched) = events_state.update_block_events(&sigs, &vec![], 77, v0).unwrap();
    // the committed event fully covered by the checkpoint 9 is gone
    assert_eq!(events_state.committed_events.len(), 1);
    assert_eq!(events_state.committed_events[0].start_block_num, 10);
    assert_eq!(events_state.committed_events[0].end_block_num, 19);
    assert!(events_state.verified_events.is_empty());
    assert_eq!(events.len(), 1);
    assert_eq!(watched, 77);
    assert_eq!(events_state.last_watched_block_number, 77);
}

#[test]
fn cycle_returns_committed_then_verified() {
    let mut events_state = RollUpEvents::default();
    let sigs = signatures();
    let v0 = ZkLinkContractVersion::V0;

    let logs = vec![
        make_log(sigs.committed, 3, 1),
        make_log(sigs.verified, 3, 2),
        make_log(sigs.committed, 6, 3),
    ];
    let (events, watched) = events_state.update_block_events(&sigs, &logs, 50, v0).unwrap();
    assert_eq!(watched, 50);
    assert_eq!(events.len(), 3);
    assert_eq!(events[0].block_type, EventType::Committed);
    assert_eq!(events[0].end_block_num, 3);
    assert_eq!(events[1].block_type, EventType::Committed);
    assert_eq!(events[1].end_block_num, 6);
    assert_eq!(events[2].block_type, EventType::Verified);
    assert_eq!(events[2].end_block_num, 3);
}

#[test]
fn decode_error_keeps_prior_events() {
    let mut events_state = RollUpEvents::default();
    let sigs = signatures();
    let v0 = ZkLinkContractVersion::V0;

    let bad_revert = Log {
        topics: vec![[3u8; 32]],
        data: vec![0u8; 63],
        transaction_hash: u32_to_32bytes(9),
    };
    let logs = vec![make_log(sigs.committed, 5, 1), bad_revert, make_log(sigs.committed, 9, 2)];
    let r = events_state.update_blocks_state(&sigs, &logs, v0);
    assert_eq!(r, Err(RecoverError::Decode));
    // the log before the offending one is applied, the one after is not
    assert_eq!(events_state.committed_events.len(), 1);
    assert_eq!(events_state.committed_events[0].end_block_num, 5);
}

#[test]
fn log_without_topics_is_decode_error() {
    let mut events_state = RollUpEvents::default();
    let sigs = signatures();
    let v0 = ZkLinkContractVersion::V0;

    let log = Log { topics: vec![], data: vec![], transaction_hash: u32_to_32bytes(1) };
    assert_eq!(
        events_state.update_blocks_state(&sigs, &vec![log], v0),
        Err(RecoverError::Decode)
    );
}

#[test]
fn attestation_without_range_end_is_decode_error() {
    let sigs = signatures();
    let log = Log {
        topics: vec![sigs.committed],
        data: vec![],
        transaction_hash: u32_to_32bytes(1),
    };
    assert_eq!(rollup_events::events::classify_log(&log, &sigs), Err(RecoverError::Decode));
}

#[test]
fn unknown_topic_is_ignored() {
    let mut events_state = RollUpEvents::default();
    let sigs = signatures();
    let v0 = ZkLinkContractVersion::V0;

    let log = Log {
        topics: vec![[9u8; 32], u32_to_32bytes(4)],
        data: vec![],
        transaction_hash: u32_to_32bytes(1),
    };
    assert_eq!(rollup_events::events::classify_log(&log, &sigs), Ok(LogTransition::Ignored));
    events_state.update_blocks_state(&sigs, &vec![log], v0).unwrap();
    assert!(events_state.committed_events.is_empty());
    assert!(events_state.verified_events.is_empty());
}

#[test]
fn range_end_is_truncated_big_endian() {
    let sigs = signatures();
    let mut word = [0u8; 32];
    word[0] = 0xff; // high bytes beyond 32 bits are ignored
    word[28] = 0x01;
    word[29] = 0x02;
    word[30] = 0x03;
    word[31] = 0x04;
    let log = Log {
        topics: vec![sigs.committed, word],
        data: vec![],
        transaction_hash: u32_to_32bytes(1),
    };
    assert_eq!(
        rollup_events::events::classify_log(&log, &sigs),
        Ok(LogTransition::NewCommitted(0x0102_0304))
    );
}

#[test]
fn revert_payload_decodes_both_totals() {
    let sigs = signatures();
    let log = revert_log(21, 42);
    assert_eq!(
        rollup_events::events::classify_log(&log, &sigs),
        Ok(LogTransition::Revert { total_committed: 42, total_verified: 21 })
    );
}

#[test]
fn set_last_watched_block_number_records_genesis() {
    let mut events_state = RollUpEvents::default();
    assert_eq!(events_state.set_last_watched_block_number(Some(123)), Ok(123));
    assert_eq!(events_state.last_watched_block_number, 123);
}

#[test]
fn set_last_watched_block_number_missing_genesis() {
    let mut events_state = RollUpEvents::default();
    assert_eq!(
        events_state.set_last_watched_block_number(None),
        Err(RecoverError::GenesisInfoMissing)
    );
    assert_eq!(events_state.last_watched_block_number, 0);
}

#[test]
fn appended_event_carries_hash_and_version() {
    let mut events_state = RollUpEvents::default();
    let sigs = signatures();
    let logs = vec![make_log(sigs.committed, 4, 77)];
    events_state.update_blocks_state(&sigs, &logs, ZkLinkContractVersion::V2).unwrap();
    let e: &BlockEvent = &events_state.committed_events[0];
    assert_eq!(e.transaction_hash, u32_to_32bytes(77));
    assert_eq!(e.contract_version, ZkLinkContractVersion::V2);
}
