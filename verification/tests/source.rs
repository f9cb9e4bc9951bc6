use solana_aggregator::error::{Error, InvalidBlockReason};
use solana_aggregator::source::{
    classify_rpc_code, Benchmark, LiveState, LiveStep, SourceEvent, BLOCK_NOT_AVAILABLE,
    SLOT_SKIPPED,
};
use solana_aggregator::blocks::{RawBlock, RawInstruction, RawParsedInstruction, RawTransaction};

fn raw_transfer(source: &str, destination: &str, lamports: u64) -> RawInstruction {
    RawInstruction::Parsed(RawParsedInstruction {
        program: "system".to_string(),
        kind: Some("transfer".to_string()),
        source: Some(source.to_string()),
        destination: Some(destination.to_string()),
        lamports: Some(lamports),
    })
}

fn raw_block(height: u64, instructions: Vec<RawInstruction>) -> RawBlock {
    RawBlock {
        block_height: Some(height),
        blockhash: format!("hash-{}", height),
        block_time: Some(height as i64),
        transactions: Some(vec![RawTransaction { instructions: Some(instructions) }]),
    }
}

fn drain(source: &mut Benchmark, steps: usize) -> Vec<Option<u64>> {
    let mut events = Vec::new();
    for _ in 0..steps {
        match source.next() {
            SourceEvent::Next(block) => events.push(Some(block.height)),
            SourceEvent::EndOfStream => events.push(None),
            SourceEvent::Failure(error) => panic!("unexpected failure {:?}", error),
        }
    }
    events
}

#[test]
fn test_replay_in_order_then_end_of_stream() {
    let records = vec![raw_block(10, vec![raw_transfer("a", "b", 1)]), raw_block(11, vec![])];
    let mut source = Benchmark::new(records).unwrap();
    let events = drain(&mut source, 4);
    assert_eq!(events, vec![Some(10), Some(11), None, None]);
}

// The same fixture yields the same ordered event sequence, however the
// two consumers interleave their reads.
#[test]
fn test_replay_deterministic() {
    let records = || {
        vec![
            raw_block(5, vec![raw_transfer("a", "b", 1)]),
            raw_block(6, vec![]),
            raw_block(9, vec![raw_transfer("b", "a", 2)]),
        ]
    };
    let mut first = Benchmark::new(records()).unwrap();
    let mut second = Benchmark::new(records()).unwrap();
    let fast = drain(&mut first, 5);
    let mut slow = Vec::new();
    for chunk in [2usize, 1, 2] {
        slow.extend(drain(&mut second, chunk));
    }
    assert_eq!(fast, slow);
    assert_eq!(fast, vec![Some(5), Some(6), Some(9), None, None]);
}

#[test]
fn test_replay_rejects_malformed_record() {
    let bad = RawBlock {
        block_height: None,
        blockhash: "h".to_string(),
        block_time: Some(0),
        transactions: None,
    };
    assert!(Benchmark::new(vec![raw_block(1, vec![]), bad]).is_none());
}

#[test]
fn test_classify_rpc_codes() {
    assert_eq!(classify_rpc_code(BLOCK_NOT_AVAILABLE, 9), Some(Error::SlotNotAvailable(9)));
    assert_eq!(classify_rpc_code(SLOT_SKIPPED, 9), Some(Error::SlotSkippedOrMissing(9)));
    assert_eq!(classify_rpc_code(-32000, 9), None);
    assert_eq!(classify_rpc_code(0, 9), None);
}

// The retry schedule for one slot: two not-available outcomes direct
// two back-off sleeps with the cursor pinned to the slot; the delivered
// block is then yielded and the cursor advances exactly once.
#[test]
fn test_live_retries_same_slot_until_available() {
    let mut live = LiveState::new(42);
    for _ in 0..2 {
        let step = live.on_poll(false, Err(Error::SlotNotAvailable(42)));
        assert!(matches!(step, LiveStep::Backoff));
        assert_eq!(live.current_slot, 42);
    }
    let step = live.on_poll(false, Ok(raw_block(42, vec![raw_transfer("a", "b", 1)])));
    match step {
        LiveStep::Yield(SourceEvent::Next(block)) => {
            assert_eq!(block.height, 42);
            assert_eq!(block.transactions.len(), 1);
        }
        other => panic!("expected the block, got {:?}", other),
    }
    assert_eq!(live.current_slot, 43);
}

// A skipped slot advances the cursor immediately, with no delay step.
#[test]
fn test_live_skipped_slot_advances() {
    let mut live = LiveState::new(7);
    let step = live.on_poll(false, Err(Error::SlotSkippedOrMissing(7)));
    assert!(matches!(step, LiveStep::Advance));
    assert_eq!(live.current_slot, 8);
}

#[test]
fn test_live_terminal_failure_yields_cursor_unchanged() {
    let mut live = LiveState::new(7);
    let step = live.on_poll(false, Err(Error::RpcError("connection refused".to_string())));
    match step {
        LiveStep::Yield(SourceEvent::Failure(Error::RpcError(message))) => {
            assert_eq!(message, "connection refused");
        }
        other => panic!("expected the failure, got {:?}", other),
    }
    assert_eq!(live.current_slot, 7);
}

#[test]
fn test_live_malformed_block_is_terminal() {
    let mut live = LiveState::new(7);
    let bad = RawBlock {
        block_height: Some(7),
        blockhash: "h".to_string(),
        block_time: None,
        transactions: None,
    };
    let step = live.on_poll(false, Ok(bad));
    match step {
        LiveStep::Yield(SourceEvent::Failure(error)) => {
            assert_eq!(error, Error::InvalidBlock(7, InvalidBlockReason::MissingMetadata));
        }
        other => panic!("expected the failure, got {:?}", other),
    }
    assert_eq!(live.current_slot, 7);
}

// Cancellation wins over everything the poll observed and yields the
// quiet shutdown failure.
#[test]
fn test_live_cancellation_yields_shutdown() {
    let mut live = LiveState::new(7);
    let step = live.on_poll(true, Ok(raw_block(7, vec![])));
    match step {
        LiveStep::Yield(SourceEvent::Failure(error)) => {
            assert!(error.is_shutdown());
        }
        other => panic!("expected shutdown, got {:?}", other),
    }
    assert_eq!(live.current_slot, 7);
}
