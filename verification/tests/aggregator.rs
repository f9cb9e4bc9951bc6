use solana_aggregator::aggregator::{decide_event, Aggregator, Disposition, StopCause};
use solana_aggregator::blocks::{RawBlock, RawInstruction, RawParsedInstruction, RawTransaction};
use solana_aggregator::error::Error;
use solana_aggregator::source::{Benchmark, SourceEvent};
use solana_aggregator::storage::Memory;
use solana_aggregator::types::{Account, Block, Transaction};

fn raw_transfer(source: &str, destination: &str, lamports: u64) -> RawInstruction {
    RawInstruction::Parsed(RawParsedInstruction {
        program: "system".to_string(),
        kind: Some("transfer".to_string()),
        source: Some(source.to_string()),
        destination: Some(destination.to_string()),
        lamports: Some(lamports),
    })
}

fn raw_block(height: u64, instructions: Vec<RawInstruction>) -> RawBlock {
    RawBlock {
        block_height: Some(height),
        blockhash: format!("hash-{}", height),
        block_time: Some(height as i64),
        transactions: Some(vec![RawTransaction { instructions: Some(instructions) }]),
    }
}

fn block(height: u64, transactions: Vec<Transaction>) -> Block {
    Block {
        height,
        hash: height.to_string(),
        timestamp: height as i64,
        transactions,
    }
}

// Cancellation stops the loop whatever the event carried: a block that
// arrived after the signal is never processed.
#[test]
fn test_cancellation_processes_no_block() {
    let event = SourceEvent::Next(block(
        3,
        vec![Transaction { sender: "a".to_string(), receiver: "b".to_string(), amount: 1 }],
    ));
    assert!(matches!(
        decide_event(true, event),
        Disposition::Halt(StopCause::Cancelled)
    ));
}

#[test]
fn test_decisions_per_event() {
    // A block with transfers is forwarded.
    let full = block(
        0,
        vec![Transaction { sender: "a".to_string(), receiver: "b".to_string(), amount: 1 }],
    );
    match decide_event(false, SourceEvent::Next(full)) {
        Disposition::Forward(b) => assert_eq!(b.height, 0),
        other => panic!("expected forward, got {:?}", other),
    }
    // A block without transfers is skipped, not forwarded.
    assert!(matches!(
        decide_event(false, SourceEvent::Next(block(1, vec![]))),
        Disposition::Skip
    ));
    // A stream failure stops the loop, keeping the failure.
    match decide_event(false, SourceEvent::Failure(Error::Shutdown)) {
        Disposition::Halt(StopCause::StreamFailed(e)) => assert!(e.is_shutdown()),
        other => panic!("expected halt, got {:?}", other),
    }
    // End of stream stops the loop.
    assert!(matches!(
        decide_event(false, SourceEvent::EndOfStream),
        Disposition::Halt(StopCause::StreamEnded)
    ));
}

// The whole replay pipeline: fixture records through the parser, the
// source, the aggregator and into the ledger.
#[test]
fn test_replay_pipeline_end_to_end() {
    let records = vec![
        raw_block(0, vec![raw_transfer("A", "B", 1)]),
        raw_block(1, vec![raw_transfer("B", "A", 2)]),
        raw_block(2, vec![raw_transfer("B", "B", 5), raw_transfer("B", "A", 10)]),
    ];
    let source = Benchmark::new(records).unwrap();
    let mut aggregator = Aggregator::new(source, Memory::new());
    aggregator.run();

    let accounts = aggregator.storage.get_accounts();
    assert_eq!(accounts.len(), 2);
    assert!(accounts.contains(&Account { address: "A".to_string(), balance: 11 }));
    assert!(accounts.contains(&Account { address: "B".to_string(), balance: -11 }));
    assert_eq!(aggregator.storage.get_transactions(&"A".to_string()).len(), 3);
    assert_eq!(aggregator.storage.get_transactions(&"B".to_string()).len(), 4);
}

// A block with no recognized transfers never reaches storage: its
// height is not recorded, and later blocks still go through.
#[test]
fn test_replay_skips_empty_blocks() {
    let records = vec![
        raw_block(0, vec![raw_transfer("A", "B", 1)]),
        raw_block(1, vec![]),
        raw_block(2, vec![raw_transfer("A", "B", 2)]),
    ];
    let source = Benchmark::new(records).unwrap();
    let mut aggregator = Aggregator::new(source, Memory::new());
    aggregator.run();

    let accounts = aggregator.storage.get_accounts();
    assert!(accounts.contains(&Account { address: "B".to_string(), balance: 3 }));
    let indexed = aggregator.storage.get_transactions(&"A".to_string());
    assert_eq!(indexed.len(), 2);
    // The empty block's height was never stored; its timestamp shows nowhere.
    assert_eq!(indexed[0].timestamp, 0);
    assert_eq!(indexed[1].timestamp, 2);
}

// The loop stops at the first storage rejection and processes nothing
// after it.
#[test]
fn test_replay_stops_on_rejection() {
    let records = vec![
        raw_block(5, vec![raw_transfer("A", "B", 1)]),
        raw_block(3, vec![raw_transfer("A", "B", 100)]),
        raw_block(9, vec![raw_transfer("A", "B", 100)]),
    ];
    let source = Benchmark::new(records).unwrap();
    let mut aggregator = Aggregator::new(source, Memory::new());
    aggregator.run();

    let accounts = aggregator.storage.get_accounts();
    assert_eq!(accounts.len(), 2);
    assert!(accounts.contains(&Account { address: "B".to_string(), balance: 1 }));
    assert_eq!(aggregator.storage.get_transactions(&"A".to_string()).len(), 1);
}
