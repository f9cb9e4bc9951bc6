use solana_aggregator::blocks::{
    parse_block, parse_instruction, parse_transaction, RawBlock, RawInstruction,
    RawParsedInstruction, RawTransaction,
};
use solana_aggregator::types::Transaction;

fn raw_transfer(source: &str, destination: &str, lamports: u64) -> RawInstruction {
    RawInstruction::Parsed(RawParsedInstruction {
        program: "system".to_string(),
        kind: Some("transfer".to_string()),
        source: Some(source.to_string()),
        destination: Some(destination.to_string()),
        lamports: Some(lamports),
    })
}

#[test]
fn test_parse_transfer_instruction() {
    let parsed = parse_instruction(&raw_transfer("alice", "bob", 42));
    assert_eq!(
        parsed,
        Some(Transaction {
            sender: "alice".to_string(),
            receiver: "bob".to_string(),
            amount: 42,
        })
    );
}

#[test]
fn test_parse_drops_unrecognized_instructions() {
    // A different program.
    let mut other = match raw_transfer("a", "b", 1) {
        RawInstruction::Parsed(p) => p,
        _ => unreachable!(),
    };
    other.program = "spl-token".to_string();
    assert_eq!(parse_instruction(&RawInstruction::Parsed(other.clone())), None);

    // A different instruction kind.
    other.program = "system".to_string();
    other.kind = Some("createAccount".to_string());
    assert_eq!(parse_instruction(&RawInstruction::Parsed(other.clone())), None);

    // A missing kind, and missing transfer fields.
    other.kind = None;
    assert_eq!(parse_instruction(&RawInstruction::Parsed(other.clone())), None);
    other.kind = Some("transfer".to_string());
    other.lamports = None;
    assert_eq!(parse_instruction(&RawInstruction::Parsed(other.clone())), None);
    other.lamports = Some(1);
    other.source = None;
    assert_eq!(parse_instruction(&RawInstruction::Parsed(other.clone())), None);
    other.source = Some("a".to_string());
    other.destination = None;
    assert_eq!(parse_instruction(&RawInstruction::Parsed(other)), None);

    // An instruction that did not arrive parsed.
    assert_eq!(parse_instruction(&RawInstruction::Other), None);
}

#[test]
fn test_parse_transaction_filters() {
    // Not delivered in parsed JSON form: no instruction list at all.
    assert_eq!(parse_transaction(&RawTransaction { instructions: None }), None);

    // A mix: only the recognized transfers remain, in order.
    let transaction = RawTransaction {
        instructions: Some(vec![
            RawInstruction::Other,
            raw_transfer("a", "b", 1),
            RawInstruction::Other,
            raw_transfer("b", "c", 2),
        ]),
    };
    let transfers = parse_transaction(&transaction).unwrap();
    assert_eq!(transfers.len(), 2);
    assert_eq!(transfers[0].sender, "a");
    assert_eq!(transfers[1].sender, "b");
    assert_eq!(transfers[1].amount, 2);
}

#[test]
fn test_parse_block_metadata() {
    let raw = RawBlock {
        block_height: Some(7),
        blockhash: "abcd".to_string(),
        block_time: Some(1700000000),
        transactions: Some(vec![
            RawTransaction { instructions: Some(vec![raw_transfer("a", "b", 9)]) },
            RawTransaction { instructions: None },
        ]),
    };
    let block = parse_block(&raw).unwrap();
    assert_eq!(block.height, 7);
    assert_eq!(block.hash, "abcd");
    assert_eq!(block.timestamp, 1700000000);
    assert_eq!(block.transactions.len(), 1);
    assert_eq!(block.transactions[0].amount, 9);
}

#[test]
fn test_parse_block_requires_height_and_time() {
    let mut raw = RawBlock {
        block_height: None,
        blockhash: "h".to_string(),
        block_time: Some(1),
        transactions: None,
    };
    assert!(parse_block(&raw).is_none());
    raw.block_height = Some(1);
    raw.block_time = None;
    assert!(parse_block(&raw).is_none());
    raw.block_time = Some(1);
    let block = parse_block(&raw).unwrap();
    // A block with no recognized transfers is still a valid block.
    assert_eq!(block.transactions.len(), 0);
    assert_eq!(block.height, 1);
}
