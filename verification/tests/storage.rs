use solana_aggregator::error::{Error, InvalidBlockReason};
use solana_aggregator::storage::{apply_command, Memory, StorageCommand, StorageResponse};
use solana_aggregator::types::{Account, Block, Transaction, TransactionWithMeta};

fn assert_accounts(memory: &Memory, expected_accounts: &Vec<Account>) {
    let accounts = memory.get_accounts();
    assert_eq!(accounts.len(), expected_accounts.len());
    for account in expected_accounts.clone() {
        assert!(accounts.contains(&account));
    }
}

fn assert_transactions(
    memory: &Memory,
    address: &String,
    expected_transactions: Vec<TransactionWithMeta>,
) {
    let transactions = memory.get_transactions(address);
    assert_eq!(transactions.len(), expected_transactions.len());
    for transaction in expected_transactions.clone() {
        assert!(transactions.contains(&transaction));
    }
}

fn get_block(height: u64, transactions: Vec<Transaction>) -> Block {
    Block {
        height,
        hash: height.to_string(),
        timestamp: height as i64,
        transactions,
    }
}

#[test]
fn test_add_and_fetch_data() {
    let mut memory = Memory::default();

    assert_eq!(memory.get_accounts().len(), 0);

    let mut account_0 = Account {
        address: "0".to_string(),
        balance: 0,
    };
    let mut account_1 = Account {
        address: "1".to_string(),
        balance: 0,
    };

    let tx_0 = TransactionWithMeta {
        data: Transaction {
            sender: account_0.address.clone(),
            receiver: account_1.address.clone(),
            amount: 1,
        },
        timestamp: 0,
    };
    let tx_1 = TransactionWithMeta {
        data: Transaction {
            sender: account_1.address.clone(),
            receiver: account_0.address.clone(),
            amount: 2,
        },
        timestamp: 1,
    };
    let tx_2 = TransactionWithMeta {
        data: Transaction {
            sender: account_1.address.clone(),
            receiver: account_1.address.clone(),
            amount: 5,
        },
        timestamp: 2,
    };
    let tx_3 = TransactionWithMeta {
        data: Transaction {
            sender: account_1.address.clone(),
            receiver: account_0.address.clone(),
            amount: 10,
        },
        timestamp: 2,
    };

    let block_0 = get_block(0, Vec::from([tx_0.data.clone()]));
    let block_1 = get_block(1, Vec::from([tx_1.data.clone()]));
    let block_2 = get_block(2, Vec::from([tx_2.data.clone(), tx_3.data.clone()]));

    let mut expected_accounts = Vec::from([account_0, account_1]);

    assert!(memory.add_block(block_0).is_ok());
    expected_accounts[0].balance = -1;
    expected_accounts[1].balance = 1;
    assert_accounts(&memory, &expected_accounts);
    assert_transactions(&memory, &expected_accounts[0].address, Vec::from([tx_0.clone()]));
    assert_transactions(&memory, &expected_accounts[1].address, Vec::from([tx_0.clone()]));

    assert!(memory.add_block(block_1).is_ok());
    expected_accounts[0].balance = 1;
    expected_accounts[1].balance = -1;
    assert_accounts(&memory, &expected_accounts);
    assert_transactions(
        &memory,
        &expected_accounts[0].address,
        Vec::from([tx_0.clone(), tx_1.clone()]),
    );
    assert_transactions(
        &memory,
        &expected_accounts[1].address,
        Vec::from([tx_0.clone(), tx_1.clone()]),
    );

    assert!(memory.add_block(block_2).is_ok());
    expected_accounts[0].balance = 11;
    expected_accounts[1].balance = -11;
    assert_accounts(&memory, &expected_accounts);
    assert_transactions(
        &memory,
        &expected_accounts[0].address,
        Vec::from([tx_0.clone(), tx_1.clone(), tx_3.clone()]),
    );
    assert_transactions(
        &memory,
        &expected_accounts[1].address,
        Vec::from([tx_0.clone(), tx_1.clone(), tx_2.clone(), tx_3.clone()]),
    );
}

#[test]
fn test_add_block_failures() {
    let mut memory = Memory::default();

    let block_0 = get_block(0, Vec::new());
    let block_1 = get_block(1, Vec::new());

    assert!(memory.add_block(block_1.clone()).is_ok());
    // Adding the block again must fail as a duplicate.
    match memory.add_block(block_1) {
        Err(Error::InvalidBlock(height, reason)) => {
            assert_eq!(height, 1);
            assert_eq!(reason, InvalidBlockReason::AlreadyExists);
        }
        _ => panic!("existing block test failed"),
    }
    // A lower height must fail as a regression.
    match memory.add_block(block_0) {
        Err(Error::InvalidBlock(height, reason)) => {
            assert_eq!(height, 0);
            assert_eq!(reason, InvalidBlockReason::NotAscending);
        }
        _ => panic!("lower block height test failed"),
    }
}

fn transfer(sender: &str, receiver: &str, amount: u64) -> Transaction {
    Transaction {
        sender: sender.to_string(),
        receiver: receiver.to_string(),
        amount,
    }
}

// The concrete ingestion scenario: three blocks, a self-transfer among
// them; final balances A = +11, B = -11; three entries under A, four
// under B with the self-transfer indexed once.
#[test]
fn test_concrete_scenario() {
    let mut memory = Memory::new();
    assert!(memory.add_block(get_block(0, vec![transfer("A", "B", 1)])).is_ok());
    assert!(memory.add_block(get_block(1, vec![transfer("B", "A", 2)])).is_ok());
    assert!(memory
        .add_block(get_block(2, vec![transfer("B", "B", 5), transfer("B", "A", 10)]))
        .is_ok());

    let accounts = memory.get_accounts();
    assert_eq!(accounts.len(), 2);
    assert!(accounts.contains(&Account { address: "A".to_string(), balance: 11 }));
    assert!(accounts.contains(&Account { address: "B".to_string(), balance: -11 }));

    assert_eq!(memory.get_transactions(&"A".to_string()).len(), 3);
    assert_eq!(memory.get_transactions(&"B".to_string()).len(), 4);
}

// A rejected block leaves every part of the ledger exactly as it was.
#[test]
fn test_rejection_leaves_state_unchanged() {
    let mut memory = Memory::new();
    assert!(memory.add_block(get_block(5, vec![transfer("A", "B", 3)])).is_ok());
    let accounts_before = memory.get_accounts();
    let a_before = memory.get_transactions(&"A".to_string());
    let b_before = memory.get_transactions(&"B".to_string());

    // Equal height: duplicate. Lower height: regression. Both fail.
    assert!(memory.add_block(get_block(5, vec![transfer("A", "B", 7)])).is_err());
    assert!(memory.add_block(get_block(3, vec![transfer("A", "B", 7)])).is_err());

    assert_eq!(memory.get_accounts(), accounts_before);
    assert_eq!(memory.get_transactions(&"A".to_string()), a_before);
    assert_eq!(memory.get_transactions(&"B".to_string()), b_before);

    // A higher height, with a gap, is still accepted afterwards.
    assert!(memory.add_block(get_block(7, vec![transfer("A", "B", 1)])).is_ok());
    assert_eq!(memory.get_transactions(&"A".to_string()).len(), 2);
}

// A transfer that would push a balance past the signed 64-bit range is
// rejected whole, and the ledger stays untouched.
#[test]
fn test_balance_overflow_rejected() {
    let mut memory = Memory::new();
    assert!(memory
        .add_block(get_block(0, vec![transfer("A", "B", i64::MAX as u64)]))
        .is_ok());
    match memory.add_block(get_block(1, vec![transfer("A", "B", 1)])) {
        Err(Error::InvalidBlock(height, reason)) => {
            assert_eq!(height, 1);
            assert_eq!(reason, InvalidBlockReason::BalanceOverflow);
        }
        _ => panic!("overflow test failed"),
    }
    let accounts = memory.get_accounts();
    assert_eq!(accounts.len(), 2);
    assert!(accounts.contains(&Account { address: "B".to_string(), balance: i64::MAX }));
    // An amount that cannot be represented at all is also rejected.
    match memory.add_block(get_block(2, vec![transfer("C", "D", u64::MAX)])) {
        Err(Error::InvalidBlock(_, reason)) => {
            assert_eq!(reason, InvalidBlockReason::BalanceOverflow);
        }
        _ => panic!("unrepresentable amount test failed"),
    }
}

// A self-transfer is indexed once under its single address and nets to
// a zero balance — the address is still listed.
#[test]
fn test_self_transfer_deduplicated() {
    let mut memory = Memory::new();
    assert!(memory.add_block(get_block(0, vec![transfer("B", "B", 5)])).is_ok());
    let accounts = memory.get_accounts();
    assert_eq!(accounts.len(), 1);
    assert_eq!(accounts[0], Account { address: "B".to_string(), balance: 0 });
    let transactions = memory.get_transactions(&"B".to_string());
    assert_eq!(transactions.len(), 1);
    assert_eq!(transactions[0].data, transfer("B", "B", 5));
}

// Queries on an empty ledger, and for an unknown address, are empty.
#[test]
fn test_empty_queries() {
    let memory = Memory::new();
    assert_eq!(memory.get_accounts().len(), 0);
    assert_eq!(memory.get_transactions(&"X".to_string()).len(), 0);
}

// The command protocol dispatches to the same operations.
#[test]
fn test_apply_command_roundtrip() {
    let mut memory = Memory::new();
    let response = apply_command(
        &mut memory,
        StorageCommand::AddBlock(get_block(0, vec![transfer("A", "B", 4)])),
    );
    match response {
        StorageResponse::AddBlock(result) => assert!(result.is_ok()),
        _ => panic!("wrong response kind"),
    }
    match apply_command(&mut memory, StorageCommand::GetAccounts) {
        StorageResponse::Accounts(accounts) => {
            assert_eq!(accounts.len(), 2);
            assert!(accounts.contains(&Account { address: "A".to_string(), balance: -4 }));
            assert!(accounts.contains(&Account { address: "B".to_string(), balance: 4 }));
        }
        _ => panic!("wrong response kind"),
    }
    match apply_command(&mut memory, StorageCommand::GetTransactions("B".to_string())) {
        StorageResponse::Transactions(transactions) => {
            assert_eq!(transactions.len(), 1);
            assert_eq!(transactions[0].data, transfer("A", "B", 4));
            assert_eq!(transactions[0].timestamp, 0);
        }
        _ => panic!("wrong response kind"),
    }
    match apply_command(
        &mut memory,
        StorageCommand::AddBlock(get_block(0, vec![transfer("A", "B", 1)])),
    ) {
        StorageResponse::AddBlock(result) => {
            assert_eq!(result, Err(Error::InvalidBlock(0, InvalidBlockReason::AlreadyExists)));
        }
        _ => panic!("wrong response kind"),
    }
}

// Index-append order: queries return an address's transactions in the
// order they were first indexed during ingestion.
#[test]
fn test_query_order_is_index_append_order() {
    let mut memory = Memory::new();
    assert!(memory.add_block(get_block(0, vec![transfer("A", "B", 1)])).is_ok());
    assert!(memory
        .add_block(get_block(1, vec![transfer("C", "A", 2), transfer("A", "D", 3)]))
        .is_ok());
    let transactions = memory.get_transactions(&"A".to_string());
    assert_eq!(transactions.len(), 3);
    assert_eq!(transactions[0].data, transfer("A", "B", 1));
    assert_eq!(transactions[1].data, transfer("C", "A", 2));
    assert_eq!(transactions[2].data, transfer("A", "D", 3));
    assert_eq!(transactions[0].timestamp, 0);
    assert_eq!(transactions[1].timestamp, 1);
    assert_eq!(transactions[2].timestamp, 1);
}
