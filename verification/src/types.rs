use vstd::prelude::*;

verus! {

/// An address is an opaque string identifier for an account.
pub type Address = String;

/// A block hash, kept only as metadata.
pub type Hash = String;

/// A recognized value transfer: `amount` moves from `sender` to `receiver`.
#[derive(Clone, Debug, PartialEq)]
pub struct Transaction {
    pub sender: Address,
    pub receiver: Address,
    pub amount: u64,
}

/// Mathematical image of a [`Transaction`].
#[verifier::ext_equal]
pub struct TransactionModel {
    pub sender: Seq<char>,
    pub receiver: Seq<char>,
    pub amount: u64,
}

impl View for Transaction {
    type V = TransactionModel;

    open spec fn view(&self) -> TransactionModel {
        TransactionModel { sender: self.sender@, receiver: self.receiver@, amount: self.amount }
    }
}

impl DeepView for Transaction {
    type V = TransactionModel;

    open spec fn deep_view(&self) -> TransactionModel {
        self.view()
    }
}

/// A transaction paired with the timestamp of the block that carried it;
/// the unit returned by ledger queries.
#[derive(Clone, Debug, PartialEq)]
pub struct TransactionWithMeta {
    pub data: Transaction,
    pub timestamp: i64,
}

/// Mathematical image of a [`TransactionWithMeta`].
#[verifier::ext_equal]
pub struct TransactionWithMetaModel {
    pub data: TransactionModel,
    pub timestamp: i64,
}

impl View for TransactionWithMeta {
    type V = TransactionWithMetaModel;

    open spec fn view(&self) -> TransactionWithMetaModel {
        TransactionWithMetaModel { data: self.data@, timestamp: self.timestamp }
    }
}

impl DeepView for TransactionWithMeta {
    type V = TransactionWithMetaModel;

    open spec fn deep_view(&self) -> TransactionWithMetaModel {
        self.view()
    }
}

/// A chain unit: height, hash, timestamp and the recognized transfers,
/// in block order. Immutable once produced by the parser.
#[derive(Clone, Debug)]
pub struct Block {
    pub height: u64,
    pub hash: Hash,
    pub timestamp: i64,
    pub transactions: Vec<Transaction>,
}

/// Mathematical image of a [`Block`].
#[verifier::ext_equal]
pub struct BlockModel {
    pub height: u64,
    pub hash: Seq<char>,
    pub timestamp: i64,
    pub transactions: Seq<TransactionModel>,
}

impl View for Block {
    type V = BlockModel;

    open spec fn view(&self) -> BlockModel {
        BlockModel {
            height: self.height,
            hash: self.hash@,
            timestamp: self.timestamp,
            transactions: self.transactions.deep_view(),
        }
    }
}

impl DeepView for Block {
    type V = BlockModel;

    open spec fn deep_view(&self) -> BlockModel {
        self.view()
    }
}

/// A back-reference into a stored block's transaction list: the block's
/// height and the transaction's position in it. Queries resolve these
/// entries instead of copying transaction data.
#[derive(Clone, Copy, Debug, PartialEq, Eq, Structural)]
pub struct TransactionIndex {
    pub block_height: u64,
    pub index: usize,
}

/// An account as reported by ledger queries: an address and its signed
/// balance, which may be negative.
#[derive(Clone, Debug, PartialEq)]
pub struct Account {
    pub address: Address,
    pub balance: i64,
}

/// Mathematical image of an [`Account`].
#[verifier::ext_equal]
pub struct AccountModel {
    pub address: Seq<char>,
    pub balance: i64,
}

impl View for Account {
    type V = AccountModel;

    open spec fn view(&self) -> AccountModel {
        AccountModel { address: self.address@, balance: self.balance }
    }
}

impl DeepView for Account {
    type V = AccountModel;

    open spec fn deep_view(&self) -> AccountModel {
        self.view()
    }
}

} // verus!
