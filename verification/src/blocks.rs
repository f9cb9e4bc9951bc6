use vstd::prelude::*;
use crate::types::{Block, BlockModel, Transaction, TransactionModel};

verus! {

/// The plain fields of a parsed top-level instruction, as defensively
/// extracted from the raw chain data: any field that was absent or had
/// an unexpected shape is `None`.
#[derive(Clone, Debug)]
pub struct RawParsedInstruction {
    /// The owning program's name.
    pub program: String,
    /// The instruction's `type` tag, when it is a string.
    pub kind: Option<String>,
    /// The source address of a transfer, when present.
    pub source: Option<String>,
    /// The destination address of a transfer, when present.
    pub destination: Option<String>,
    /// The transferred amount, when present as an unsigned integer.
    pub lamports: Option<u64>,
}

/// A top-level instruction of a raw transaction. Only instructions that
/// arrived fully parsed can be recognized; everything else is opaque.
#[derive(Clone, Debug)]
pub enum RawInstruction {
    Parsed(RawParsedInstruction),
    Other,
}

/// A raw transaction: its top-level instruction list, or `None` when the
/// transaction was not delivered in parsed JSON form.
#[derive(Clone, Debug)]
pub struct RawTransaction {
    pub instructions: Option<Vec<RawInstruction>>,
}

/// A raw block record in the shape the chain's RPC interface returns:
/// height and timestamp may be absent, the transaction list may be
/// withheld by the request configuration.
#[derive(Clone, Debug)]
pub struct RawBlock {
    pub block_height: Option<u64>,
    pub blockhash: String,
    pub block_time: Option<i64>,
    pub transactions: Option<Vec<RawTransaction>>,
}

/// Mathematical image of a [`RawParsedInstruction`].
#[verifier::ext_equal]
pub struct RawParsedInstructionModel {
    pub program: Seq<char>,
    pub kind: Option<Seq<char>>,
    pub source: Option<Seq<char>>,
    pub destination: Option<Seq<char>>,
    pub lamports: Option<u64>,
}

/// Mathematical image of a [`RawInstruction`].
#[verifier::ext_equal]
pub enum RawInstructionModel {
    Parsed(RawParsedInstructionModel),
    Other,
}

/// Mathematical image of a [`RawTransaction`].
#[verifier::ext_equal]
pub struct RawTransactionModel {
    pub instructions: Option<Seq<RawInstructionModel>>,
}

/// Mathematical image of a [`RawBlock`].
#[verifier::ext_equal]
pub struct RawBlockModel {
    pub block_height: Option<u64>,
    pub blockhash: Seq<char>,
    pub block_time: Option<i64>,
    pub transactions: Option<Seq<RawTransactionModel>>,
}

impl View for RawParsedInstruction {
    type V = RawParsedInstructionModel;

    open spec fn view(&self) -> RawParsedInstructionModel {
        RawParsedInstructionModel {
            program: self.program@,
            kind: self.kind.deep_view(),
            source: self.source.deep_view(),
            destination: self.destination.deep_view(),
            lamports: self.lamports,
        }
    }
}

impl DeepView for RawParsedInstruction {
    type V = RawParsedInstructionModel;

    open spec fn deep_view(&self) -> RawParsedInstructionModel {
        self.view()
    }
}

impl View for RawInstruction {
    type V = RawInstructionModel;

    open spec fn view(&self) -> RawInstructionModel {
        match self {
            RawInstruction::Parsed(p) => RawInstructionModel::Parsed(p.view()),
            RawInstruction::Other => RawInstructionModel::Other,
        }
    }
}

impl DeepView for RawInstruction {
    type V = RawInstructionModel;

    open spec fn deep_view(&self) -> RawInstructionModel {
        self.view()
    }
}

impl View for RawTransaction {
    type V = RawTransactionModel;

    open spec fn view(&self) -> RawTransactionModel {
        RawTransactionModel { instructions: self.instructions.deep_view() }
    }
}

impl DeepView for RawTransaction {
    type V = RawTransactionModel;

    open spec fn deep_view(&self) -> RawTransactionModel {
        self.view()
    }
}

impl View for RawBlock {
    type V = RawBlockModel;

    open spec fn view(&self) -> RawBlockModel {
        RawBlockModel {
            block_height: self.block_height,
            blockhash: self.blockhash@,
            block_time: self.block_time,
            transactions: self.transactions.deep_view(),
        }
    }
}

impl DeepView for RawBlock {
    type V = RawBlockModel;

    open spec fn deep_view(&self) -> RawBlockModel {
        self.view()
    }
}

/// The one instruction shape that is recognized as a value transfer: a
/// parsed instruction of the `system` program, tagged `transfer`, with
/// source, destination and amount all present. Everything else is
/// dropped, never an error.
pub open spec fn spec_parse_instruction(i: RawInstructionModel) -> Option<TransactionModel> {
    match i {
        RawInstructionModel::Parsed(p) => match (p.kind, p.source, p.destination, p.lamports) {
            (Some(kind), Some(source), Some(destination), Some(lamports)) => {
                if p.program == "system"@ && kind == "transfer"@ {
                    Some(TransactionModel { sender: source, receiver: destination, amount: lamports })
                } else {
                    None
                }
            },
            _ => None,
        },
        RawInstructionModel::Other => None,
    }
}

/// The transfers recognized among a list of instructions, in list order.
pub open spec fn spec_parse_instructions(instrs: Seq<RawInstructionModel>) -> Seq<TransactionModel>
    decreases instrs.len(),
{
    if instrs.len() == 0 {
        Seq::empty()
    } else {
        spec_parse_instructions(instrs.drop_last()) + match spec_parse_instruction(instrs.last()) {
            Some(t) => seq![t],
            None => Seq::empty(),
        }
    }
}

/// The transfers recognized in one raw transaction: none at all when the
/// transaction was not delivered in parsed JSON form.
pub open spec fn spec_parse_transaction(t: RawTransactionModel) -> Seq<TransactionModel> {
    match t.instructions {
        Some(instrs) => spec_parse_instructions(instrs),
        None => Seq::empty(),
    }
}

/// The transfers recognized across a block's raw transactions, in order.
pub open spec fn spec_parse_transactions(ts: Seq<RawTransactionModel>) -> Seq<TransactionModel>
    decreases ts.len(),
{
    if ts.len() == 0 {
        Seq::empty()
    } else {
        spec_parse_transactions(ts.drop_last()) + spec_parse_transaction(ts.last())
    }
}

/// A raw record can become a block only when its height and timestamp
/// are present.
pub open spec fn raw_block_wf(r: RawBlockModel) -> bool {
    r.block_height is Some && r.block_time is Some
}

/// The block a well-formed raw record parses to.
pub open spec fn spec_parse_block(r: RawBlockModel) -> BlockModel
    recommends
        raw_block_wf(r),
{
    BlockModel {
        height: r.block_height->Some_0,
        hash: r.blockhash,
        timestamp: r.block_time->Some_0,
        transactions: match r.transactions {
            Some(ts) => spec_parse_transactions(ts),
            None => Seq::empty(),
        },
    }
}

/// Recognizes a single top-level instruction as a value transfer, or
/// drops it.
pub fn parse_instruction(instruction: &RawInstruction) -> (r: Option<Transaction>)
    ensures
        r.deep_view() == spec_parse_instruction(instruction@),
{
    let system_program: String = "system".to_owned();
    let transfer_kind: String = "transfer".to_owned();
    match instruction {
        RawInstruction::Parsed(p) => match (&p.kind, &p.source, &p.destination, &p.lamports) {
            (Some(kind), Some(source), Some(destination), Some(lamports)) => {
                if p.program == system_program && *kind == transfer_kind {
                    Some(Transaction {
                        sender: source.clone(),
                        receiver: destination.clone(),
                        amount: *lamports,
                    })
                } else {
                    None
                }
            },
            _ => None,
        },
        RawInstruction::Other => None,
    }
}

/// Extracts the recognized transfers of one raw transaction, in
/// instruction order; `None` when the transaction was not delivered in
/// parsed JSON form (it then contributes no transfers).
pub fn parse_transaction(transaction: &RawTransaction) -> (r: Option<Vec<Transaction>>)
    ensures
        match r {
            Some(v) => transaction.instructions is Some && v.deep_view()
                == spec_parse_transaction(transaction@),
            None => transaction.instructions is None,
        },
{
    match &transaction.instructions {
        Some(instructions) => {
            let mut transactions: Vec<Transaction> = Vec::new();
            let ghost instrs = instructions.deep_view();
            let mut i: usize = 0;
            while i < instructions.len()
                invariant
                    i <= instructions.len(),
                    instrs == instructions.deep_view(),
                    instrs.len() == instructions.len(),
                    transactions.deep_view() == spec_parse_instructions(instrs.take(i as int)),
                decreases instructions.len() - i,
            {
                proof {
                    assert(instrs.take(i + 1).drop_last() =~= instrs.take(i as int));
                    assert(instrs.take(i + 1).last() == instructions[i as int].deep_view());
                }
                if let Some(transfer) = parse_instruction(&instructions[i]) {
                    transactions.push(transfer);
                }
                i = i + 1;
                proof {
                    assert(transactions.deep_view() =~= spec_parse_instructions(instrs.take(i as int)));
                }
            }
            proof {
                assert(instrs.take(instructions.len() as int) =~= instrs);
            }
            Some(transactions)
        },
        None => None,
    }
}

/// Parses one raw record into a block: its true height, hash and
/// timestamp with the recognized transfers of all its transactions, in
/// order. A record without height or timestamp cannot become a block.
pub fn parse_block(raw: &RawBlock) -> (r: Option<Block>)
    ensures
        match r {
            Some(b) => raw_block_wf(raw@) && b@ == spec_parse_block(raw@),
            None => !raw_block_wf(raw@),
        },
{
    let height: u64 = match &raw.block_height {
        Some(h) => *h,
        None => {
            return None;
        },
    };
    let timestamp: i64 = match &raw.block_time {
        Some(t) => *t,
        None => {
            return None;
        },
    };
    let mut transactions: Vec<Transaction> = Vec::new();
    match &raw.transactions {
        Some(raw_transactions) => {
            let ghost ts = raw_transactions.deep_view();
            let mut i: usize = 0;
            while i < raw_transactions.len()
                invariant
                    i <= raw_transactions.len(),
                    ts == raw_transactions.deep_view(),
                    ts.len() == raw_transactions.len(),
                    transactions.deep_view() == spec_parse_transactions(ts.take(i as int)),
                decreases raw_transactions.len() - i,
            {
                proof {
                    assert(ts.take(i + 1).drop_last() =~= ts.take(i as int));
                    assert(ts.take(i + 1).last() == raw_transactions[i as int].deep_view());
                }
                if let Some(mut parsed) = parse_transaction(&raw_transactions[i]) {
                    transactions.append(&mut parsed);
                } else {
                    proof {
                        assert(spec_parse_transaction(ts[i as int]) =~= Seq::<TransactionModel>::empty());
                    }
                }
                i = i + 1;
                proof {
                    assert(transactions.deep_view() =~= spec_parse_transactions(ts.take(i as int)));
                }
            }
            proof {
                assert(ts.take(raw_transactions.len() as int) =~= ts);
            }
        },
        None => {},
    }
    Some(Block { height, hash: raw.blockhash.clone(), timestamp, transactions })
}

} // verus!
