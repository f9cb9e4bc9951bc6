use vstd::prelude::*;
use crate::error::{Error, InvalidBlockReason};
use crate::model::{
    accepts, balance_of, block_entries_upto, blocks_bounded, chain_txs, has_height, height_ok,
    height_position, heights_increasing, index_entries, involves, lemma_chain_txs_push,
    lemma_entries_resolve, lemma_height_position_unique, lemma_heights_increasing_push,
    lemma_index_entries_push, lemma_observed_extend, lemma_txs_balance_push, lemma_txs_fit_take,
    lemma_unobserved_balance_zero, observed, observed_in, rejection, resolves_at, transactions_for,
    tx_delta, tx_fits, txs_balance, txs_fit,
};
use crate::types::{
    Account, Address, Block, BlockModel, Transaction, TransactionIndex, TransactionModel,
    TransactionWithMeta, TransactionWithMetaModel,
};

verus! {

/// The index entries recorded under one address, in append order.
#[derive(Clone, Debug)]
struct AddressIndex {
    address: Address,
    entries: Vec<TransactionIndex>,
}

/// The account list mirrors the transfers applied so far: addresses are
/// unique, every listed address occurs in the transfers, every balance
/// is the signed sum its address is owed, and every address the
/// transfers mention is listed.
spec fn accounts_ok(accs: Seq<Account>, txs: Seq<TransactionModel>) -> bool {
    &&& forall|i: int, j: int|
        0 <= i < j < accs.len() ==> (#[trigger] accs[i]).address@ != (#[trigger] accs[j]).address@
    &&& forall|i: int| 0 <= i < accs.len() ==> observed(txs, (#[trigger] accs[i]).address@)
    &&& forall|i: int|
        0 <= i < accs.len() ==> (#[trigger] accs[i]).balance as int == txs_balance(
            txs,
            accs[i].address@,
        )
    &&& forall|a: Seq<char>|
        #[trigger] observed(txs, a) ==> exists|i: int|
            0 <= i < accs.len() && (#[trigger] accs[i]).address@ == a
}

/// The index list mirrors the chain extended by the first `n`
/// transactions of one incoming block.
spec fn index_ok_upto(idx: Seq<AddressIndex>, h: Seq<BlockModel>, b: BlockModel, n: int) -> bool {
    &&& forall|i: int, j: int|
        0 <= i < j < idx.len() ==> (#[trigger] idx[i]).address@ != (#[trigger] idx[j]).address@
    &&& forall|i: int|
        0 <= i < idx.len() ==> (#[trigger] idx[i]).entries@ == index_entries(h, idx[i].address@)
            + block_entries_upto(b, idx[i].address@, n)
    &&& forall|a: Seq<char>|
        (#[trigger] index_entries(h, a)).len() + block_entries_upto(b, a, n).len() > 0
            ==> exists|i: int| 0 <= i < idx.len() && (#[trigger] idx[i]).address@ == a
}

/// The index list mirrors the chain: per listed address exactly the
/// chain's entries, and every address with entries is listed.
spec fn index_ok(idx: Seq<AddressIndex>, h: Seq<BlockModel>) -> bool {
    &&& forall|i: int, j: int|
        0 <= i < j < idx.len() ==> (#[trigger] idx[i]).address@ != (#[trigger] idx[j]).address@
    &&& forall|i: int|
        0 <= i < idx.len() ==> (#[trigger] idx[i]).entries@ == index_entries(h, idx[i].address@)
    &&& forall|a: Seq<char>|
        (#[trigger] index_entries(h, a)).len() > 0 ==> exists|i: int|
            0 <= i < idx.len() && (#[trigger] idx[i]).address@ == a
}

/// What a correct account listing for the chain `h` looks like:
/// unique addresses, one entry per observed address, each balance the
/// signed sum the chain owes that address.
pub open spec fn accounts_report_ok(h: Seq<BlockModel>, accounts: Seq<Account>) -> bool {
    &&& forall|i: int, j: int|
        0 <= i < j < accounts.len() ==> (#[trigger] accounts[i]).address@
            != (#[trigger] accounts[j]).address@
    &&& forall|i: int|
        0 <= i < accounts.len() ==> observed_in(h, (#[trigger] accounts[i]).address@)
            && accounts[i].balance as int == balance_of(h, accounts[i].address@)
    &&& forall|a: Seq<char>|
        #[trigger] observed_in(h, a) ==> exists|i: int|
            0 <= i < accounts.len() && (#[trigger] accounts[i]).address@ == a
}

/// The in-memory storage engine: the single owner of the ledger.
///
/// Its abstract state (the view) is the chain of accepted blocks in
/// acceptance order; balances, the transaction index and the highest
/// height are all functions of that chain, kept in step by [`Self::wf`].
pub struct Memory {
    last_block: u64,
    blocks: Vec<Block>,
    accounts: Vec<Account>,
    transaction_index: Vec<AddressIndex>,
}

impl View for Memory {
    type V = Seq<BlockModel>;

    closed spec fn view(&self) -> Seq<BlockModel> {
        self.blocks.deep_view()
    }
}

impl Memory {
    /// The ledger's internal invariant: accepted heights strictly
    /// increase, the recorded highest height is the last accepted one,
    /// and accounts and index mirror the accepted chain.
    pub closed spec fn wf(&self) -> bool {
        &&& heights_increasing(self@)
        &&& blocks_bounded(self@)
        &&& (self.blocks@.len() == 0 ==> self.last_block == 0)
        &&& (self.blocks@.len() > 0 ==> self.last_block == self@.last().height)
        &&& accounts_ok(self.accounts@, chain_txs(self@))
        &&& index_ok(self.transaction_index@, self@)
    }

    /// A fresh, empty ledger: no blocks, no balances, no index.
    pub fn new() -> (r: Memory)
        ensures
            r.wf(),
            r@ == Seq::<BlockModel>::empty(),
    {
        let r = Memory {
            last_block: 0,
            blocks: Vec::new(),
            accounts: Vec::new(),
            transaction_index: Vec::new(),
        };
        proof {
            assert(r@ =~= Seq::<BlockModel>::empty());
        }
        r
    }

    /// One account per address ever observed as sender or receiver; the
    /// order is unspecified. Balances are the signed sums the chain
    /// owes; an address may legitimately sit at zero.
    pub fn get_accounts(&self) -> (r: Vec<Account>)
        requires
            self.wf(),
        ensures
            accounts_report_ok(self@, r@),
    {
        clone_accounts(&self.accounts)
    }
}

impl Default for Memory {
    /// Same as [`Memory::new`]: a fresh, empty ledger.
    fn default() -> (r: Memory)
        ensures
            r.wf(),
            r@ == Seq::<BlockModel>::empty(),
    {
        Memory::new()
    }
}

/// Copies a transaction field by field; the copy equals the original.
fn clone_transaction(t: &Transaction) -> (r: Transaction)
    ensures
        r == *t,
{
    Transaction { sender: t.sender.clone(), receiver: t.receiver.clone(), amount: t.amount }
}

/// Copies an account list field by field; the copy equals the original.
fn clone_accounts(accounts: &Vec<Account>) -> (r: Vec<Account>)
    ensures
        r@ == accounts@,
{
    let mut r: Vec<Account> = Vec::new();
    let mut i: usize = 0;
    while i < accounts.len()
        invariant
            i <= accounts.len(),
            r@ =~= accounts@.take(i as int),
        decreases accounts.len() - i,
    {
        r.push(Account { address: accounts[i].address.clone(), balance: accounts[i].balance });
        proof {
            assert(r@ =~= accounts@.take(i + 1));
        }
        i = i + 1;
    }
    proof {
        assert(accounts@.take(accounts@.len() as int) =~= accounts@);
    }
    r
}

/// The position of the account holding this address, if one exists.
fn find_account(accounts: &Vec<Account>, address: &Address) -> (r: Option<usize>)
    ensures
        match r {
            Some(j) => j < accounts@.len() && accounts@[j as int].address@ == address@,
            None => forall|j: int|
                0 <= j < accounts@.len() ==> (#[trigger] accounts@[j]).address@ != address@,
        },
{
    let mut i: usize = 0;
    while i < accounts.len()
        invariant
            i <= accounts.len(),
            forall|j: int| 0 <= j < i ==> (#[trigger] accounts@[j]).address@ != address@,
        decreases accounts.len() - i,
    {
        if accounts[i].address == *address {
            return Some(i);
        }
        i = i + 1;
    }
    None
}

/// Applies one transfer to the account list: the receiver is credited
/// first, then the sender is debited, creating zero-initialized
/// accounts as needed. Fails exactly when a touched balance would leave
/// the representable signed 64-bit range; the partially updated list is
/// then to be discarded by the caller.
fn apply_transfer(
    accounts: &mut Vec<Account>,
    tx: &Transaction,
    Ghost(txs): Ghost<Seq<TransactionModel>>,
) -> (ok: bool)
    requires
        accounts_ok(old(accounts)@, txs),
    ensures
        ok ==> tx_fits(txs, tx@) && accounts_ok(final(accounts)@, txs.push(tx@)),
        !ok ==> !tx_fits(txs, tx@),
{
    let ghost old0 = old(accounts)@;
    let ghost t = tx@;
    let ghost a_r = tx@.receiver;
    let ghost a_s = tx@.sender;
    // Credit the receiver.
    let receiver_pos = find_account(accounts, &tx.receiver);
    let receiver_base: i64 = match receiver_pos {
        Some(j) => accounts[j].balance,
        None => 0,
    };
    proof {
        if receiver_pos is None {
            if observed(txs, a_r) {
                let i = choose|i: int| 0 <= i < old0.len() && (#[trigger] old0[i]).address@ == a_r;
                assert(old0[i].address@ != a_r);
            }
            lemma_unobserved_balance_zero(txs, a_r);
        }
        assert(receiver_base as int == txs_balance(txs, a_r));
    }
    let credited: i64 = match receiver_base.checked_add_unsigned(tx.amount) {
        Some(v) => v,
        None => {
            return false;
        },
    };
    match receiver_pos {
        Some(j) => {
            let addr = accounts[j].address.clone();
            accounts.set(j, Account { address: addr, balance: credited });
        },
        None => {
            accounts.push(Account { address: tx.receiver.clone(), balance: credited });
        },
    }
    let ghost rpos: int = match receiver_pos {
        Some(j) => j as int,
        None => old0.len() as int,
    };
    let ghost mid = accounts@;
    proof {
        assert(0 <= rpos < mid.len());
        assert(mid[rpos].address@ == a_r);
        assert(mid[rpos].balance as int == txs_balance(txs, a_r) + t.amount);
        assert(forall|k: int|
            0 <= k < mid.len() && k != rpos ==> k < old0.len() && mid[k] == old0[k]);
        assert(forall|k: int|
            0 <= k < old0.len() ==> (#[trigger] mid[k]).address@ == old0[k].address@);
        assert forall|i: int, j: int| 0 <= i < j < mid.len() implies (#[trigger] mid[i]).address@
            != (#[trigger] mid[j]).address@ by {
            if receiver_pos is None && j == rpos {
                assert(old0[i].address@ != a_r);
            }
        }
        assert forall|k: int| 0 <= k < mid.len() && (#[trigger] mid[k]).address@ == a_r implies k
            == rpos by {
            if k != rpos {
                if k < rpos {
                    assert(mid[k].address@ != mid[rpos].address@);
                } else {
                    assert(mid[rpos].address@ != mid[k].address@);
                }
            }
        }
    }
    // Debit the sender.
    let ghost spost = txs_balance(txs.push(t), a_s);
    let sender_pos = find_account(accounts, &tx.sender);
    let sender_base: i64 = match sender_pos {
        Some(j) => accounts[j].balance,
        None => 0,
    };
    proof {
        lemma_txs_balance_push(txs, t, a_s);
        match sender_pos {
            Some(j2) => {
                assert(mid[j2 as int].address@ == a_s);
                if a_s == a_r {
                    assert(j2 as int == rpos);
                    assert(tx_delta(t, a_s) == 0);
                } else {
                    assert(j2 as int != rpos);
                    assert(mid[j2 as int] == old0[j2 as int]);
                    assert(sender_base as int == txs_balance(txs, a_s));
                }
            },
            None => {
                if observed(txs, a_s) {
                    let i = choose|i: int|
                        0 <= i < old0.len() && (#[trigger] old0[i]).address@ == a_s;
                    assert(mid[i].address@ == a_s);
                }
                lemma_unobserved_balance_zero(txs, a_s);
                assert(mid[rpos].address@ != a_s);
                assert(a_s != a_r);
            },
        }
        assert(sender_base as int == spost + t.amount);
    }
    let debited: i64 = match sender_base.checked_sub_unsigned(tx.amount) {
        Some(v) => v,
        None => {
            return false;
        },
    };
    match sender_pos {
        Some(j) => {
            let addr = accounts[j].address.clone();
            accounts.set(j, Account { address: addr, balance: debited });
        },
        None => {
            accounts.push(Account { address: tx.sender.clone(), balance: debited });
        },
    }
    let ghost sposn: int = match sender_pos {
        Some(j) => j as int,
        None => mid.len() as int,
    };
    proof {
        let new = accounts@;
        let txs1 = txs.push(t);
        assert(0 <= sposn < new.len());
        assert(new[sposn].address@ == a_s);
        assert(new[sposn].balance as int == spost);
        assert(forall|k: int| 0 <= k < new.len() && k != sposn ==> k < mid.len() && new[k] == mid[k]);
        assert(forall|k: int|
            0 <= k < mid.len() ==> (#[trigger] new[k]).address@ == mid[k].address@);
        assert forall|i: int, j: int| 0 <= i < j < new.len() implies (#[trigger] new[i]).address@
            != (#[trigger] new[j]).address@ by {
            if sender_pos is None && j == sposn {
                assert(mid[i].address@ != a_s);
            }
        }
        assert forall|k: int| 0 <= k < new.len() && (#[trigger] new[k]).address@ == a_s implies k
            == sposn by {
            if k != sposn {
                if k < sposn {
                    assert(new[k].address@ != new[sposn].address@);
                } else {
                    assert(new[sposn].address@ != new[k].address@);
                }
            }
        }
        // The receiver's account survives the sender step.
        assert(new[rpos].address@ == a_r);
        if rpos != sposn {
            assert(new[rpos] == mid[rpos]);
            assert(a_s != a_r) by {
                if a_s == a_r {
                    assert(new[sposn].address@ == new[rpos].address@);
                }
            }
        }
        // Addresses of pre-existing accounts are preserved.
        assert(forall|k: int|
            0 <= k < old0.len() ==> (#[trigger] new[k]).address@ == old0[k].address@);
        // Every account's balance matches the extended transfer history.
        assert forall|k: int| 0 <= k < new.len() implies (#[trigger] new[k]).balance as int
            == txs_balance(txs1, new[k].address@) by {
            lemma_txs_balance_push(txs, t, new[k].address@);
            if k == sposn {
            } else if k == rpos {
                assert(new[k] == mid[k]);
                assert(a_s != a_r);
                assert(tx_delta(t, a_r) == t.amount);
            } else {
                assert(new[k] == mid[k] && mid[k] == old0[k]);
                assert(old0[k].address@ != a_r) by {
                    if old0[k].address@ == a_r {
                        assert(mid[k].address@ == a_r);
                    }
                }
                assert(old0[k].address@ != a_s) by {
                    if old0[k].address@ == a_s {
                        assert(new[k].address@ == a_s);
                    }
                }
                assert(tx_delta(t, old0[k].address@) == 0);
                assert(old0[k].balance as int == txs_balance(txs, old0[k].address@));
            }
        }
        // Every account's address occurs in the extended history.
        assert forall|k: int| 0 <= k < new.len() implies observed(
            txs1,
            (#[trigger] new[k]).address@,
        ) by {
            lemma_observed_extend(txs, t, new[k].address@);
            if k == sposn {
                assert(involves(t, a_s));
            } else if k == rpos {
                assert(involves(t, a_r));
            } else {
                assert(new[k] == old0[k]);
                assert(observed(txs, old0[k].address@));
            }
        }
        // Every address the extended history mentions has an account.
        assert forall|a: Seq<char>| #[trigger] observed(txs1, a) implies exists|i: int|
            0 <= i < new.len() && (#[trigger] new[i]).address@ == a by {
            lemma_observed_extend(txs, t, a);
            if observed(txs, a) {
                let i = choose|i: int| 0 <= i < old0.len() && (#[trigger] old0[i]).address@ == a;
                assert(new[i].address@ == a);
            } else {
                assert(involves(t, a));
                if a == a_r {
                    assert(new[rpos].address@ == a);
                } else {
                    assert(a == a_s);
                    assert(new[sposn].address@ == a);
                }
            }
        }
    }
    true
}

/// Copies an entry list; entries are plain values.
fn clone_entries(entries: &Vec<TransactionIndex>) -> (r: Vec<TransactionIndex>)
    ensures
        r@ == entries@,
{
    let mut r: Vec<TransactionIndex> = Vec::new();
    let mut i: usize = 0;
    while i < entries.len()
        invariant
            i <= entries.len(),
            r@ =~= entries@.take(i as int),
        decreases entries.len() - i,
    {
        r.push(entries[i]);
        proof {
            assert(r@ =~= entries@.take(i + 1));
        }
        i = i + 1;
    }
    proof {
        assert(entries@.take(entries@.len() as int) =~= entries@);
    }
    r
}

/// The position of the index record holding this address, if one exists.
fn find_index_record(index: &Vec<AddressIndex>, address: &Address) -> (r: Option<usize>)
    ensures
        match r {
            Some(j) => j < index@.len() && index@[j as int].address@ == address@,
            None => forall|j: int|
                0 <= j < index@.len() ==> (#[trigger] index@[j]).address@ != address@,
        },
{
    let mut i: usize = 0;
    while i < index.len()
        invariant
            i <= index.len(),
            forall|j: int| 0 <= j < i ==> (#[trigger] index@[j]).address@ != address@,
        decreases index.len() - i,
    {
        if index[i].address == *address {
            return Some(i);
        }
        i = i + 1;
    }
    None
}

/// Appends one entry under an address, creating the record when the
/// address has none yet; returns the record's position.
fn append_entry(index: &mut Vec<AddressIndex>, address: &Address, entry: TransactionIndex) -> (j:
    usize)
    requires
        forall|i: int, k: int|
            0 <= i < k < old(index)@.len() ==> (#[trigger] old(index)@[i]).address@
                != (#[trigger] old(index)@[k]).address@,
    ensures
        j as int <= old(index)@.len(),
        j < final(index)@.len(),
        final(index)@[j as int].address@ == address@,
        forall|i: int, k: int|
            0 <= i < k < final(index)@.len() ==> (#[trigger] final(index)@[i]).address@
                != (#[trigger] final(index)@[k]).address@,
        forall|k: int|
            0 <= k < old(index)@.len() ==> (#[trigger] final(index)@[k]).address@
                == old(index)@[k].address@,
        (j as int) < old(index)@.len() ==> {
            &&& final(index)@.len() == old(index)@.len()
            &&& forall|k: int|
                0 <= k < old(index)@.len() && k != j as int ==> final(index)@[k] == old(index)@[k]
            &&& final(index)@[j as int].entries@ == old(index)@[j as int].entries@.push(entry)
        },
        (j as int) == old(index)@.len() ==> {
            &&& forall|k: int|
                0 <= k < old(index)@.len() ==> (#[trigger] old(index)@[k]).address@ != address@
            &&& final(index)@.len() == old(index)@.len() + 1
            &&& forall|k: int| 0 <= k < old(index)@.len() ==> final(index)@[k] == old(index)@[k]
            &&& final(index)@[j as int].entries@ == seq![entry]
        },
{
    match find_index_record(index, address) {
        Some(j) => {
            let addr = index[j].address.clone();
            let mut entries = clone_entries(&index[j].entries);
            entries.push(entry);
            index.set(j, AddressIndex { address: addr, entries });
            j
        },
        None => {
            let mut entries: Vec<TransactionIndex> = Vec::new();
            entries.push(entry);
            let j = index.len();
            index.push(AddressIndex { address: address.clone(), entries });
            proof {
                assert(final(index)@[j as int].entries@ =~= seq![entry]);
            }
            j
        },
    }
}

/// Applies a block's transfers, in block order, to a copy of the
/// account list. Returns the fully updated copy, or nothing when some
/// transfer would move a balance outside the representable range — the
/// original list is never touched, so a rejected block costs nothing.
fn simulate_balances(
    accounts: &Vec<Account>,
    transactions: &Vec<Transaction>,
    Ghost(prior): Ghost<Seq<TransactionModel>>,
) -> (r: Option<Vec<Account>>)
    requires
        accounts_ok(accounts@, prior),
    ensures
        match r {
            Some(v) => txs_fit(prior, transactions.deep_view()) && accounts_ok(
                v@,
                prior + transactions.deep_view(),
            ),
            None => !txs_fit(prior, transactions.deep_view()),
        },
{
    let ghost txs = transactions.deep_view();
    let mut updated = clone_accounts(accounts);
    let mut i: usize = 0;
    while i < transactions.len()
        invariant
            i <= transactions.len(),
            txs == transactions.deep_view(),
            txs.len() == transactions.len(),
            accounts_ok(updated@, prior + txs.take(i as int)),
            txs_fit(prior, txs.take(i as int)),
        decreases transactions.len() - i,
    {
        let ghost applied = prior + txs.take(i as int);
        proof {
            assert(transactions[i as int].deep_view() == txs[i as int]);
        }
        let ok = apply_transfer(&mut updated, &transactions[i], Ghost(applied));
        if !ok {
            proof {
                if txs_fit(prior, txs) {
                    lemma_txs_fit_take(prior, txs, i + 1);
                    assert(txs.take(i + 1).drop_last() =~= txs.take(i as int));
                    assert(txs.take(i + 1).last() == txs[i as int]);
                }
            }
            return None;
        }
        proof {
            assert(txs.take(i + 1).drop_last() =~= txs.take(i as int));
            assert(txs.take(i + 1).last() == txs[i as int]);
            assert(applied.push(txs[i as int]) =~= prior + txs.take(i + 1));
        }
        i = i + 1;
    }
    proof {
        assert(txs.take(transactions@.len() as int) =~= txs);
    }
    Some(updated)
}

/// Unfolds one step of a block's per-address entry sequence: position
/// `i` contributes its entry exactly under the addresses its transfer
/// involves.
proof fn lemma_upto_step(b: BlockModel, i: int, entry: TransactionIndex)
    requires
        0 <= i < b.transactions.len(),
        i <= usize::MAX,
        entry == (TransactionIndex { block_height: b.height, index: i as usize }),
    ensures
        forall|a: Seq<char>|
            #[trigger] block_entries_upto(b, a, i + 1) == block_entries_upto(b, a, i) + (
            if involves(b.transactions[i], a) {
                seq![entry]
            } else {
                Seq::<TransactionIndex>::empty()
            }),
{
}

proof fn lemma_index_upto_start(idx: Seq<AddressIndex>, h: Seq<BlockModel>, b: BlockModel)
    requires
        index_ok(idx, h),
    ensures
        index_ok_upto(idx, h, b, 0),
{
    assert forall|i: int| 0 <= i < idx.len() implies (#[trigger] idx[i]).entries@ == index_entries(
        h,
        idx[i].address@,
    ) + block_entries_upto(b, idx[i].address@, 0) by {
        assert(index_entries(h, idx[i].address@) + block_entries_upto(b, idx[i].address@, 0) =~= index_entries(
            h,
            idx[i].address@,
        ));
    }
}

proof fn lemma_index_upto_finish(idx: Seq<AddressIndex>, h: Seq<BlockModel>, b: BlockModel)
    requires
        index_ok_upto(idx, h, b, b.transactions.len() as int),
    ensures
        index_ok(idx, h.push(b)),
{
    assert forall|i: int| 0 <= i < idx.len() implies (#[trigger] idx[i]).entries@ == index_entries(
        h.push(b),
        idx[i].address@,
    ) by {
        lemma_index_entries_push(h, b, idx[i].address@);
    }
    assert forall|a: Seq<char>| (#[trigger] index_entries(h.push(b), a)).len() > 0 implies exists|
        i: int,
    | 0 <= i < idx.len() && (#[trigger] idx[i]).address@ == a by {
        lemma_index_entries_push(h, b, a);
        assert(index_entries(h, a).len() + block_entries_upto(b, a, b.transactions.len() as int).len()
            > 0);
    }
}

/// Records the index entries of one accepted block: for each transfer,
/// one entry under its sender and one under its receiver, the same
/// single entry for a self-transfer.
fn record_block_entries(
    index: &mut Vec<AddressIndex>,
    transactions: &Vec<Transaction>,
    block_height: u64,
    Ghost(h): Ghost<Seq<BlockModel>>,
    Ghost(hb): Ghost<BlockModel>,
)
    requires
        index_ok(old(index)@, h),
        hb.transactions == transactions.deep_view(),
        hb.height == block_height,
    ensures
        index_ok(final(index)@, h.push(hb)),
{
    proof {
        lemma_index_upto_start(old(index)@, h, hb);
    }
    let mut i: usize = 0;
    while i < transactions.len()
        invariant
            i <= transactions.len(),
            hb.transactions == transactions.deep_view(),
            hb.transactions.len() == transactions.len(),
            hb.height == block_height,
            index_ok_upto(index@, h, hb, i as int),
        decreases transactions.len() - i,
    {
        let ghost idx0 = index@;
        let ghost t = hb.transactions[i as int];
        let ghost a_s = t.sender;
        let ghost a_r = t.receiver;
        proof {
            assert(transactions[i as int].deep_view() == t);
        }
        let entry = TransactionIndex { block_height, index: i };
        let ghost prev_s = index_entries(h, a_s) + block_entries_upto(hb, a_s, i as int);
        let js = append_entry(index, &transactions[i].sender, entry);
        let ghost idx1 = index@;
        let ghost jsi = js as int;
        proof {
            assert(idx1[jsi].address@ == a_s);
            assert(idx1[jsi].entries@ =~= prev_s.push(entry)) by {
                if jsi < idx0.len() {
                    assert(idx0[jsi].address@ == a_s);
                } else {
                    assert(prev_s.len() == 0) by {
                        if index_entries(h, a_s).len() + block_entries_upto(hb, a_s, i as int).len()
                            > 0 {
                            let k = choose|k: int|
                                0 <= k < idx0.len() && (#[trigger] idx0[k]).address@ == a_s;
                            assert(idx0[k].address@ != a_s);
                        }
                    }
                    assert(prev_s =~= Seq::<TransactionIndex>::empty());
                    assert(prev_s.push(entry) =~= seq![entry]);
                }
            }
            assert(forall|k: int|
                0 <= k < idx1.len() && k != jsi ==> k < idx0.len() && idx1[k] == idx0[k]);
        }
        let same = transactions[i].sender == transactions[i].receiver;
        if !same {
            let ghost prev_r = index_entries(h, a_r) + block_entries_upto(hb, a_r, i as int);
            let jr = append_entry(index, &transactions[i].receiver, entry);
            let ghost idx2 = index@;
            let ghost jri = jr as int;
            proof {
                assert(a_s != a_r);
                assert(idx2[jri].address@ == a_r);
                assert(jri != jsi) by {
                    assert(idx2[jsi].address@ == idx1[jsi].address@);
                }
                assert(forall|k: int|
                    0 <= k < idx2.len() && k != jri ==> k < idx1.len() && idx2[k] == idx1[k]);
                assert(idx2[jri].entries@ =~= prev_r.push(entry)) by {
                    if jri < idx1.len() {
                        assert(idx1[jri].address@ == a_r);
                        assert(jri != jsi);
                        assert(idx1[jri] == idx0[jri]);
                        assert(idx0[jri].address@ == a_r);
                    } else {
                        assert(prev_r.len() == 0) by {
                            if index_entries(h, a_r).len() + block_entries_upto(
                                hb,
                                a_r,
                                i as int,
                            ).len() > 0 {
                                let k = choose|k: int|
                                    0 <= k < idx0.len() && (#[trigger] idx0[k]).address@ == a_r;
                                assert(idx1[k].address@ == a_r);
                            }
                        }
                        assert(prev_r =~= Seq::<TransactionIndex>::empty());
                        assert(prev_r.push(entry) =~= seq![entry]);
                    }
                }
                lemma_upto_step(hb, i as int, entry);
                // The entries clause at i + 1.
                assert forall|k: int| 0 <= k < idx2.len() implies (#[trigger] idx2[k]).entries@
                    == index_entries(h, idx2[k].address@) + block_entries_upto(
                    hb,
                    idx2[k].address@,
                    i + 1,
                ) by {
                    let ak = idx2[k].address@;
                    if k == jri {
                        assert(involves(t, a_r));
                        assert(idx2[k].entries@ =~= index_entries(h, a_r) + block_entries_upto(
                            hb,
                            a_r,
                            i + 1,
                        ));
                    } else if k == jsi {
                        assert(idx2[k] == idx1[k]);
                        assert(ak == a_s);
                        assert(involves(t, a_s));
                        assert(idx2[k].entries@ =~= index_entries(h, a_s) + block_entries_upto(
                            hb,
                            a_s,
                            i + 1,
                        ));
                    } else {
                        assert(idx2[k] == idx1[k] && idx1[k] == idx0[k]);
                        assert(ak != a_s) by {
                            if k < jsi {
                                assert(idx2[k].address@ != idx2[jsi].address@);
                            } else {
                                assert(idx2[jsi].address@ != idx2[k].address@);
                            }
                            assert(idx2[jsi].address@ == a_s);
                        }
                        assert(ak != a_r) by {
                            if k < jri {
                                assert(idx2[k].address@ != idx2[jri].address@);
                            } else {
                                assert(idx2[jri].address@ != idx2[k].address@);
                            }
                        }
                        assert(!involves(t, ak));
                        assert(idx2[k].entries@ =~= index_entries(h, ak) + block_entries_upto(
                            hb,
                            ak,
                            i + 1,
                        ));
                    }
                }
                // The completeness clause at i + 1.
                assert forall|a: Seq<char>|
                    (#[trigger] index_entries(h, a)).len() + block_entries_upto(hb, a, i + 1).len()
                        > 0 implies exists|k: int|
                    0 <= k < idx2.len() && (#[trigger] idx2[k]).address@ == a by {
                    if involves(t, a) {
                        if a == a_s {
                            assert(idx2[jsi].address@ == a);
                        } else {
                            assert(idx2[jri].address@ == a);
                        }
                    } else {
                        assert(block_entries_upto(hb, a, i + 1) =~= block_entries_upto(
                            hb,
                            a,
                            i as int,
                        ));
                        let k = choose|k: int|
                            0 <= k < idx0.len() && (#[trigger] idx0[k]).address@ == a;
                        assert(idx1[k].address@ == a);
                        assert(idx2[k].address@ == a);
                    }
                }
            }
        } else {
            proof {
                assert(a_s == a_r);
                lemma_upto_step(hb, i as int, entry);
                assert forall|k: int| 0 <= k < idx1.len() implies (#[trigger] idx1[k]).entries@
                    == index_entries(h, idx1[k].address@) + block_entries_upto(
                    hb,
                    idx1[k].address@,
                    i + 1,
                ) by {
                    let ak = idx1[k].address@;
                    if k == jsi {
                        assert(involves(t, a_s));
                        assert(idx1[k].entries@ =~= index_entries(h, a_s) + block_entries_upto(
                            hb,
                            a_s,
                            i + 1,
                        ));
                    } else {
                        assert(idx1[k] == idx0[k]);
                        assert(ak != a_s) by {
                            if k < jsi {
                                assert(idx1[k].address@ != idx1[jsi].address@);
                            } else {
                                assert(idx1[jsi].address@ != idx1[k].address@);
                            }
                        }
                        assert(!involves(t, ak));
                        assert(idx1[k].entries@ =~= index_entries(h, ak) + block_entries_upto(
                            hb,
                            ak,
                            i + 1,
                        ));
                    }
                }
                assert forall|a: Seq<char>|
                    (#[trigger] index_entries(h, a)).len() + block_entries_upto(hb, a, i + 1).len()
                        > 0 implies exists|k: int|
                    0 <= k < idx1.len() && (#[trigger] idx1[k]).address@ == a by {
                    if involves(t, a) {
                        assert(idx1[jsi].address@ == a);
                    } else {
                        assert(block_entries_upto(hb, a, i + 1) =~= block_entries_upto(
                            hb,
                            a,
                            i as int,
                        ));
                        let k = choose|k: int|
                            0 <= k < idx0.len() && (#[trigger] idx0[k]).address@ == a;
                        assert(idx1[k].address@ == a);
                    }
                }
            }
        }
        i = i + 1;
    }
    proof {
        assert(hb.transactions.len() == transactions@.len());
        lemma_index_upto_finish(index@, h, hb);
    }
}

impl Memory {
    /// Whether some accepted block has this height.
    fn contains_height(&self, height: u64) -> (r: bool)
        ensures
            r == has_height(self@, height),
    {
        let ghost h = self@;
        let mut i: usize = 0;
        while i < self.blocks.len()
            invariant
                i <= self.blocks@.len(),
                h == self@,
                h.len() == self.blocks@.len(),
                forall|j: int| 0 <= j < i ==> (#[trigger] h[j]).height != height,
            decreases self.blocks@.len() - i,
        {
            if self.blocks[i].height == height {
                proof {
                    assert(h[i as int].height == height);
                }
                return true;
            }
            proof {
                assert(h[i as int].height != height);
            }
            i = i + 1;
        }
        proof {
            if has_height(h, height) {
                let j = choose|j: int| 0 <= j < h.len() && (#[trigger] h[j]).height == height;
                assert(h[j].height != height);
            }
        }
        false
    }

    /// The position of the accepted block with this height.
    fn find_block_position(&self, height: u64) -> (j: usize)
        requires
            has_height(self@, height),
        ensures
            j < self@.len(),
            self@[j as int].height == height,
    {
        let ghost h = self@;
        let mut i: usize = 0;
        while i < self.blocks.len()
            invariant
                i <= self.blocks@.len(),
                h == self@,
                h.len() == self.blocks@.len(),
                forall|j: int| 0 <= j < i ==> (#[trigger] h[j]).height != height,
            decreases self.blocks@.len() - i,
        {
            if self.blocks[i].height == height {
                proof {
                    assert(h[i as int].height == height);
                }
                return i;
            }
            proof {
                assert(h[i as int].height != height);
            }
            i = i + 1;
        }
        proof {
            let j = choose|j: int| 0 <= j < h.len() && (#[trigger] h[j]).height == height;
            assert(h[j].height != height);
            assert(false);
        }
        0
    }

    /// Validates and applies one block, all or nothing.
    ///
    /// A block is rejected — with the ledger left untouched — when its
    /// height is already stored, when its height does not exceed the
    /// highest accepted one, or when applying its transfers would move
    /// a balance outside the representable range. An accepted block
    /// appends to the chain: per transfer, in block order, the receiver
    /// is credited, the sender is debited, and one index entry is
    /// recorded under each of the two addresses (a single shared one
    /// for a self-transfer).
    pub fn add_block(&mut self, block: Block) -> (r: Result<(), Error>)
        requires
            old(self).wf(),
        ensures
            final(self).wf(),
            match r {
                Ok(()) => accepts(old(self)@, block@) && final(self)@ == old(self)@.push(block@),
                Err(e) => {
                    &&& *final(self) == *old(self)
                    &&& !accepts(old(self)@, block@)
                    &&& e == Error::InvalidBlock(block.height, rejection(old(self)@, block@))
                },
            },
    {
        let ghost h = self@;
        let ghost hb = block@;
        let transaction_count = block.transactions.len();
        proof {
            assert(hb.transactions.len() == transaction_count);
        }
        let block_height = block.height;
        if self.contains_height(block_height) {
            proof {
                let j = choose|j: int| 0 <= j < h.len() && (#[trigger] h[j]).height == block_height;
                if h.len() > 0 && block_height > h.last().height {
                    if j < h.len() - 1 {
                        assert(h[j].height < h[h.len() - 1].height);
                    }
                }
                assert(!height_ok(h, hb));
            }
            return Err(Error::InvalidBlock(block_height, InvalidBlockReason::AlreadyExists));
        }
        if block_height < self.last_block {
            proof {
                assert(self.blocks@.len() > 0);
                assert(!height_ok(h, hb));
            }
            return Err(Error::InvalidBlock(block_height, InvalidBlockReason::NotAscending));
        }
        proof {
            if self.blocks@.len() > 0 {
                assert(h.last() == h[h.len() - 1]);
                if block_height == self.last_block {
                    assert(h[h.len() - 1].height == block_height);
                    assert(has_height(h, block_height));
                }
            }
            assert(height_ok(h, hb));
        }
        // Simulate the balance updates on a copy; only a block whose
        // every transfer fits is committed.
        let ghost prior = chain_txs(h);
        let updated = match simulate_balances(&self.accounts, &block.transactions, Ghost(prior)) {
            Some(v) => v,
            None => {
                return Err(Error::InvalidBlock(block_height, InvalidBlockReason::BalanceOverflow));
            },
        };
        self.accounts = updated;
        // Record the index entries, then store the block.
        record_block_entries(
            &mut self.transaction_index,
            &block.transactions,
            block_height,
            Ghost(h),
            Ghost(hb),
        );
        self.blocks.push(block);
        self.last_block = block_height;
        proof {
            assert(self@ =~= h.push(hb));
            lemma_heights_increasing_push(h, hb);
            lemma_chain_txs_push(h, hb);
            assert(blocks_bounded(self@)) by {
                assert(forall|k: int| 0 <= k < h.len() ==> self@[k] == h[k]);
                assert(self@[h.len() as int] == hb);
                assert(hb.transactions.len() == transaction_count);
            }
            assert(self@.last() == hb);
            assert(chain_txs(self@) =~= prior + hb.transactions);
            assert(index_ok(self.transaction_index@, self@));
        }
        Ok(())
    }

    /// The transactions indexed under an address, each resolved against
    /// its stored block and paired with that block's timestamp, in
    /// index-append order.
    pub fn get_transactions(&self, address: &Address) -> (r: Vec<TransactionWithMeta>)
        requires
            self.wf(),
        ensures
            r.deep_view() == transactions_for(self@, address@),
    {
        let ghost h = self@;
        let ghost a = address@;
        proof {
            lemma_entries_resolve(h, a);
        }
        let mut result: Vec<TransactionWithMeta> = Vec::new();
        let record = match find_index_record(&self.transaction_index, address) {
            Some(j) => j,
            None => {
                proof {
                    assert(index_entries(h, a).len() == 0) by {
                        if index_entries(h, a).len() > 0 {
                            let k = choose|k: int|
                                0 <= k < self.transaction_index@.len()
                                    && (#[trigger] self.transaction_index@[k]).address@ == a;
                        }
                    }
                    assert(result.deep_view() =~= transactions_for(h, a));
                }
                return result;
            },
        };
        let entries = &self.transaction_index[record].entries;
        let ghost es = index_entries(h, a);
        let mut k: usize = 0;
        while k < entries.len()
            invariant
                k <= entries.len(),
                h == self@,
                self.wf(),
                a == address@,
                entries@ == es,
                es == index_entries(h, a),
                es.len() == transactions_for(h, a).len(),
                forall|m: int| 0 <= m < es.len() ==> #[trigger] resolves_at(h, a, m),
                result.deep_view() =~= transactions_for(h, a).take(k as int),
            decreases entries.len() - k,
        {
            let entry = entries[k];
            proof {
                assert(resolves_at(h, a, k as int));
                assert(has_height(h, entry.block_height));
            }
            let position = self.find_block_position(entry.block_height);
            proof {
                lemma_height_position_unique(h, position as int);
                assert(position as int == height_position(h, entry.block_height));
            }
            let stored = &self.blocks[position];
            proof {
                assert(stored@ == h[position as int]);
                assert((entry.index as int) < stored@.transactions.len());
                assert(stored@.transactions.len() == stored.transactions@.len());
            }
            let data = clone_transaction(&stored.transactions[entry.index]);
            let ghost before = result.deep_view();
            result.push(TransactionWithMeta { data, timestamp: stored.timestamp });
            proof {
                assert(data@ == h[position as int].transactions[entry.index as int]);
                assert(transactions_for(h, a)[k as int] == TransactionWithMetaModel {
                    data: data@,
                    timestamp: stored.timestamp,
                });
                assert(result.deep_view() =~= before.push(
                    TransactionWithMetaModel { data: data@, timestamp: stored.timestamp },
                ));
                assert(transactions_for(h, a).take(k + 1) =~= transactions_for(h, a).take(
                    k as int,
                ).push(transactions_for(h, a)[k as int]));
                assert(result.deep_view() =~= transactions_for(h, a).take(k + 1));
            }
            k = k + 1;
        }
        proof {
            assert(transactions_for(h, a).take(es.len() as int) =~= transactions_for(h, a));
        }
        result
    }
}

/// A request to the storage engine. The hosting process pairs each
/// command with a reply channel; the engine's state transition itself
/// is [`apply_command`].
#[derive(Debug)]
pub enum StorageCommand {
    AddBlock(Block),
    GetAccounts,
    GetTransactions(Address),
}

/// The engine's answer to one command.
#[derive(Debug)]
pub enum StorageResponse {
    AddBlock(Result<(), Error>),
    Accounts(Vec<Account>),
    Transactions(Vec<TransactionWithMeta>),
}

/// One step of the engine's serialized command loop: commands are
/// opaque, atomic units — each is applied to completion, and in full,
/// before the next is observed. Queries leave the ledger untouched.
pub fn apply_command(memory: &mut Memory, command: StorageCommand) -> (r: StorageResponse)
    requires
        old(memory).wf(),
    ensures
        final(memory).wf(),
        command matches StorageCommand::AddBlock(block) ==> (r matches
            StorageResponse::AddBlock(res) && match res {
            Ok(()) => accepts(old(memory)@, block@) && final(memory)@ == old(memory)@.push(block@),
            Err(e) => {
                &&& *final(memory) == *old(memory)
                &&& !accepts(old(memory)@, block@)
                &&& e == Error::InvalidBlock(block.height, rejection(old(memory)@, block@))
            },
        }),
        command matches StorageCommand::GetAccounts ==> *final(memory) == *old(memory) && (r
            matches StorageResponse::Accounts(accounts) && accounts_report_ok(
            old(memory)@,
            accounts@,
        )),
        command matches StorageCommand::GetTransactions(address) ==> *final(memory) == *old(memory)
            && (r matches StorageResponse::Transactions(transactions) && transactions.deep_view()
            == transactions_for(old(memory)@, address@)),
{
    match command {
        StorageCommand::AddBlock(block) => StorageResponse::AddBlock(memory.add_block(block)),
        StorageCommand::GetAccounts => StorageResponse::Accounts(memory.get_accounts()),
        StorageCommand::GetTransactions(address) => StorageResponse::Transactions(
            memory.get_transactions(&address),
        ),
    }
}

} // verus!
