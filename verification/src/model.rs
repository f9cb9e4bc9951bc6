use vstd::prelude::*;
use crate::error::InvalidBlockReason;
use crate::types::{BlockModel, TransactionIndex, TransactionModel, TransactionWithMetaModel};

verus! {

// ---------------------------------------------------------------------------
// Transactions and balances
// ---------------------------------------------------------------------------

/// Whether the address takes part in the transfer, as sender or receiver.
pub open spec fn involves(t: TransactionModel, a: Seq<char>) -> bool {
    t.sender == a || t.receiver == a
}

/// The signed effect of one transfer on one address: credited as
/// receiver, debited as sender; a self-transfer nets to zero.
pub open spec fn tx_delta(t: TransactionModel, a: Seq<char>) -> int {
    (if t.receiver == a {
        t.amount as int
    } else {
        0
    }) - (if t.sender == a {
        t.amount as int
    } else {
        0
    })
}

/// The balance of an address after a sequence of transfers, starting
/// from zero: the signed sum of the deltas.
pub open spec fn txs_balance(txs: Seq<TransactionModel>, a: Seq<char>) -> int
    decreases txs.len(),
{
    if txs.len() == 0 {
        0
    } else {
        txs_balance(txs.drop_last(), a) + tx_delta(txs.last(), a)
    }
}

/// The total credited to an address as receiver.
pub open spec fn credit_total(txs: Seq<TransactionModel>, a: Seq<char>) -> int
    decreases txs.len(),
{
    if txs.len() == 0 {
        0
    } else {
        credit_total(txs.drop_last(), a) + if txs.last().receiver == a {
            txs.last().amount as int
        } else {
            0
        }
    }
}

/// The total debited from an address as sender.
pub open spec fn debit_total(txs: Seq<TransactionModel>, a: Seq<char>) -> int
    decreases txs.len(),
{
    if txs.len() == 0 {
        0
    } else {
        debit_total(txs.drop_last(), a) + if txs.last().sender == a {
            txs.last().amount as int
        } else {
            0
        }
    }
}

/// Whether the address occurs in the transfers at all.
pub open spec fn observed(txs: Seq<TransactionModel>, a: Seq<char>) -> bool {
    exists|i: int| 0 <= i < txs.len() && #[trigger] involves(txs[i], a)
}

/// All transfers of a chain of accepted blocks, in acceptance order.
pub open spec fn chain_txs(h: Seq<BlockModel>) -> Seq<TransactionModel>
    decreases h.len(),
{
    if h.len() == 0 {
        Seq::empty()
    } else {
        chain_txs(h.drop_last()) + h.last().transactions
    }
}

/// The balance the ledger owes an address after this chain of blocks.
pub open spec fn balance_of(h: Seq<BlockModel>, a: Seq<char>) -> int {
    txs_balance(chain_txs(h), a)
}

/// Whether the address occurs anywhere in the chain's transfers.
pub open spec fn observed_in(h: Seq<BlockModel>, a: Seq<char>) -> bool {
    observed(chain_txs(h), a)
}

pub proof fn lemma_txs_balance_push(txs: Seq<TransactionModel>, t: TransactionModel, a: Seq<char>)
    ensures
        txs_balance(txs.push(t), a) == txs_balance(txs, a) + tx_delta(t, a),
{
    assert(txs.push(t).drop_last() =~= txs);
}

/// An address that occurs in no transfer keeps balance zero.
pub proof fn lemma_unobserved_balance_zero(txs: Seq<TransactionModel>, a: Seq<char>)
    requires
        !observed(txs, a),
    ensures
        txs_balance(txs, a) == 0,
    decreases txs.len(),
{
    if txs.len() > 0 {
        assert(!involves(txs.last(), a)) by {
            assert(txs[txs.len() - 1] == txs.last());
        }
        assert(!observed(txs.drop_last(), a)) by {
            if observed(txs.drop_last(), a) {
                let i = choose|i: int|
                    0 <= i < txs.drop_last().len() && #[trigger] involves(txs.drop_last()[i], a);
                assert(involves(txs[i], a));
            }
        }
        lemma_unobserved_balance_zero(txs.drop_last(), a);
    }
}

/// The balance of an address is the signed sum of the transfer amounts:
/// everything credited to it as receiver minus everything debited from
/// it as sender.
pub proof fn lemma_balance_is_signed_sum(txs: Seq<TransactionModel>, a: Seq<char>)
    ensures
        txs_balance(txs, a) == credit_total(txs, a) - debit_total(txs, a),
    decreases txs.len(),
{
    if txs.len() > 0 {
        lemma_balance_is_signed_sum(txs.drop_last(), a);
    }
}

pub proof fn lemma_chain_txs_push(h: Seq<BlockModel>, b: BlockModel)
    ensures
        chain_txs(h.push(b)) == chain_txs(h) + b.transactions,
{
    assert(h.push(b).drop_last() =~= h);
}

pub proof fn lemma_observed_extend(txs: Seq<TransactionModel>, t: TransactionModel, a: Seq<char>)
    ensures
        observed(txs.push(t), a) <==> (observed(txs, a) || involves(t, a)),
{
    if observed(txs, a) {
        let i = choose|i: int| 0 <= i < txs.len() && #[trigger] involves(txs[i], a);
        assert(involves(txs.push(t)[i], a));
    }
    if involves(t, a) {
        assert(involves(txs.push(t)[txs.len() as int], a));
    }
    if observed(txs.push(t), a) && !involves(t, a) {
        let i = choose|i: int| 0 <= i < txs.push(t).len() && #[trigger] involves(txs.push(t)[i], a);
        if i < txs.len() {
            assert(involves(txs[i], a));
        } else {
            assert(txs.push(t)[i] == t);
        }
    }
}

/// The ledger's balance law: the balance an address is owed after a
/// chain of accepted blocks is the signed sum of the chain's transfer
/// amounts — everything credited to it as receiver minus everything
/// debited from it as sender.
pub proof fn lemma_chain_balance_signed_sum(h: Seq<BlockModel>, a: Seq<char>)
    ensures
        balance_of(h, a) == credit_total(chain_txs(h), a) - debit_total(chain_txs(h), a),
{
    lemma_balance_is_signed_sum(chain_txs(h), a);
}

// ---------------------------------------------------------------------------
// Heights and acceptance
// ---------------------------------------------------------------------------

/// Accepted block heights are strictly increasing over time.
pub open spec fn heights_increasing(h: Seq<BlockModel>) -> bool {
    forall|i: int, j: int| 0 <= i < j < h.len() ==> h[i].height < h[j].height
}

/// Whether some accepted block has this height.
pub open spec fn has_height(h: Seq<BlockModel>, height: u64) -> bool {
    exists|i: int| 0 <= i < h.len() && #[trigger] h[i].height == height
}

/// A block's height is admissible: the chain is empty, or the height
/// strictly exceeds the most recently accepted one.
pub open spec fn height_ok(h: Seq<BlockModel>, b: BlockModel) -> bool {
    h.len() == 0 || b.height > h.last().height
}

/// Every stored block's transaction list fits a machine-sized vector.
pub open spec fn blocks_bounded(h: Seq<BlockModel>) -> bool {
    forall|i: int| 0 <= i < h.len() ==> (#[trigger] h[i].transactions).len() <= usize::MAX
}

pub proof fn lemma_heights_increasing_push(h: Seq<BlockModel>, b: BlockModel)
    requires
        heights_increasing(h),
        height_ok(h, b),
    ensures
        heights_increasing(h.push(b)),
{
    let g = h.push(b);
    assert forall|i: int, j: int| 0 <= i < j < g.len() implies g[i].height < g[j].height by {
        if j < h.len() {
            assert(h[i].height < h[j].height);
        } else {
            assert(g[j] == b);
            if i < h.len() - 1 {
                assert(h[i].height < h[h.len() - 1].height);
            }
        }
    }
}

/// With strictly increasing heights, a fresh height above the last one
/// is nowhere in the chain.
pub proof fn lemma_fresh_height(h: Seq<BlockModel>, height: u64)
    requires
        heights_increasing(h),
        h.len() == 0 || height > h.last().height,
    ensures
        !has_height(h, height),
{
    if has_height(h, height) {
        let i = choose|i: int| 0 <= i < h.len() && #[trigger] h[i].height == height;
        if i < h.len() - 1 {
            assert(h[i].height < h[h.len() - 1].height);
        }
    }
}

/// A height at or below the last accepted one is never admissible:
/// such a block is always rejected as a duplicate or a regression, and
/// the storage contract then leaves the ledger byte for byte unchanged.
pub proof fn lemma_stale_height_rejected(h: Seq<BlockModel>, b: BlockModel)
    requires
        h.len() > 0,
        b.height <= h.last().height,
    ensures
        !height_ok(h, b),
        !accepts(h, b),
        rejection(h, b) == InvalidBlockReason::AlreadyExists || rejection(h, b)
            == InvalidBlockReason::NotAscending,
{
}

// ---------------------------------------------------------------------------
// Overflow discipline
// ---------------------------------------------------------------------------

/// Applying one transfer after `prior` keeps both touched balances
/// representable: the receiver's balance is credited first, then the
/// sender's is debited, exactly as the ledger applies them.
pub open spec fn tx_fits(prior: Seq<TransactionModel>, t: TransactionModel) -> bool {
    &&& txs_balance(prior, t.receiver) + t.amount <= i64::MAX
    &&& txs_balance(prior.push(t), t.sender) >= i64::MIN
}

/// Every transfer of `txs`, applied in order after `prior`, fits.
pub open spec fn txs_fit(prior: Seq<TransactionModel>, txs: Seq<TransactionModel>) -> bool
    decreases txs.len(),
{
    txs.len() == 0 || (txs_fit(prior, txs.drop_last()) && tx_fits(
        prior + txs.drop_last(),
        txs.last(),
    ))
}

/// The block's transfers all fit when applied after the chain.
pub open spec fn block_fits(h: Seq<BlockModel>, b: BlockModel) -> bool {
    txs_fit(chain_txs(h), b.transactions)
}

/// The storage engine accepts the block: its height is admissible and
/// applying it keeps every balance representable.
pub open spec fn accepts(h: Seq<BlockModel>, b: BlockModel) -> bool {
    height_ok(h, b) && block_fits(h, b)
}

/// The reason an inadmissible block is rejected with, in the order the
/// engine checks: a duplicate height first, then a regression, and
/// otherwise a balance that would leave the representable range.
pub open spec fn rejection(h: Seq<BlockModel>, b: BlockModel) -> InvalidBlockReason {
    if has_height(h, b.height) {
        InvalidBlockReason::AlreadyExists
    } else if !height_ok(h, b) {
        InvalidBlockReason::NotAscending
    } else {
        InvalidBlockReason::BalanceOverflow
    }
}

pub proof fn lemma_txs_fit_take(prior: Seq<TransactionModel>, txs: Seq<TransactionModel>, n: int)
    requires
        txs_fit(prior, txs),
        0 <= n <= txs.len(),
    ensures
        txs_fit(prior, txs.take(n)),
    decreases txs.len(),
{
    if n < txs.len() {
        assert(txs.drop_last().take(n) =~= txs.take(n));
        lemma_txs_fit_take(prior, txs.drop_last(), n);
    } else {
        assert(txs.take(n) =~= txs);
    }
}

// ---------------------------------------------------------------------------
// The transaction index
// ---------------------------------------------------------------------------

/// The index entries one block contributes under one address,
/// considering only the first `n` transactions: one entry per position
/// the address takes part in. A self-transfer yields a single entry.
pub open spec fn block_entries_upto(b: BlockModel, a: Seq<char>, n: int) -> Seq<TransactionIndex>
    decreases n,
{
    if n <= 0 {
        Seq::empty()
    } else {
        block_entries_upto(b, a, n - 1) + if involves(b.transactions[n - 1], a) {
            seq![TransactionIndex { block_height: b.height, index: (n - 1) as usize }]
        } else {
            Seq::empty()
        }
    }
}

/// All index entries one block contributes under one address.
pub open spec fn block_entries(b: BlockModel, a: Seq<char>) -> Seq<TransactionIndex> {
    block_entries_upto(b, a, b.transactions.len() as int)
}

/// The ledger's index under one address: the entries of every accepted
/// block, in acceptance order, in block order within a block.
pub open spec fn index_entries(h: Seq<BlockModel>, a: Seq<char>) -> Seq<TransactionIndex>
    decreases h.len(),
{
    if h.len() == 0 {
        Seq::empty()
    } else {
        index_entries(h.drop_last(), a) + block_entries(h.last(), a)
    }
}

/// How often an entry occurs in a sequence of index entries.
pub open spec fn entry_count(s: Seq<TransactionIndex>, e: TransactionIndex) -> nat
    decreases s.len(),
{
    if s.len() == 0 {
        0
    } else {
        entry_count(s.drop_last(), e) + if s.last() == e {
            1nat
        } else {
            0nat
        }
    }
}

pub proof fn lemma_entry_count_concat(s: Seq<TransactionIndex>, t: Seq<TransactionIndex>, e: TransactionIndex)
    ensures
        entry_count(s + t, e) == entry_count(s, e) + entry_count(t, e),
    decreases t.len(),
{
    if t.len() == 0 {
        assert(s + t =~= s);
    } else {
        lemma_entry_count_concat(s, t.drop_last(), e);
        assert((s + t).drop_last() =~= s + t.drop_last());
        assert((s + t).last() == t.last());
    }
}

pub proof fn lemma_entry_count_zero(s: Seq<TransactionIndex>, e: TransactionIndex)
    requires
        forall|k: int| 0 <= k < s.len() ==> s[k] != e,
    ensures
        entry_count(s, e) == 0,
    decreases s.len(),
{
    if s.len() > 0 {
        assert(s.last() == s[s.len() - 1]);
        lemma_entry_count_zero(s.drop_last(), e);
    }
}

/// Every entry the first `n` positions of a block contribute names that
/// block's height, a position below `n`, and a transaction the address
/// takes part in.
pub proof fn lemma_block_entries_props(b: BlockModel, a: Seq<char>, n: int)
    requires
        0 <= n <= b.transactions.len(),
        b.transactions.len() <= usize::MAX,
    ensures
        forall|k: int| 0 <= k < block_entries_upto(b, a, n).len() ==> {
            &&& (#[trigger] block_entries_upto(b, a, n)[k]).block_height == b.height
            &&& block_entries_upto(b, a, n)[k].index < n
            &&& involves(b.transactions[block_entries_upto(b, a, n)[k].index as int], a)
        },
    decreases n,
{
    if n > 0 {
        lemma_block_entries_props(b, a, n - 1);
        if involves(b.transactions[n - 1], a) {
            let s = block_entries_upto(b, a, n - 1);
            let e = TransactionIndex { block_height: b.height, index: (n - 1) as usize };
            assert(block_entries_upto(b, a, n) == s + seq![e]);
            assert(forall|k: int| 0 <= k < s.len() ==> block_entries_upto(b, a, n)[k] == s[k]);
            assert(block_entries_upto(b, a, n)[s.len() as int] == e);
        }
    }
}

/// Among the first `n` positions of a block, the entry for position `i`
/// occurs exactly once if position `i < n` holds a transaction the
/// address takes part in, and never otherwise.
pub proof fn lemma_block_entry_count(b: BlockModel, a: Seq<char>, n: int, i: int)
    requires
        0 <= n <= b.transactions.len(),
        b.transactions.len() <= usize::MAX,
        0 <= i <= usize::MAX,
    ensures
        entry_count(
            block_entries_upto(b, a, n),
            TransactionIndex { block_height: b.height, index: i as usize },
        ) == if i < n && involves(b.transactions[i], a) {
            1nat
        } else {
            0nat
        },
    decreases n,
{
    let e = TransactionIndex { block_height: b.height, index: i as usize };
    if n > 0 {
        lemma_block_entry_count(b, a, n - 1, i);
        let s = block_entries_upto(b, a, n - 1);
        if involves(b.transactions[n - 1], a) {
            let last = TransactionIndex { block_height: b.height, index: (n - 1) as usize };
            lemma_entry_count_concat(s, seq![last], e);
            assert(entry_count(seq![last], e) == if last == e { 1nat } else { 0nat }) by {
                assert(seq![last].len() == 1);
                assert(seq![last].last() == last);
                assert(seq![last].drop_last() =~= Seq::<TransactionIndex>::empty());
                assert(entry_count(Seq::<TransactionIndex>::empty(), e) == 0);
            }
        } else {
            assert(block_entries_upto(b, a, n) =~= s);
        }
    }
}

/// A block whose height an entry does not name contributes no copy of
/// that entry.
pub proof fn lemma_block_entry_other_height(b: BlockModel, a: Seq<char>, e: TransactionIndex)
    requires
        e.block_height != b.height,
        b.transactions.len() <= usize::MAX,
    ensures
        entry_count(block_entries(b, a), e) == 0,
{
    lemma_block_entries_props(b, a, b.transactions.len() as int);
    lemma_entry_count_zero(block_entries(b, a), e);
}

/// A chain that holds no block of the entry's height holds no copy of
/// the entry.
pub proof fn lemma_index_entries_height_absent(h: Seq<BlockModel>, a: Seq<char>, e: TransactionIndex)
    requires
        !has_height(h, e.block_height),
        blocks_bounded(h),
    ensures
        entry_count(index_entries(h, a), e) == 0,
    decreases h.len(),
{
    if h.len() > 0 {
        let hd = h.drop_last();
        assert(!has_height(hd, e.block_height)) by {
            if has_height(hd, e.block_height) {
                let i = choose|i: int| 0 <= i < hd.len() && #[trigger] hd[i].height == e.block_height;
                assert(h[i].height == e.block_height);
            }
        }
        assert(blocks_bounded(hd)) by {
            assert(forall|i: int| 0 <= i < hd.len() ==> hd[i] == h[i]);
        }
        lemma_index_entries_height_absent(hd, a, e);
        assert(h.last().height != e.block_height) by {
            assert(h[h.len() - 1] == h.last());
        }
        assert(h.last().transactions.len() <= usize::MAX) by {
            assert(h[h.len() - 1] == h.last());
        }
        lemma_block_entry_other_height(h.last(), a, e);
        lemma_entry_count_concat(index_entries(hd, a), block_entries(h.last(), a), e);
    }
}

/// Exactly-once indexing: each accepted transaction an address takes
/// part in has exactly one index entry under that address. For a
/// self-transfer the sender's and the receiver's entry are the same
/// single entry.
pub proof fn lemma_indexed_exactly_once(h: Seq<BlockModel>, a: Seq<char>, k: int, i: int)
    requires
        heights_increasing(h),
        blocks_bounded(h),
        0 <= k < h.len(),
        0 <= i < h[k].transactions.len(),
        involves(h[k].transactions[i], a),
    ensures
        entry_count(
            index_entries(h, a),
            TransactionIndex { block_height: h[k].height, index: i as usize },
        ) == 1,
    decreases h.len(),
{
    let e = TransactionIndex { block_height: h[k].height, index: i as usize };
    let hd = h.drop_last();
    let b = h.last();
    assert(h.len() > 0);
    assert(blocks_bounded(hd) && heights_increasing(hd)) by {
        assert(forall|j: int| 0 <= j < hd.len() ==> hd[j] == h[j]);
    }
    lemma_entry_count_concat(index_entries(hd, a), block_entries(b, a), e);
    if k == h.len() - 1 {
        assert(b == h[k]);
        assert(i <= usize::MAX) by {
            assert(h[k].transactions.len() <= usize::MAX);
        }
        lemma_block_entry_count(b, a, b.transactions.len() as int, i);
        assert(entry_count(block_entries(b, a), e) == 1);
        assert(!has_height(hd, e.block_height)) by {
            if hd.len() > 0 {
                assert(h[hd.len() - 1] == hd.last());
                assert(hd.last().height < h[k].height);
            }
            lemma_fresh_height(hd, e.block_height);
        }
        lemma_index_entries_height_absent(hd, a, e);
    } else {
        assert(hd[k] == h[k]);
        lemma_indexed_exactly_once(hd, a, k, i);
        assert(b.height != e.block_height) by {
            assert(h[k].height < h[h.len() - 1].height);
            assert(h[h.len() - 1] == b);
        }
        assert(b.transactions.len() <= usize::MAX) by {
            assert(h[h.len() - 1] == b);
        }
        lemma_block_entry_other_height(b, a, e);
    }
}

/// The index law for one accepted transaction: exactly one entry under
/// its sender and exactly one under its receiver — and for a
/// self-transfer those are the same single entry, deduplicated.
pub proof fn lemma_transaction_indexed_under_both(h: Seq<BlockModel>, k: int, i: int)
    requires
        heights_increasing(h),
        blocks_bounded(h),
        0 <= k < h.len(),
        0 <= i < h[k].transactions.len(),
    ensures
        entry_count(
            index_entries(h, h[k].transactions[i].sender),
            TransactionIndex { block_height: h[k].height, index: i as usize },
        ) == 1,
        entry_count(
            index_entries(h, h[k].transactions[i].receiver),
            TransactionIndex { block_height: h[k].height, index: i as usize },
        ) == 1,
{
    lemma_indexed_exactly_once(h, h[k].transactions[i].sender, k, i);
    lemma_indexed_exactly_once(h, h[k].transactions[i].receiver, k, i);
}

// ---------------------------------------------------------------------------
// Query results
// ---------------------------------------------------------------------------

proof fn lemma_position_gives_count_positive(s: Seq<TransactionIndex>, e: TransactionIndex, p: int)
    requires
        0 <= p < s.len(),
        s[p] == e,
    ensures
        entry_count(s, e) >= 1,
    decreases s.len(),
{
    if p == s.len() - 1 {
        assert(s.last() == e);
    } else {
        assert(s.drop_last()[p] == e);
        lemma_position_gives_count_positive(s.drop_last(), e, p);
    }
}

proof fn lemma_count_positive_gives_position(s: Seq<TransactionIndex>, e: TransactionIndex) -> (p: int)
    requires
        entry_count(s, e) >= 1,
    ensures
        0 <= p < s.len(),
        s[p] == e,
    decreases s.len(),
{
    if s.len() == 0 {
        0
    } else if s.last() == e {
        s.len() - 1
    } else {
        let p = lemma_count_positive_gives_position(s.drop_last(), e);
        assert(s[p] == s.drop_last()[p]);
        p
    }
}

proof fn lemma_two_positions_give_count_two(
    s: Seq<TransactionIndex>,
    e: TransactionIndex,
    p1: int,
    p2: int,
)
    requires
        0 <= p1 < p2 < s.len(),
        s[p1] == e,
        s[p2] == e,
    ensures
        entry_count(s, e) >= 2,
    decreases s.len(),
{
    if p2 == s.len() - 1 {
        assert(s.last() == e);
        assert(s.drop_last()[p1] == e);
        lemma_position_gives_count_positive(s.drop_last(), e, p1);
    } else {
        assert(s.drop_last()[p1] == e);
        assert(s.drop_last()[p2] == e);
        lemma_two_positions_give_count_two(s.drop_last(), e, p1, p2);
    }
}

/// The query results one block contributes under one address,
/// considering only the first `n` transactions: each transaction the
/// address takes part in, paired with the block's timestamp.
pub open spec fn block_transactions_for_upto(b: BlockModel, a: Seq<char>, n: int) -> Seq<
    TransactionWithMetaModel,
>
    decreases n,
{
    if n <= 0 {
        Seq::empty()
    } else {
        block_transactions_for_upto(b, a, n - 1) + if involves(b.transactions[n - 1], a) {
            seq![TransactionWithMetaModel { data: b.transactions[n - 1], timestamp: b.timestamp }]
        } else {
            Seq::empty()
        }
    }
}

/// All query results one block contributes under one address.
pub open spec fn block_transactions_for(b: BlockModel, a: Seq<char>) -> Seq<
    TransactionWithMetaModel,
> {
    block_transactions_for_upto(b, a, b.transactions.len() as int)
}

/// What a transactions query for an address returns: the indexed
/// transactions resolved against their blocks, in index-append order.
pub open spec fn transactions_for(h: Seq<BlockModel>, a: Seq<char>) -> Seq<
    TransactionWithMetaModel,
>
    decreases h.len(),
{
    if h.len() == 0 {
        Seq::empty()
    } else {
        transactions_for(h.drop_last(), a) + block_transactions_for(h.last(), a)
    }
}

/// The position of the block with the given height, when one exists.
pub open spec fn height_position(h: Seq<BlockModel>, height: u64) -> int {
    choose|j: int| 0 <= j < h.len() && #[trigger] h[j].height == height
}

pub proof fn lemma_height_position_unique(h: Seq<BlockModel>, j: int)
    requires
        heights_increasing(h),
        0 <= j < h.len(),
    ensures
        has_height(h, h[j].height),
        height_position(h, h[j].height) == j,
{
    assert(has_height(h, h[j].height));
    let j2 = height_position(h, h[j].height);
    if j2 < j {
        assert(h[j2].height < h[j].height);
    } else if j2 > j {
        assert(h[j].height < h[j2].height);
    }
}

/// The `k`-th index entry under an address resolves, through the block
/// its height names, to the `k`-th query result under that address.
pub open spec fn resolves_at(h: Seq<BlockModel>, a: Seq<char>, k: int) -> bool {
    let e = index_entries(h, a)[k];
    let j = height_position(h, e.block_height);
    &&& has_height(h, e.block_height)
    &&& 0 <= j < h.len()
    &&& h[j].height == e.block_height
    &&& e.index < h[j].transactions.len()
    &&& involves(h[j].transactions[e.index as int], a)
    &&& transactions_for(h, a)[k] == TransactionWithMetaModel {
        data: h[j].transactions[e.index as int],
        timestamp: h[j].timestamp,
    }
}

/// Within one block, entries and query results correspond position by
/// position.
pub proof fn lemma_block_resolution(b: BlockModel, a: Seq<char>, n: int)
    requires
        0 <= n <= b.transactions.len(),
        b.transactions.len() <= usize::MAX,
    ensures
        block_entries_upto(b, a, n).len() == block_transactions_for_upto(b, a, n).len(),
        forall|k: int| 0 <= k < block_entries_upto(b, a, n).len() ==> {
            &&& (#[trigger] block_entries_upto(b, a, n)[k]).block_height == b.height
            &&& block_entries_upto(b, a, n)[k].index < n
            &&& involves(b.transactions[block_entries_upto(b, a, n)[k].index as int], a)
            &&& block_transactions_for_upto(b, a, n)[k] == TransactionWithMetaModel {
                data: b.transactions[block_entries_upto(b, a, n)[k].index as int],
                timestamp: b.timestamp,
            }
        },
    decreases n,
{
    if n > 0 {
        lemma_block_resolution(b, a, n - 1);
        let s = block_entries_upto(b, a, n - 1);
        let t = block_transactions_for_upto(b, a, n - 1);
        if involves(b.transactions[n - 1], a) {
            let e = TransactionIndex { block_height: b.height, index: (n - 1) as usize };
            assert(block_entries_upto(b, a, n) == s + seq![e]);
            assert(forall|k: int| 0 <= k < s.len() ==> block_entries_upto(b, a, n)[k] == s[k]);
            assert(forall|k: int| 0 <= k < t.len()
                ==> block_transactions_for_upto(b, a, n)[k] == t[k]);
            assert(block_entries_upto(b, a, n)[s.len() as int] == e);
            assert(block_transactions_for_upto(b, a, n)[s.len() as int]
                == TransactionWithMetaModel {
                data: b.transactions[n - 1],
                timestamp: b.timestamp,
            });
        } else {
            assert(block_entries_upto(b, a, n) =~= s);
            assert(block_transactions_for_upto(b, a, n) =~= t);
        }
    }
}

/// Index entries and query results correspond position by position
/// across the whole chain: resolving the index yields exactly what the
/// query returns.
pub proof fn lemma_entries_resolve(h: Seq<BlockModel>, a: Seq<char>)
    requires
        heights_increasing(h),
        blocks_bounded(h),
    ensures
        index_entries(h, a).len() == transactions_for(h, a).len(),
        forall|k: int| 0 <= k < index_entries(h, a).len() ==> #[trigger] resolves_at(h, a, k),
    decreases h.len(),
{
    if h.len() > 0 {
        let hd = h.drop_last();
        let b = h.last();
        assert(blocks_bounded(hd) && heights_increasing(hd)) by {
            assert(forall|j: int| 0 <= j < hd.len() ==> hd[j] == h[j]);
        }
        lemma_entries_resolve(hd, a);
        assert(b.transactions.len() <= usize::MAX) by {
            assert(h[h.len() - 1] == b);
        }
        lemma_block_resolution(b, a, b.transactions.len() as int);
        let es = index_entries(hd, a);
        let bs = block_entries(b, a);
        assert forall|k: int| 0 <= k < index_entries(h, a).len() implies #[trigger] resolves_at(
            h,
            a,
            k,
        ) by {
            if k < es.len() {
                assert(resolves_at(hd, a, k));
                let e = es[k];
                assert(index_entries(h, a)[k] == e);
                assert(transactions_for(h, a)[k] == transactions_for(hd, a)[k]);
                let j = height_position(hd, e.block_height);
                assert(h[j] == hd[j]);
                lemma_height_position_unique(h, j);
            } else {
                let e = bs[k - es.len()];
                assert(index_entries(h, a)[k] == e);
                assert(transactions_for(h, a)[k] == block_transactions_for(b, a)[k - es.len()]);
                assert(e.block_height == b.height);
                assert(h[h.len() - 1] == b);
                lemma_height_position_unique(h, h.len() - 1);
            }
        }
    }
}

pub proof fn lemma_index_entries_push(h: Seq<BlockModel>, b: BlockModel, a: Seq<char>)
    ensures
        index_entries(h.push(b), a) == index_entries(h, a) + block_entries(b, a),
        transactions_for(h.push(b), a) == transactions_for(h, a) + block_transactions_for(b, a),
{
    assert(h.push(b).drop_last() =~= h);
}

/// The query law for one accepted transaction: a transactions query
/// under an address the transfer involves returns it exactly once.
/// There is exactly one position whose index entry names the
/// transfer's block height and position, and the result there pairs
/// the transfer with its block's timestamp. For a self-transfer the
/// sender's and the receiver's queries are one and the same query, so
/// the transfer still appears once.
pub proof fn lemma_query_resolves_transaction_once(
    h: Seq<BlockModel>,
    a: Seq<char>,
    k: int,
    i: int,
) -> (p: int)
    requires
        heights_increasing(h),
        blocks_bounded(h),
        0 <= k < h.len(),
        0 <= i < h[k].transactions.len(),
        involves(h[k].transactions[i], a),
    ensures
        0 <= p < transactions_for(h, a).len(),
        index_entries(h, a)[p] == (TransactionIndex { block_height: h[k].height, index: i as usize }),
        transactions_for(h, a)[p] == (TransactionWithMetaModel {
            data: h[k].transactions[i],
            timestamp: h[k].timestamp,
        }),
        forall|q: int|
            0 <= q < index_entries(h, a).len() && index_entries(h, a)[q] == (TransactionIndex {
                block_height: h[k].height,
                index: i as usize,
            }) ==> q == p,
{
    let e = TransactionIndex { block_height: h[k].height, index: i as usize };
    assert(h[k].transactions.len() <= usize::MAX);
    lemma_indexed_exactly_once(h, a, k, i);
    let p = lemma_count_positive_gives_position(index_entries(h, a), e);
    lemma_entries_resolve(h, a);
    assert(resolves_at(h, a, p));
    lemma_height_position_unique(h, k);
    assert(height_position(h, e.block_height) == k);
    assert(e.index as int == i);
    assert forall|q: int|
        0 <= q < index_entries(h, a).len() && index_entries(h, a)[q] == e implies q == p by {
        if q < p {
            lemma_two_positions_give_count_two(index_entries(h, a), e, q, p);
        } else if q > p {
            lemma_two_positions_give_count_two(index_entries(h, a), e, p, q);
        }
    }
    p
}

} // verus!
