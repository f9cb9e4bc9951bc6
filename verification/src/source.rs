use vstd::prelude::*;
use crate::blocks::{parse_block, raw_block_wf, spec_parse_block, RawBlock};
use crate::error::{Error, InvalidBlockReason};
use crate::types::{Block, BlockModel, Transaction};

verus! {

/// The RPC status code reporting that a slot's block is not yet
/// available.
pub const BLOCK_NOT_AVAILABLE: i64 = -32004;

/// The RPC status code reporting that a slot was skipped or its block
/// is missing.
pub const SLOT_SKIPPED: i64 = -32007;

/// How long the live source waits before retrying a not-yet-available
/// slot, in milliseconds.
pub const RETRY_DELAY_MS: u64 = 100;

/// One event of a source stream: the next block, a failure that ends
/// the stream, or its orderly end.
#[derive(Debug)]
pub enum SourceEvent {
    Next(Block),
    Failure(Error),
    EndOfStream,
}

/// Mathematical image of a [`SourceEvent`].
#[verifier::ext_equal]
pub enum SourceEventModel {
    Next(BlockModel),
    Failure(Error),
    EndOfStream,
}

impl View for SourceEvent {
    type V = SourceEventModel;

    open spec fn view(&self) -> SourceEventModel {
        match self {
            SourceEvent::Next(b) => SourceEventModel::Next(b@),
            SourceEvent::Failure(e) => SourceEventModel::Failure(*e),
            SourceEvent::EndOfStream => SourceEventModel::EndOfStream,
        }
    }
}

/// The event a replay source emits at a given step: the fixture's block
/// at that position while one remains, and end of stream ever after. A
/// function of the fixture and the step alone.
pub open spec fn replay_event_at(fixture: Seq<BlockModel>, step: int) -> SourceEventModel {
    if step < fixture.len() {
        SourceEventModel::Next(fixture[step])
    } else {
        SourceEventModel::EndOfStream
    }
}

/// Replay determinism: the event emitted at each step is a function of
/// the fixture and the step index alone, and from the fixture's end on
/// it is `EndOfStream` forever. Together with [`Benchmark::next`]'s
/// contract — the fixture is never modified, the cursor starts at zero
/// and advances by exactly one per emitted block — the same fixture
/// always yields the same ordered event sequence, terminating in
/// `EndOfStream`, regardless of how fast the consumer drains it.
pub proof fn lemma_replay_deterministic(fixture: Seq<BlockModel>, step: int)
    ensures
        step < fixture.len() ==> replay_event_at(fixture, step) == SourceEventModel::Next(
            fixture[step],
        ),
        step >= fixture.len() ==> replay_event_at(fixture, step) == SourceEventModel::EndOfStream,
{
}

/// A deterministic replay source over a finite fixture of pre-recorded
/// raw block records, parsed once at construction.
pub struct Benchmark {
    current_block: usize,
    blocks: Vec<Block>,
}

impl Benchmark {
    /// The parsed fixture, in record order.
    pub closed spec fn fixture(&self) -> Seq<BlockModel> {
        self.blocks.deep_view()
    }

    /// How many events have been consumed.
    pub closed spec fn cursor(&self) -> int {
        self.current_block as int
    }

    /// The cursor never passes the fixture's end.
    pub open spec fn wf(&self) -> bool {
        0 <= self.cursor() <= self.fixture().len()
    }

    /// Builds a replay source from raw fixture records, parsing each in
    /// order; `None` when some record lacks its height or timestamp.
    pub fn new(records: Vec<RawBlock>) -> (r: Option<Benchmark>)
        ensures
            match r {
                Some(source) => {
                    &&& source.wf()
                    &&& source.cursor() == 0
                    &&& source.fixture().len() == records.deep_view().len()
                    &&& forall|i: int|
                        0 <= i < records.deep_view().len() ==> raw_block_wf(
                            #[trigger] records.deep_view()[i],
                        ) && source.fixture()[i] == spec_parse_block(records.deep_view()[i])
                },
                None => exists|i: int|
                    0 <= i < records.deep_view().len() && !raw_block_wf(
                        #[trigger] records.deep_view()[i],
                    ),
            },
    {
        let ghost raws = records.deep_view();
        let mut blocks: Vec<Block> = Vec::new();
        let mut i: usize = 0;
        while i < records.len()
            invariant
                i <= records.len(),
                raws == records.deep_view(),
                raws.len() == records.len(),
                blocks@.len() == i,
                forall|k: int|
                    0 <= k < i ==> raw_block_wf(#[trigger] raws[k]) && blocks.deep_view()[k]
                        == spec_parse_block(raws[k]),
            decreases records.len() - i,
        {
            proof {
                assert(records[i as int].deep_view() == raws[i as int]);
            }
            match parse_block(&records[i]) {
                Some(block) => {
                    blocks.push(block);
                },
                None => {
                    return None;
                },
            }
            i = i + 1;
        }
        Some(Benchmark { current_block: 0, blocks })
    }

    /// The next replay event: purely a function of the fixture and the
    /// cursor, with no side effects beyond advancing the cursor.
    pub fn next(&mut self) -> (e: SourceEvent)
        requires
            old(self).wf(),
        ensures
            final(self).wf(),
            final(self).fixture() == old(self).fixture(),
            e@ == replay_event_at(old(self).fixture(), old(self).cursor()),
            old(self).cursor() < old(self).fixture().len() ==> final(self).cursor() == old(
                self,
            ).cursor() + 1,
            old(self).cursor() >= old(self).fixture().len() ==> final(self).cursor() == old(
                self,
            ).cursor(),
    {
        if self.current_block >= self.blocks.len() {
            return SourceEvent::EndOfStream;
        }
        let block = clone_block(&self.blocks[self.current_block]);
        self.current_block = self.current_block + 1;
        SourceEvent::Next(block)
    }
}

/// Copies a transaction list field by field; the views coincide.
fn clone_transactions(transactions: &Vec<Transaction>) -> (r: Vec<Transaction>)
    ensures
        r@ == transactions@,
{
    let mut r: Vec<Transaction> = Vec::new();
    let mut i: usize = 0;
    while i < transactions.len()
        invariant
            i <= transactions.len(),
            r@ =~= transactions@.take(i as int),
        decreases transactions.len() - i,
    {
        r.push(
            Transaction {
                sender: transactions[i].sender.clone(),
                receiver: transactions[i].receiver.clone(),
                amount: transactions[i].amount,
            },
        );
        proof {
            assert(r@ =~= transactions@.take(i + 1));
        }
        i = i + 1;
    }
    proof {
        assert(transactions@.take(transactions@.len() as int) =~= transactions@);
    }
    r
}

/// Copies a block field by field; the views coincide.
fn clone_block(block: &Block) -> (r: Block)
    ensures
        r@ == block@,
{
    Block {
        height: block.height,
        hash: block.hash.clone(),
        timestamp: block.timestamp,
        transactions: clone_transactions(&block.transactions),
    }
}

/// What the live polling loop does after one poll of the current slot.
#[derive(Debug)]
pub enum LiveStep {
    /// Return this event to the caller of `next()`.
    Yield(SourceEvent),
    /// Sleep [`RETRY_DELAY_MS`] milliseconds, then poll the same slot
    /// again.
    Backoff,
    /// Poll the next slot immediately, without any delay.
    Advance,
}

/// The outcome class of one poll, for stating the retry schedule.
#[derive(Clone, Copy, Debug, PartialEq, Eq, Structural)]
pub enum PollClass {
    /// The block arrived and parsed.
    Delivered,
    /// The block is not yet available.
    NotAvailable,
    /// The slot was skipped or its block is missing.
    Skipped,
    /// A terminal failure, or a block without its metadata.
    Failed,
}

/// The class of what one poll observed.
pub open spec fn poll_class_of(fetched: Result<RawBlock, Error>) -> PollClass {
    match fetched {
        Ok(raw) => if raw_block_wf(raw@) {
            PollClass::Delivered
        } else {
            PollClass::Failed
        },
        Err(e) => match e {
            Error::SlotNotAvailable(_) => PollClass::NotAvailable,
            Error::SlotSkippedOrMissing(_) => PollClass::Skipped,
            _ => PollClass::Failed,
        },
    }
}

/// Where the cursor stands after a run of polls that started at
/// `start`: delivered and skipped slots advance it by one each,
/// everything else holds it still.
pub open spec fn slot_after(start: u64, polls: Seq<PollClass>) -> int
    decreases polls.len(),
{
    if polls.len() == 0 {
        start as int
    } else {
        slot_after(start, polls.drop_last()) + match polls.last() {
            PollClass::Delivered => 1int,
            PollClass::Skipped => 1int,
            PollClass::NotAvailable => 0int,
            PollClass::Failed => 0int,
        }
    }
}

/// How many back-off delays a run of polls costs: one per
/// not-yet-available outcome, none for anything else.
pub open spec fn backoff_count(polls: Seq<PollClass>) -> nat
    decreases polls.len(),
{
    if polls.len() == 0 {
        0
    } else {
        backoff_count(polls.drop_last()) + match polls.last() {
            PollClass::NotAvailable => 1nat,
            _ => 0nat,
        }
    }
}

proof fn lemma_slot_after_single(start: u64, class: PollClass)
    ensures
        slot_after(start, seq![class]) == start as int + (match class {
            PollClass::Delivered => 1int,
            PollClass::Skipped => 1int,
            PollClass::NotAvailable => 0int,
            PollClass::Failed => 0int,
        }),
{
    assert(slot_after(start, Seq::<PollClass>::empty()) == start);
    assert(seq![class].drop_last() =~= Seq::<PollClass>::empty());
    assert(seq![class].last() == class);
    assert(slot_after(start, seq![class]) == slot_after(start, seq![class].drop_last())
        + match seq![class].last() {
        PollClass::Delivered => 1int,
        PollClass::Skipped => 1int,
        PollClass::NotAvailable => 0int,
        PollClass::Failed => 0int,
    });
}

proof fn lemma_not_available_holds_slot(start: u64, polls: Seq<PollClass>)
    requires
        forall|i: int| 0 <= i < polls.len() ==> polls[i] == PollClass::NotAvailable,
    ensures
        slot_after(start, polls) == start,
        backoff_count(polls) == polls.len(),
    decreases polls.len(),
{
    if polls.len() > 0 {
        assert(polls.last() == polls[polls.len() - 1]);
        lemma_not_available_holds_slot(start, polls.drop_last());
    }
}

/// Retry schedule: a live source that observes some number of
/// not-yet-available outcomes for a slot and then its block waits one
/// back-off delay per retry, never moves off the slot while waiting,
/// and advances exactly one slot on delivery. In particular, observing
/// not-available twice and then the block costs at least two back-off
/// intervals before the block is returned.
pub proof fn lemma_retry_schedule(start: u64, polls: Seq<PollClass>)
    requires
        polls.len() > 0,
        forall|i: int| 0 <= i < polls.len() - 1 ==> polls[i] == PollClass::NotAvailable,
        polls.last() == PollClass::Delivered,
    ensures
        slot_after(start, polls) == start + 1,
        backoff_count(polls) == polls.len() - 1,
        forall|n: int| 0 <= n < polls.len() ==> slot_after(start, #[trigger] polls.take(n)) == start,
{
    let waits = polls.drop_last();
    assert(forall|i: int| 0 <= i < waits.len() ==> waits[i] == polls[i]);
    lemma_not_available_holds_slot(start, waits);
    assert forall|n: int| 0 <= n < polls.len() implies slot_after(start, #[trigger] polls.take(n))
        == start by {
        assert(forall|i: int| 0 <= i < n ==> polls.take(n)[i] == polls[i]);
        lemma_not_available_holds_slot(start, polls.take(n));
    }
}

/// The state of the live source: the slot its next poll asks for, a
/// monotonically increasing cursor.
pub struct LiveState {
    pub current_slot: u64,
}

impl LiveState {
    /// A live source cursor starting at the given slot.
    pub fn new(start_slot: u64) -> (r: LiveState)
        ensures
            r.current_slot == start_slot,
    {
        LiveState { current_slot: start_slot }
    }

    /// One decision step of the live polling loop, taking what the poll
    /// of the current slot observed.
    ///
    /// Cancellation wins over everything and yields the quiet
    /// `Shutdown` failure. A delivered block parses, advances the
    /// cursor and is yielded. A not-yet-available slot directs one
    /// back-off delay and leaves the cursor unchanged — the same slot
    /// is retried, without bound. A skipped slot advances the cursor
    /// for an immediate, delay-free retry. Every other failure is
    /// terminal and yielded with the cursor unchanged.
    pub fn on_poll(&mut self, cancelled: bool, fetched: Result<RawBlock, Error>) -> (step: LiveStep)
        requires
            old(self).current_slot < u64::MAX,
        ensures
            cancelled ==> final(self).current_slot == old(self).current_slot && (step matches
                LiveStep::Yield(e) && e@ == SourceEventModel::Failure(Error::Shutdown)),
            !cancelled ==> final(self).current_slot as int == slot_after(
                old(self).current_slot,
                seq![poll_class_of(fetched)],
            ),
            !cancelled ==> ((step matches LiveStep::Backoff) <==> poll_class_of(fetched)
                == PollClass::NotAvailable),
            !cancelled ==> ((step matches LiveStep::Advance) <==> poll_class_of(fetched)
                == PollClass::Skipped),
            !cancelled ==> match fetched {
                Ok(raw) => {
                    &&& raw_block_wf(raw@) ==> (step matches LiveStep::Yield(e) && e@
                        == SourceEventModel::Next(spec_parse_block(raw@)))
                    &&& !raw_block_wf(raw@) ==> (step matches LiveStep::Yield(e) && e@
                        == SourceEventModel::Failure(
                        Error::InvalidBlock(
                            old(self).current_slot,
                            InvalidBlockReason::MissingMetadata,
                        ),
                    ))
                },
                Err(e) => match e {
                    Error::SlotNotAvailable(_) => step matches LiveStep::Backoff,
                    Error::SlotSkippedOrMissing(_) => step matches LiveStep::Advance,
                    _ => (step matches LiveStep::Yield(yielded) && yielded@
                        == SourceEventModel::Failure(e)),
                },
            },
    {
        if cancelled {
            return LiveStep::Yield(SourceEvent::Failure(Error::Shutdown));
        }
        proof {
            lemma_slot_after_single(self.current_slot, poll_class_of(fetched));
        }
        match fetched {
            Ok(raw) => match parse_block(&raw) {
                Some(block) => {
                    self.current_slot = self.current_slot + 1;
                    LiveStep::Yield(SourceEvent::Next(block))
                },
                None => LiveStep::Yield(
                    SourceEvent::Failure(
                        Error::InvalidBlock(self.current_slot, InvalidBlockReason::MissingMetadata),
                    ),
                ),
            },
            Err(e) => match e {
                Error::SlotNotAvailable(_) => LiveStep::Backoff,
                Error::SlotSkippedOrMissing(_) => {
                    self.current_slot = self.current_slot + 1;
                    LiveStep::Advance
                },
                _ => LiveStep::Yield(SourceEvent::Failure(e)),
            },
        }
    }
}

/// Classifies an RPC failure code observed for a slot: the two
/// recoverable codes become their retryable failure kinds, anything
/// else is left for the transport to describe.
pub fn classify_rpc_code(code: i64, slot: u64) -> (r: Option<Error>)
    ensures
        r == (if code == BLOCK_NOT_AVAILABLE {
            Some(Error::SlotNotAvailable(slot))
        } else if code == SLOT_SKIPPED {
            Some(Error::SlotSkippedOrMissing(slot))
        } else {
            None::<Error>
        }),
{
    if code == BLOCK_NOT_AVAILABLE {
        Some(Error::SlotNotAvailable(slot))
    } else if code == SLOT_SKIPPED {
        Some(Error::SlotSkippedOrMissing(slot))
    } else {
        None
    }
}

} // verus!
