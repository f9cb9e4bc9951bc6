use vstd::prelude::*;
use crate::error::Error;
use crate::model::accepts;
use crate::source::{Benchmark, SourceEvent, SourceEventModel};
use crate::storage::Memory;
use crate::types::{Block, BlockModel};

verus! {

/// Why the aggregator loop stops.
#[derive(Debug)]
pub enum StopCause {
    /// Cancellation was signaled; logged quietly.
    Cancelled,
    /// The stream reported a failure. `Shutdown` is logged quietly,
    /// everything else at error severity.
    StreamFailed(Error),
    /// The stream ended in order.
    StreamEnded,
}

/// What the aggregator does with one source event.
#[derive(Debug)]
pub enum Disposition {
    /// Hand this block to storage, then continue.
    Forward(Block),
    /// Continue without forwarding.
    Skip,
    /// Leave the loop.
    Halt(StopCause),
}

/// The aggregator's per-event decision, exactly one of: stop quietly
/// when cancellation was signaled — whatever the event, so no block
/// emitted after the signal is ever processed; forward a block that
/// carries transfers; skip a block without any; stop on a stream
/// failure or on end of stream.
pub fn decide_event(cancelled: bool, event: SourceEvent) -> (d: Disposition)
    ensures
        cancelled ==> d matches Disposition::Halt(StopCause::Cancelled),
        !cancelled ==> match event {
            SourceEvent::Next(block) => if block@.transactions.len() > 0 {
                d matches Disposition::Forward(f) && f == block
            } else {
                d matches Disposition::Skip
            },
            SourceEvent::Failure(e) => d matches Disposition::Halt(StopCause::StreamFailed(f))
                && f == e,
            SourceEvent::EndOfStream => d matches Disposition::Halt(StopCause::StreamEnded),
        },
{
    if cancelled {
        return Disposition::Halt(StopCause::Cancelled);
    }
    match event {
        SourceEvent::Next(block) => {
            if block.transactions.len() > 0 {
                Disposition::Forward(block)
            } else {
                Disposition::Skip
            }
        },
        SourceEvent::Failure(e) => Disposition::Halt(StopCause::StreamFailed(e)),
        SourceEvent::EndOfStream => Disposition::Halt(StopCause::StreamEnded),
    }
}

/// The chain a ledger reaches when a feed of blocks is driven into it
/// in order: a block without transfers is skipped and never reaches
/// storage, an accepted block is appended, and the first rejected block
/// stops the run with the ledger as it stands.
pub open spec fn run_model(h: Seq<BlockModel>, feed: Seq<BlockModel>) -> Seq<BlockModel>
    decreases feed.len(),
{
    if feed.len() == 0 {
        h
    } else if feed.first().transactions.len() == 0 {
        run_model(h, feed.drop_first())
    } else if accepts(h, feed.first()) {
        run_model(h.push(feed.first()), feed.drop_first())
    } else {
        h
    }
}

/// Drives one source stream into the storage engine until the stream
/// ends, fails, or a block is rejected.
pub struct Aggregator {
    pub source: Benchmark,
    pub storage: Memory,
}

impl Aggregator {
    pub fn new(source: Benchmark, storage: Memory) -> (r: Aggregator)
        ensures
            r.source == source,
            r.storage == storage,
    {
        Aggregator { source, storage }
    }

    /// Runs the pipeline to termination: each block of the remaining
    /// fixture is parsed events in order; blocks without transfers are
    /// skipped, the rest are handed to storage; the loop stops at end
    /// of stream or on the first storage rejection. The final ledger is
    /// exactly the fold of the remaining fixture.
    pub fn run(&mut self)
        requires
            old(self).storage.wf(),
            old(self).source.wf(),
        ensures
            final(self).storage.wf(),
            final(self).storage@ == run_model(
                old(self).storage@,
                old(self).source.fixture().skip(old(self).source.cursor()),
            ),
    {
        let ghost fixture = self.source.fixture();
        let ghost goal = run_model(self.storage@, fixture.skip(self.source.cursor()));
        loop
            invariant_except_break
                run_model(self.storage@, fixture.skip(self.source.cursor())) == goal,
            invariant
                self.storage.wf(),
                self.source.wf(),
                self.source.fixture() == fixture,
                0 <= self.source.cursor() <= fixture.len(),
            ensures
                self.storage.wf(),
                self.storage@ == goal,
            decreases fixture.len() - self.source.cursor(),
        {
            let ghost c0 = self.source.cursor();
            let ghost h0 = self.storage@;
            let ghost feed = fixture.skip(c0);
            let event = self.source.next();
            match decide_event(false, event) {
                Disposition::Forward(block) => {
                    proof {
                        assert(feed.len() > 0);
                        assert(feed.first() == fixture[c0]);
                        assert(feed.drop_first() =~= fixture.skip(c0 + 1));
                        assert(block@ == feed.first());
                    }
                    match self.storage.add_block(block) {
                        Ok(()) => {},
                        Err(_) => {
                            proof {
                                assert(run_model(h0, feed) == h0);
                            }
                            break;
                        },
                    }
                },
                Disposition::Skip => {
                    proof {
                        assert(feed.len() > 0);
                        assert(feed.first() == fixture[c0]);
                        assert(feed.drop_first() =~= fixture.skip(c0 + 1));
                    }
                },
                Disposition::Halt(_) => {
                    proof {
                        assert(c0 >= fixture.len());
                        assert(feed =~= Seq::<BlockModel>::empty());
                    }
                    break;
                },
            }
        }
    }
}

} // verus!
