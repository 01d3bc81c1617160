use crate::endpoint::{has_quit, quit_at};
use crate::message::{views_of, Message, MessageView};
use crate::non_block_deque::NonBlockDeque;
use crate::transformer::MessageTransformer;
use crate::worker::{chain_outputs, chain_states, TransformerWorker};
use vstd::math::min;
use vstd::prelude::*;

verus! {

/// The submission/retrieval boundary between producers and the dispatch
/// loop.
///
/// `ready` holds what `get_msg` will hand out, in order; `backlog` holds
/// what has been submitted but is not yet retrievable — for a transforming
/// channel, the messages still awaiting the worker.  `direct` says which of
/// the two a submission lands in: a direct channel makes every submission
/// ready at once, a staged one queues it in the backlog.
pub trait MessageChannel: Sized {
    /// The messages available for retrieval, in retrieval order.
    spec fn ready(&self) -> Seq<MessageView>;

    /// The messages submitted but not yet available for retrieval.
    spec fn backlog(&self) -> Seq<MessageView>;

    /// Whether a submission is retrievable immediately.
    spec fn direct() -> bool;

    /// Enqueues `msg` for eventual retrieval.  Always succeeds.
    fn push_msg(&mut self, msg: Message)
        ensures
            Self::direct() ==> final(self).ready() == old(self).ready().push(msg@) && final(self).backlog() == old(self).backlog(),
            !Self::direct() ==> final(self).backlog() == old(self).backlog().push(msg@) && final(self).ready() == old(self).ready(),
    ;

    /// Removes and returns the next ready message, or returns `None` exactly
    /// when nothing is ready at the time of the call.
    fn get_msg(&mut self) -> (r: Option<Message>)
        ensures
            final(self).backlog() == old(self).backlog(),
            match r {
                Some(m) => old(self).ready().len() > 0 && m@ == old(self).ready()[0] && final(self).ready() == old(self).ready().drop_first(),
                None => old(self).ready().len() == 0 && final(self).ready() == old(self).ready(),
            },
    ;
}

/// The direct channel variant: submission and retrieval work on one queue,
/// nothing is transformed, and retrieval order is exactly submission order.
pub struct InAndOutMessageChannel {
    queue: NonBlockDeque<Message>,
}

impl InAndOutMessageChannel {
    /// The wait bound of the wrapped queue, in milliseconds.
    pub closed spec fn spec_timeout_ms(&self) -> u64 {
        self.queue.spec_timeout_ms()
    }

    /// Builds the channel around a fresh empty queue.  The timeout is the
    /// caller's to choose, never fixed here: producer and consumer latency
    /// needs differ between embeddings.
    pub fn new(timeout_ms: u64) -> (r: InAndOutMessageChannel)
        ensures
            r.ready() == Seq::<MessageView>::empty(),
            r.backlog() == Seq::<MessageView>::empty(),
            r.spec_timeout_ms() == timeout_ms,
    {
        let r = InAndOutMessageChannel { queue: NonBlockDeque::new(timeout_ms) };
        proof {
            assert(r.ready() =~= Seq::<MessageView>::empty());
        }
        r
    }

    /// The wait bound, for an embedding that performs the actual sleep when
    /// nothing is ready.
    pub fn timeout_ms(&self) -> (r: u64)
        ensures
            r == self.spec_timeout_ms(),
    {
        self.queue.timeout_ms()
    }
}

impl MessageChannel for InAndOutMessageChannel {
    closed spec fn ready(&self) -> Seq<MessageView> {
        views_of(self.queue@)
    }

    closed spec fn backlog(&self) -> Seq<MessageView> {
        Seq::empty()
    }

    open spec fn direct() -> bool {
        true
    }

    fn push_msg(&mut self, msg: Message) {
        self.queue.push(msg);
        proof {
            assert(views_of(self.queue@) =~= views_of(old(self).queue@).push(msg@));
        }
    }

    fn get_msg(&mut self) -> (r: Option<Message>) {
        let r = self.queue.pop();
        proof {
            if old(self).queue@.len() > 0 {
                assert(views_of(old(self).queue@.drop_first()) =~= views_of(
                    old(self).queue@,
                ).drop_first());
            }
        }
        r
    }
}

/// The transforming channel variant: a submission lands in the pending
/// queue of a transformer worker, and retrieval pops from the worker's done
/// queue — the worker is an invisible stage between producer and dispatcher.
///
/// Submission order is kept: the worker drains pending oldest-first, so for
/// any two messages the one submitted earlier reaches the done queue no
/// later than the other.
pub struct TransformerListChannel<T: MessageTransformer> {
    worker: TransformerWorker<T>,
}

impl<T: MessageTransformer> TransformerListChannel<T> {
    /// The worker whose queues this channel feeds and drains.
    pub closed spec fn spec_worker(&self) -> TransformerWorker<T> {
        self.worker
    }

    pub fn new(worker: TransformerWorker<T>) -> (r: TransformerListChannel<T>)
        ensures
            r.spec_worker() == worker,
            r.ready() == worker.done_view(),
            r.backlog() == worker.pending_view(),
    {
        TransformerListChannel { worker }
    }

    /// Submits `msg` into the worker's pending queue.  This is `push_msg`
    /// with the full frame a verified caller needs between submission and
    /// draining: the worker's stages and signal polls stay untouched, so
    /// `run_worker`'s precondition survives the submission.
    pub fn submit(&mut self, msg: Message)
        ensures
            final(self).backlog() == old(self).backlog().push(msg@),
            final(self).ready() == old(self).ready(),
            final(self).spec_worker().stages() == old(self).spec_worker().stages(),
            final(self).spec_worker().signals() == old(self).spec_worker().signals(),
    {
        self.worker.push_pending(msg);
    }

    /// Removes and returns the next transformed message, or returns `None`
    /// exactly when the done queue is empty.  This is `get_msg` with the
    /// full frame: backlog, stages and signal polls stay untouched.
    pub fn retrieve(&mut self) -> (r: Option<Message>)
        ensures
            final(self).backlog() == old(self).backlog(),
            final(self).spec_worker().stages() == old(self).spec_worker().stages(),
            final(self).spec_worker().signals() == old(self).spec_worker().signals(),
            match r {
                Some(m) => old(self).ready().len() > 0 && m@ == old(self).ready()[0]
                    && final(self).ready() == old(self).ready().drop_first(),
                None => old(self).ready().len() == 0 && final(self).ready() == old(self).ready(),
            },
    {
        self.worker.pop_done()
    }

    /// Runs the worker's drain loop until its shutdown signal arrives; see
    /// `TransformerWorker::work_loop`.  The messages it drains move from
    /// this channel's backlog, through the transformer chain, into its ready
    /// queue, in submission order.
    pub fn run_worker(&mut self)
        requires
            has_quit(old(self).spec_worker().signals()),
        ensures
            ({
                let n = quit_at(old(self).spec_worker().signals()) + 1;
                let k = min(n, old(self).backlog().len() as int);
                &&& final(self).backlog() == old(self).backlog().skip(k)
                &&& final(self).ready() == old(self).ready() + chain_outputs(
                    old(self).spec_worker().stages(),
                    old(self).backlog().take(k),
                )
                &&& final(self).spec_worker().stages() == chain_states(
                    old(self).spec_worker().stages(),
                    old(self).backlog().take(k),
                )
                &&& final(self).spec_worker().signals() == old(self).spec_worker().signals().skip(
                    n,
                )
            }),
    {
        self.worker.work_loop();
    }
}

impl<T: MessageTransformer> MessageChannel for TransformerListChannel<T> {
    closed spec fn ready(&self) -> Seq<MessageView> {
        self.worker.done_view()
    }

    closed spec fn backlog(&self) -> Seq<MessageView> {
        self.worker.pending_view()
    }

    open spec fn direct() -> bool {
        false
    }

    fn push_msg(&mut self, msg: Message) {
        self.worker.push_pending(msg);
    }

    fn get_msg(&mut self) -> (r: Option<Message>) {
        self.worker.pop_done()
    }
}

} // verus!
