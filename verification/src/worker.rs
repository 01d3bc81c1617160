use crate::endpoint::{has_quit, lemma_quit_at, quit_at, MessageEndpointSignal, SignalReceiver};
use crate::message::{views_of, Message, MessageView};
use crate::non_block_deque::NonBlockDeque;
use crate::transformer::{chain_stepped, chain_transformed, lemma_chain_unfold, MessageTransformer};
use vstd::math::min;
use vstd::prelude::*;

verus! {

/// The outputs produced by draining the messages of `ms`, oldest first,
/// through a transformer chain that starts in the states of `ts`.
pub open spec fn chain_outputs<T: MessageTransformer>(
    ts: Seq<T>,
    ms: Seq<MessageView>,
) -> Seq<MessageView>
    decreases ms.len(),
{
    if ms.len() == 0 {
        Seq::empty()
    } else {
        seq![chain_transformed(ts, ms[0])] + chain_outputs(
            chain_stepped(ts, ms[0]),
            ms.drop_first(),
        )
    }
}

/// The chain states left behind by draining the messages of `ms`, oldest
/// first, starting from the states of `ts`.
pub open spec fn chain_states<T: MessageTransformer>(ts: Seq<T>, ms: Seq<MessageView>) -> Seq<T>
    decreases ms.len(),
{
    if ms.len() == 0 {
        ts
    } else {
        chain_states(chain_stepped(ts, ms[0]), ms.drop_first())
    }
}

/// Draining one more message appends one more output, produced by the chain
/// in the states the earlier messages left behind.
proof fn lemma_chain_snoc<T: MessageTransformer>(ts: Seq<T>, ms: Seq<MessageView>, m: MessageView)
    ensures
        chain_outputs(ts, ms.push(m)) == chain_outputs(ts, ms) + seq![chain_transformed(
            chain_states(ts, ms),
            m,
        )],
        chain_states(ts, ms.push(m)) == chain_stepped(chain_states(ts, ms), m),
    decreases ms.len(),
{
    if ms.len() == 0 {
        assert(ms.push(m)[0] == m);
        assert(ms.push(m).drop_first() =~= Seq::<MessageView>::empty());
        assert(chain_outputs(chain_stepped(ts, m), Seq::<MessageView>::empty())
            == Seq::<MessageView>::empty());
        assert(chain_states(chain_stepped(ts, m), Seq::<MessageView>::empty()) == chain_stepped(
            ts,
            m,
        ));
        assert(chain_outputs(ts, ms.push(m)) =~= seq![chain_transformed(ts, m)]);
        assert(chain_outputs(ts, ms) =~= Seq::<MessageView>::empty());
        assert(chain_states(ts, ms) == ts);
        assert(chain_outputs(ts, ms) + seq![chain_transformed(chain_states(ts, ms), m)]
            =~= seq![chain_transformed(ts, m)]);
    } else {
        assert(ms.push(m)[0] == ms[0]);
        assert(ms.push(m).drop_first() =~= ms.drop_first().push(m));
        lemma_chain_snoc(chain_stepped(ts, ms[0]), ms.drop_first(), m);
        assert(chain_outputs(ts, ms.push(m)) =~= chain_outputs(ts, ms) + seq![chain_transformed(
            chain_states(ts, ms),
            m,
        )]);
    }
}

/// Applies every stage of `stages` to `msg` in order, each stage seeing the
/// message the previous one produced.
fn run_stages<T: MessageTransformer>(stages: &mut Vec<T>, msg: Message) -> (r: Message)
    ensures
        r@ == chain_transformed(old(stages)@, msg@),
        final(stages)@ == chain_stepped(old(stages)@, msg@),
{
    let ghost ts0 = stages@;
    let ghost m0 = msg@;
    let mut cur = msg;
    let mut j: usize = 0;
    proof {
        assert(ts0.skip(0) =~= ts0);
        assert(stages@.take(0) =~= Seq::<T>::empty());
    }
    while j < stages.len()
        invariant
            j <= stages@.len(),
            stages@.len() == ts0.len(),
            stages@.skip(j as int) == ts0.skip(j as int),
            chain_transformed(ts0, m0) == chain_transformed(ts0.skip(j as int), cur@),
            chain_stepped(ts0, m0) == stages@.take(j as int) + chain_stepped(
                ts0.skip(j as int),
                cur@,
            ),
        decreases stages@.len() - j,
    {
        let ghost stages_before = stages@;
        let ghost cur_before = cur@;
        proof {
            assert(stages@.skip(j as int)[0] == stages@[j as int]);
            assert(ts0.skip(j as int)[0] == ts0[j as int]);
            lemma_chain_unfold(ts0, j as int, cur_before);
        }
        let t = &mut stages[j];
        cur = t.transform(cur);
        proof {
            assert(stages@ == stages_before.update(j as int, ts0[j as int].stepped(cur_before)));
            assert(stages_before.skip(j as int).drop_first() =~= stages_before.skip(j as int + 1));
            assert(ts0.skip(j as int).drop_first() =~= ts0.skip(j as int + 1));
            assert(stages_before.skip(j as int + 1) == ts0.skip(j as int + 1));
            assert(stages@.skip(j as int + 1) =~= ts0.skip(j as int + 1));
            assert(stages@.take(j as int + 1) =~= stages_before.take(j as int).push(
                ts0[j as int].stepped(cur_before),
            ));
            assert(stages_before.take(j as int).push(ts0[j as int].stepped(cur_before)) + chain_stepped(
                ts0.skip(j as int + 1),
                cur@,
            ) =~= stages_before.take(j as int) + (seq![ts0[j as int].stepped(cur_before)]
                + chain_stepped(ts0.skip(j as int + 1), cur@)));
        }
        j = j + 1;
    }
    proof {
        assert(ts0.skip(ts0.len() as int) =~= Seq::<T>::empty());
        assert(stages@.take(ts0.len() as int) =~= stages@);
        assert(stages@ + chain_stepped(ts0.skip(ts0.len() as int), cur@) =~= stages@);
    }
    cur
}

/// The worker that interposes the transformer chain between submission and
/// retrieval: it drains its pending queue, runs every stage over each
/// message in order, and deposits the results into its done queue, until the
/// shutdown signal arrives.
pub struct TransformerWorker<T: MessageTransformer> {
    pending: NonBlockDeque<Message>,
    done: NonBlockDeque<Message>,
    transformers: Vec<T>,
    rcv: SignalReceiver,
}

impl<T: MessageTransformer> TransformerWorker<T> {
    /// The messages waiting to be transformed, oldest first.
    pub closed spec fn pending_view(&self) -> Seq<MessageView> {
        views_of(self.pending@)
    }

    /// The transformed messages awaiting retrieval, oldest first.
    pub closed spec fn done_view(&self) -> Seq<MessageView> {
        views_of(self.done@)
    }

    /// The current states of the transformer chain, in application order.
    pub closed spec fn stages(&self) -> Seq<T> {
        self.transformers@
    }

    /// The poll outcomes the worker's signal receiver will still hand out.
    pub closed spec fn signals(&self) -> Seq<Option<MessageEndpointSignal>> {
        self.rcv.remaining()
    }

    pub fn new(
        transformers: Vec<T>,
        rcv: SignalReceiver,
        pending: NonBlockDeque<Message>,
        done: NonBlockDeque<Message>,
    ) -> (r: TransformerWorker<T>)
        ensures
            r.stages() == transformers@,
            r.signals() == rcv.remaining(),
            r.pending_view() == views_of(pending@),
            r.done_view() == views_of(done@),
    {
        TransformerWorker { pending, done, transformers, rcv }
    }

    /// Appends `msg` to the pending queue.  Nothing else moves.
    pub(crate) fn push_pending(&mut self, msg: Message)
        ensures
            final(self).pending_view() == old(self).pending_view().push(msg@),
            final(self).done_view() == old(self).done_view(),
            final(self).stages() == old(self).stages(),
            final(self).signals() == old(self).signals(),
    {
        self.pending.push(msg);
        proof {
            assert(views_of(self.pending@) =~= views_of(old(self).pending@).push(msg@));
        }
    }

    /// Removes and returns the head of the done queue, or returns `None`
    /// exactly when it is empty.  Nothing else moves.
    pub(crate) fn pop_done(&mut self) -> (r: Option<Message>)
        ensures
            final(self).pending_view() == old(self).pending_view(),
            final(self).stages() == old(self).stages(),
            final(self).signals() == old(self).signals(),
            match r {
                Some(m) => old(self).done_view().len() > 0 && m@ == old(self).done_view()[0]
                    && final(self).done_view() == old(self).done_view().drop_first(),
                None => old(self).done_view().len() == 0 && final(self).done_view() == old(
                    self,
                ).done_view(),
            },
    {
        let r = self.done.pop();
        proof {
            if old(self).done@.len() > 0 {
                assert(views_of(old(self).done@.drop_first()) =~= views_of(
                    old(self).done@,
                ).drop_first());
            }
        }
        r
    }

    /// The worker's loop.  Each iteration takes at most one message from the
    /// pending queue, runs it through every stage in order, deposits the
    /// result into the done queue, and then checks for shutdown; the first
    /// `Quit` that a check yields ends the loop, and nothing else does.
    ///
    /// With `n` iterations forced by the signal arriving at poll `quit_at`,
    /// the first `min(n, pending)` messages are drained in order: the done
    /// queue grows by exactly their transforms, pending keeps the rest, and
    /// messages still pending when the loop exits stay where they are —
    /// shutdown abandons them deliberately.
    pub fn work_loop(&mut self)
        requires
            has_quit(old(self).signals()),
        ensures
            ({
                let n = quit_at(old(self).signals()) + 1;
                let k = min(n, old(self).pending_view().len() as int);
                &&& final(self).pending_view() == old(self).pending_view().skip(k)
                &&& final(self).done_view() == old(self).done_view() + chain_outputs(
                    old(self).stages(),
                    old(self).pending_view().take(k),
                )
                &&& final(self).stages() == chain_states(
                    old(self).stages(),
                    old(self).pending_view().take(k),
                )
                &&& final(self).signals() == old(self).signals().skip(n)
            }),
    {
        let ghost ts0 = self.stages();
        let ghost p0 = self.pending_view();
        let ghost d0 = self.done_view();
        let ghost s0 = self.signals();
        let ghost mut pp: int = 0;
        let ghost mut kk: int = 0;
        proof {
            lemma_quit_at(s0);
            assert(p0.skip(0) =~= p0);
            assert(p0.take(0) =~= Seq::<MessageView>::empty());
            assert(s0.skip(0) =~= s0);
            assert(d0 + chain_outputs(ts0, p0.take(0)) =~= d0);
        }
        let mut running = true;
        while running
            invariant
                has_quit(s0),
                running ==> 0 <= pp <= quit_at(s0),
                !running ==> pp == quit_at(s0) + 1,
                kk == min(pp, p0.len() as int),
                self.pending_view() == p0.skip(kk),
                self.done_view() == d0 + chain_outputs(ts0, p0.take(kk)),
                self.stages() == chain_states(ts0, p0.take(kk)),
                self.signals() == s0.skip(pp),
            decreases quit_at(s0) + 1 - pp,
        {
            proof {
                lemma_quit_at(s0);
            }
            let ghost q_before = self.pending@;
            match self.pending.pop() {
                Some(msg) => {
                    proof {
                        assert(views_of(q_before).len() > 0);
                        assert(kk < p0.len());
                        assert(msg@ == views_of(q_before)[0]);
                        assert(msg@ == p0[kk]);
                        assert(views_of(q_before.drop_first()) =~= views_of(
                            q_before,
                        ).drop_first());
                        assert(p0.skip(kk).drop_first() =~= p0.skip(kk + 1));
                    }
                    let out = run_stages(&mut self.transformers, msg);
                    let ghost done_before = self.done@;
                    self.done.push(out);
                    proof {
                        assert(views_of(self.done@) =~= views_of(done_before).push(out@));
                        lemma_chain_snoc(ts0, p0.take(kk), p0[kk]);
                        assert(p0.take(kk).push(p0[kk]) =~= p0.take(kk + 1));
                        assert((d0 + chain_outputs(ts0, p0.take(kk))).push(out@) =~= d0
                            + chain_outputs(ts0, p0.take(kk + 1)));
                        kk = kk + 1;
                    }
                },
                None => {
                    proof {
                        assert(p0.skip(kk).len() == 0);
                        assert(kk == p0.len());
                    }
                },
            }
            match self.rcv.poll() {
                Some(MessageEndpointSignal::Quit) => {
                    proof {
                        assert(s0.skip(pp)[0] == s0[pp]);
                        assert(s0[pp] is Some);
                        assert(pp == quit_at(s0));
                        pp = pp + 1;
                        assert(s0.skip(pp - 1).drop_first() =~= s0.skip(pp));
                        assert(kk == min(pp, p0.len() as int));
                    }
                    running = false;
                },
                None => {
                    proof {
                        assert(s0.skip(pp)[0] == s0[pp]);
                        assert(s0[pp] is None);
                        assert(pp != quit_at(s0));
                        pp = pp + 1;
                        assert(s0.skip(pp - 1).drop_first() =~= s0.skip(pp));
                    }
                },
            }
        }
    }
}

} // verus!
