use crate::channel::MessageChannel;
use crate::message::{views_of, Message, MessageTarget, MessageTargetView, MessageView};
use vstd::math::min;
use vstd::prelude::*;

verus! {

/// A receiver capability: something the dispatcher can hand a message to.
///
/// Each implementation says through `log` which messages it has been handed
/// so far; `on_message` is held to extending that log by exactly the message
/// it was called with.  What else a receiver does with a message is its own
/// business and deliberately unconstrained.
pub trait MessageReceiver {
    /// The messages this receiver has been handed so far, oldest first.
    ///
    /// The default, a log that is always empty, cannot satisfy
    /// `on_message`'s contract, so a verified implementation overrides this
    /// with its real record; an unverified embedding may leave the default.
    open spec fn log(&self) -> Seq<MessageView> {
        Seq::empty()
    }

    /// Hands `msg` to the receiver.
    fn on_message(&mut self, msg: Message)
        ensures
            final(self).log() == old(self).log().push(msg@),
    ;
}

/// A receiver that keeps every message it is handed, in order: the one
/// receiver the library ships.  An embedding whose receivers act on a
/// message rather than keep it implements `MessageReceiver` itself.
pub struct RecordingReceiver {
    /// The messages handed to this receiver so far, oldest first.
    pub received: Vec<Message>,
}

impl RecordingReceiver {
    pub fn new() -> (r: RecordingReceiver)
        ensures
            r.log() == Seq::<MessageView>::empty(),
    {
        let r = RecordingReceiver { received: Vec::new() };
        proof {
            assert(views_of(r.received@) =~= Seq::<MessageView>::empty());
        }
        r
    }
}

impl MessageReceiver for RecordingReceiver {
    open spec fn log(&self) -> Seq<MessageView> {
        views_of(self.received@)
    }

    fn on_message(&mut self, msg: Message) {
        self.received.push(msg);
        proof {
            assert(views_of(self.received@) =~= views_of(old(self).received@).push(msg@));
        }
    }
}

/// The one-shot shutdown notification consumed by a long-lived loop.
#[derive(Clone, Copy, Debug)]
pub enum MessageEndpointSignal {
    Quit,
}

/// The consuming end of a shutdown signal line: a fixed sequence of poll
/// outcomes, handed out one per check.
///
/// A loop checks for shutdown once per iteration without blocking; each check
/// yields `Some(Quit)` if the signal had arrived by then and `None` if not.
/// This type carries those outcomes as a queue, so that a loop's behaviour is
/// exact in terms of when the signal shows up.  An embedding that receives
/// the signal on a real channel performs the non-blocking check itself and
/// needs no scripted receiver.
pub struct SignalReceiver {
    script: Vec<Option<MessageEndpointSignal>>,
    pos: usize,
}

impl SignalReceiver {
    /// The poll outcomes this receiver will still hand out, in order.  Once
    /// they are exhausted every further poll yields `None`.
    pub closed spec fn remaining(&self) -> Seq<Option<MessageEndpointSignal>> {
        if self.pos <= self.script@.len() {
            self.script@.skip(self.pos as int)
        } else {
            Seq::empty()
        }
    }

    pub fn new(script: Vec<Option<MessageEndpointSignal>>) -> (r: SignalReceiver)
        ensures
            r.remaining() == script@,
    {
        let r = SignalReceiver { script, pos: 0 };
        proof {
            assert(r.remaining() =~= r.script@);
        }
        r
    }

    /// One non-blocking check for the signal.
    pub fn poll(&mut self) -> (r: Option<MessageEndpointSignal>)
        ensures
            if old(self).remaining().len() > 0 {
                r == old(self).remaining()[0] && final(self).remaining() == old(self).remaining().drop_first()
            } else {
                r is None && final(self).remaining() == old(self).remaining()
            },
    {
        if self.pos < self.script.len() {
            let r = self.script[self.pos];
            self.pos = self.pos + 1;
            proof {
                assert(final(self).remaining() =~= old(self).remaining().drop_first());
            }
            r
        } else {
            None
        }
    }
}

/// Whether a `Quit` occurs somewhere in the poll outcomes `s`.
pub open spec fn has_quit(s: Seq<Option<MessageEndpointSignal>>) -> bool {
    exists|i: int| 0 <= i < s.len() && s[i] is Some
}

/// The index of the first `Quit` among the poll outcomes `s`.
pub open spec fn quit_at(s: Seq<Option<MessageEndpointSignal>>) -> int
    decreases s.len(),
{
    if s.len() == 0 {
        0
    } else if s[0] is Some {
        0
    } else {
        1 + quit_at(s.drop_first())
    }
}

/// When `s` holds a `Quit` at all, `quit_at(s)` is the index of the first
/// one: it is in range, it carries a signal, and everything before it is
/// `None`.
pub proof fn lemma_quit_at(s: Seq<Option<MessageEndpointSignal>>)
    requires
        has_quit(s),
    ensures
        0 <= quit_at(s) < s.len(),
        s[quit_at(s)] is Some,
        forall|j: int| 0 <= j < quit_at(s) ==> s[j] is None,
    decreases s.len(),
{
    if s.len() == 0 {
    } else if s[0] is Some {
    } else {
        let i = choose|i: int| 0 <= i < s.len() && s[i] is Some;
        assert(s.drop_first()[i - 1] is Some);
        lemma_quit_at(s.drop_first());
        assert forall|j: int| 0 <= j < quit_at(s) implies s[j] is None by {
            if j > 0 {
                assert(s.drop_first()[j - 1] is None);
            }
        }
    }
}

/// One registry slot: the receivers registered for one target, in
/// registration order.
struct RegistryEntry<R> {
    target: MessageTarget,
    handlers: Vec<R>,
}

/// The receivers that `entries` associates with the target `t`: those of the
/// first entry for `t`, or none.  `set_target` keeps at most one entry per
/// target, so the first entry is the only one.
spec fn lookup<R>(entries: Seq<RegistryEntry<R>>, t: MessageTargetView) -> Seq<R>
    decreases entries.len(),
{
    if entries.len() == 0 {
        Seq::empty()
    } else if entries[0].target@ == t {
        entries[0].handlers@
    } else {
        lookup(entries.drop_first(), t)
    }
}

/// When `j` is the first entry for its target, `lookup` finds exactly it.
proof fn lemma_lookup_first_match<R>(entries: Seq<RegistryEntry<R>>, j: int)
    requires
        0 <= j < entries.len(),
        forall|k: int| 0 <= k < j ==> entries[k].target@ != entries[j].target@,
    ensures
        lookup(entries, entries[j].target@) == entries[j].handlers@,
    decreases entries.len(),
{
    if j > 0 {
        let tail = entries.drop_first();
        assert forall|k: int| #![trigger tail[k]] 0 <= k < j - 1 implies tail[k].target@ != tail[j - 1].target@ by {
            assert(entries[k + 1].target@ != entries[j].target@);
        }
        lemma_lookup_first_match(tail, j - 1);
    }
}

/// Replacing the first entry for some target by an entry for the same target
/// changes `lookup` for that target to the new handlers and for no other
/// target at all.
proof fn lemma_lookup_update<R>(
    entries: Seq<RegistryEntry<R>>,
    j: int,
    e: RegistryEntry<R>,
    t: MessageTargetView,
)
    requires
        0 <= j < entries.len(),
        e.target@ == entries[j].target@,
        forall|k: int| 0 <= k < j ==> entries[k].target@ != entries[j].target@,
    ensures
        lookup(entries.update(j, e), entries[j].target@) == e.handlers@,
        t != entries[j].target@ ==> lookup(entries.update(j, e), t) == lookup(entries, t),
    decreases entries.len(),
{
    if j == 0 {
        assert(entries.update(0, e).drop_first() =~= entries.drop_first());
    } else {
        let tail = entries.drop_first();
        assert(entries.update(j, e).drop_first() =~= tail.update(j - 1, e));
        assert forall|k: int| #![trigger tail[k]] 0 <= k < j - 1 implies tail[k].target@ != tail[j - 1].target@ by {
            assert(entries[k + 1].target@ != entries[j].target@);
        }
        lemma_lookup_update(tail, j - 1, e, t);
    }
}

/// Appending an entry for a target no earlier entry serves makes `lookup`
/// find it for that target, and changes nothing for any other target.
proof fn lemma_lookup_push<R>(
    entries: Seq<RegistryEntry<R>>,
    e: RegistryEntry<R>,
    t: MessageTargetView,
)
    ensures
        (forall|k: int| 0 <= k < entries.len() ==> entries[k].target@ != e.target@) ==> lookup(
            entries.push(e),
            e.target@,
        ) == e.handlers@,
        t != e.target@ ==> lookup(entries.push(e), t) == lookup(entries, t),
    decreases entries.len(),
{
    if entries.len() == 0 {
        assert(entries.push(e)[0] == e);
        assert(entries.push(e).drop_first() =~= Seq::<RegistryEntry<R>>::empty());
        assert(lookup(entries.push(e).drop_first(), t) == Seq::<R>::empty());
        assert(lookup(entries, t) == Seq::<R>::empty());
    } else {
        assert(entries.push(e)[0] == entries[0]);
        assert(entries.push(e).drop_first() =~= entries.drop_first().push(e));
        lemma_lookup_push(entries.drop_first(), e, t);
        if forall|k: int| 0 <= k < entries.len() ==> #[trigger] entries[k].target@ != e.target@ {
            assert forall|k: int|
                0 <= k < entries.drop_first().len() implies #[trigger] entries.drop_first()[k].target@
                != e.target@ by {
                assert(entries[k + 1].target@ != e.target@);
            }
        }
    }
}

/// When no entry serves `t`, `lookup` finds nothing.
proof fn lemma_lookup_none<R>(entries: Seq<RegistryEntry<R>>, t: MessageTargetView)
    requires
        forall|k: int| 0 <= k < entries.len() ==> #[trigger] entries[k].target@ != t,
    ensures
        lookup(entries, t) == Seq::<R>::empty(),
    decreases entries.len(),
{
    if entries.len() > 0 {
        lemma_lookup_none(entries.drop_first(), t);
    }
}

/// Hands a clone of `msg` to every receiver of `handlers`, in order.
fn deliver_all<R: MessageReceiver>(handlers: &mut Vec<R>, msg: &Message)
    ensures
        final(handlers)@.len() == old(handlers)@.len(),
        forall|k: int| 0 <= k < old(handlers)@.len() ==> (#[trigger] final(handlers)@[k]).log()
            == old(handlers)@[k].log().push(msg@),
{
    let mut k: usize = 0;
    while k < handlers.len()
        invariant
            k <= handlers@.len(),
            handlers@.len() == old(handlers)@.len(),
            forall|x: int| 0 <= x < k ==> (#[trigger] handlers@[x]).log() == old(
                handlers,
            )@[x].log().push(msg@),
            forall|x: int| k <= x < handlers@.len() ==> handlers@[x] == old(handlers)@[x],
        decreases handlers@.len() - k,
    {
        let h = &mut handlers[k];
        h.on_message(msg.clone());
        k = k + 1;
    }
}

/// Of the messages of `ms`, those addressed to `t`, in order.
pub open spec fn delivered_to(ms: Seq<MessageView>, t: MessageTargetView) -> Seq<MessageView> {
    ms.filter(|m: MessageView| m.target == t)
}

/// Appending one more message to a delivery keeps it exactly when it is
/// addressed to `t`.
proof fn lemma_delivered_to_snoc(ms: Seq<MessageView>, m: MessageView, t: MessageTargetView)
    ensures
        delivered_to(ms.push(m), t) == if m.target == t {
            delivered_to(ms, t).push(m)
        } else {
            delivered_to(ms, t)
        },
{
    reveal(Seq::filter);
    assert(ms.push(m).drop_last() =~= ms);
    assert(ms.push(m).last() == m);
}

/// The dispatcher: owns a channel and a registry from targets to the
/// receivers registered for them, and fans every retrieved message out to
/// the receivers registered for its target.
pub struct MessageEndpoint<C: MessageChannel, R: MessageReceiver> {
    channel: C,
    receivers: Vec<RegistryEntry<R>>,
}

impl<C: MessageChannel, R: MessageReceiver> MessageEndpoint<C, R> {
    /// The channel this endpoint owns.
    pub closed spec fn spec_channel(&self) -> C {
        self.channel
    }

    /// The receivers registered for target `t`, in registration order.
    pub closed spec fn registered(&self, t: MessageTargetView) -> Seq<R> {
        lookup(self.receivers@, t)
    }

    pub fn new(channel: C) -> (r: MessageEndpoint<C, R>)
        ensures
            r.spec_channel() == channel,
            forall|t: MessageTargetView| #[trigger] r.registered(t) == Seq::<R>::empty(),
    {
        MessageEndpoint { channel, receivers: Vec::new() }
    }

    /// The receivers registered for `target`, if any: a borrow of the
    /// registry slot, in registration order.
    pub fn receivers_for(&self, target: &MessageTarget) -> (r: Option<&Vec<R>>)
        ensures
            match r {
                Some(v) => v@ == self.registered(target@),
                None => self.registered(target@).len() == 0,
            },
    {
        let mut j: usize = 0;
        while j < self.receivers.len()
            invariant
                j <= self.receivers@.len(),
                forall|k: int| 0 <= k < j ==> #[trigger] self.receivers@[k].target@ != target@,
            decreases self.receivers@.len() - j,
        {
            if self.receivers[j].target == *target {
                proof {
                    lemma_lookup_first_match(self.receivers@, j as int);
                }
                return Some(&self.receivers[j].handlers);
            }
            j = j + 1;
        }
        proof {
            lemma_lookup_none(self.receivers@, target@);
        }
        None
    }

    /// Mutable access to the owned channel, for an embedding that must
    /// drive a transforming channel's worker between dispatch rounds.  The
    /// registry cannot be reached through it.
    pub fn channel_mut(&mut self) -> (r: &mut C)
        ensures
            *r == old(self).spec_channel(),
            final(self).spec_channel() == *final(r),
            forall|t: MessageTargetView| #[trigger] final(self).registered(t) == old(
                self,
            ).registered(t),
    {
        &mut self.channel
    }

    /// Submits `msg` to the channel.  Always succeeds; the observable effect
    /// is enqueuing, not immediate delivery.  The registry is untouched.
    pub fn send(&mut self, msg: Message)
        ensures
            C::direct() ==> final(self).spec_channel().ready() == old(self).spec_channel().ready().push(msg@) && final(self).spec_channel().backlog() == old(self).spec_channel().backlog(),
            !C::direct() ==> final(self).spec_channel().backlog() == old(self).spec_channel().backlog().push(msg@) && final(self).spec_channel().ready() == old(self).spec_channel().ready(),
            forall|t: MessageTargetView| #[trigger] final(self).registered(t) == old(self).registered(t),
    {
        self.channel.push_msg(msg);
    }

    /// Registers `receiver` for `target`, after every receiver already
    /// registered for it.  Receivers registered earlier, for this target or
    /// any other, stay registered: registration appends, never replaces.
    #[verifier::loop_isolation(false)]
    pub fn set_target(&mut self, target: MessageTarget, receiver: R)
        ensures
            final(self).spec_channel() == old(self).spec_channel(),
            final(self).registered(target@) == old(self).registered(target@).push(receiver),
            forall|t: MessageTargetView| t != target@ ==> #[trigger] final(self).registered(t)
                == old(self).registered(t),
    {
        let ghost entries0 = self.receivers@;
        let mut j: usize = 0;
        while j < self.receivers.len()
            invariant
                j <= self.receivers@.len(),
                self.receivers@ == entries0,
                self.spec_channel() == old(self).spec_channel(),
                forall|k: int| 0 <= k < j ==> #[trigger] entries0[k].target@ != target@,
            decreases self.receivers@.len() - j,
        {
            if self.receivers[j].target == target {
                proof {
                    lemma_lookup_first_match(entries0, j as int);
                }
                let entry = &mut self.receivers[j];
                entry.handlers.push(receiver);
                proof {
                    let e2 = self.receivers@[j as int];
                    assert(e2.handlers@ == entries0[j as int].handlers@.push(receiver));
                    assert forall|t: MessageTargetView| t != target@ implies #[trigger] lookup(
                        self.receivers@,
                        t,
                    ) == lookup(entries0, t) by {
                        lemma_lookup_update(entries0, j as int, e2, t);
                    }
                    lemma_lookup_update(entries0, j as int, e2, target@);
                }
                return ;
            }
            j = j + 1;
        }
        proof {
            lemma_lookup_none(entries0, target@);
        }
        let mut handlers: Vec<R> = Vec::new();
        handlers.push(receiver);
        let entry = RegistryEntry { target, handlers };
        self.receivers.push(entry);
        proof {
            assert forall|t: MessageTargetView| t != target@ implies #[trigger] lookup(
                self.receivers@,
                t,
            ) == lookup(entries0, t) by {
                lemma_lookup_push(entries0, entry, t);
            }
            lemma_lookup_push(entries0, entry, target@);
            assert(final(self).registered(target@) =~= old(self).registered(target@).push(
                receiver,
            ));
        }
    }

    /// Delivers `msg` to every receiver registered for its target, in
    /// registration order, each receiving its own clone exactly once.  The
    /// channel, and the receivers registered for every other target, are
    /// untouched.  A message whose target has no registered receivers is
    /// dropped silently: nothing changes, and no error is raised.
    #[verifier::loop_isolation(false)]
    pub fn deliver(&mut self, msg: Message)
        ensures
            final(self).spec_channel() == old(self).spec_channel(),
            forall|t: MessageTargetView| t != msg@.target ==> #[trigger] final(self).registered(t)
                == old(self).registered(t),
            final(self).registered(msg@.target).len() == old(self).registered(msg@.target).len(),
            forall|k: int| 0 <= k < old(self).registered(msg@.target).len() ==> (
            #[trigger] final(self).registered(msg@.target)[k]).log() == old(self).registered(
                msg@.target,
            )[k].log().push(msg@),
    {
        let ghost entries0 = self.receivers@;
        let mut j: usize = 0;
        while j < self.receivers.len()
            invariant
                j <= self.receivers@.len(),
                self.receivers@ == entries0,
                self.spec_channel() == old(self).spec_channel(),
                forall|k: int| 0 <= k < j ==> #[trigger] entries0[k].target@ != msg@.target,
            decreases self.receivers@.len() - j,
        {
            if self.receivers[j].target == msg.target {
                proof {
                    lemma_lookup_first_match(entries0, j as int);
                }
                let entry = &mut self.receivers[j];
                deliver_all(&mut entry.handlers, &msg);
                proof {
                    let e2 = self.receivers@[j as int];
                    assert(e2.target@ == msg@.target);
                    assert forall|t: MessageTargetView| t != msg@.target implies #[trigger] lookup(
                        self.receivers@,
                        t,
                    ) == lookup(entries0, t) by {
                        lemma_lookup_update(entries0, j as int, e2, t);
                    }
                    lemma_lookup_update(entries0, j as int, e2, msg@.target);
                }
                return ;
            }
            j = j + 1;
        }
        proof {
            lemma_lookup_none(entries0, msg@.target);
        }
    }

    /// The dispatch loop.  Each iteration retrieves at most one message from
    /// the channel, hands a clone of it to every receiver registered for its
    /// target in registration order — none, if its target has no entry: such
    /// a message is dropped silently — and then checks for shutdown; the
    /// first `Quit` that a check yields ends the loop, and nothing else
    /// does.
    ///
    /// With `n` iterations forced by the signal arriving at poll
    /// `quit_at(...)`, the first `min(n, ready)` queued messages are
    /// dispatched in order: every registered receiver's log grows by exactly
    /// the dispatched messages addressed to its target, and the channel
    /// keeps the rest — messages still queued at shutdown are abandoned
    /// deliberately, not drained.
    pub fn loop_thread(&mut self, end_receiver: SignalReceiver)
        requires
            has_quit(end_receiver.remaining()),
        ensures
            ({
                let n = quit_at(end_receiver.remaining()) + 1;
                let k = min(n, old(self).spec_channel().ready().len() as int);
                let taken = old(self).spec_channel().ready().take(k);
                &&& final(self).spec_channel().ready() == old(self).spec_channel().ready().skip(k)
                &&& final(self).spec_channel().backlog() == old(self).spec_channel().backlog()
                &&& forall|t: MessageTargetView| #[trigger] final(self).registered(t).len() == old(
                    self,
                ).registered(t).len()
                &&& forall|t: MessageTargetView, i: int|
                    0 <= i < old(self).registered(t).len() ==> (#[trigger] final(self).registered(
                        t,
                    )[i]).log() == old(self).registered(t)[i].log() + delivered_to(taken, t)
            }),
    {
        let mut end_receiver = end_receiver;
        let ghost self0 = *self;
        let ghost r0 = self.spec_channel().ready();
        let ghost s0 = end_receiver.remaining();
        let ghost mut pp: int = 0;
        let ghost mut kk: int = 0;
        proof {
            lemma_quit_at(s0);
            assert(r0.skip(0) =~= r0);
            assert(r0.take(0) =~= Seq::<MessageView>::empty());
            assert(s0.skip(0) =~= s0);
            assert forall|t: MessageTargetView, i: int|
                0 <= i < self0.registered(t).len() implies (#[trigger] self.registered(t)[i]).log()
                == self0.registered(t)[i].log() + delivered_to(r0.take(0), t) by {
                assert(self0.registered(t)[i].log() + delivered_to(r0.take(0), t)
                    =~= self0.registered(t)[i].log());
            }
        }
        let mut running = true;
        while running
            invariant
                has_quit(s0),
                running ==> 0 <= pp <= quit_at(s0),
                !running ==> pp == quit_at(s0) + 1,
                kk == min(pp, r0.len() as int),
                self.spec_channel().ready() == r0.skip(kk),
                self.spec_channel().backlog() == self0.spec_channel().backlog(),
                end_receiver.remaining() == s0.skip(pp),
                forall|t: MessageTargetView| #![trigger self0.registered(t)]
                    self.registered(t).len() == self0.registered(t).len(),
                forall|t: MessageTargetView, i: int| #![trigger self0.registered(t)[i]]
                    0 <= i < self0.registered(t).len() ==> self.registered(t)[i].log()
                        == self0.registered(t)[i].log() + delivered_to(r0.take(kk), t),
            decreases quit_at(s0) + 1 - pp,
        {
            proof {
                lemma_quit_at(s0);
            }
            match self.channel.get_msg() {
                Some(msg) => {
                    proof {
                        assert(kk < r0.len());
                        assert(msg@ == r0[kk]);
                        assert(r0.skip(kk).drop_first() =~= r0.skip(kk + 1));
                    }
                    let ghost self_mid = *self;
                    self.deliver(msg);
                    proof {
                        assert(r0.take(kk).push(r0[kk]) =~= r0.take(kk + 1));
                        assert forall|t: MessageTargetView| #[trigger] self.registered(t).len()
                            == self0.registered(t).len() by {
                            assert(self_mid.registered(t).len() == self0.registered(t).len());
                            if t != msg@.target {
                                assert(self.registered(t) == self_mid.registered(t));
                            } else {
                                assert(self.registered(t).len() == self_mid.registered(t).len());
                            }
                        }
                        assert forall|t: MessageTargetView, i: int|
                            0 <= i < self0.registered(t).len() implies (#[trigger] self.registered(
                            t,
                        )[i]).log() == self0.registered(t)[i].log() + delivered_to(
                            r0.take(kk + 1),
                            t,
                        ) by {
                            lemma_delivered_to_snoc(r0.take(kk), r0[kk], t);
                            assert(self_mid.registered(t)[i].log() == self0.registered(t)[i].log()
                                + delivered_to(r0.take(kk), t));
                            if t == msg@.target {
                                assert(self.registered(t)[i].log() == self_mid.registered(
                                    t,
                                )[i].log().push(msg@));
                                assert(self0.registered(t)[i].log() + delivered_to(
                                    r0.take(kk),
                                    t,
                                ).push(msg@) =~= (self0.registered(t)[i].log() + delivered_to(
                                    r0.take(kk),
                                    t,
                                )).push(msg@));
                            } else {
                                assert(self.registered(t) == self_mid.registered(t));
                            }
                        }
                        kk = kk + 1;
                    }
                },
                None => {
                    proof {
                        assert(kk == r0.len());
                    }
                },
            }
            match end_receiver.poll() {
                Some(MessageEndpointSignal::Quit) => {
                    proof {
                        assert(s0.skip(pp)[0] == s0[pp]);
                        assert(s0[pp] is Some);
                        assert(pp == quit_at(s0));
                        pp = pp + 1;
                        assert(s0.skip(pp - 1).drop_first() =~= s0.skip(pp));
                        assert(kk == min(pp, r0.len() as int));
                    }
                    running = false;
                },
                None => {
                    proof {
                        assert(s0.skip(pp)[0] == s0[pp]);
                        assert(s0[pp] is None);
                        assert(pp != quit_at(s0));
                        pp = pp + 1;
                        assert(s0.skip(pp - 1).drop_first() =~= s0.skip(pp));
                    }
                },
            }
        }
    }
}

} // verus!
