use crate::message::{Message, MessageView};
use vstd::prelude::*;

verus! {

/// A transformation stage of the bus: a total function from message to
/// message, applied by a worker between submission and delivery.
///
/// A stage may hold internal state that changes across calls; calls from a
/// single worker are strictly sequential.  Each implementation says through
/// `transformed` which message one call produces and through `stepped` which
/// state it leaves behind, and `transform` is held to both.
pub trait MessageTransformer: Sized {
    /// The message this stage produces from `m` in its current state.
    spec fn transformed(&self, m: MessageView) -> MessageView;

    /// The state this stage is left in after one call on `m`.
    spec fn stepped(&self, m: MessageView) -> Self;

    /// Applies the stage to `msg`, producing a new message.
    fn transform(&mut self, msg: Message) -> (r: Message)
        ensures
            r@ == old(self).transformed(msg@),
            *final(self) == old(self).stepped(msg@),
    ;
}

/// The fixed byte mask applied by `MessageEncryptorTransformer`.
pub const ENCRYPTION_MASK: u8 = 0xb0;

/// The content of `content` with every byte XORed with `ENCRYPTION_MASK`.
pub open spec fn masked_bytes(content: Seq<u8>) -> Seq<u8> {
    Seq::new(content.len(), |i: int| content[i] ^ ENCRYPTION_MASK)
}

/// The message `m` with its content masked and its target kept.
pub open spec fn masked(m: MessageView) -> MessageView {
    MessageView { content: masked_bytes(m.content), target: m.target }
}

/// Masking is its own inverse: applying the shipped transformer twice to any
/// message reproduces the original exactly.
pub proof fn lemma_masked_involutive(m: MessageView)
    ensures
        masked(masked(m)) == m,
{
    assert forall|i: int| 0 <= i < m.content.len() implies masked_bytes(
        masked_bytes(m.content),
    )[i] == m.content[i] by {
        let b = m.content[i];
        let c = ENCRYPTION_MASK;
        assert((b ^ c) ^ c == b) by (bit_vector);
    }
    assert(masked_bytes(masked_bytes(m.content)) =~= m.content);
}

/// The message produced by applying the stages of `ts` to `m` in order, each
/// in its current state.
pub open spec fn chain_transformed<T: MessageTransformer>(ts: Seq<T>, m: MessageView) -> MessageView
    decreases ts.len(),
{
    if ts.len() == 0 {
        m
    } else {
        chain_transformed(ts.drop_first(), ts[0].transformed(m))
    }
}

/// The stage states left behind by applying the stages of `ts` to `m` in
/// order.
pub open spec fn chain_stepped<T: MessageTransformer>(ts: Seq<T>, m: MessageView) -> Seq<T>
    decreases ts.len(),
{
    if ts.len() == 0 {
        ts
    } else {
        seq![ts[0].stepped(m)] + chain_stepped(ts.drop_first(), ts[0].transformed(m))
    }
}

/// Unfolds one application of the chain at position `j`: the stages after
/// `j` see the message that stage `j` produced.
pub(crate) proof fn lemma_chain_unfold<T: MessageTransformer>(ts: Seq<T>, j: int, m: MessageView)
    requires
        0 <= j < ts.len(),
    ensures
        chain_transformed(ts.skip(j), m) == chain_transformed(ts.skip(j + 1), ts[j].transformed(m)),
        chain_stepped(ts.skip(j), m) == seq![ts[j].stepped(m)] + chain_stepped(
            ts.skip(j + 1),
            ts[j].transformed(m),
        ),
{
    assert(ts.skip(j)[0] == ts[j]);
    assert(ts.skip(j).drop_first() =~= ts.skip(j + 1));
}

/// The one shipped transformer: XORs every content byte with
/// `ENCRYPTION_MASK` and keeps the target.  It holds no state.
pub struct MessageEncryptorTransformer;

impl MessageEncryptorTransformer {
    pub fn new() -> (r: MessageEncryptorTransformer)
        ensures
            r == MessageEncryptorTransformer,
    {
        MessageEncryptorTransformer
    }
}

impl MessageTransformer for MessageEncryptorTransformer {
    open spec fn transformed(&self, m: MessageView) -> MessageView {
        masked(m)
    }

    open spec fn stepped(&self, m: MessageView) -> Self {
        MessageEncryptorTransformer
    }

    fn transform(&mut self, msg: Message) -> (r: Message) {
        let mut content: Vec<u8> = Vec::new();
        let mut i: usize = 0;
        while i < msg.content.len()
            invariant
                i <= msg.content@.len(),
                content@.len() == i,
                forall|j: int| 0 <= j < i ==> content@[j] == msg.content@[j] ^ ENCRYPTION_MASK,
            decreases msg.content@.len() - i,
        {
            content.push(msg.content[i] ^ ENCRYPTION_MASK);
            i = i + 1;
        }
        proof {
            assert(content@ =~= masked_bytes(msg.content@));
        }
        Message::new(content, msg.target)
    }
}

} // verus!
