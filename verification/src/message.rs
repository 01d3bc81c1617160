use vstd::prelude::*;

verus! {

/// The mathematical value of a routing target: the variant together with the
/// character sequence of its name.
pub enum MessageTargetView {
    Kind(Seq<char>),
    Id(Seq<char>),
}

/// Routing key for a message: either a category that any number of receivers
/// may share (`Kind`), or the address of one named entity (`Id`).
///
/// A target is immutable once constructed and is compared by value.
/// Dispatch matches the whole target and treats both variants alike: a
/// message addressed to `Id("a")` reaches exactly the receivers registered
/// for `Id("a")`, never those registered for `Kind("a")`.
#[derive(Debug)]
pub enum MessageTarget {
    Kind(String),
    Id(String),
}

impl View for MessageTarget {
    type V = MessageTargetView;

    open spec fn view(&self) -> MessageTargetView {
        match self {
            MessageTarget::Kind(s) => MessageTargetView::Kind(s@),
            MessageTarget::Id(s) => MessageTargetView::Id(s@),
        }
    }
}

impl Clone for MessageTarget {
    fn clone(&self) -> (r: Self)
        ensures
            r@ == self@,
    {
        match self {
            MessageTarget::Kind(s) => MessageTarget::Kind(s.clone()),
            MessageTarget::Id(s) => MessageTarget::Id(s.clone()),
        }
    }
}

impl PartialEq for MessageTarget {
    fn eq(&self, other: &Self) -> (r: bool) {
        match (self, other) {
            (MessageTarget::Kind(a), MessageTarget::Kind(b)) => *a == *b,
            (MessageTarget::Id(a), MessageTarget::Id(b)) => *a == *b,
            _ => false,
        }
    }
}

impl Eq for MessageTarget {
}

impl vstd::std_specs::cmp::PartialEqSpecImpl for MessageTarget {
    open spec fn obeys_eq_spec() -> bool {
        true
    }

    open spec fn eq_spec(&self, other: &Self) -> bool {
        self@ == other@
    }
}

/// The mathematical value of a message: its content bytes and its target.
pub struct MessageView {
    pub content: Seq<u8>,
    pub target: MessageTargetView,
}

/// A message: an ordered sequence of content bytes addressed to a target.
///
/// The payload is immutable; transformers produce a new `Message` rather than
/// mutating one in place, and fan-out hands each receiver its own clone.
#[derive(Debug)]
pub struct Message {
    pub content: Vec<u8>,
    pub target: MessageTarget,
}

impl View for Message {
    type V = MessageView;

    open spec fn view(&self) -> MessageView {
        MessageView { content: self.content@, target: self.target@ }
    }
}

impl Clone for Message {
    fn clone(&self) -> (r: Self)
        ensures
            r@ == self@,
    {
        let content = self.content.clone();
        proof {
            assert forall|i: int| 0 <= i < self.content@.len() implies content@[i]
                == self.content@[i] by {
                assert(cloned::<u8>(self.content[i], content[i]));
            }
            assert(content@ =~= self.content@);
        }
        Message { content, target: self.target.clone() }
    }
}

/// The views of the messages of `ms`, in order.
pub open spec fn views_of(ms: Seq<Message>) -> Seq<MessageView> {
    ms.map_values(|m: Message| m@)
}

impl Message {
    pub fn new(content: Vec<u8>, target: MessageTarget) -> (r: Message)
        ensures
            r@ == (MessageView { content: content@, target: target@ }),
    {
        Message { content, target }
    }
}

} // verus!
