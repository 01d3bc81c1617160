use std::cell::RefCell;
use std::rc::Rc;

use msg_bus::channel::{MessageChannel, TransformerListChannel};
use msg_bus::endpoint::{MessageEndpoint, MessageEndpointSignal, MessageReceiver, SignalReceiver};
use msg_bus::message::{Message, MessageTarget};
use msg_bus::non_block_deque::NonBlockDeque;
use msg_bus::transformer::MessageEncryptorTransformer;
use msg_bus::worker::TransformerWorker;

type Seen = Rc<RefCell<Vec<(&'static str, Vec<u8>)>>>;

struct Probe {
    name: &'static str,
    seen: Seen,
}

impl MessageReceiver for Probe {
    fn on_message(&mut self, msg: Message) {
        self.seen.borrow_mut().push((self.name, msg.content));
    }
}

fn encrypting_channel(
    polls: Vec<Option<MessageEndpointSignal>>,
) -> TransformerListChannel<MessageEncryptorTransformer> {
    let worker = TransformerWorker::new(
        vec![MessageEncryptorTransformer::new()],
        SignalReceiver::new(polls),
        NonBlockDeque::new(10),
        NonBlockDeque::new(10),
    );
    TransformerListChannel::new(worker)
}

fn quit_now() -> Vec<Option<MessageEndpointSignal>> {
    vec![Some(MessageEndpointSignal::Quit)]
}

#[test]
fn transforming_channel_end_to_end() {
    let mut channel = encrypting_channel(quit_now());
    channel.push_msg(Message::new(
        vec![1, 2, 3],
        MessageTarget::Kind("x".to_string()),
    ));
    assert!(channel.get_msg().is_none());
    channel.run_worker();
    let got = channel.get_msg().expect("one transformed message is ready");
    assert_eq!(got.content, vec![1 ^ 0xb0, 2 ^ 0xb0, 3 ^ 0xb0]);
    assert_eq!(got.target, MessageTarget::Kind("x".to_string()));
    assert!(channel.get_msg().is_none());
}

#[test]
fn submit_and_retrieve_compose_with_the_drain() {
    let mut channel = encrypting_channel(quit_now());
    channel.submit(Message::new(
        vec![1, 2, 3],
        MessageTarget::Kind("x".to_string()),
    ));
    channel.run_worker();
    let got = channel.retrieve().expect("one transformed message is ready");
    assert_eq!(got.content, vec![0xb1, 0xb2, 0xb3]);
    assert_eq!(got.target, MessageTarget::Kind("x".to_string()));
    assert!(channel.retrieve().is_none());
}

#[test]
fn worker_drains_in_submission_order() {
    let mut channel = encrypting_channel(vec![None, Some(MessageEndpointSignal::Quit)]);
    channel.push_msg(Message::new(vec![1], MessageTarget::Kind("x".to_string())));
    channel.push_msg(Message::new(vec![2], MessageTarget::Kind("x".to_string())));
    channel.run_worker();
    assert_eq!(channel.get_msg().unwrap().content, vec![1 ^ 0xb0]);
    assert_eq!(channel.get_msg().unwrap().content, vec![2 ^ 0xb0]);
    assert!(channel.get_msg().is_none());
}

#[test]
fn worker_stops_on_quit_and_leaves_the_rest_pending() {
    let mut channel = encrypting_channel(quit_now());
    channel.push_msg(Message::new(vec![1], MessageTarget::Kind("x".to_string())));
    channel.push_msg(Message::new(vec![2], MessageTarget::Kind("x".to_string())));
    channel.run_worker();
    assert_eq!(channel.get_msg().unwrap().content, vec![1 ^ 0xb0]);
    assert!(channel.get_msg().is_none());
}

#[test]
fn worker_without_stages_passes_messages_through() {
    let worker: TransformerWorker<MessageEncryptorTransformer> = TransformerWorker::new(
        vec![],
        SignalReceiver::new(quit_now()),
        NonBlockDeque::new(10),
        NonBlockDeque::new(10),
    );
    let mut channel = TransformerListChannel::new(worker);
    channel.push_msg(Message::new(
        vec![4, 5],
        MessageTarget::Id("raw".to_string()),
    ));
    channel.run_worker();
    let got = channel.get_msg().unwrap();
    assert_eq!(got.content, vec![4, 5]);
    assert_eq!(got.target, MessageTarget::Id("raw".to_string()));
}

#[test]
fn endpoint_over_transforming_channel_delivers_masked_content() {
    let seen: Seen = Rc::new(RefCell::new(Vec::new()));
    let mut endpoint = MessageEndpoint::new(encrypting_channel(quit_now()));
    let target = MessageTarget::Kind("report".to_string());
    endpoint.set_target(target.clone(), Probe { name: "p", seen: seen.clone() });
    endpoint.send(Message::new(vec![1, 2, 3], target));
    endpoint.channel_mut().run_worker();
    endpoint.loop_thread(SignalReceiver::new(quit_now()));
    assert_eq!(*seen.borrow(), vec![("p", vec![0xb1, 0xb2, 0xb3])]);
}
