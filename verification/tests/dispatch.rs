use std::cell::RefCell;
use std::rc::Rc;

use msg_bus::channel::InAndOutMessageChannel;
use msg_bus::endpoint::{
    MessageEndpoint, MessageEndpointSignal, MessageReceiver, RecordingReceiver, SignalReceiver,
};
use msg_bus::message::{Message, MessageTarget};

type Seen = Rc<RefCell<Vec<(&'static str, Vec<u8>)>>>;

struct Recorder {
    name: &'static str,
    seen: Seen,
}

impl MessageReceiver for Recorder {
    fn on_message(&mut self, msg: Message) {
        self.seen.borrow_mut().push((self.name, msg.content));
    }
}

fn quit_now() -> SignalReceiver {
    SignalReceiver::new(vec![Some(MessageEndpointSignal::Quit)])
}

#[test]
fn fan_out_reaches_every_receiver_in_registration_order() {
    let seen: Seen = Rc::new(RefCell::new(Vec::new()));
    let mut endpoint = MessageEndpoint::new(InAndOutMessageChannel::new(10));
    let target = MessageTarget::Kind("report".to_string());
    endpoint.set_target(
        target.clone(),
        Recorder { name: "r1", seen: seen.clone() },
    );
    endpoint.set_target(
        target.clone(),
        Recorder { name: "r2", seen: seen.clone() },
    );
    endpoint.send(Message::new(vec![9, 8], target));
    endpoint.loop_thread(quit_now());
    let got = seen.borrow();
    assert_eq!(*got, vec![("r1", vec![9, 8]), ("r2", vec![9, 8])]);
}

#[test]
fn unregistered_target_drops_message_without_error() {
    let seen: Seen = Rc::new(RefCell::new(Vec::new()));
    let mut endpoint = MessageEndpoint::new(InAndOutMessageChannel::new(10));
    endpoint.set_target(
        MessageTarget::Kind("report".to_string()),
        Recorder { name: "r1", seen: seen.clone() },
    );
    endpoint.send(Message::new(
        vec![1],
        MessageTarget::Kind("other".to_string()),
    ));
    endpoint.loop_thread(quit_now());
    assert!(seen.borrow().is_empty());
}

#[test]
fn kind_and_id_of_the_same_name_are_distinct_targets() {
    let seen: Seen = Rc::new(RefCell::new(Vec::new()));
    let mut endpoint = MessageEndpoint::new(InAndOutMessageChannel::new(10));
    endpoint.set_target(
        MessageTarget::Kind("a".to_string()),
        Recorder { name: "kind", seen: seen.clone() },
    );
    endpoint.set_target(
        MessageTarget::Id("a".to_string()),
        Recorder { name: "id", seen: seen.clone() },
    );
    endpoint.send(Message::new(vec![5], MessageTarget::Id("a".to_string())));
    endpoint.loop_thread(quit_now());
    assert_eq!(*seen.borrow(), vec![("id", vec![5])]);
}

#[test]
fn several_messages_are_dispatched_in_order() {
    let seen: Seen = Rc::new(RefCell::new(Vec::new()));
    let mut endpoint = MessageEndpoint::new(InAndOutMessageChannel::new(10));
    let target = MessageTarget::Kind("k".to_string());
    endpoint.set_target(target.clone(), Recorder { name: "r", seen: seen.clone() });
    endpoint.send(Message::new(vec![1], target.clone()));
    endpoint.send(Message::new(vec![2], target.clone()));
    endpoint.send(Message::new(vec![3], target));
    endpoint.loop_thread(SignalReceiver::new(vec![
        None,
        None,
        Some(MessageEndpointSignal::Quit),
    ]));
    assert_eq!(
        *seen.borrow(),
        vec![("r", vec![1]), ("r", vec![2]), ("r", vec![3])]
    );
}

#[test]
fn shutdown_abandons_messages_still_queued() {
    let seen: Seen = Rc::new(RefCell::new(Vec::new()));
    let mut endpoint = MessageEndpoint::new(InAndOutMessageChannel::new(10));
    let target = MessageTarget::Kind("k".to_string());
    endpoint.set_target(target.clone(), Recorder { name: "r", seen: seen.clone() });
    endpoint.send(Message::new(vec![1], target.clone()));
    endpoint.send(Message::new(vec![2], target));
    endpoint.loop_thread(quit_now());
    assert_eq!(*seen.borrow(), vec![("r", vec![1])]);
    endpoint.loop_thread(quit_now());
    assert_eq!(*seen.borrow(), vec![("r", vec![1]), ("r", vec![2])]);
}

#[test]
fn late_registration_sees_only_later_messages() {
    let seen: Seen = Rc::new(RefCell::new(Vec::new()));
    let mut endpoint = MessageEndpoint::new(InAndOutMessageChannel::new(10));
    let target = MessageTarget::Kind("k".to_string());
    endpoint.set_target(target.clone(), Recorder { name: "early", seen: seen.clone() });
    endpoint.send(Message::new(vec![1], target.clone()));
    endpoint.loop_thread(quit_now());
    endpoint.set_target(target.clone(), Recorder { name: "late", seen: seen.clone() });
    endpoint.send(Message::new(vec![2], target));
    endpoint.loop_thread(quit_now());
    assert_eq!(
        *seen.borrow(),
        vec![("early", vec![1]), ("early", vec![2]), ("late", vec![2])]
    );
}

#[test]
fn recording_receiver_keeps_deliveries_in_order() {
    let mut endpoint = MessageEndpoint::new(InAndOutMessageChannel::new(10));
    let target = MessageTarget::Kind("k".to_string());
    endpoint.set_target(target.clone(), RecordingReceiver::new());
    endpoint.send(Message::new(vec![1], target.clone()));
    endpoint.send(Message::new(vec![2], target.clone()));
    endpoint.loop_thread(SignalReceiver::new(vec![
        None,
        Some(MessageEndpointSignal::Quit),
    ]));
    let slot = endpoint.receivers_for(&target).expect("one receiver is registered");
    assert_eq!(slot.len(), 1);
    assert_eq!(slot[0].received.len(), 2);
    assert_eq!(slot[0].received[0].content, vec![1]);
    assert_eq!(slot[0].received[1].content, vec![2]);
}

#[test]
fn receivers_for_an_unknown_target_is_none() {
    let mut endpoint = MessageEndpoint::new(InAndOutMessageChannel::new(10));
    endpoint.set_target(
        MessageTarget::Kind("known".to_string()),
        RecordingReceiver::new(),
    );
    assert!(endpoint
        .receivers_for(&MessageTarget::Kind("unknown".to_string()))
        .is_none());
    assert!(endpoint
        .receivers_for(&MessageTarget::Id("known".to_string()))
        .is_none());
}

#[test]
fn dispatch_loop_without_messages_only_waits_for_quit() {
    let seen: Seen = Rc::new(RefCell::new(Vec::new()));
    let mut endpoint = MessageEndpoint::new(InAndOutMessageChannel::new(10));
    endpoint.set_target(
        MessageTarget::Kind("k".to_string()),
        Recorder { name: "r", seen: seen.clone() },
    );
    endpoint.loop_thread(SignalReceiver::new(vec![
        None,
        None,
        None,
        Some(MessageEndpointSignal::Quit),
    ]));
    assert!(seen.borrow().is_empty());
}
