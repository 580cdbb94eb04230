use crate::futures_sub::answer_of_queue;
use crate::pub_sub::PubSubError;
use crate::pub_sub::Subscriber;
use std::rc::Rc;
use vstd::prelude::*;

verus! {

/// The sending half of a channel of `std::sync::mpsc`, carried through as an
/// opaque value.
#[verifier::external_type_specification]
#[verifier::external_body]
#[verifier::reject_recursive_types(T)]
pub struct ExSender<T>(std::sync::mpsc::Sender<T>);

/// Calls `std::sync::mpsc::Sender::send` with a shared copy of `event` and tells
/// whether the channel took it. The channel refuses once its receiving end is
/// gone, which is not for this side to know, so nothing is claimed of the answer.
#[verifier::external_body]
fn channel_event<E: Clone>(sender: &std::sync::mpsc::Sender<Rc<E>>, event: &E) -> (taken: bool) {
    sender.send(Rc::new(event.clone())).is_ok()
}

/// Calls `Clone::clone` on the sending half, which gives a second handle to
/// the same channel. Nothing is claimed of the handle.
#[verifier::external_body]
fn second_sender<E>(sender: &std::sync::mpsc::Sender<Rc<E>>) -> (handle: std::sync::mpsc::Sender<
    Rc<E>,
>) {
    sender.clone()
}

/// A subscriber that sends every event down a channel of the standard library.
#[verifier::reject_recursive_types(E)]
pub struct StdSubscriber<E: Clone> {
    sender: std::sync::mpsc::Sender<Rc<E>>,
    entity_id: u128,
}

impl<E: Clone> StdSubscriber<E> {
    /// The identity the subscriber was made for.
    pub closed spec fn id(&self) -> u128 {
        self.entity_id
    }

    pub fn new(sender: std::sync::mpsc::Sender<Rc<E>>, entity_id: u128) -> (subscriber:
        StdSubscriber<E>)
        ensures
            subscriber.id() == entity_id,
    {
        StdSubscriber { sender, entity_id }
    }
}

impl<E: Clone> Clone for StdSubscriber<E> {
    fn clone(&self) -> (copy: Self)
        ensures
            copy.id() == self.id(),
    {
        StdSubscriber { sender: second_sender(&self.sender), entity_id: self.entity_id }
    }
}

impl<E: Clone> Subscriber<E> for StdSubscriber<E> {
    open spec fn spec_entity_id(&self) -> u128 {
        self.id()
    }

    fn send(&self, event: &E) -> (answer: Result<bool, PubSubError>)
        ensures
            exists|taken: bool| answer == #[trigger] crate::futures_sub::queue_answer(taken),
    {
        // The answer is that of the channel: taken, or the receiver gone.
        answer_of_queue(channel_event(&self.sender, event))
    }

    fn entity_id(&self) -> (id: u128) {
        self.entity_id
    }
}

} // verus!
