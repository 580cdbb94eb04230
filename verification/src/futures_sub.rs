use crate::pub_sub::PubSubError;
use crate::pub_sub::Subscriber;
use std::rc::Rc;
use vstd::prelude::*;

verus! {

/// The sending half of the unbounded single-threaded queue of the `futures`
/// crate, carried through as an opaque value.
#[verifier::external_type_specification]
#[verifier::external_body]
#[verifier::reject_recursive_types(T)]
pub struct ExUnboundedSender<T>(futures::unsync::mpsc::UnboundedSender<T>);

/// The receiving half of the same queue, carried through as an opaque value.
#[verifier::external_type_specification]
#[verifier::external_body]
#[verifier::reject_recursive_types(T)]
pub struct ExUnboundedReceiver<T>(futures::unsync::mpsc::UnboundedReceiver<T>);

/// Calls `futures::unsync::mpsc::unbounded`, which makes a linked pair of
/// queue ends. Nothing is claimed of the pair.
#[verifier::external_body]
fn unbounded_queue<E>() -> (ends: (
    futures::unsync::mpsc::UnboundedSender<Rc<E>>,
    futures::unsync::mpsc::UnboundedReceiver<Rc<E>>,
)) {
    futures::unsync::mpsc::unbounded()
}

/// Calls `UnboundedSender::unbounded_send` with a shared copy of `event` and
/// tells whether the queue took it. The queue refuses once its receiving end
/// is gone, which is not for this side to know, so nothing is claimed of the
/// answer.
#[verifier::external_body]
fn queue_event<E: Clone>(sender: &futures::unsync::mpsc::UnboundedSender<Rc<E>>, event: &E) -> (taken:
    bool) {
    sender.unbounded_send(Rc::new(event.clone())).is_ok()
}

/// Calls `Clone::clone` on the sending half, which gives a second handle to
/// the same queue. Nothing is claimed of the handle.
#[verifier::external_body]
fn second_handle<E>(sender: &futures::unsync::mpsc::UnboundedSender<Rc<E>>) -> (handle:
    futures::unsync::mpsc::UnboundedSender<Rc<E>>) {
    sender.clone()
}

/// What a subscriber answers once its queue has taken an event, or has not:
/// a subscriber whose queue is gone wants to be dropped.
pub fn answer_of_queue(taken: bool) -> (answer: Result<bool, PubSubError>)
    ensures
        answer == queue_answer(taken),
{
    if taken {
        Ok(true)
    } else {
        Err(PubSubError::ReceiverIsGone)
    }
}

/// A subscriber that appends every event to an unbounded queue.
#[verifier::reject_recursive_types(E)]
pub struct FutureSubscriber<E: Clone> {
    sender: futures::unsync::mpsc::UnboundedSender<Rc<E>>,
    entity_id: u128,
}

impl<E: Clone> FutureSubscriber<E> {
    /// The identity the subscriber was made for.
    pub closed spec fn id(&self) -> u128 {
        self.entity_id
    }
}

impl<E: Clone> Clone for FutureSubscriber<E> {
    fn clone(&self) -> (copy: Self)
        ensures
            copy.id() == self.id(),
    {
        FutureSubscriber { sender: second_handle(&self.sender), entity_id: self.entity_id }
    }
}

impl<E: Clone> Subscriber<E> for FutureSubscriber<E> {
    open spec fn spec_entity_id(&self) -> u128 {
        self.id()
    }

    /// Appends a shared copy of `event` to the queue and answers as the queue did.
    fn send(&self, event: &E) -> (answer: Result<bool, PubSubError>)
        ensures
            exists|taken: bool| answer == #[trigger] queue_answer(taken),
    {
        answer_of_queue(queue_event(&self.sender, event))
    }

    fn entity_id(&self) -> (id: u128) {
        self.entity_id
    }
}

/// The answer of a subscriber whose queue has taken an event (`Ok(true)`: it
/// stays), or has not (its receiver is gone). It never asks to be dropped otherwise.
pub open spec fn queue_answer(taken: bool) -> Result<bool, PubSubError> {
    if taken {
        Ok(true)
    } else {
        Err(PubSubError::ReceiverIsGone)
    }
}

/// Makes a subscriber for `entity_id` together with the receiving end of its queue.
pub fn new_subscriber<E: Clone>(entity_id: u128) -> (pair: (
    FutureSubscriber<E>,
    futures::unsync::mpsc::UnboundedReceiver<Rc<E>>,
))
    ensures
        pair.0.id() == entity_id,
{
    let (sender, receiver) = unbounded_queue();
    let subscriber = FutureSubscriber { sender, entity_id };
    (subscriber, receiver)
}

} // verus!
