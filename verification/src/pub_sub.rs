use vstd::prelude::*;
use vstd::string::StringExecFns;

verus! {

/// Why a delivery failed.
#[derive(Debug, PartialEq, Eq, Structural, Clone, Copy)]
pub enum PubSubError {
    /// The receiving end of the subscriber's queue has been destroyed.
    ReceiverIsGone,
}

impl PubSubError {
    /// The name of the failure.
    pub fn to_text(&self) -> (text: String)
        ensures
            text@ == "ReceiverIsGone"@,
    {
        match self {
            PubSubError::ReceiverIsGone => String::from_str("ReceiverIsGone"),
        }
    }
}

/// An event sink issued for one entity. What `send` answers is the sink's own
/// business: `Ok(true)` keeps the subscription, `Ok(false)` and `Err` end it.
pub trait Subscriber<E>: Clone {
    /// The identity of the entity this subscriber was issued for.
    spec fn spec_entity_id(&self) -> u128;

    /// Returns `Ok(false)` or `Err` to drop the subscription.
    fn send(&self, event: &E) -> Result<bool, PubSubError>;

    fn entity_id(&self) -> (id: u128)
        ensures
            id == self.spec_entity_id(),
    ;
}

/// Whether a subscriber that gave `answer` is to be kept: only `Ok(true)` keeps
/// a subscription, `Ok(false)` and any failure end it.
pub fn keeps_subscription(answer: Result<bool, PubSubError>) -> (kept: bool)
    ensures
        kept == (answer == Ok::<bool, PubSubError>(true)),
{
    match answer {
        Ok(keep) => keep,
        Err(_) => false,
    }
}

/// A subscriber once a channel has admitted it, together with what the channel
/// knows of it: the identity it gave on admission, and every event the channel
/// has handed to it since, oldest first.
pub struct Subscription<S, E> where S: Subscriber<E> {
    handle: S,
    entity_id: u128,
    log: Ghost<Seq<E>>,
    answers: Ghost<Seq<bool>>,
}

impl<S, E> Subscription<S, E> where S: Subscriber<E> {
    /// The subscriber itself.
    pub closed spec fn handle(&self) -> S {
        self.handle
    }

    /// The identity the subscriber gave when it was admitted.
    pub closed spec fn id(&self) -> u128 {
        self.entity_id
    }

    /// The events handed to the subscriber since it was admitted, oldest first.
    pub closed spec fn received(&self) -> Seq<E> {
        self.log@
    }

    /// For each event handed to the subscriber since it was admitted, whether
    /// the subscriber answered `Ok(true)`.
    pub closed spec fn answers(&self) -> Seq<bool> {
        self.answers@
    }

    /// The subscriber answered `Ok(true)` to the event it was handed last.
    pub open spec fn last_answer(&self) -> bool {
        self.answers().len() > 0 && self.answers().last()
    }

    /// Takes `handle` in, under the identity it gives.
    pub fn new(handle: S) -> (subscription: Subscription<S, E>)
        ensures
            subscription.handle() == handle,
            subscription.id() == handle.spec_entity_id(),
            subscription.received() == Seq::<E>::empty(),
            subscription.answers() == Seq::<bool>::empty(),
    {
        let entity_id: u128 = handle.entity_id();
        Subscription { handle, entity_id, log: Ghost(Seq::empty()), answers: Ghost(Seq::empty()) }
    }

    pub fn entity_id(&self) -> (id: u128)
        ensures
            id == self.id(),
    {
        self.entity_id
    }

    /// Hands `event` to the subscriber and records it. Returns whether the
    /// subscriber answered `Ok(true)`, that is, whether it is to be kept.
    pub fn send(&mut self, event: &E) -> (kept: bool)
        ensures
            delivered(*old(self), *final(self), *event),
            final(self).answers() == old(self).answers().push(kept),
    {
        let answer: Result<bool, PubSubError> = self.handle.send(event);
        let kept: bool = keeps_subscription(answer);
        proof {
            self.log = Ghost(self.log@.push(*event));
            self.answers = Ghost(self.answers@.push(kept));
        }
        kept
    }

    /// Gives the subscriber back.
    pub fn into_handle(self) -> (handle: S)
        ensures
            handle == self.handle(),
    {
        self.handle
    }
}

/// `after` is `before` once `event` has been handed to it.
pub open spec fn delivered<S: Subscriber<E>, E>(
    before: Subscription<S, E>,
    after: Subscription<S, E>,
    event: E,
) -> bool {
    &&& after.handle() == before.handle()
    &&& after.id() == before.id()
    &&& after.received() == before.received().push(event)
}

/// The positions at which `flags` holds `true`, in increasing order.
pub open spec fn positions_of(flags: Seq<bool>) -> Seq<int>
    decreases flags.len(),
{
    if flags.len() == 0 {
        Seq::empty()
    } else if flags.last() {
        positions_of(flags.drop_last()).push(flags.len() - 1)
    } else {
        positions_of(flags.drop_last())
    }
}

/// `after` holds, in their old order, exactly the subscribers of `before` at
/// the positions flagged in `kept`, each with `event` delivered to it.
pub open spec fn survivors<S: Subscriber<E>, E>(
    before: Seq<Subscription<S, E>>,
    kept: Seq<bool>,
    event: E,
    after: Seq<Subscription<S, E>>,
) -> bool {
    &&& kept.len() == before.len()
    &&& after.len() == positions_of(kept).len()
    &&& forall|k: int|
        0 <= k < after.len() ==> delivered(
            before[#[trigger] positions_of(kept)[k]],
            after[k],
            event,
        )
}

/// The last position at which `flags` holds `true`, or `-1` where none does.
pub open spec fn last_position_of(flags: Seq<bool>) -> int
    decreases flags.len(),
{
    if flags.len() == 0 {
        -1
    } else if flags.last() {
        flags.len() - 1
    } else {
        last_position_of(flags.drop_last())
    }
}

/// The last flagged position, where there is one, is a flagged position.
pub proof fn lemma_last_position(flags: Seq<bool>)
    ensures
        -1 <= last_position_of(flags) < flags.len(),
        last_position_of(flags) >= 0 ==> flags[last_position_of(flags)],
        last_position_of(flags) < 0 ==> forall|j: int| 0 <= j < flags.len() ==> !flags[j],
    decreases flags.len(),
{
    if flags.len() > 0 {
        lemma_last_position(flags.drop_last());
        if !flags.last() && last_position_of(flags) < 0 {
            assert forall|j: int| 0 <= j < flags.len() implies !flags[j] by {
                if j < flags.len() - 1 {
                    assert(flags.drop_last()[j] == flags[j]);
                }
            }
        }
    }
}

/// Flagged positions are positions of the flag sequence.
pub proof fn lemma_positions_in_range(flags: Seq<bool>, k: int)
    requires
        0 <= k < positions_of(flags).len(),
    ensures
        0 <= positions_of(flags)[k] < flags.len(),
        flags[positions_of(flags)[k]],
        positions_of(flags).len() <= flags.len(),
    decreases flags.len(),
{
    if flags.len() > 0 {
        let rest = positions_of(flags.drop_last());
        if k < rest.len() {
            lemma_positions_in_range(flags.drop_last(), k);
        }
        if rest.len() > 0 {
            lemma_positions_in_range(flags.drop_last(), 0);
        }
    }
}

/// The items at the flagged positions, in their order.
pub open spec fn picked<T>(items: Seq<T>, flags: Seq<bool>) -> Seq<T> {
    Seq::new(positions_of(flags).len(), |k: int| items[positions_of(flags)[k]])
}

/// For each subscription, whether it answered `Ok(true)` to the event it was
/// handed last.
pub open spec fn answers_of<S: Subscriber<E>, E>(sent: Seq<Subscription<S, E>>) -> Seq<bool> {
    Seq::new(sent.len(), |j: int| sent[j].last_answer())
}

/// `sent` holds the subscriptions of `before`, every one of them, each with
/// `event` handed to it once.
pub open spec fn accounted<S: Subscriber<E>, E>(
    before: Seq<Subscription<S, E>>,
    sent: Seq<Subscription<S, E>>,
    event: E,
) -> bool {
    &&& sent.len() == before.len()
    &&& forall|j: int| 0 <= j < before.len() ==> delivered(before[j], #[trigger] sent[j], event)
}

/// Subscriptions picked by `flags` after a delivery are survivors of it.
pub proof fn lemma_picked_survive<S: Subscriber<E>, E>(
    before: Seq<Subscription<S, E>>,
    sent: Seq<Subscription<S, E>>,
    flags: Seq<bool>,
    event: E,
)
    requires
        accounted(before, sent, event),
        flags.len() == before.len(),
    ensures
        survivors(before, flags, event, picked(sent, flags)),
{
    assert forall|k: int| 0 <= k < picked(sent, flags).len() implies delivered(
        before[#[trigger] positions_of(flags)[k]],
        picked(sent, flags)[k],
        event,
    ) by {
        lemma_positions_in_range(flags, k);
    }
}

/// Keeps the items at the flagged positions, in their order, and drops the rest.
pub fn keep_flagged<T>(items: Vec<T>, flags: &Vec<bool>) -> (kept: Vec<T>)
    requires
        flags@.len() == items@.len(),
    ensures
        kept@ == picked(items@, flags@),
{
    let mut kept: Vec<T> = Vec::new();
    let ghost all = items@;
    let mut i: usize = 0;
    for item in it: items
        invariant
            it.seq() == all,
            i == it.index(),
            0 <= i <= all.len(),
            flags.len() == all.len(),
            kept@ == picked(all.take(i as int), flags@.take(i as int)),
    {
        let ghost earlier = kept@;
        let ghost seen = flags@.take(i as int);
        let ghost longer = flags@.take(i + 1);
        if flags[i] {
            kept.push(item);
        }
        proof {
            assert(longer.drop_last() =~= seen);
            assert(longer.last() == flags@[i as int]);
            assert forall|k: int| 0 <= k < earlier.len() implies all.take(i + 1)[positions_of(
                seen,
            )[k]] == earlier[k] by {
                lemma_positions_in_range(seen, k);
            }
            assert(kept@ =~= picked(all.take(i + 1), longer));
        }
        i += 1;
    }
    proof {
        assert(all.take(all.len() as int) =~= all);
        assert(flags@.take(all.len() as int) =~= flags@);
    }
    kept
}

/// Hands `event` to every one of `subscribers`, in their order, and tells for
/// each whether it answered `Ok(true)`.
pub fn deliver_to_all<S: Subscriber<E>, E>(subscribers: &mut Vec<Subscription<S, E>>, event: &E) -> (answers:
    Vec<bool>)
    ensures
        accounted(old(subscribers)@, final(subscribers)@, *event),
        answers@ == answers_of(final(subscribers)@),
{
    let mut answers: Vec<bool> = Vec::new();
    let mut i: usize = 0;
    while i < subscribers.len()
        invariant
            i <= subscribers@.len(),
            subscribers@.len() == old(subscribers)@.len(),
            answers@.len() == i,
            forall|j: int|
                0 <= j < i ==> delivered(old(subscribers)@[j], #[trigger] subscribers@[j], *event)
                    && answers@[j] == subscribers@[j].last_answer(),
            forall|j: int|
                i <= j < subscribers@.len() ==> #[trigger] subscribers@[j] == old(subscribers)@[j],
        decreases subscribers@.len() - i,
    {
        let kept: bool = subscribers[i].send(event);
        answers.push(kept);
        i += 1;
    }
    assert(answers@ =~= answers_of(subscribers@));
    answers
}

/// A plain channel: every subscriber sees every event.
pub struct PubSubChannel<S, E> where S: Subscriber<E> {
    subscribers: Vec<Subscription<S, E>>,
}

impl<S, E> PubSubChannel<S, E> where S: Subscriber<E> {
    /// The attached subscribers, in the order in which they were admitted.
    pub closed spec fn subscribers(&self) -> Seq<Subscription<S, E>> {
        self.subscribers@
    }

    pub fn new() -> (channel: PubSubChannel<S, E>)
        ensures
            channel.subscribers() == Seq::<Subscription<S, E>>::empty(),
    {
        PubSubChannel { subscribers: Vec::new() }
    }

    /// Admits `subscriber` behind the subscribers that are already attached.
    pub fn subscribe(&mut self, subscriber: S)
        ensures
            final(self).subscribers().len() == old(self).subscribers().len() + 1,
            final(self).subscribers().drop_last() == old(self).subscribers(),
            final(self).subscribers().last().handle() == subscriber,
            final(self).subscribers().last().id() == subscriber.spec_entity_id(),
            final(self).subscribers().last().received() == Seq::<E>::empty(),
    {
        self.subscribers.push(Subscription::new(subscriber));
        assert(self.subscribers@.drop_last() =~= old(self).subscribers@);
    }

    /// Hands `event` to every subscriber in order of admission and keeps those
    /// that answered `Ok(true)`. Delivery failures are never reported.
    pub fn publish(&mut self, event: &E) -> (done: Result<(), PubSubError>)
        ensures
            done is Ok,
            exists|sent: Seq<Subscription<S, E>>| #[trigger]
                accounted(old(self).subscribers(), sent, *event) && final(self).subscribers()
                    == picked(sent, answers_of(sent)),
    {
        let answers: Vec<bool> = deliver_to_all(&mut self.subscribers, event);
        let ghost sent = self.subscribers@;
        let mut pending: Vec<Subscription<S, E>> = Vec::new();
        core::mem::swap(&mut self.subscribers, &mut pending);
        self.subscribers = keep_flagged(pending, &answers);
        assert(accounted(old(self).subscribers(), sent, *event) && self.subscribers() == picked(
            sent,
            answers_of(sent),
        ));
        Ok(())
    }
}

} // verus!
