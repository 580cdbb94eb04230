use crate::pub_sub::accounted;
use crate::pub_sub::answers_of;
use crate::pub_sub::deliver_to_all;
use crate::pub_sub::delivered;
use crate::pub_sub::lemma_picked_survive;
use crate::pub_sub::picked;
use crate::pub_sub::last_position_of;
use crate::pub_sub::lemma_last_position;
use crate::pub_sub::lemma_positions_in_range;
use crate::pub_sub::positions_of;
use crate::pub_sub::survivors;
use crate::pub_sub::Subscriber;
use crate::pub_sub::Subscription;
use crate::spatial::geometry::Point;
use crate::spatial::geometry::Zone;
use std::collections::HashMap;
use vstd::prelude::*;

verus! {

broadcast use vstd::std_specs::hash::group_hash_axioms;

/// Anything with a stable 128-bit identity.
pub trait Entity: Sized {
    /// The identity of the entity.
    spec fn spec_id(&self) -> u128;

    fn id(&self) -> (id: u128)
        ensures
            id == self.spec_id(),
    ;

    /// A copy of the entity that is equal to it; for most entities, its clone.
    fn duplicate(&self) -> (copy: Self)
        ensures
            copy == *self,
    ;
}

/// Something that happened to an entity on the map.
#[derive(Debug, Clone, Copy)]
pub struct SpatialEvent<E: Entity> {
    pub from: Point,
    /// Where the entity is afterwards; `None` when it disappears.
    pub to: Option<Point>,
    pub acting_entity: E,
    /// `false` for a notice that changes no position.
    pub is_a_move: bool,
}

/// Why a subscriber was not admitted.
#[derive(Debug, PartialEq, Eq, Structural, Clone, Copy)]
pub enum SubscribeError {
    /// The subscriber ended its subscription, or was gone, while it was told of
    /// the residents of its zone.
    CatchUpFailure,
}

/// The notice that tells a newcomer that `entity` stands at `position`.
pub open spec fn catch_up<E: Entity>(position: Point, entity: E) -> SpatialEvent<E> {
    SpatialEvent { from: position, to: Some(position), acting_entity: entity, is_a_move: false }
}

/// The notices for the residents named by `ids`, in that order.
pub open spec fn catch_up_batch<E: Entity>(residents: Map<u128, (Point, E)>, ids: Seq<u128>) -> Seq<
    SpatialEvent<E>,
> {
    Seq::new(ids.len(), |k: int| catch_up(residents[ids[k]].0, residents[ids[k]].1))
}

/// `ids` names every resident exactly once.
pub open spec fn lists_residents<E: Entity>(residents: Map<u128, (Point, E)>, ids: Seq<u128>) -> bool {
    &&& ids.no_duplicates()
    &&& ids.to_set() =~= residents.dom()
}

/// `after` is `before` once a notice for every resident has been handed to it,
/// each resident once, in some order.
pub open spec fn warned_of<S: Subscriber<SpatialEvent<E>>, E: Entity>(
    residents: Map<u128, (Point, E)>,
    before: Subscription<S, SpatialEvent<E>>,
    after: Subscription<S, SpatialEvent<E>>,
) -> bool {
    &&& after.handle() == before.handle()
    &&& after.id() == before.id()
    &&& exists|ids: Seq<u128>| #[trigger]
        lists_residents(residents, ids) && after.received() == before.received() + catch_up_batch(
            residents,
            ids,
        )
}

/// `after` is `before` with `subscriber` attached at its end, under its own
/// identity, having answered `Ok(true)` to all it was handed: nothing yet, or, where it was warned, a notice for every
/// resident, each resident once, in some order.
pub open spec fn joined<S: Subscriber<SpatialEvent<E>>, E: Entity>(
    before: Seq<Subscription<S, SpatialEvent<E>>>,
    after: Seq<Subscription<S, SpatialEvent<E>>>,
    subscriber: S,
    residents: Map<u128, (Point, E)>,
    warned: bool,
) -> bool {
    &&& after.len() == before.len() + 1
    &&& after.drop_last() == before
    &&& after.last().handle() == subscriber
    &&& after.last().id() == subscriber.spec_entity_id()
    &&& after.last().answers().len() == after.last().received().len()
    &&& forall|k: int| 0 <= k < after.last().answers().len() ==> after.last().answers()[k]
    &&& if warned {
        exists|ids: Seq<u128>| #[trigger]
            lists_residents(residents, ids) && after.last().received() == catch_up_batch(
                residents,
                ids,
            )
    } else {
        after.last().received() == Seq::<SpatialEvent<E>>::empty()
    }
}

/// What admitting `subscriber` does to the subscribers of a zone. `offered` is
/// the subscriber as a subscription, once it has been told of the residents
/// (of every one, each once, in some order) where it was to be warned, and of
/// nothing where it was not. It is attached at the end if it answered
/// `Ok(true)` to every notice; else it is refused and nothing changes.
pub open spec fn subscribe_outcome<S: Subscriber<SpatialEvent<E>>, E: Entity>(
    before: Seq<Subscription<S, SpatialEvent<E>>>,
    after: Seq<Subscription<S, SpatialEvent<E>>>,
    subscriber: S,
    residents: Map<u128, (Point, E)>,
    warned: bool,
    admitted: Result<(), SubscribeError>,
    offered: Subscription<S, SpatialEvent<E>>,
) -> bool {
    &&& offered.handle() == subscriber
    &&& offered.id() == subscriber.spec_entity_id()
    &&& offered.answers().len() == offered.received().len()
    &&& if warned {
        exists|ids: Seq<u128>| #[trigger]
            lists_residents(residents, ids) && offered.received() == catch_up_batch(residents, ids)
    } else {
        offered.received() == Seq::<SpatialEvent<E>>::empty()
    }
    &&& admitted is Ok <==> forall|k: int|
        0 <= k < offered.answers().len() ==> #[trigger] offered.answers()[k]
    &&& admitted is Ok ==> after == before.push(offered)
    &&& admitted is Err ==> admitted == Err::<(), SubscribeError>(SubscribeError::CatchUpFailure)
        && after == before
}

/// `after` has been handed `count` events more than `before`, and `all_kept`
/// tells whether it answered `Ok(true)` to every one of them.
pub open spec fn told<S: Subscriber<SpatialEvent<E>>, E: Entity>(
    before: Subscription<S, SpatialEvent<E>>,
    after: Subscription<S, SpatialEvent<E>>,
    count: nat,
    all_kept: bool,
) -> bool {
    &&& after.answers().len() == before.answers().len() + count
    &&& after.answers().take(before.answers().len() as int) == before.answers()
    &&& all_kept <==> forall|k: int|
        before.answers().len() <= k < after.answers().len() ==> #[trigger] after.answers()[k]
}

/// The publish moves the acting entity out of `area`.
pub open spec fn leaves_zone<E: Entity>(area: Zone, event: SpatialEvent<E>) -> bool {
    &&& event.is_a_move
    &&& area.contains(event.from)
    &&& !(event.to is Some && area.contains(event.to.unwrap()))
}

/// The residents of a zone once `event` has been published in it: a move that
/// ends in the zone records the entity at its new cell, a move that leaves the
/// zone forgets it, anything else changes nothing.
pub open spec fn residents_after<E: Entity>(
    residents: Map<u128, (Point, E)>,
    area: Zone,
    event: SpatialEvent<E>,
) -> Map<u128, (Point, E)> {
    if !event.is_a_move {
        residents
    } else if event.to is Some && area.contains(event.to.unwrap()) {
        residents.insert(event.acting_entity.spec_id(), (event.to.unwrap(), event.acting_entity))
    } else if area.contains(event.from) {
        residents.remove(event.acting_entity.spec_id())
    } else {
        residents
    }
}

/// Which subscribers stay after a publish: those that answered `Ok(true)` and
/// do not follow the acting entity out of the zone.
pub open spec fn stay_flags<S: Subscriber<SpatialEvent<E>>, E: Entity>(
    before: Seq<Subscription<S, SpatialEvent<E>>>,
    kept: Seq<bool>,
    leaving: bool,
    acting: u128,
) -> Seq<bool> {
    Seq::new(before.len(), |j: int| kept[j] && !(leaving && before[j].id() == acting))
}

/// Which subscribers follow the acting entity out of the zone: those that
/// answered `Ok(true)` and were issued for it.
pub open spec fn follow_flags<S: Subscriber<SpatialEvent<E>>, E: Entity>(
    before: Seq<Subscription<S, SpatialEvent<E>>>,
    kept: Seq<bool>,
    leaving: bool,
    acting: u128,
) -> Seq<bool> {
    Seq::new(before.len(), |j: int| kept[j] && leaving && before[j].id() == acting)
}

/// What a publish does to the subscribers of one zone, given for each of them
/// whether it answered `Ok(true)`: `event` reaches every one of them; those
/// that stay keep their order; the last one that follows the acting entity is
/// handed out, and nothing is handed out where none follows.
pub open spec fn zone_delivery<S: Subscriber<SpatialEvent<E>>, E: Entity>(
    before: Seq<Subscription<S, SpatialEvent<E>>>,
    kept: Seq<bool>,
    leaving: bool,
    event: SpatialEvent<E>,
    after: Seq<Subscription<S, SpatialEvent<E>>>,
    detached: Option<Subscription<S, SpatialEvent<E>>>,
) -> bool {
    let acting = event.acting_entity.spec_id();
    let follower = last_position_of(follow_flags(before, kept, leaving, acting));
    &&& kept.len() == before.len()
    &&& survivors(before, stay_flags(before, kept, leaving, acting), event, after)
    &&& follower < 0 ==> detached is None
    &&& follower >= 0 ==> detached is Some && delivered(
        before[follower],
        detached.unwrap(),
        event,
    )
}

/// The item at the last flagged position, if any position is flagged.
pub open spec fn handed_out<T>(items: Seq<T>, flags: Seq<bool>) -> Option<T> {
    if last_position_of(flags) >= 0 {
        Some(items[last_position_of(flags)])
    } else {
        None
    }
}

/// What a publish does to the subscribers of one zone. `sent` holds every old
/// subscription with `event` handed to it once. Of these, the ones that
/// answered `Ok(true)` and do not follow the acting entity out of the zone
/// stay, in their order; the last one that answered `Ok(true)` and follows the
/// entity is handed out; the others are dropped.
pub open spec fn zone_sorted<S: Subscriber<SpatialEvent<E>>, E: Entity>(
    before: Seq<Subscription<S, SpatialEvent<E>>>,
    sent: Seq<Subscription<S, SpatialEvent<E>>>,
    leaving: bool,
    event: SpatialEvent<E>,
    after: Seq<Subscription<S, SpatialEvent<E>>>,
    detached: Option<Subscription<S, SpatialEvent<E>>>,
) -> bool {
    let acting = event.acting_entity.spec_id();
    &&& accounted(before, sent, event)
    &&& after == picked(sent, stay_flags(sent, answers_of(sent), leaving, acting))
    &&& detached == handed_out(sent, follow_flags(sent, answers_of(sent), leaving, acting))
}

/// Subscribers sorted after a delivery are delivered to as `zone_delivery`
/// says, under the answers they gave.
pub proof fn lemma_sorted_delivery<S: Subscriber<SpatialEvent<E>>, E: Entity>(
    before: Seq<Subscription<S, SpatialEvent<E>>>,
    sent: Seq<Subscription<S, SpatialEvent<E>>>,
    leaving: bool,
    event: SpatialEvent<E>,
    after: Seq<Subscription<S, SpatialEvent<E>>>,
    detached: Option<Subscription<S, SpatialEvent<E>>>,
)
    requires
        zone_sorted(before, sent, leaving, event, after, detached),
    ensures
        zone_delivery(before, answers_of(sent), leaving, event, after, detached),
{
    let acting = event.acting_entity.spec_id();
    let answers = answers_of(sent);
    assert(stay_flags(before, answers, leaving, acting) =~= stay_flags(
        sent,
        answers,
        leaving,
        acting,
    ));
    assert(follow_flags(before, answers, leaving, acting) =~= follow_flags(
        sent,
        answers,
        leaving,
        acting,
    ));
    lemma_picked_survive(before, sent, stay_flags(before, answers, leaving, acting), event);
    lemma_last_position(follow_flags(before, answers, leaving, acting));
}

/// Sorts the subscriptions of a zone once an event has been handed to them,
/// given the answer of each: those that stay, in their order, and the one
/// that is handed out to follow the acting entity, if there is one.
pub fn sort_subscribers<S: Subscriber<SpatialEvent<E>>, E: Entity>(
    sent: Vec<Subscription<S, SpatialEvent<E>>>,
    answers: &Vec<bool>,
    leaving: bool,
    acting: u128,
) -> (sorted: (Vec<Subscription<S, SpatialEvent<E>>>, Option<Subscription<S, SpatialEvent<E>>>))
    requires
        answers@.len() == sent@.len(),
    ensures
        sorted.0@ == picked(sent@, stay_flags(sent@, answers@, leaving, acting)),
        sorted.1 == handed_out(sent@, follow_flags(sent@, answers@, leaving, acting)),
{
    let mut staying: Vec<Subscription<S, SpatialEvent<E>>> = Vec::new();
    let mut detached: Option<Subscription<S, SpatialEvent<E>>> = None;
    let ghost all = sent@;
    let mut i: usize = 0;
    for subscription in it: sent
        invariant
            it.seq() == all,
            i == it.index(),
            0 <= i <= all.len(),
            answers.len() == all.len(),
            staying@ == picked(
                all.take(i as int),
                stay_flags(all.take(i as int), answers@.take(i as int), leaving, acting),
            ),
            detached == handed_out(
                all.take(i as int),
                follow_flags(all.take(i as int), answers@.take(i as int), leaving, acting),
            ),
    {
        let ghost earlier = staying@;
        let ghost stayed = stay_flags(all.take(i as int), answers@.take(i as int), leaving, acting);
        let ghost followed = follow_flags(
            all.take(i as int),
            answers@.take(i as int),
            leaving,
            acting,
        );
        let ghost stay = stay_flags(all.take(i + 1), answers@.take(i + 1), leaving, acting);
        let ghost follow = follow_flags(all.take(i + 1), answers@.take(i + 1), leaving, acting);
        if answers[i] {
            if leaving && subscription.entity_id() == acting {
                detached = Some(subscription);
            } else {
                staying.push(subscription);
            }
        }
        proof {
            assert(stay.drop_last() =~= stayed);
            assert(follow.drop_last() =~= followed);
            lemma_last_position(followed);
            assert forall|k: int| 0 <= k < earlier.len() implies all.take(i + 1)[positions_of(
                stayed,
            )[k]] == earlier[k] by {
                lemma_positions_in_range(stayed, k);
            }
            assert(staying@ =~= picked(all.take(i + 1), stay));
        }
        i += 1;
    }
    proof {
        assert(all.take(all.len() as int) =~= all);
        assert(answers@.take(all.len() as int) =~= answers@);
    }
    (staying, detached)
}

/// The state of one zone: who listens there and who stands there.
pub struct ZoneChannel<S, E> where S: Subscriber<SpatialEvent<E>>, E: Entity + Clone {
    area: Zone,
    subscribers: Vec<Subscription<S, SpatialEvent<E>>>,
    entities_in_zone: HashMap<u128, (Point, E)>,
}

impl<S, E> ZoneChannel<S, E> where S: Subscriber<SpatialEvent<E>>, E: Entity + Clone {
    /// The cells of the zone.
    pub closed spec fn area(&self) -> Zone {
        self.area
    }

    /// The attached subscribers, in the order in which they were admitted.
    pub closed spec fn subscribers(&self) -> Seq<Subscription<S, SpatialEvent<E>>> {
        self.subscribers@
    }

    /// The entities standing in the zone, by identity, each with its cell.
    pub closed spec fn residents(&self) -> Map<u128, (Point, E)> {
        self.entities_in_zone@
    }

    /// Every resident stands on a cell of the zone and is filed under its own identity.
    pub open spec fn wf(&self) -> bool {
        forall|id: u128| #[trigger]
            self.residents().contains_key(id) ==> self.area().contains(self.residents()[id].0)
                && self.residents()[id].1.spec_id() == id
    }

    pub fn new(area: Zone) -> (channel: ZoneChannel<S, E>)
        ensures
            channel.wf(),
            channel.area() == area,
            channel.subscribers() == Seq::<Subscription<S, SpatialEvent<E>>>::empty(),
            channel.residents() == Map::<u128, (Point, E)>::empty(),
    {
        ZoneChannel { area, subscribers: Vec::new(), entities_in_zone: HashMap::new() }
    }

    /// Tells `subscriber` of every resident of the zone, each once, whatever it
    /// answers. Returns whether every answer was `Ok(true)`.
    pub fn send_residents_to(&self, subscriber: &mut Subscription<S, SpatialEvent<E>>) -> (all_kept:
        bool)
        ensures
            warned_of(self.residents(), *old(subscriber), *final(subscriber)),
            told(*old(subscriber), *final(subscriber), self.residents().dom().len(), all_kept),
    {
        let mut all_kept: bool = true;
        let ghost start = *subscriber;
        let ghost mut ids: Seq<u128> = Seq::empty();
        assert(start.answers().take(start.answers().len() as int) =~= start.answers());
        for id in it: self.entities_in_zone.keys()
            invariant
                it.seq().unref().to_set() == self.entities_in_zone@.dom(),
                it.seq().no_duplicates(),
                it.seq().len() == self.entities_in_zone@.dom().len(),
                0 <= it.index() <= it.seq().len(),
                ids.len() == it.index(),
                forall|k: int| 0 <= k < ids.len() ==> ids[k] == *it.seq()[k],
                it.index() == it.seq().len() ==> lists_residents(self.entities_in_zone@, ids),
                told(start, *subscriber, it.index() as nat, all_kept),
                subscriber.handle() == start.handle(),
                subscriber.id() == start.id(),
                subscriber.received() == start.received() + catch_up_batch(
                    self.entities_in_zone@,
                    ids,
                ),
        {
            assert(it.seq().unref().contains(*id)) by {
                assert(it.seq().unref()[it.index()] == *id);
            }
            match self.entities_in_zone.get(id) {
                Some(resident) => {
                    let notice: SpatialEvent<E> = SpatialEvent {
                        from: resident.0,
                        to: Some(resident.0),
                        acting_entity: resident.1.duplicate(),
                        is_a_move: false,
                    };
                    let ghost prior = *subscriber;
                    let ghost so_far = all_kept;
                    let keep: bool = subscriber.send(&notice);
                    if !keep {
                        all_kept = false;
                    }
                    assert(told(start, *subscriber, (it.index() + 1) as nat, all_kept)) by {
                        let known = start.answers().len() as int;
                        assert(subscriber.answers().take(known) =~= prior.answers().take(known));
                        assert(subscriber.answers()[prior.answers().len() as int] == keep);
                        if so_far && keep {
                            assert forall|k: int|
                                known <= k < subscriber.answers().len() implies #[trigger] subscriber.answers()[k] by {
                                if k < prior.answers().len() {
                                    assert(subscriber.answers()[k] == prior.answers()[k]);
                                }
                            }
                        } else if !so_far {
                            let bad = choose|k: int|
                                known <= k < prior.answers().len() && !#[trigger] prior.answers()[k];
                            assert(!subscriber.answers()[bad]);
                        }
                    }
                    proof {
                        let ghost longer = ids.push(*id);
                        assert(catch_up_batch(self.entities_in_zone@, longer) =~= catch_up_batch(
                            self.entities_in_zone@,
                            ids,
                        ).push(notice));
                        assert(start.received() + catch_up_batch(self.entities_in_zone@, ids).push(
                            notice,
                        ) =~= (start.received() + catch_up_batch(
                            self.entities_in_zone@,
                            ids,
                        )).push(notice));
                        ids = longer;
                    }
                    assert(it.index() + 1 == it.seq().len() ==> ids =~= it.seq().unref());
                },
                None => {
                    assert(false);
                },
            }
        }
        all_kept
    }

    /// Admits `subscriber` to the zone. With `warn_of_entities_in_zone` it is first
    /// told of every resident; a subscriber that ends its subscription or is gone
    /// while being told is refused and dropped.
    pub fn subscribe(&mut self, subscriber: S, warn_of_entities_in_zone: bool) -> (admitted: Result<
        (),
        SubscribeError,
    >)
        ensures
            final(self).area() == old(self).area(),
            final(self).residents() == old(self).residents(),
            old(self).wf() ==> final(self).wf(),
            !warn_of_entities_in_zone || old(self).residents().dom().len() == 0 ==> admitted is Ok,
            admitted is Ok ==> joined(
                old(self).subscribers(),
                final(self).subscribers(),
                subscriber,
                old(self).residents(),
                warn_of_entities_in_zone,
            ),
            admitted is Err ==> admitted == Err::<(), SubscribeError>(
                SubscribeError::CatchUpFailure,
            ) && final(self).subscribers() == old(self).subscribers(),
            exists|offered: Subscription<S, SpatialEvent<E>>|
                subscribe_outcome(
                    old(self).subscribers(),
                    final(self).subscribers(),
                    subscriber,
                    old(self).residents(),
                    warn_of_entities_in_zone,
                    admitted,
                    offered,
                ),
    {
        let mut subscription: Subscription<S, SpatialEvent<E>> = Subscription::new(subscriber);
        let ghost fresh = subscription;
        let all_kept: bool = if warn_of_entities_in_zone {
            self.send_residents_to(&mut subscription)
        } else {
            true
        };
        proof {
            if warn_of_entities_in_zone {
                let ids = choose|ids: Seq<u128>| #[trigger]
                    lists_residents(self.residents(), ids) && subscription.received()
                        == fresh.received() + catch_up_batch(self.residents(), ids);
                assert(subscription.received() =~= catch_up_batch(self.residents(), ids));
                ids.unique_seq_to_set();
            }
        }
        let admitted = self.attach_if_kept(subscription, all_kept);
        assert(admitted is Ok ==> self.subscribers@.drop_last() =~= old(self).subscribers@);
        assert(subscribe_outcome(
            old(self).subscribers(),
            self.subscribers(),
            subscriber,
            old(self).residents(),
            warn_of_entities_in_zone,
            admitted,
            subscription,
        ));
        admitted
    }

    /// Attaches a subscription that has been told of the residents, if it
    /// answered `Ok(true)` to all it was told (`all_kept`); refuses and drops
    /// it otherwise.
    pub fn attach_if_kept(&mut self, subscription: Subscription<S, SpatialEvent<E>>, all_kept: bool) -> (admitted:
        Result<(), SubscribeError>)
        ensures
            final(self).area() == old(self).area(),
            final(self).residents() == old(self).residents(),
            old(self).wf() ==> final(self).wf(),
            all_kept ==> admitted is Ok && final(self).subscribers() == old(
                self,
            ).subscribers().push(subscription),
            !all_kept ==> admitted == Err::<(), SubscribeError>(SubscribeError::CatchUpFailure)
                && final(self).subscribers() == old(self).subscribers(),
    {
        if all_kept {
            self.subscribers.push(subscription);
            Ok(())
        } else {
            Err(SubscribeError::CatchUpFailure)
        }
    }

    /// Attaches a subscription that another zone has handed out, as it is.
    pub fn rehome(&mut self, subscription: Subscription<S, SpatialEvent<E>>)
        ensures
            final(self).area() == old(self).area(),
            final(self).residents() == old(self).residents(),
            old(self).wf() ==> final(self).wf(),
            final(self).subscribers() == old(self).subscribers().push(subscription),
    {
        self.subscribers.push(subscription);
        assert(self.residents() == old(self).residents());
        assert(self.area() == old(self).area());
    }

    /// Publishes `event` in the zone: brings the residents up to date, hands the
    /// event to every subscriber in order of admission, drops those that do not
    /// answer `Ok(true)`, and hands out the subscriber of the acting entity when
    /// the entity leaves the zone.
    pub fn publish(&mut self, event: &SpatialEvent<E>) -> (detached: Option<
        Subscription<S, SpatialEvent<E>>,
    >)
        ensures
            final(self).area() == old(self).area(),
            final(self).residents() == residents_after(
                old(self).residents(),
                old(self).area(),
                *event,
            ),
            old(self).wf() ==> final(self).wf(),
            exists|sent: Seq<Subscription<S, SpatialEvent<E>>>|
                zone_sorted(
                    old(self).subscribers(),
                    sent,
                    leaves_zone(old(self).area(), *event),
                    *event,
                    final(self).subscribers(),
                    detached,
                ),
    {
        let acting: u128 = event.acting_entity.id();
        let leaves_the_zone: bool = if event.is_a_move {
            if self.area.point_is_in(&event.from) {
                match event.to {
                    Some(destination) => {
                        if self.area.point_is_not_in(&destination) {
                            self.entities_in_zone.remove(&acting);
                            true
                        } else {
                            self.insert_entity(event.acting_entity.duplicate(), destination);
                            false
                        }
                    },
                    None => {
                        self.entities_in_zone.remove(&acting);
                        true
                    },
                }
            } else {
                match event.to {
                    Some(destination) => {
                        if self.area.point_is_in(&destination) {
                            self.insert_entity(event.acting_entity.duplicate(), destination);
                        }
                        false
                    },
                    None => false,
                }
            }
        } else {
            false
        };
        assert(self.entities_in_zone@ =~= residents_after(
            old(self).residents(),
            old(self).area(),
            *event,
        ));
        let answers: Vec<bool> = deliver_to_all(&mut self.subscribers, event);
        let ghost sent = self.subscribers@;
        let mut pending: Vec<Subscription<S, SpatialEvent<E>>> = Vec::new();
        core::mem::swap(&mut self.subscribers, &mut pending);
        let (staying, detached) = sort_subscribers(pending, &answers, leaves_the_zone, acting);
        self.subscribers = staying;
        assert(zone_sorted(
            old(self).subscribers(),
            sent,
            leaves_zone(old(self).area(), *event),
            *event,
            self.subscribers(),
            detached,
        ));
        detached
    }

    fn insert_entity(&mut self, entity: E, position: Point)
        ensures
            final(self).area == old(self).area,
            final(self).subscribers == old(self).subscribers,
            final(self).entities_in_zone@ == old(self).entities_in_zone@.insert(
                entity.spec_id(),
                (position, entity),
            ),
    {
        let entity_id: u128 = entity.id();
        self.entities_in_zone.insert(entity_id, (position, entity));
    }
}

} // verus!
