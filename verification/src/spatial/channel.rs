use crate::pub_sub::lemma_last_position;
use crate::pub_sub::Subscriber;
use crate::pub_sub::Subscription;
use crate::spatial::geometry::compute_indexes_for_zones_in_range;
use crate::spatial::geometry::in_window;
use crate::spatial::geometry::lemma_window_contains_own_zone;
use crate::spatial::geometry::lemma_window_fits_on_map;
use crate::spatial::geometry::lemma_window_position;
use crate::spatial::geometry::lemma_zone_index_in_range;
use crate::spatial::geometry::lemma_zones_tile_the_map;
use crate::spatial::geometry::zone_index_for_point;
use crate::spatial::geometry::MapDefinition;
use crate::spatial::geometry::Point;
use crate::spatial::geometry::Zone;
use crate::spatial::laws::lemma_publish_keeps_residency_unique;
use crate::spatial::laws::lemma_publish_keeps_subscriptions_unique;
use crate::spatial::laws::residency_unique;
use crate::spatial::laws::subscriptions_unique;
use crate::spatial::laws::starts_where_recorded;
use crate::pub_sub::accounted;
use crate::pub_sub::answers_of;
use crate::spatial::zone::follow_flags;
use crate::spatial::zone::lemma_sorted_delivery;
use crate::spatial::zone::zone_sorted;
use crate::spatial::zone::leaves_zone;
use crate::spatial::zone::residents_after;
use crate::spatial::zone::warned_of;
use crate::spatial::zone::zone_delivery;
use crate::spatial::zone::Entity;
use crate::spatial::zone::SpatialEvent;
use crate::spatial::zone::SubscribeError;
use crate::spatial::zone::ZoneChannel;
use std::collections::HashSet;
use vstd::arithmetic::div_mod::lemma_fundamental_div_mod_converse;
use vstd::prelude::*;

verus! {

broadcast use vstd::std_specs::hash::group_hash_axioms;

/// The zone at `index` is in visible range of `point`.
pub open spec fn in_range_of(map: MapDefinition, point: Point, index: int) -> bool {
    in_window(point, map.spec_zone_width(), map.spec_map_width_in_zones(), index)
}

/// The zone at `index` is in visible range of where `event` starts or ends.
pub open spec fn touched<E: Entity>(map: MapDefinition, event: SpatialEvent<E>, index: int) -> bool {
    in_range_of(map, event.from, index) || (event.to is Some && in_range_of(
        map,
        event.to.unwrap(),
        index,
    ))
}

/// The zone at `index` is in visible range of where `event` ends, and was not
/// in range of where it starts.
pub open spec fn newly_visible<E: Entity>(map: MapDefinition, event: SpatialEvent<E>, index: int) -> bool {
    &&& event.to is Some
    &&& in_range_of(map, event.to.unwrap(), index)
    &&& !in_range_of(map, event.from, index)
}

/// `after` is the zone `before` once `event` has been published in it, given
/// for each of its subscribers whether it answered `Ok(true)`.
pub open spec fn settled<S: Subscriber<SpatialEvent<E>>, E: Entity + Clone>(
    before: ZoneChannel<S, E>,
    after: ZoneChannel<S, E>,
    event: SpatialEvent<E>,
    kept: Seq<bool>,
    detached: Option<Subscription<S, SpatialEvent<E>>>,
) -> bool {
    &&& after.area() == before.area()
    &&& after.residents() == residents_after(before.residents(), before.area(), event)
    &&& zone_delivery(
        before.subscribers(),
        kept,
        leaves_zone(before.area(), event),
        event,
        after.subscribers(),
        detached,
    )
}

/// Nothing has happened to the zone.
pub open spec fn untouched<S: Subscriber<SpatialEvent<E>>, E: Entity + Clone>(
    before: ZoneChannel<S, E>,
    after: ZoneChannel<S, E>,
) -> bool {
    &&& after.area() == before.area()
    &&& after.residents() == before.residents()
    &&& after.subscribers() == before.subscribers()
}

/// How far one publish has come in the zone at `index`: the zone keeps its area
/// and its residents stay inside it; a zone that the publish has reached is
/// settled, any other is as it was.
pub open spec fn zone_state<S: Subscriber<SpatialEvent<E>>, E: Entity + Clone>(
    before: ZoneChannel<S, E>,
    now: ZoneChannel<S, E>,
    area: Zone,
    reached: bool,
    event: SpatialEvent<E>,
    kept: Seq<bool>,
    detached: Option<Subscription<S, SpatialEvent<E>>>,
) -> bool {
    &&& now.wf()
    &&& before.area() == area
    &&& if reached {
        settled(before, now, event, kept, detached)
    } else {
        untouched(before, now)
    }
}

/// Where the acting entity does not leave a zone, the zone hands out no subscriber.
pub proof fn lemma_nobody_follows<S: Subscriber<SpatialEvent<E>>, E: Entity>(
    before: Seq<Subscription<S, SpatialEvent<E>>>,
    kept: Seq<bool>,
    event: SpatialEvent<E>,
    after: Seq<Subscription<S, SpatialEvent<E>>>,
    detached: Option<Subscription<S, SpatialEvent<E>>>,
)
    requires
        zone_delivery(before, kept, false, event, after, detached),
    ensures
        detached is None,
{
    lemma_last_position(follow_flags(before, kept, false, event.acting_entity.spec_id()));
}

/// The map-wide router: one zone channel per zone of the map.
pub struct SpatialChannel<S, E> where S: Subscriber<SpatialEvent<E>>, E: Entity + Clone {
    map_definition: MapDefinition,
    channels: Vec<ZoneChannel<S, E>>,
}

/// What one publish does to the whole channel. `kept` says for each zone which
/// of its subscribers answered `Ok(true)`. `chain` is empty unless the zone that
/// the acting entity leaves hands out the entity's subscriber; then it starts
/// with that subscriber and follows it through the zones of `order`, the newly
/// visible zones, in each of which it is told of the residents.
pub open spec fn published<S: Subscriber<SpatialEvent<E>>, E: Entity + Clone>(
    before: SpatialChannel<S, E>,
    after: SpatialChannel<S, E>,
    event: SpatialEvent<E>,
    kept: Seq<Seq<bool>>,
    order: Seq<int>,
    chain: Seq<Subscription<S, SpatialEvent<E>>>,
) -> bool {
    let map = before.map();
    let count = map.zone_count();
    let home = map.zone_index(event.from);
    let rehomed = chain.len() > 0 && event.to is Some;
    let destination = if event.to is Some {
        map.zone_index(event.to.unwrap())
    } else {
        -1
    };
    &&& kept.len() == count
    &&& forall|i: int|
        0 <= i < count && #[trigger] touched(map, event, i) ==> zone_delivery(
            before.zones()[i].subscribers(),
            kept[i],
            leaves_zone(map.zone_area(i), event),
            event,
            if rehomed && i == destination {
                after.zones()[i].subscribers().drop_last()
            } else {
                after.zones()[i].subscribers()
            },
            if chain.len() > 0 && i == home {
                Some(chain[0])
            } else {
                None
            },
        )
    &&& rehomed ==> after.zones()[destination].subscribers().len() > 0 && after.zones()[destination].subscribers().last()
        == chain.last()
    &&& chain.len() > 0 ==> {
        &&& chain.len() == order.len() + 1
        &&& order.no_duplicates()
        &&& forall|i: int| #[trigger] order.contains(i) ==> 0 <= i < count && newly_visible(map, event, i)
        &&& forall|i: int| 0 <= i < count && #[trigger] newly_visible(map, event, i) ==> order.contains(i)
        &&& forall|j: int|
            0 <= j < order.len() ==> warned_of(
                residents_after(
                    before.zones()[order[j]].residents(),
                    map.zone_area(order[j]),
                    event,
                ),
                chain[j],
                #[trigger] chain[j + 1],
            )
    }
}

/// Every subscription attached to a zone in visible range of `event` has been
/// handed the event exactly once, whatever became of it afterwards: `sent`
/// holds, zone by zone, each of them as it was right after, and `kept` the
/// answer that each of them gave.
pub open spec fn delivered_everywhere<S: Subscriber<SpatialEvent<E>>, E: Entity + Clone>(
    before: SpatialChannel<S, E>,
    sent: Seq<Seq<Subscription<S, SpatialEvent<E>>>>,
    kept: Seq<Seq<bool>>,
    event: SpatialEvent<E>,
) -> bool {
    &&& sent.len() == before.zones().len()
    &&& kept.len() == before.zones().len()
    &&& forall|i: int|
        0 <= i < before.zones().len() && #[trigger] touched(before.map(), event, i) ==> accounted(
            before.zones()[i].subscribers(),
            sent[i],
            event,
        ) && kept[i] == answers_of(sent[i])
}

/// `after` is the channel `before` once `event` has been published on it:
/// every zone has brought its residents up to date, the zones out of range
/// keep their subscribers, and those in range have delivered the event.
pub open spec fn publish_outcome<S: Subscriber<SpatialEvent<E>>, E: Entity + Clone>(
    before: SpatialChannel<S, E>,
    after: SpatialChannel<S, E>,
    event: SpatialEvent<E>,
) -> bool {
    &&& after.wf()
    &&& after.map() == before.map()
    &&& forall|i: int|
        0 <= i < before.zones().len() ==> (#[trigger] after.zones()[i]).residents()
            == residents_after(before.zones()[i].residents(), before.map().zone_area(i), event)
    &&& forall|i: int|
        0 <= i < before.zones().len() && !touched(before.map(), event, i) ==> (
        #[trigger] after.zones()[i]).subscribers() == before.zones()[i].subscribers()
    &&& exists|
        kept: Seq<Seq<bool>>,
        order: Seq<int>,
        chain: Seq<Subscription<S, SpatialEvent<E>>>,
        sent: Seq<Seq<Subscription<S, SpatialEvent<E>>>>,
    |
        published(before, after, event, kept, order, chain) && delivered_everywhere(
            before,
            sent,
            kept,
            event,
        )
    &&& residency_unique(before) && starts_where_recorded(before, event) ==> residency_unique(
        after,
    )
    &&& subscriptions_unique(before) ==> subscriptions_unique(after)
}

impl<S, E> SpatialChannel<S, E> where S: Subscriber<SpatialEvent<E>>, E: Entity + Clone {
    /// The geometry of the map.
    pub closed spec fn map(&self) -> MapDefinition {
        self.map_definition
    }

    /// The zone channels, the one of zone `(zx, zy)` at `zx * N + zy`.
    pub closed spec fn zones(&self) -> Seq<ZoneChannel<S, E>> {
        self.channels@
    }

    /// There is one zone channel per zone of the map, each over the area of
    /// its zone and each with its residents inside that area.
    pub open spec fn wf(&self) -> bool {
        &&& self.map().wf()
        &&& self.zones().len() == self.map().zone_count()
        &&& forall|i: int|
            0 <= i < self.zones().len() ==> (#[trigger] self.zones()[i]).wf() && self.zones()[i].area()
                == self.map().zone_area(i)
    }

    /// The geometry of the map that the channel covers.
    pub fn map_definition(&self) -> (map: MapDefinition)
        ensures
            map == self.map(),
    {
        self.map_definition
    }

    /// A channel over the whole map, with nobody listening and nobody standing
    /// anywhere yet.
    pub fn new(map_definition: MapDefinition) -> (channel: SpatialChannel<S, E>)
        requires
            map_definition.wf(),
        ensures
            channel.wf(),
            channel.map() == map_definition,
            residency_unique(channel),
            subscriptions_unique(channel),
            forall|i: int|
                0 <= i < channel.zones().len() ==> (#[trigger] channel.zones()[i]).subscribers()
                    == Seq::<Subscription<S, SpatialEvent<E>>>::empty() && channel.zones()[i].residents() == Map::<
                    u128,
                    (Point, E),
                >::empty(),
    {
        let mut channels: Vec<ZoneChannel<S, E>> = Vec::new();
        let zone_width: usize = map_definition.zone_width();
        let map_width_in_zones: usize = map_definition.map_width_in_zones();
        let mut x: usize = 0;
        while x < map_width_in_zones
            invariant
                map_definition.wf(),
                zone_width == map_definition.spec_zone_width(),
                map_width_in_zones == map_definition.spec_map_width_in_zones(),
                x <= map_width_in_zones,
                channels@.len() == x * map_width_in_zones,
                forall|i: int|
                    0 <= i < channels@.len() ==> (#[trigger] channels@[i]).wf() && channels@[i].area()
                        == map_definition.zone_area(i) && channels@[i].subscribers() == Seq::<
                        Subscription<S, SpatialEvent<E>>,
                    >::empty() && channels@[i].residents() == Map::<u128, (Point, E)>::empty(),
            decreases map_width_in_zones - x,
        {
            let mut y: usize = 0;
            while y < map_width_in_zones
                invariant
                    map_definition.wf(),
                    zone_width == map_definition.spec_zone_width(),
                    map_width_in_zones == map_definition.spec_map_width_in_zones(),
                    x < map_width_in_zones,
                    y <= map_width_in_zones,
                    channels@.len() == x * map_width_in_zones + y,
                    forall|i: int|
                        0 <= i < channels@.len() ==> (#[trigger] channels@[i]).wf()
                            && channels@[i].area() == map_definition.zone_area(i)
                            && channels@[i].subscribers() == Seq::<
                            Subscription<S, SpatialEvent<E>>,
                        >::empty()
                            && channels@[i].residents() == Map::<u128, (Point, E)>::empty(),
                decreases map_width_in_zones - y,
            {
                proof {
                    assert(x * zone_width + zone_width <= zone_width * map_width_in_zones
                        && y * zone_width + zone_width <= zone_width * map_width_in_zones)
                        by (nonlinear_arith)
                        requires
                            x < map_width_in_zones,
                            y < map_width_in_zones,
                            zone_width >= 1,
                    ;
                    lemma_fundamental_div_mod_converse(
                        x * map_width_in_zones + y,
                        map_width_in_zones as int,
                        x as int,
                        y as int,
                    );
                }
                let area_start: Point = Point(x * zone_width, y * zone_width);
                let area_end: Point = Point(area_start.0 + zone_width, area_start.1 + zone_width);
                let area: Zone = Zone(area_start, area_end);
                channels.push(ZoneChannel::new(area));
                y += 1;
            }
            proof {
                assert((x + 1) * map_width_in_zones == x * map_width_in_zones + map_width_in_zones)
                    by (nonlinear_arith);
            }
            x += 1;
        }
        SpatialChannel { channels, map_definition }
    }

    /// Publishes `event` on the map. Every zone in visible range of where the
    /// event starts, and then every zone that comes into range where it ends,
    /// publishes it once. When the acting entity leaves its zone, its own
    /// subscription is handed out by that zone, told of the residents of each
    /// zone that has come into range, and attached to the zone where the event
    /// ends; it is dropped when the entity disappears.
    #[verifier::loop_isolation(false)]
    #[verifier::rlimit(100)]
    pub fn publish(&mut self, event: SpatialEvent<E>)
        requires
            old(self).wf(),
            old(self).map().contains(event.from),
            event.to matches Some(to) ==> old(self).map().contains(to),
        ensures
            publish_outcome(*old(self), *final(self), event),
    {
        let zone_width: usize = self.map_definition.zone_width();
        let map_width_in_zones: usize = self.map_definition.map_width_in_zones();
        let zone_count: usize = self.channels.len();
        let ghost map = self.map_definition;
        let ghost count = map.zone_count();
        let ghost home = map.zone_index(event.from);
        let ghost before = self.channels@;
        proof {
            lemma_window_fits_on_map(map, event.from);
            lemma_zone_index_in_range(map, event.from);
        }
        let from_indexes: Vec<usize> = compute_indexes_for_zones_in_range(
            &event.from,
            zone_width,
            map_width_in_zones,
        );
        let mut visited: HashSet<usize> = HashSet::new();
        let mut entity_subscription: Option<Subscription<S, SpatialEvent<E>>> = None;
        let ghost mut kept: Seq<Seq<bool>> = Seq::new(count as nat, |i: int| Seq::<bool>::empty());
        let ghost mut sents: Seq<Seq<Subscription<S, SpatialEvent<E>>>> = Seq::new(
            count as nat,
            |i: int| Seq::<Subscription<S, SpatialEvent<E>>>::empty(),
        );
        let mut k: usize = 0;
        while k < from_indexes.len()
            invariant
                k <= from_indexes.len(),
                self.map_definition == map,
                self.channels@.len() == count,
                kept.len() == count,
                sents.len() == count,
                forall|i: int|
                    0 <= i < count && visited@.contains(i as usize) ==> accounted(
                        before[i].subscribers(),
                        #[trigger] sents[i],
                        event,
                    ) && kept[i] == answers_of(sents[i]),
                forall|j: int|
                    0 <= j < k && from_indexes@[j] < count ==> visited@.contains(
                        #[trigger] from_indexes@[j],
                    ),
                forall|i: usize| #[trigger]
                    visited@.contains(i) ==> i < count && in_range_of(map, event.from, i as int),
                entity_subscription is Some ==> visited@.contains(home as usize),
                forall|i: int|
                    0 <= i < count ==> zone_state(
                        before[i],
                        #[trigger] self.channels@[i],
                        map.zone_area(i),
                        visited@.contains(i as usize),
                        event,
                        kept[i],
                        if i == home {
                            entity_subscription
                        } else {
                            None
                        },
                    ),
            decreases from_indexes.len() - k,
        {
            let index: usize = from_indexes[k];
            if index < zone_count && !visited.contains(&index) {
                visited.insert(index);
                let ghost prev = self.channels@;
                let detached = self.channels[index].publish(&event);
                proof {
                    let ghost sent = choose|sent: Seq<Subscription<S, SpatialEvent<E>>>|
                        zone_sorted(
                            prev[index as int].subscribers(),
                            sent,
                            leaves_zone(prev[index as int].area(), event),
                            event,
                            self.channels@[index as int].subscribers(),
                            detached,
                        );
                    lemma_sorted_delivery(
                        prev[index as int].subscribers(),
                        sent,
                        leaves_zone(prev[index as int].area(), event),
                        event,
                        self.channels@[index as int].subscribers(),
                        detached,
                    );
                    let ghost answers = answers_of(sent);
                    kept = kept.update(index as int, answers);
                    sents = sents.update(index as int, sent);
                    if index != home {
                        lemma_zones_tile_the_map(map, event.from, index as int);
                        lemma_nobody_follows(
                            prev[index as int].subscribers(),
                            answers,
                            event,
                            self.channels@[index as int].subscribers(),
                            detached,
                        );
                    }
                }
                match detached {
                    Some(subscription) => {
                        entity_subscription = Some(subscription);
                    },
                    None => {},
                }
            }
            k += 1;
        }
        let ghost from_set = visited@;
        let ghost first = entity_subscription;
        let ghost mut reached = self.channels@;
        let ghost mut order: Seq<int> = Seq::empty();
        let ghost mut chain: Seq<Subscription<S, SpatialEvent<E>>> = if first is Some {
            seq![first.unwrap()]
        } else {
            Seq::empty()
        };
        proof {
            assert forall|i: int| 0 <= i < count && in_range_of(map, event.from, i) implies from_set.contains(
                i as usize,
            ) by {
                lemma_window_position(event.from, zone_width, map_width_in_zones, from_indexes@, i);
            }
            lemma_window_contains_own_zone(map, event.from);
            assert(in_range_of(map, event.from, home));
            assert(from_set.contains(home as usize));
        }
        match event.to {
            Some(destination) => {
                proof {
                    lemma_window_fits_on_map(map, destination);
                    lemma_zone_index_in_range(map, destination);
                    lemma_window_contains_own_zone(map, destination);
                }
                let ghost landing = map.zone_index(destination);
                let to_indexes: Vec<usize> = compute_indexes_for_zones_in_range(
                    &destination,
                    zone_width,
                    map_width_in_zones,
                );
                let mut k: usize = 0;
                while k < to_indexes.len()
                    invariant
                        k <= to_indexes.len(),
                        self.map_definition == map,
                        self.channels@.len() == count,
                        kept.len() == count,
                        sents.len() == count,
                        forall|i: int|
                            0 <= i < count && visited@.contains(i as usize) ==> accounted(
                                before[i].subscribers(),
                                #[trigger] sents[i],
                                event,
                            ) && kept[i] == answers_of(sents[i]),
                        forall|j: int|
                            0 <= j < k && to_indexes@[j] < count ==> visited@.contains(
                                #[trigger] to_indexes@[j],
                            ),
                        forall|i: usize| #[trigger]
                            visited@.contains(i) ==> i < count && (from_set.contains(i)
                                || in_range_of(map, destination, i as int)),
                        forall|i: usize| #[trigger] from_set.contains(i) ==> visited@.contains(i),
                        entity_subscription is Some <==> first is Some,
                        first is None ==> chain.len() == 0,
                        first is Some ==> {
                            &&& chain.len() == order.len() + 1
                            &&& chain[0] == first.unwrap()
                            &&& chain.last() == entity_subscription.unwrap()
                            &&& forall|j: int|
                                0 <= j < order.len() ==> warned_of(
                                    residents_after(
                                        before[order[j]].residents(),
                                        map.zone_area(order[j]),
                                        event,
                                    ),
                                    chain[j],
                                    #[trigger] chain[j + 1],
                                )
                        },
                        order.no_duplicates(),
                        forall|i: int| #[trigger]
                            order.contains(i) ==> 0 <= i < count && visited@.contains(i as usize)
                                && !from_set.contains(i as usize),
                        forall|i: usize|
                            visited@.contains(i) && !from_set.contains(i) ==> #[trigger] order.contains(
                                i as int,
                            ),
                        forall|i: int|
                            0 <= i < count ==> zone_state(
                                before[i],
                                #[trigger] self.channels@[i],
                                map.zone_area(i),
                                visited@.contains(i as usize),
                                event,
                                kept[i],
                                if i == home {
                                    first
                                } else {
                                    None
                                },
                            ),
                    decreases to_indexes.len() - k,
                {
                    let index: usize = to_indexes[k];
                    if index < zone_count && !visited.contains(&index) {
                        visited.insert(index);
                        let ghost prev = self.channels@;
                        let detached = self.channels[index].publish(&event);
                        proof {
                            let ghost sent = choose|sent: Seq<Subscription<S, SpatialEvent<E>>>|
                                zone_sorted(
                                    prev[index as int].subscribers(),
                                    sent,
                                    leaves_zone(prev[index as int].area(), event),
                                    event,
                                    self.channels@[index as int].subscribers(),
                                    detached,
                                );
                            lemma_sorted_delivery(
                                prev[index as int].subscribers(),
                                sent,
                                leaves_zone(prev[index as int].area(), event),
                                event,
                                self.channels@[index as int].subscribers(),
                                detached,
                            );
                            let ghost answers = answers_of(sent);
                            kept = kept.update(index as int, answers);
                            sents = sents.update(index as int, sent);
                    sents = sents.update(index as int, sent);
                            lemma_zones_tile_the_map(map, event.from, index as int);
                            lemma_nobody_follows(
                                prev[index as int].subscribers(),
                                answers,
                                event,
                                self.channels@[index as int].subscribers(),
                                detached,
                            );
                        }
                        match entity_subscription {
                            Some(mut subscription) => {
                                self.channels[index].send_residents_to(&mut subscription);
                                proof {
                                    chain = chain.push(subscription);
                                }
                                entity_subscription = Some(subscription);
                            },
                            None => {
                                entity_subscription = None;
                            },
                        }
                        proof {
                            let ghost longer = order.push(index as int);
                            assert(!order.contains(index as int));
                            assert forall|a: int, b: int|
                                0 <= a < longer.len() && 0 <= b < longer.len() && a != b implies longer[a]
                                != longer[b] by {
                                if a < order.len() && b >= order.len() {
                                    assert(order.contains(order[a]));
                                } else if b < order.len() && a >= order.len() {
                                    assert(order.contains(order[b]));
                                }
                            }
                            assert forall|i: int| #[trigger] longer.contains(i) implies 0 <= i < count
                                && visited@.contains(i as usize) && !from_set.contains(i as usize) by {
                                if i != index as int {
                                    assert(order.contains(i));
                                }
                            }
                            assert forall|i: usize|
                                visited@.contains(i) && !from_set.contains(
                                    i,
                                ) implies #[trigger] longer.contains(i as int) by {
                                if i != index {
                                    assert(order.contains(i as int));
                                    let at = choose|at: int| 0 <= at < order.len() && order[at] == i as int;
                                    assert(longer[at] == i as int);
                                } else {
                                    assert(longer[order.len() as int] == index as int);
                                }
                            }
                            order = longer;
                        }
                    }
                    k += 1;
                }
                proof {
                    assert forall|i: int|
                        0 <= i < count && in_range_of(map, destination, i) implies visited@.contains(
                        i as usize,
                    ) by {
                        lemma_window_position(
                            destination,
                            zone_width,
                            map_width_in_zones,
                            to_indexes@,
                            i,
                        );
                    }
                }
                proof {
                    reached = self.channels@;
                }
                match entity_subscription {
                    Some(subscription) => {
                        let zone_index: usize = zone_index_for_point(
                            &destination,
                            &self.map_definition,
                        );
                        let ghost prev = self.channels@;
                        self.channels[zone_index].rehome(subscription);
                        proof {
                            assert(self.channels@[zone_index as int].subscribers().drop_last()
                                =~= prev[zone_index as int].subscribers());
                        }
                    },
                    None => {},
                }
                proof {
                    assert(in_range_of(map, destination, landing));
                    assert(visited@.contains(landing as usize));
                    assert(forall|i: int|
                        0 <= i < count && #[trigger] touched(map, event, i) ==> visited@.contains(
                            i as usize,
                        ));
                    assert(forall|i: usize| #[trigger]
                        visited@.contains(i) ==> touched(map, event, i as int));
                    assert(first is Some <==> chain.len() > 0);
                    assert(forall|i: int|
                        0 <= i < count && !(first is Some && i == landing) ==> #[trigger] self.channels@[i]
                            == reached[i]);
                    assert(first is Some ==> self.channels@[landing].subscribers()
                        == reached[landing].subscribers().push(chain.last()));
                }
            },
            None => {
                proof {
                    assert(forall|i: int|
                        0 <= i < count && #[trigger] touched(map, event, i) ==> visited@.contains(
                            i as usize,
                        ));
                    assert(forall|i: usize| #[trigger]
                        visited@.contains(i) ==> touched(map, event, i as int));
                    assert(first is Some <==> chain.len() > 0);
                    assert(forall|i: int| 0 <= i < count ==> #[trigger] self.channels@[i] == reached[i]);
                }
            },
        }
        proof {
            assert forall|i: int| 0 <= i < count implies (#[trigger] self.channels@[i]).residents()
                == residents_after(before[i].residents(), map.zone_area(i), event)
                && self.channels@[i].wf() && self.channels@[i].area() == map.zone_area(i) by {
                lemma_zones_tile_the_map(map, event.from, i);
                if event.to is Some {
                    lemma_zones_tile_the_map(map, event.to.unwrap(), i);
                }
                assert(zone_state(
                    before[i],
                    reached[i],
                    map.zone_area(i),
                    visited@.contains(i as usize),
                    event,
                    kept[i],
                    if i == home {
                        first
                    } else {
                        None
                    },
                ));
                assert(self.channels@[i].residents() == reached[i].residents());
            }
            let ghost rehomed = chain.len() > 0 && event.to is Some;
            let ghost landing = if event.to is Some {
                map.zone_index(event.to.unwrap())
            } else {
                -1
            };
            assert forall|i: int| 0 <= i < count && #[trigger] touched(map, event, i) implies zone_delivery(
                before[i].subscribers(),
                kept[i],
                leaves_zone(map.zone_area(i), event),
                event,
                if rehomed && i == landing {
                    self.channels@[i].subscribers().drop_last()
                } else {
                    self.channels@[i].subscribers()
                },
                if chain.len() > 0 && i == home {
                    Some(chain[0])
                } else {
                    None
                },
            ) by {
                assert(visited@.contains(i as usize));
                assert(zone_state(
                    before[i],
                    reached[i],
                    map.zone_area(i),
                    visited@.contains(i as usize),
                    event,
                    kept[i],
                    if i == home {
                        first
                    } else {
                        None
                    },
                ));
                if rehomed && i == landing {
                    assert(self.channels@[i].subscribers().drop_last() == reached[i].subscribers());
                } else {
                    assert(self.channels@[i].subscribers() == reached[i].subscribers());
                }
            }
            assert(published(*old(self), *self, event, kept, order, chain));
            assert(delivered_everywhere(*old(self), sents, kept, event));
            if residency_unique(*old(self)) && starts_where_recorded(*old(self), event) {
                lemma_publish_keeps_residency_unique(*old(self), *self, event);
            }
            if subscriptions_unique(*old(self)) {
                lemma_publish_keeps_subscriptions_unique(
                    *old(self),
                    *self,
                    event,
                    kept,
                    order,
                    chain,
                );
            }
        }
    }

    /// Admits `subscriber` to the zone that holds `position`, and tells it first
    /// of the residents of that zone.
    pub fn subscribe(&mut self, subscriber: S, position: &Point) -> (admitted: Result<
        (),
        SubscribeError,
    >)
        requires
            old(self).wf(),
            old(self).map().contains(*position),
        ensures
            Self::subscribed(*old(self), *final(self), subscriber, *position, true, admitted),
    {
        self.do_subscribe(subscriber, position, true)
    }

    /// What admitting `subscriber` at `position` does to the channel: only the
    /// zone that holds `position` changes, and only in its subscribers.
    pub open spec fn subscribed(
        before: SpatialChannel<S, E>,
        after: SpatialChannel<S, E>,
        subscriber: S,
        position: Point,
        warn: bool,
        admitted: Result<(), SubscribeError>,
    ) -> bool {
        let home = before.map().zone_index(position);
        let zone = before.zones()[home];
        let joined = after.zones()[home];
        &&& after.wf()
        &&& after.map() == before.map()
        &&& after.zones().len() == before.zones().len()
        &&& forall|i: int|
            0 <= i < before.zones().len() && i != home ==> #[trigger] after.zones()[i]
                == before.zones()[i]
        &&& joined.residents() == zone.residents()
        &&& !warn || zone.residents().dom().len() == 0 ==> admitted is Ok
        &&& admitted is Ok ==> crate::spatial::zone::joined(
            zone.subscribers(),
            joined.subscribers(),
            subscriber,
            zone.residents(),
            warn,
        )
        &&& admitted is Err ==> joined.subscribers() == zone.subscribers()
        &&& exists|offered: Subscription<S, SpatialEvent<E>>|
            crate::spatial::zone::subscribe_outcome(
                zone.subscribers(),
                joined.subscribers(),
                subscriber,
                zone.residents(),
                warn,
                admitted,
                offered,
            )
    }

    /// Admits `subscriber` to the zone that holds `position`, and tells it of
    /// the residents of that zone first if `warn_of_entities_in_zone` says so.
    pub fn do_subscribe(
        &mut self,
        subscriber: S,
        position: &Point,
        warn_of_entities_in_zone: bool,
    ) -> (admitted: Result<(), SubscribeError>)
        requires
            old(self).wf(),
            old(self).map().contains(*position),
        ensures
            Self::subscribed(
                *old(self),
                *final(self),
                subscriber,
                *position,
                warn_of_entities_in_zone,
                admitted,
            ),
    {
        assert(self.channels.len() == self.map_definition.zone_count());
        let zone_index: usize = zone_index_for_point(position, &self.map_definition);
        self.channels[zone_index].subscribe(subscriber, warn_of_entities_in_zone)
    }
}

} // verus!
