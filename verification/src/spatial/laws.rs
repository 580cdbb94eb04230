use crate::pub_sub::last_position_of;
use crate::pub_sub::lemma_last_position;
use crate::pub_sub::lemma_positions_in_range;
use crate::pub_sub::positions_of;
use crate::pub_sub::Subscriber;
use crate::pub_sub::Subscription;
use crate::spatial::channel::published;
use crate::spatial::channel::touched;
use crate::spatial::channel::SpatialChannel;
use crate::spatial::geometry::lemma_window_contains_own_zone;
use crate::spatial::geometry::lemma_zone_index_in_range;
use crate::spatial::geometry::Point;
use crate::spatial::zone::catch_up_batch;
use crate::spatial::zone::follow_flags;
use crate::spatial::zone::leaves_zone;
use crate::spatial::zone::lists_residents;
use crate::spatial::zone::stay_flags;
use crate::spatial::zone::warned_of;
use crate::spatial::geometry::lemma_zones_are_disjoint;
use crate::spatial::zone::residents_after;
use crate::spatial::zone::Entity;
use crate::spatial::zone::SpatialEvent;
use vstd::prelude::*;

verus! {

/// No identity is filed as a resident in two zones of the channel.
pub open spec fn residency_unique<S: Subscriber<SpatialEvent<E>>, E: Entity + Clone>(
    channel: SpatialChannel<S, E>,
) -> bool {
    forall|i: int, j: int, id: u128|
        0 <= i < channel.zones().len() && 0 <= j < channel.zones().len()
            && #[trigger] channel.zones()[i].residents().contains_key(id)
            && #[trigger] channel.zones()[j].residents().contains_key(id) ==> i == j
}

/// The event starts where the channel believes the acting entity to be: no zone
/// but the one that holds `event.from` has the entity among its residents.
pub open spec fn starts_where_recorded<S: Subscriber<SpatialEvent<E>>, E: Entity + Clone>(
    channel: SpatialChannel<S, E>,
    event: SpatialEvent<E>,
) -> bool {
    forall|i: int|
        0 <= i < channel.zones().len() && #[trigger] channel.zones()[i].residents().contains_key(
            event.acting_entity.spec_id(),
        ) ==> channel.map().zone_area(i).contains(event.from)
}

/// Residency stays unique across a publish whose event starts where the acting
/// entity is recorded: once every zone has brought its residents up to date, no
/// identity is filed in two zones.
pub proof fn lemma_publish_keeps_residency_unique<S: Subscriber<SpatialEvent<E>>, E: Entity + Clone>(
    before: SpatialChannel<S, E>,
    after: SpatialChannel<S, E>,
    event: SpatialEvent<E>,
)
    requires
        before.wf(),
        residency_unique(before),
        starts_where_recorded(before, event),
        after.map() == before.map(),
        after.zones().len() == before.zones().len(),
        forall|i: int|
            0 <= i < before.zones().len() ==> (#[trigger] after.zones()[i]).residents()
                == residents_after(
                before.zones()[i].residents(),
                before.map().zone_area(i),
                event,
            ),
    ensures
        residency_unique(after),
{
    let acting = event.acting_entity.spec_id();
    assert forall|i: int, j: int, id: u128|
        0 <= i < after.zones().len() && 0 <= j < after.zones().len()
            && #[trigger] after.zones()[i].residents().contains_key(id)
            && #[trigger] after.zones()[j].residents().contains_key(id) implies i == j by {
        let was_i = before.zones()[i].residents();
        let was_j = before.zones()[j].residents();
        assert(after.zones()[i].residents() == residents_after(
            was_i,
            before.map().zone_area(i),
            event,
        ));
        assert(after.zones()[j].residents() == residents_after(
            was_j,
            before.map().zone_area(j),
            event,
        ));
        if event.is_a_move && id == acting {
            if was_i.contains_key(acting) {
                assert(before.map().zone_area(i).contains(event.from));
            }
            if was_j.contains_key(acting) {
                assert(before.map().zone_area(j).contains(event.from));
            }
            if event.to is Some && before.map().zone_area(i).contains(event.to.unwrap()) {
                if before.map().zone_area(j).contains(event.to.unwrap()) {
                    lemma_zones_are_disjoint(before.map(), event.to.unwrap(), i, j);
                }
            }
        } else {
            assert(was_i.contains_key(id));
            assert(was_j.contains_key(id));
        }
    }
}

/// `longer` is `log` with `event` behind it and, behind that, nothing but
/// notices, which only a move can bring.
pub open spec fn extended_once<E: Entity>(
    log: Seq<SpatialEvent<E>>,
    event: SpatialEvent<E>,
    longer: Seq<SpatialEvent<E>>,
) -> bool {
    &&& longer.len() > log.len()
    &&& longer.take(log.len() as int) == log
    &&& longer[log.len() as int] == event
    &&& forall|t: int|
        log.len() < t < longer.len() ==> event.is_a_move && !(#[trigger] longer[t]).is_a_move
}

/// A subscription that is told of the residents of one zone after another keeps
/// its identity, and its log grows by notices only.
pub proof fn lemma_chain_adds_notices<S: Subscriber<SpatialEvent<E>>, E: Entity>(
    rooms: Seq<Map<u128, (Point, E)>>,
    chain: Seq<Subscription<S, SpatialEvent<E>>>,
    upto: int,
)
    requires
        0 <= upto < chain.len(),
        chain.len() == rooms.len() + 1,
        forall|j: int| 0 <= j < rooms.len() ==> warned_of(rooms[j], chain[j], #[trigger] chain[j + 1]),
    ensures
        chain[upto].id() == chain[0].id(),
        chain[upto].received().len() >= chain[0].received().len(),
        chain[upto].received().take(chain[0].received().len() as int) == chain[0].received(),
        forall|t: int|
            chain[0].received().len() <= t < chain[upto].received().len() ==> !(
            #[trigger] chain[upto].received()[t]).is_a_move,
    decreases upto,
{
    if upto == 0 {
        assert(chain[0].received().take(chain[0].received().len() as int) =~= chain[0].received());
    } else {
        lemma_chain_adds_notices(rooms, chain, upto - 1);
        assert(warned_of(rooms[upto - 1], chain[upto - 1], chain[upto - 1 + 1]));
        let ids = choose|ids: Seq<u128>| #[trigger]
            lists_residents(rooms[upto - 1], ids) && chain[upto].received() == chain[upto
                - 1].received() + catch_up_batch(rooms[upto - 1], ids);
        let earlier = chain[upto - 1].received();
        let batch = catch_up_batch(rooms[upto - 1], ids);
        assert(chain[upto].received().take(chain[0].received().len() as int) =~= earlier.take(
            chain[0].received().len() as int,
        ));
        assert forall|t: int|
            chain[0].received().len() <= t < chain[upto].received().len() implies !(
        #[trigger] chain[upto].received()[t]).is_a_move by {
            if t < earlier.len() {
                assert(chain[upto].received()[t] == earlier[t]);
            } else {
                assert(chain[upto].received()[t] == batch[t - earlier.len()]);
            }
        }
    }
}

/// Delivery: after a publish, every subscription attached to a zone in visible
/// range of the event was attached somewhere in range before, under the same
/// identity, and has been handed the event exactly once since: its log is the
/// old log, then the event, then nothing but notices.
pub proof fn lemma_publish_delivers_once<S: Subscriber<SpatialEvent<E>>, E: Entity + Clone>(
    before: SpatialChannel<S, E>,
    after: SpatialChannel<S, E>,
    event: SpatialEvent<E>,
    kept: Seq<Seq<bool>>,
    order: Seq<int>,
    chain: Seq<Subscription<S, SpatialEvent<E>>>,
    zone: int,
    at: int,
)
    requires
        before.wf(),
        before.map().contains(event.from),
        event.to matches Some(to) ==> before.map().contains(to),
        published(before, after, event, kept, order, chain),
        0 <= zone < before.zones().len(),
        touched(before.map(), event, zone),
        0 <= at < after.zones()[zone].subscribers().len(),
    ensures
        exists|origin: int, was: int|
            0 <= origin < before.zones().len() && touched(before.map(), event, origin) && 0 <= was
                < before.zones()[origin].subscribers().len() && after.zones()[zone].subscribers()[at].id()
                == (#[trigger] before.zones()[origin].subscribers()[was]).id() && extended_once(
                before.zones()[origin].subscribers()[was].received(),
                event,
                after.zones()[zone].subscribers()[at].received(),
            ),
{
    let map = before.map();
    let acting = event.acting_entity.spec_id();
    let home = map.zone_index(event.from);
    let now = after.zones()[zone].subscribers()[at];
    lemma_zone_index_in_range(map, event.from);
    lemma_window_contains_own_zone(map, event.from);
    assert(touched(map, event, home));
    let rehomed = chain.len() > 0 && event.to is Some;
    if rehomed && zone == map.zone_index(event.to.unwrap()) && at == after.zones()[zone].subscribers().len()
        - 1 {
        let listeners = before.zones()[home].subscribers();
        let flags = follow_flags(
            listeners,
            kept[home],
            leaves_zone(map.zone_area(home), event),
            acting,
        );
        let was = last_position_of(flags);
        lemma_last_position(flags);
        let rooms = Seq::new(
            order.len(),
            |j: int|
                residents_after(before.zones()[order[j]].residents(), map.zone_area(order[j]), event),
        );
        assert forall|j: int| 0 <= j < rooms.len() implies warned_of(
            rooms[j],
            chain[j],
            #[trigger] chain[j + 1],
        ) by {}
        lemma_chain_adds_notices(rooms, chain, chain.len() - 1);
        let first = chain[0].received();
        assert(was >= 0);
        assert(flags[was]);
        assert(event.is_a_move);
        assert(first == listeners[was].received().push(event));
        assert(first.take(listeners[was].received().len() as int) =~= listeners[was].received());
        assert(now == chain.last());
        assert(now.received().take(listeners[was].received().len() as int) =~= first.take(
            listeners[was].received().len() as int,
        ));
        assert(now.received()[listeners[was].received().len() as int] == first[listeners[was].received().len() as int]);
        assert(extended_once(listeners[was].received(), event, now.received()));
    } else {
        let listeners = before.zones()[zone].subscribers();
        let flags = stay_flags(
            listeners,
            kept[zone],
            leaves_zone(map.zone_area(zone), event),
            acting,
        );
        lemma_positions_in_range(flags, at);
        let was = positions_of(flags)[at];
        assert(now.received().take(listeners[was].received().len() as int) =~= listeners[was].received());
        assert(extended_once(listeners[was].received(), event, now.received()));
    }
}

/// Every flagged position is among the positions listed for the flags.
pub proof fn lemma_flagged_position_is_listed(flags: Seq<bool>, was: int)
    requires
        0 <= was < flags.len(),
        flags[was],
    ensures
        exists|k: int| 0 <= k < positions_of(flags).len() && #[trigger] positions_of(flags)[k] == was,
    decreases flags.len(),
{
    let rest = positions_of(flags.drop_last());
    if was == flags.len() - 1 {
        assert(positions_of(flags)[rest.len() as int] == was);
    } else {
        lemma_flagged_position_is_listed(flags.drop_last(), was);
        let k = choose|k: int| 0 <= k < rest.len() && #[trigger] rest[k] == was;
        assert(positions_of(flags)[k] == was);
    }
}

/// Delivery, seen from before the publish: a subscription attached to a zone
/// in visible range of the event that answers `Ok(true)`, and does not follow
/// the acting entity out of its zone, is still attached to that zone
/// afterwards and has been handed the event, and nothing else, exactly once.
pub proof fn lemma_publish_reaches_subscribers_that_stay<S: Subscriber<SpatialEvent<E>>, E: Entity + Clone>(
    before: SpatialChannel<S, E>,
    after: SpatialChannel<S, E>,
    event: SpatialEvent<E>,
    kept: Seq<Seq<bool>>,
    order: Seq<int>,
    chain: Seq<Subscription<S, SpatialEvent<E>>>,
    zone: int,
    was: int,
)
    requires
        before.wf(),
        published(before, after, event, kept, order, chain),
        0 <= zone < before.zones().len(),
        touched(before.map(), event, zone),
        0 <= was < before.zones()[zone].subscribers().len(),
        stay_flags(
            before.zones()[zone].subscribers(),
            kept[zone],
            leaves_zone(before.map().zone_area(zone), event),
            event.acting_entity.spec_id(),
        )[was],
    ensures
        exists|at: int|
            0 <= at < after.zones()[zone].subscribers().len() && crate::pub_sub::delivered(
                before.zones()[zone].subscribers()[was],
                #[trigger] after.zones()[zone].subscribers()[at],
                event,
            ),
{
    let map = before.map();
    let listeners = before.zones()[zone].subscribers();
    let flags = stay_flags(
        listeners,
        kept[zone],
        leaves_zone(map.zone_area(zone), event),
        event.acting_entity.spec_id(),
    );
    lemma_flagged_position_is_listed(flags, was);
    let at = choose|k: int| 0 <= k < positions_of(flags).len() && #[trigger] positions_of(flags)[k] == was;
    let now = after.zones()[zone].subscribers();
    let rehomed = chain.len() > 0 && event.to is Some;
    if rehomed && zone == map.zone_index(event.to.unwrap()) {
        assert(now.drop_last()[at] == now[at]);
    }
    assert(crate::pub_sub::delivered(listeners[was], now[at], event));
}

/// Delivery, for the subscription that follows the acting entity: when the
/// entity moves on to another zone of the map, its subscription is the last
/// one of the zone where the event ends, and its log is the old log, then the
/// event, then nothing but notices.
pub proof fn lemma_publish_rehomes_the_follower<S: Subscriber<SpatialEvent<E>>, E: Entity + Clone>(
    before: SpatialChannel<S, E>,
    after: SpatialChannel<S, E>,
    event: SpatialEvent<E>,
    kept: Seq<Seq<bool>>,
    order: Seq<int>,
    chain: Seq<Subscription<S, SpatialEvent<E>>>,
)
    requires
        before.wf(),
        before.map().contains(event.from),
        event.to matches Some(to) ==> before.map().contains(to),
        published(before, after, event, kept, order, chain),
        event.to is Some,
        last_position_of(
            follow_flags(
                before.zones()[before.map().zone_index(event.from)].subscribers(),
                kept[before.map().zone_index(event.from)],
                leaves_zone(
                    before.map().zone_area(before.map().zone_index(event.from)),
                    event,
                ),
                event.acting_entity.spec_id(),
            ),
        ) >= 0,
    ensures
        ({
            let map = before.map();
            let home = map.zone_index(event.from);
            let listeners = before.zones()[home].subscribers();
            let was = last_position_of(
                follow_flags(
                    listeners,
                    kept[home],
                    leaves_zone(map.zone_area(home), event),
                    event.acting_entity.spec_id(),
                ),
            );
            let landed = after.zones()[map.zone_index(event.to.unwrap())].subscribers();
            &&& 0 <= was < listeners.len()
            &&& landed.len() > 0
            &&& landed.last().id() == listeners[was].id()
            &&& landed.last().id() == event.acting_entity.spec_id()
            &&& extended_once(listeners[was].received(), event, landed.last().received())
        }),
{
    let map = before.map();
    let home = map.zone_index(event.from);
    let landing = map.zone_index(event.to.unwrap());
    lemma_zone_index_in_range(map, event.from);
    lemma_zone_index_in_range(map, event.to.unwrap());
    lemma_window_contains_own_zone(map, event.from);
    lemma_window_contains_own_zone(map, event.to.unwrap());
    assert(touched(map, event, home));
    assert(touched(map, event, landing));
    let listeners = before.zones()[home].subscribers();
    let flags = follow_flags(
        listeners,
        kept[home],
        leaves_zone(map.zone_area(home), event),
        event.acting_entity.spec_id(),
    );
    lemma_last_position(flags);
    assert(chain.len() > 0);
    let landed = after.zones()[landing].subscribers();
    let rooms = Seq::new(
        order.len(),
        |j: int| residents_after(before.zones()[order[j]].residents(), map.zone_area(order[j]), event),
    );
    assert forall|j: int| 0 <= j < rooms.len() implies warned_of(
        rooms[j],
        chain[j],
        #[trigger] chain[j + 1],
    ) by {}
    lemma_chain_adds_notices(rooms, chain, chain.len() - 1);
    let was = last_position_of(flags);
    let first = chain[0].received();
    assert(first == listeners[was].received().push(event));
    assert(first.take(listeners[was].received().len() as int) =~= listeners[was].received());
    assert(landed.last().received().take(listeners[was].received().len() as int) =~= first.take(
        listeners[was].received().len() as int,
    ));
    assert(landed.last().received()[listeners[was].received().len() as int]
        == first[listeners[was].received().len() as int]);
}

/// No identity is attached as a subscriber twice, in one zone or in two.
pub open spec fn subscriptions_unique<S: Subscriber<SpatialEvent<E>>, E: Entity + Clone>(
    channel: SpatialChannel<S, E>,
) -> bool {
    forall|i: int, a: int, j: int, b: int|
        0 <= i < channel.zones().len() && 0 <= a < channel.zones()[i].subscribers().len() && 0 <= j
            < channel.zones().len() && 0 <= b < channel.zones()[j].subscribers().len() && (
        #[trigger] channel.zones()[i].subscribers()[a]).id() == (
        #[trigger] channel.zones()[j].subscribers()[b]).id() ==> i == j && a == b
}

/// Flagged positions come in strictly increasing order.
pub proof fn lemma_positions_increase(flags: Seq<bool>, low: int, high: int)
    requires
        0 <= low < high < positions_of(flags).len(),
    ensures
        positions_of(flags)[low] < positions_of(flags)[high],
    decreases flags.len(),
{
    if flags.len() > 0 {
        let rest = positions_of(flags.drop_last());
        if high < rest.len() {
            lemma_positions_increase(flags.drop_last(), low, high);
        } else {
            lemma_positions_in_range(flags.drop_last(), low);
        }
    }
}

/// Where the subscription found after a publish at place `at` of zone `zone`
/// stood before the publish: the zone, and the place in it.
pub open spec fn origin<S: Subscriber<SpatialEvent<E>>, E: Entity + Clone>(
    before: SpatialChannel<S, E>,
    after: SpatialChannel<S, E>,
    event: SpatialEvent<E>,
    kept: Seq<Seq<bool>>,
    chain: Seq<Subscription<S, SpatialEvent<E>>>,
    zone: int,
    at: int,
) -> (int, int) {
    let map = before.map();
    let acting = event.acting_entity.spec_id();
    let home = map.zone_index(event.from);
    if !touched(map, event, zone) {
        (zone, at)
    } else if chain.len() > 0 && event.to is Some && zone == map.zone_index(event.to.unwrap()) && at
        == after.zones()[zone].subscribers().len() - 1 {
        (
            home,
            last_position_of(
                follow_flags(
                    before.zones()[home].subscribers(),
                    kept[home],
                    leaves_zone(map.zone_area(home), event),
                    acting,
                ),
            ),
        )
    } else {
        (
            zone,
            positions_of(
                stay_flags(
                    before.zones()[zone].subscribers(),
                    kept[zone],
                    leaves_zone(map.zone_area(zone), event),
                    acting,
                ),
            )[at],
        )
    }
}

/// Every subscription found after a publish stood somewhere before it, under
/// the same identity, and no two of them stood at the same place.
pub proof fn lemma_origins_differ<S: Subscriber<SpatialEvent<E>>, E: Entity + Clone>(
    before: SpatialChannel<S, E>,
    after: SpatialChannel<S, E>,
    event: SpatialEvent<E>,
    kept: Seq<Seq<bool>>,
    order: Seq<int>,
    chain: Seq<Subscription<S, SpatialEvent<E>>>,
    i: int,
    a: int,
    j: int,
    b: int,
)
    requires
        before.wf(),
        before.map().contains(event.from),
        event.to matches Some(to) ==> before.map().contains(to),
        after.zones().len() == before.zones().len(),
        published(before, after, event, kept, order, chain),
        forall|z: int|
            0 <= z < before.zones().len() && !touched(before.map(), event, z) ==> (
            #[trigger] after.zones()[z]).subscribers() == before.zones()[z].subscribers(),
        0 <= i < after.zones().len(),
        0 <= a < after.zones()[i].subscribers().len(),
        0 <= j < after.zones().len(),
        0 <= b < after.zones()[j].subscribers().len(),
    ensures
        ({
            let (zone, place) = origin(before, after, event, kept, chain, i, a);
            &&& 0 <= zone < before.zones().len()
            &&& 0 <= place < before.zones()[zone].subscribers().len()
            &&& before.zones()[zone].subscribers()[place].id() == after.zones()[i].subscribers()[a].id()
        }),
        origin(before, after, event, kept, chain, i, a) == origin(before, after, event, kept, chain, j, b)
            ==> i == j && a == b,
{
    lemma_origin_kind(before, after, event, kept, order, chain, i, a);
    lemma_origin_kind(before, after, event, kept, order, chain, j, b);
    let map = before.map();
    let acting = event.acting_entity.spec_id();
    if origin(before, after, event, kept, chain, i, a) == origin(before, after, event, kept, chain, j, b)
        && !(i == j && a == b) {
        let (zone, place) = origin(before, after, event, kept, chain, i, a);
        let flags = stay_flags(
            before.zones()[zone].subscribers(),
            kept[zone],
            leaves_zone(map.zone_area(zone), event),
            acting,
        );
        if !moved(before, after, event, chain, i, a) && !moved(before, after, event, chain, j, b) {
            assert(i == j);
            if touched(map, event, i) {
                if a < b {
                    lemma_positions_increase(flags, a, b);
                } else {
                    lemma_positions_increase(flags, b, a);
                }
            }
        }
    }
}

/// The subscription at place `at` of zone `zone` is the one that the publish
/// has brought there from the zone that the acting entity left.
pub open spec fn moved<S: Subscriber<SpatialEvent<E>>, E: Entity + Clone>(
    before: SpatialChannel<S, E>,
    after: SpatialChannel<S, E>,
    event: SpatialEvent<E>,
    chain: Seq<Subscription<S, SpatialEvent<E>>>,
    zone: int,
    at: int,
) -> bool {
    &&& chain.len() > 0
    &&& event.to is Some
    &&& zone == before.map().zone_index(event.to.unwrap())
    &&& at == after.zones()[zone].subscribers().len() - 1
}

/// The place a subscription comes from is a place of the channel before the
/// publish, held by the same identity; one that was moved followed the acting
/// entity there, any other stayed.
pub proof fn lemma_origin_kind<S: Subscriber<SpatialEvent<E>>, E: Entity + Clone>(
    before: SpatialChannel<S, E>,
    after: SpatialChannel<S, E>,
    event: SpatialEvent<E>,
    kept: Seq<Seq<bool>>,
    order: Seq<int>,
    chain: Seq<Subscription<S, SpatialEvent<E>>>,
    i: int,
    a: int,
)
    requires
        before.wf(),
        before.map().contains(event.from),
        event.to matches Some(to) ==> before.map().contains(to),
        after.zones().len() == before.zones().len(),
        published(before, after, event, kept, order, chain),
        forall|z: int|
            0 <= z < before.zones().len() && !touched(before.map(), event, z) ==> (
            #[trigger] after.zones()[z]).subscribers() == before.zones()[z].subscribers(),
        0 <= i < after.zones().len(),
        0 <= a < after.zones()[i].subscribers().len(),
    ensures
        ({
            let map = before.map();
            let (zone, place) = origin(before, after, event, kept, chain, i, a);
            let leaving = leaves_zone(map.zone_area(zone), event);
            let acting = event.acting_entity.spec_id();
            let listeners = before.zones()[zone].subscribers();
            &&& 0 <= zone < before.zones().len()
            &&& 0 <= place < listeners.len()
            &&& listeners[place].id() == after.zones()[i].subscribers()[a].id()
            &&& touched(map, event, i) ==> touched(map, event, zone)
            &&& !touched(map, event, i) ==> zone == i && place == a
            &&& touched(map, event, i) && moved(before, after, event, chain, i, a) ==> follow_flags(
                listeners,
                kept[zone],
                leaving,
                acting,
            )[place]
            &&& touched(map, event, i) && !moved(before, after, event, chain, i, a) ==> zone == i
                && stay_flags(listeners, kept[zone], leaving, acting)[place]
        }),
{
    let map = before.map();
    let acting = event.acting_entity.spec_id();
    let home = map.zone_index(event.from);
    lemma_zone_index_in_range(map, event.from);
    lemma_window_contains_own_zone(map, event.from);
    assert(touched(map, event, home));
    if !touched(map, event, i) {
        assert(after.zones()[i].subscribers() == before.zones()[i].subscribers());
    } else if moved(before, after, event, chain, i, a) {
        let listeners = before.zones()[home].subscribers();
        let flags = follow_flags(
            listeners,
            kept[home],
            leaves_zone(map.zone_area(home), event),
            acting,
        );
        lemma_last_position(flags);
        let rooms = Seq::new(
            order.len(),
            |j: int|
                residents_after(before.zones()[order[j]].residents(), map.zone_area(order[j]), event),
        );
        assert forall|j: int| 0 <= j < rooms.len() implies warned_of(
            rooms[j],
            chain[j],
            #[trigger] chain[j + 1],
        ) by {}
        lemma_chain_adds_notices(rooms, chain, chain.len() - 1);
        assert(last_position_of(flags) >= 0);
        assert(after.zones()[i].subscribers()[a] == chain.last());
    } else {
        let flags = stay_flags(
            before.zones()[i].subscribers(),
            kept[i],
            leaves_zone(map.zone_area(i), event),
            acting,
        );
        lemma_positions_in_range(flags, a);
    }
}

/// Subscriber identities stay unique across a publish: a subscription is kept
/// where it is, dropped, or moved, never attached a second time.
pub proof fn lemma_publish_keeps_subscriptions_unique<S: Subscriber<SpatialEvent<E>>, E: Entity + Clone>(
    before: SpatialChannel<S, E>,
    after: SpatialChannel<S, E>,
    event: SpatialEvent<E>,
    kept: Seq<Seq<bool>>,
    order: Seq<int>,
    chain: Seq<Subscription<S, SpatialEvent<E>>>,
)
    requires
        before.wf(),
        before.map().contains(event.from),
        event.to matches Some(to) ==> before.map().contains(to),
        after.zones().len() == before.zones().len(),
        published(before, after, event, kept, order, chain),
        forall|z: int|
            0 <= z < before.zones().len() && !touched(before.map(), event, z) ==> (
            #[trigger] after.zones()[z]).subscribers() == before.zones()[z].subscribers(),
        subscriptions_unique(before),
    ensures
        subscriptions_unique(after),
{
    assert forall|i: int, a: int, j: int, b: int|
        0 <= i < after.zones().len() && 0 <= a < after.zones()[i].subscribers().len() && 0 <= j
            < after.zones().len() && 0 <= b < after.zones()[j].subscribers().len() && (
        #[trigger] after.zones()[i].subscribers()[a]).id() == (
        #[trigger] after.zones()[j].subscribers()[b]).id() implies i == j && a == b by {
        lemma_origins_differ(before, after, event, kept, order, chain, i, a, j, b);
        lemma_origins_differ(before, after, event, kept, order, chain, j, b, i, a);
        let (zone, place) = origin(before, after, event, kept, chain, i, a);
        let (other, spot) = origin(before, after, event, kept, chain, j, b);
        assert(before.zones()[zone].subscribers()[place].id() == before.zones()[other].subscribers()[spot].id());
    }
}

/// Admitting a subscriber changes no resident, so residency stays unique.
pub proof fn lemma_subscribe_keeps_residency_unique<S: Subscriber<SpatialEvent<E>>, E: Entity + Clone>(
    before: SpatialChannel<S, E>,
    after: SpatialChannel<S, E>,
    subscriber: S,
    position: Point,
    warn: bool,
    admitted: Result<(), crate::spatial::zone::SubscribeError>,
)
    requires
        before.wf(),
        before.map().contains(position),
        SpatialChannel::subscribed(before, after, subscriber, position, warn, admitted),
        residency_unique(before),
    ensures
        residency_unique(after),
{
    lemma_zone_index_in_range(before.map(), position);
    assert forall|i: int, j: int, id: u128|
        0 <= i < after.zones().len() && 0 <= j < after.zones().len()
            && #[trigger] after.zones()[i].residents().contains_key(id)
            && #[trigger] after.zones()[j].residents().contains_key(id) implies i == j by {
        assert(after.zones()[i].residents() == before.zones()[i].residents());
        assert(after.zones()[j].residents() == before.zones()[j].residents());
    }
}

/// Admitting a subscriber under an identity that no attached subscriber has
/// keeps subscriber identities unique.
pub proof fn lemma_subscribe_keeps_subscriptions_unique<S: Subscriber<SpatialEvent<E>>, E: Entity + Clone>(
    before: SpatialChannel<S, E>,
    after: SpatialChannel<S, E>,
    subscriber: S,
    position: Point,
    warn: bool,
    admitted: Result<(), crate::spatial::zone::SubscribeError>,
)
    requires
        before.wf(),
        before.map().contains(position),
        SpatialChannel::subscribed(before, after, subscriber, position, warn, admitted),
        subscriptions_unique(before),
        forall|i: int, a: int|
            0 <= i < before.zones().len() && 0 <= a < before.zones()[i].subscribers().len() ==> (
            #[trigger] before.zones()[i].subscribers()[a]).id() != subscriber.spec_entity_id(),
    ensures
        subscriptions_unique(after),
{
    let home = before.map().zone_index(position);
    lemma_zone_index_in_range(before.map(), position);
    let listeners = before.zones()[home].subscribers();
    assert forall|i: int, a: int, j: int, b: int|
        0 <= i < after.zones().len() && 0 <= a < after.zones()[i].subscribers().len() && 0 <= j
            < after.zones().len() && 0 <= b < after.zones()[j].subscribers().len() && (
        #[trigger] after.zones()[i].subscribers()[a]).id() == (
        #[trigger] after.zones()[j].subscribers()[b]).id() implies i == j && a == b by {
        if i != home {
            assert(after.zones()[i] == before.zones()[i]);
        }
        if j != home {
            assert(after.zones()[j] == before.zones()[j]);
        }
        if admitted is Ok {
            assert(after.zones()[home].subscribers().drop_last() == listeners);
            if i == home && a < listeners.len() {
                assert(after.zones()[home].subscribers().drop_last()[a] == listeners[a]);
            }
            if j == home && b < listeners.len() {
                assert(after.zones()[home].subscribers().drop_last()[b] == listeners[b]);
            }
            let fresh_i = i == home && a == listeners.len();
            let fresh_j = j == home && b == listeners.len();
            if fresh_i && !fresh_j {
                assert(before.zones()[j].subscribers()[b].id() != subscriber.spec_entity_id());
            }
            if fresh_j && !fresh_i {
                assert(before.zones()[i].subscribers()[a].id() != subscriber.spec_entity_id());
            }
            if !fresh_i && !fresh_j {
                assert(before.zones()[i].subscribers()[a].id() == before.zones()[j].subscribers()[b].id());
            }
        } else {
            assert(before.zones()[i].subscribers()[a].id() == before.zones()[j].subscribers()[b].id());
        }
    }
}

/// Where the subscription of the acting entity stands after a move. If
/// subscriber identities are unique and the entity's subscription is attached
/// to the zone that holds `event.from`, then after the publish a subscription
/// of the entity is found nowhere but in the zone that holds `event.to`, and
/// nowhere at all when the entity disappears.
pub proof fn lemma_publish_moves_own_subscription<S: Subscriber<SpatialEvent<E>>, E: Entity + Clone>(
    before: SpatialChannel<S, E>,
    after: SpatialChannel<S, E>,
    event: SpatialEvent<E>,
    kept: Seq<Seq<bool>>,
    order: Seq<int>,
    chain: Seq<Subscription<S, SpatialEvent<E>>>,
    was: int,
    zone: int,
    at: int,
)
    requires
        before.wf(),
        before.map().contains(event.from),
        event.to matches Some(to) ==> before.map().contains(to),
        after.zones().len() == before.zones().len(),
        published(before, after, event, kept, order, chain),
        forall|z: int|
            0 <= z < before.zones().len() && !touched(before.map(), event, z) ==> (
            #[trigger] after.zones()[z]).subscribers() == before.zones()[z].subscribers(),
        subscriptions_unique(before),
        event.is_a_move,
        0 <= was < before.zones()[before.map().zone_index(event.from)].subscribers().len(),
        before.zones()[before.map().zone_index(event.from)].subscribers()[was].id()
            == event.acting_entity.spec_id(),
        0 <= zone < after.zones().len(),
        0 <= at < after.zones()[zone].subscribers().len(),
        after.zones()[zone].subscribers()[at].id() == event.acting_entity.spec_id(),
    ensures
        event.to is Some,
        zone == before.map().zone_index(event.to.unwrap()),
{
    let map = before.map();
    let home = map.zone_index(event.from);
    lemma_zone_index_in_range(map, event.from);
    lemma_window_contains_own_zone(map, event.from);
    assert(touched(map, event, home));
    crate::spatial::geometry::lemma_zones_tile_the_map(map, event.from, home);
    lemma_origin_kind(before, after, event, kept, order, chain, zone, at);
    let (source, place) = origin(before, after, event, kept, chain, zone, at);
    assert(before.zones()[source].subscribers()[place].id() == before.zones()[home].subscribers()[was].id());
    assert(source == home && place == was);
    if touched(map, event, zone) && !moved(before, after, event, chain, zone, at) {
        assert(!leaves_zone(map.zone_area(home), event));
        lemma_zone_index_in_range(map, event.to.unwrap());
        crate::spatial::geometry::lemma_zones_tile_the_map(map, event.to.unwrap(), home);
    }
}

/// Delivery, for every subscription that was attached: what a publish hands
/// out, it hands to each subscription of each zone in visible range exactly
/// once, also to one that the publish then drops; and what becomes of the
/// subscription goes by the answer it gave to that event.
pub proof fn lemma_publish_hands_event_to_all_in_range<S: Subscriber<SpatialEvent<E>>, E: Entity + Clone>(
    before: SpatialChannel<S, E>,
    sent: Seq<Seq<Subscription<S, SpatialEvent<E>>>>,
    kept: Seq<Seq<bool>>,
    event: SpatialEvent<E>,
    zone: int,
    was: int,
)
    requires
        crate::spatial::channel::delivered_everywhere(before, sent, kept, event),
        0 <= zone < before.zones().len(),
        touched(before.map(), event, zone),
        0 <= was < before.zones()[zone].subscribers().len(),
    ensures
        sent[zone].len() == before.zones()[zone].subscribers().len(),
        sent[zone][was].id() == before.zones()[zone].subscribers()[was].id(),
        sent[zone][was].received() == before.zones()[zone].subscribers()[was].received().push(event),
        kept[zone][was] == sent[zone][was].last_answer(),
{
    assert(crate::pub_sub::delivered(
        before.zones()[zone].subscribers()[was],
        sent[zone][was],
        event,
    ));
}

/// The subscription of an entity that moves on to another zone follows it.
/// If subscriber identities are unique, the entity's subscription is attached
/// to the zone that the entity leaves, and it answers `Ok(true)` to the event,
/// then after the publish it is the last subscription of the zone where the
/// event ends, and its log is the old log, then the event, then nothing but
/// notices.
pub proof fn lemma_publish_rehomes_own_subscription<S: Subscriber<SpatialEvent<E>>, E: Entity + Clone>(
    before: SpatialChannel<S, E>,
    after: SpatialChannel<S, E>,
    event: SpatialEvent<E>,
    kept: Seq<Seq<bool>>,
    order: Seq<int>,
    chain: Seq<Subscription<S, SpatialEvent<E>>>,
    sent: Seq<Seq<Subscription<S, SpatialEvent<E>>>>,
    was: int,
)
    requires
        before.wf(),
        before.map().contains(event.from),
        event.to matches Some(to) ==> before.map().contains(to),
        published(before, after, event, kept, order, chain),
        crate::spatial::channel::delivered_everywhere(before, sent, kept, event),
        subscriptions_unique(before),
        event.to is Some,
        leaves_zone(before.map().zone_area(before.map().zone_index(event.from)), event),
        0 <= was < before.zones()[before.map().zone_index(event.from)].subscribers().len(),
        before.zones()[before.map().zone_index(event.from)].subscribers()[was].id()
            == event.acting_entity.spec_id(),
        sent[before.map().zone_index(event.from)][was].last_answer(),
    ensures
        ({
            let map = before.map();
            let own = before.zones()[map.zone_index(event.from)].subscribers()[was];
            let landed = after.zones()[map.zone_index(event.to.unwrap())].subscribers();
            &&& landed.len() > 0
            &&& landed.last().id() == own.id()
            &&& extended_once(own.received(), event, landed.last().received())
        }),
{
    let map = before.map();
    let home = map.zone_index(event.from);
    lemma_zone_index_in_range(map, event.from);
    lemma_window_contains_own_zone(map, event.from);
    assert(touched(map, event, home));
    let listeners = before.zones()[home].subscribers();
    let flags = follow_flags(
        listeners,
        kept[home],
        leaves_zone(map.zone_area(home), event),
        event.acting_entity.spec_id(),
    );
    assert(kept[home][was] == sent[home][was].last_answer());
    assert(flags[was]);
    lemma_last_position(flags);
    let follower = last_position_of(flags);
    assert(follower >= 0);
    assert(listeners[follower].id() == listeners[was].id());
    assert(follower == was);
    lemma_publish_rehomes_the_follower(before, after, event, kept, order, chain);
}

} // verus!
