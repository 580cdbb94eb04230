use spatiub::pub_sub::deliver_to_all;
use spatiub::pub_sub::keep_flagged;
use spatiub::pub_sub::PubSubError;
use spatiub::pub_sub::Subscription;
use spatiub::spatial::zone::sort_subscribers;
use spatiub::pub_sub::Subscriber;
use spatiub::spatial::compute_indexes_for_zones_in_range;
use spatiub::spatial::compute_visible_area;
use spatiub::spatial::zone_index_for_point;
use spatiub::spatial::Entity;
use spatiub::spatial::MapDefinition;
use spatiub::spatial::Point;
use spatiub::spatial::SpatialChannel;
use spatiub::spatial::SpatialEvent;
use spatiub::spatial::SubscribeError;
use spatiub::spatial::Zone;
use spatiub::spatial::ZoneChannel;
use std::cell::RefCell;
use std::cmp::max;
use std::cmp::min;
use std::collections::HashSet;
use std::iter::FromIterator;
use std::rc::Rc;
use uuid::Uuid;

const ZONE_WIDTH: usize = 16;
const MAP_WIDTH_IN_ZONES: usize = 16;

fn fresh_id() -> u128 {
    u128::from_be_bytes(*Uuid::new_v4().as_bytes())
}

#[derive(Clone, Copy, Debug, PartialEq)]
struct TestEntity {
    id: u128,
}

impl Entity for TestEntity {
    fn spec_id(&self) -> u128 {
        self.id
    }

    fn id(&self) -> u128 {
        self.id
    }

    fn duplicate(&self) -> TestEntity {
        self.clone()
    }
}

#[derive(Clone)]
struct CountingSubscriber {
    entity_id: u128,
    events: Rc<RefCell<Vec<SpatialEvent<TestEntity>>>>,
    answer: Result<bool, PubSubError>,
}

impl CountingSubscriber {
    fn new(entity_id: u128) -> CountingSubscriber {
        CountingSubscriber { entity_id, events: Rc::new(RefCell::new(Vec::new())), answer: Ok(true) }
    }

    fn answering(entity_id: u128, answer: Result<bool, PubSubError>) -> CountingSubscriber {
        CountingSubscriber { entity_id, events: Rc::new(RefCell::new(Vec::new())), answer }
    }

    fn number_of_events_received(&self) -> usize {
        self.events.borrow().len()
    }

    fn event(&self, index: usize) -> SpatialEvent<TestEntity> {
        self.events.borrow()[index]
    }
}

impl Subscriber<SpatialEvent<TestEntity>> for CountingSubscriber {
    fn spec_entity_id(&self) -> u128 {
        self.entity_id
    }

    fn send(&self, event: &SpatialEvent<TestEntity>) -> Result<bool, PubSubError> {
        self.events.borrow_mut().push(*event);
        self.answer
    }

    fn entity_id(&self) -> u128 {
        self.entity_id
    }
}

fn test_channel() -> SpatialChannel<CountingSubscriber, TestEntity> {
    SpatialChannel::new(MapDefinition::new(ZONE_WIDTH, ZONE_WIDTH))
}

fn event(from_x: usize, from_y: usize, to_x: usize, to_y: usize) -> SpatialEvent<TestEntity> {
    SpatialEvent {
        from: Point(from_x, from_y),
        to: Some(Point(to_x, to_y)),
        acting_entity: TestEntity { id: fresh_id() },
        is_a_move: true,
    }
}

fn move_of(id: u128, from: Point, to: Point) -> SpatialEvent<TestEntity> {
    SpatialEvent { from, to: Some(to), acting_entity: TestEntity { id }, is_a_move: true }
}

fn assert_can_subscribe(subscription_point: &Point, event: SpatialEvent<TestEntity>) {
    let mut channel = test_channel();
    let subscriber = CountingSubscriber::new(fresh_id());
    channel.subscribe(subscriber.clone(), subscription_point).unwrap();
    channel.publish(event);

    assert_eq!(1, subscriber.number_of_events_received())
}

#[test]
fn can_compute_random_points() {
    let map = MapDefinition::new(ZONE_WIDTH, MAP_WIDTH_IN_ZONES);

    let mut rng = rand::thread_rng();
    for _i in 0..1_000_000 {
        let point = map.random_point(&mut rng);

        assert!(map.point_is_inside(&point));
    }
}

#[test]
fn can_compute_random_points_next_to() {
    let map = MapDefinition::new(ZONE_WIDTH, MAP_WIDTH_IN_ZONES);

    let mut rng = rand::thread_rng();
    for _i in 0..1_000 {
        let origin = map.random_point(&mut rng);
        let point = map.random_point_next_to(&origin, &mut rng);

        assert!(map.point_is_inside(&point), "Point {:?} outside of {:?}", point, map);

        let distance_x = max(origin.0, point.0) - min(origin.0, point.0);
        let distance_y = max(origin.1, point.1) - min(origin.1, point.1);
        let distance = distance_x * distance_x + distance_y * distance_y;
        assert_eq!(1, distance);
    }
}

#[test]
fn spatial_can_subscribe() {
    assert_can_subscribe(&Point(0, 0), event(0, 0, 1, 0));
    assert_can_subscribe(&Point(0, 0), event(ZONE_WIDTH, 0, ZONE_WIDTH + 1, 0));
    assert_can_subscribe(&Point(0, 0), event(ZONE_WIDTH, ZONE_WIDTH, ZONE_WIDTH, ZONE_WIDTH + 1));
    assert_can_subscribe(
        &Point(0, 0),
        event(ZONE_WIDTH, ZONE_WIDTH, ZONE_WIDTH, ZONE_WIDTH + ZONE_WIDTH),
    );
    assert_can_subscribe(
        &Point(0, 0),
        event(ZONE_WIDTH + ZONE_WIDTH, ZONE_WIDTH, ZONE_WIDTH, ZONE_WIDTH),
    );
}

#[test]
fn spatial_subscription_follows_moving_entity() {
    let mut channel = test_channel();

    let entity_id = fresh_id();
    let entity = TestEntity { id: entity_id };

    let subscriber = CountingSubscriber::new(entity_id);

    let mut position = Point(0, 0);
    channel.subscribe(subscriber.clone(), &position).unwrap();

    let number_of_events = ZONE_WIDTH * 10;
    for _i in 0..number_of_events {
        let destination = Point(position.0 + 1, position.1);

        channel.publish(SpatialEvent {
            from: position,
            to: Some(destination.clone()),
            acting_entity: entity.clone(),
            is_a_move: true,
        });

        position = destination;
    }

    assert_eq!(number_of_events, subscriber.number_of_events_received());
}

#[test]
fn spatial_can_compute_if_point_is_in_zone() {
    let zone = Zone(Point(ZONE_WIDTH, ZONE_WIDTH), Point(ZONE_WIDTH * 2, ZONE_WIDTH * 2));

    assert!(zone.point_is_in(&Point(ZONE_WIDTH, ZONE_WIDTH)));
    assert!(zone.point_is_in(&Point(ZONE_WIDTH + 1, ZONE_WIDTH)));
    assert!(zone.point_is_in(&Point(ZONE_WIDTH, ZONE_WIDTH + 1)));
    assert!(zone.point_is_not_in(&Point(ZONE_WIDTH * 2, ZONE_WIDTH)));
    assert!(zone.point_is_not_in(&Point(ZONE_WIDTH, ZONE_WIDTH * 2)));
    assert!(zone.point_is_not_in(&Point(ZONE_WIDTH * 2, ZONE_WIDTH * 2)));
    assert!(zone.point_is_not_in(&Point(ZONE_WIDTH - 1, ZONE_WIDTH)));
    assert!(zone.point_is_not_in(&Point(ZONE_WIDTH, ZONE_WIDTH - 1)));
    assert!(zone.point_is_not_in(&Point(0, 0)));
}

#[test]
fn can_compute_visible_area() {
    let zone = Zone(Point(ZONE_WIDTH, ZONE_WIDTH), Point(ZONE_WIDTH * 2, ZONE_WIDTH * 2));
    let visible_area = compute_visible_area(&MapDefinition::new(ZONE_WIDTH, 3), zone);
    assert_eq!(Zone(Point(0, 0), Point(ZONE_WIDTH * 3, ZONE_WIDTH * 3)), visible_area);

    let zone = Zone(Point(ZONE_WIDTH, ZONE_WIDTH), Point(ZONE_WIDTH * 2, ZONE_WIDTH * 2));
    let visible_area = compute_visible_area(&MapDefinition::new(ZONE_WIDTH, 2), zone);
    assert_eq!(Zone(Point(0, 0), Point(ZONE_WIDTH * 2, ZONE_WIDTH * 2)), visible_area);

    let zone = Zone(Point(0, 0), Point(ZONE_WIDTH, ZONE_WIDTH));
    let visible_area = compute_visible_area(&MapDefinition::new(ZONE_WIDTH, 3), zone);
    assert_eq!(Zone(Point(0, 0), Point(ZONE_WIDTH * 2, ZONE_WIDTH * 2)), visible_area);
}

#[test]
fn spatial_can_compute_indexes_for_zones_in_range() {
    let expected: HashSet<usize> = HashSet::from_iter(vec![0, 1, ZONE_WIDTH, ZONE_WIDTH + 1]);
    let found: HashSet<usize> = HashSet::from_iter(compute_indexes_for_zones_in_range(
        &Point(0, 0),
        ZONE_WIDTH,
        MAP_WIDTH_IN_ZONES,
    ));
    assert_eq!(expected, found);

    let expected: HashSet<usize> = HashSet::from_iter(vec![0, 1, ZONE_WIDTH, ZONE_WIDTH + 1]);
    let found: HashSet<usize> = HashSet::from_iter(compute_indexes_for_zones_in_range(
        &Point(16, 0),
        ZONE_WIDTH,
        MAP_WIDTH_IN_ZONES,
    ));
    assert_eq!(expected, found);
}

#[test]
fn spatial_new_subscriber_is_warned_of_existing_entities() {
    let mut channel = test_channel();

    channel.publish(event(0, 0, 1, 0));

    let subscriber = CountingSubscriber::new(fresh_id());
    channel.subscribe(subscriber.clone(), &Point(0, 0)).unwrap();

    assert_eq!(1, subscriber.number_of_events_received());
}

#[test]
fn spatial_moving_entity_is_warned_of_entities_now_in_range() {
    let mut channel = test_channel();

    channel.publish(event(0, 0, 1, 0));

    let entity_id = fresh_id();
    let entity_position = Point(ZONE_WIDTH - 1, ZONE_WIDTH - 1);
    let subscriber = CountingSubscriber::new(entity_id.clone());
    channel.subscribe(subscriber.clone(), &entity_position).unwrap();

    channel.publish(SpatialEvent {
        to: Some(Point(entity_position.0 + 1, entity_position.1)),
        from: entity_position,
        acting_entity: TestEntity { id: entity_id },
        is_a_move: true,
    });

    assert_eq!(2, subscriber.number_of_events_received());
}

#[test]
fn window_lists_indexes_with_x_offsets_outermost() {
    assert_eq!(
        vec![0, 1, 16, 17],
        compute_indexes_for_zones_in_range(&Point(0, 0), ZONE_WIDTH, MAP_WIDTH_IN_ZONES)
    );
    assert_eq!(
        vec![0, 1, 16, 17, 32, 33],
        compute_indexes_for_zones_in_range(&Point(17, 16), ZONE_WIDTH, MAP_WIDTH_IN_ZONES)
    );
    assert_eq!(
        vec![17, 18, 19, 33, 34, 35, 49, 50, 51],
        compute_indexes_for_zones_in_range(&Point(40, 40), ZONE_WIDTH, MAP_WIDTH_IN_ZONES)
    );
}

#[test]
fn window_around_a_point_holds_the_zone_of_the_point() {
    let map = MapDefinition::new(ZONE_WIDTH, MAP_WIDTH_IN_ZONES);
    for x in (0..256).step_by(5) {
        for y in (0..256).step_by(7) {
            let point = Point(x, y);
            let own = zone_index_for_point(&point, &map);
            let window =
                compute_indexes_for_zones_in_range(&point, ZONE_WIDTH, MAP_WIDTH_IN_ZONES);
            assert!(window.contains(&own), "{:?}", point);
        }
    }
}

#[test]
fn zone_index_names_the_one_zone_that_holds_the_point() {
    let map = MapDefinition::new(ZONE_WIDTH, MAP_WIDTH_IN_ZONES);
    assert_eq!(18, zone_index_for_point(&Point(17, 33), &map));
    assert_eq!(0, zone_index_for_point(&Point(15, 15), &map));
    assert_eq!(16, zone_index_for_point(&Point(16, 0), &map));
    assert_eq!(255, zone_index_for_point(&Point(255, 255), &map));
    for x in (0..256).step_by(15) {
        for y in (0..256).step_by(17) {
            let point = Point(x, y);
            let own = zone_index_for_point(&point, &map);
            let mut holders = 0;
            for index in 0..MAP_WIDTH_IN_ZONES * MAP_WIDTH_IN_ZONES {
                let lo = Point((index / 16) * ZONE_WIDTH, (index % 16) * ZONE_WIDTH);
                let zone = Zone(lo, Point(lo.0 + ZONE_WIDTH, lo.1 + ZONE_WIDTH));
                if zone.point_is_in(&point) {
                    holders += 1;
                    assert_eq!(own, index);
                }
            }
            assert_eq!(1, holders);
        }
    }
}

#[test]
fn point_in_zone_is_half_open() {
    let zone = Zone(Point(16, 16), Point(32, 32));
    assert!(zone.point_is_in(&Point(16, 16)));
    assert!(zone.point_is_in(&Point(31, 31)));
    assert!(!zone.point_is_in(&Point(32, 16)));
    assert!(!zone.point_is_in(&Point(15, 16)));
}

#[test]
fn map_knows_its_cells() {
    let map = MapDefinition::new(ZONE_WIDTH, MAP_WIDTH_IN_ZONES);
    assert_eq!(255, map.coordinate_max());
    assert_eq!(16, map.zone_width());
    assert_eq!(16, map.map_width_in_zones());
    assert!(map.point_is_inside(&Point(255, 255)));
    assert!(!map.point_is_inside(&Point(256, 0)));
    assert!(!map.point_is_inside(&Point(0, 256)));
    assert!(map.coord_is_inside(&255));
    assert!(!map.coord_is_inside(&256));
}

#[test]
fn neighbor_follows_the_drawn_direction() {
    let map = MapDefinition::new(ZONE_WIDTH, MAP_WIDTH_IN_ZONES);
    let inside = Point(7, 9);
    assert_eq!(Point(8, 9), map.neighbor_in_direction(&inside, 0));
    assert_eq!(Point(6, 9), map.neighbor_in_direction(&inside, 1));
    assert_eq!(Point(7, 10), map.neighbor_in_direction(&inside, 2));
    assert_eq!(Point(7, 8), map.neighbor_in_direction(&inside, 3));
    let corner = Point(255, 255);
    assert_eq!(Point(254, 255), map.neighbor_in_direction(&corner, 0));
    assert_eq!(Point(254, 255), map.neighbor_in_direction(&corner, 1));
    assert_eq!(Point(255, 254), map.neighbor_in_direction(&corner, 2));
    assert_eq!(Point(255, 254), map.neighbor_in_direction(&corner, 3));
    let origin = Point(0, 0);
    assert_eq!(Point(1, 0), map.neighbor_in_direction(&origin, 0));
    assert_eq!(Point(1, 0), map.neighbor_in_direction(&origin, 1));
    assert_eq!(Point(0, 1), map.neighbor_in_direction(&origin, 2));
    assert_eq!(Point(0, 1), map.neighbor_in_direction(&origin, 3));
    let column = MapDefinition::new(1, 1);
    assert_eq!(Point(0, 4), column.neighbor_in_direction(&Point(0, 5), 0));
    assert_eq!(Point(0, 4), column.neighbor_in_direction(&Point(0, 5), 1));
    assert_eq!(Point(3, 0), column.neighbor_in_direction(&Point(4, 0), 2));
    assert_eq!(Point(3, 0), column.neighbor_in_direction(&Point(4, 0), 3));
}

#[test]
fn random_point_stays_under_the_largest_coordinate() {
    let map = MapDefinition::new(1, 2);
    let mut rng = rand::thread_rng();
    for _i in 0..100 {
        assert_eq!(Point(0, 0), map.random_point(&mut rng));
    }
}

#[test]
fn straight_walk_across_zones_is_seen_in_order() {
    let mut channel = test_channel();
    let id = fresh_id();
    let subscriber = CountingSubscriber::new(id);
    channel.subscribe(subscriber.clone(), &Point(0, 0)).unwrap();
    for i in 0..160 {
        channel.publish(move_of(id, Point(i, 0), Point(i + 1, 0)));
    }
    assert_eq!(160, subscriber.number_of_events_received());
    for i in 0..160 {
        assert_eq!(Some(Point(i + 1, 0)), subscriber.event(i).to);
        assert_eq!(Point(i, 0), subscriber.event(i).from);
        assert!(subscriber.event(i).is_a_move);
    }
}

#[test]
fn catch_up_on_initial_subscribe_tells_where_the_resident_stands() {
    let mut channel = test_channel();
    let a = fresh_id();
    channel.publish(move_of(a, Point(0, 0), Point(1, 0)));
    let b = CountingSubscriber::new(fresh_id());
    channel.subscribe(b.clone(), &Point(0, 0)).unwrap();
    assert_eq!(1, b.number_of_events_received());
    let notice = b.event(0);
    assert_eq!(Point(1, 0), notice.from);
    assert_eq!(Some(Point(1, 0)), notice.to);
    assert!(!notice.is_a_move);
    assert_eq!(TestEntity { id: a }, notice.acting_entity);
}

#[test]
fn catch_up_on_move_into_range_comes_after_the_move() {
    let mut channel = test_channel();
    let a = fresh_id();
    channel.publish(move_of(a, Point(50, 0), Point(51, 0)));
    let b_id = fresh_id();
    let b = CountingSubscriber::new(b_id);
    channel.subscribe(b.clone(), &Point(31, 0)).unwrap();
    assert_eq!(0, b.number_of_events_received());
    channel.publish(move_of(b_id, Point(31, 0), Point(32, 0)));
    assert_eq!(2, b.number_of_events_received());
    assert!(b.event(0).is_a_move);
    assert_eq!(TestEntity { id: b_id }, b.event(0).acting_entity);
    assert!(!b.event(1).is_a_move);
    assert_eq!(TestEntity { id: a }, b.event(1).acting_entity);
    assert_eq!(Point(51, 0), b.event(1).from);
    assert_eq!(Some(Point(51, 0)), b.event(1).to);
    channel.publish(move_of(a, Point(51, 0), Point(52, 0)));
    assert_eq!(3, b.number_of_events_received());
}

#[test]
fn detached_subscriber_is_dropped_when_its_entity_disappears() {
    let mut channel = test_channel();
    let a_id = fresh_id();
    let a = CountingSubscriber::new(a_id);
    channel.subscribe(a.clone(), &Point(0, 0)).unwrap();
    channel.publish(SpatialEvent {
        from: Point(0, 0),
        to: None,
        acting_entity: TestEntity { id: a_id },
        is_a_move: true,
    });
    assert_eq!(1, a.number_of_events_received());
    assert_eq!(None, a.event(0).to);
    channel.publish(event(0, 0, 1, 0));
    channel.publish(event(1, 0, 0, 0));
    assert_eq!(1, a.number_of_events_received());
}

#[test]
fn entity_resides_in_one_zone_only() {
    let mut channel = test_channel();
    let a = fresh_id();
    channel.publish(move_of(a, Point(14, 0), Point(15, 0)));
    channel.publish(move_of(a, Point(15, 0), Point(16, 0)));
    let left = CountingSubscriber::new(fresh_id());
    channel.subscribe(left.clone(), &Point(0, 0)).unwrap();
    assert_eq!(0, left.number_of_events_received());
    let right = CountingSubscriber::new(fresh_id());
    channel.subscribe(right.clone(), &Point(16, 0)).unwrap();
    assert_eq!(1, right.number_of_events_received());
    assert_eq!(Point(16, 0), right.event(0).from);
}

#[test]
fn subscription_is_attached_to_one_zone_only() {
    let mut channel = test_channel();
    let a_id = fresh_id();
    let a = CountingSubscriber::new(a_id);
    channel.subscribe(a.clone(), &Point(0, 0)).unwrap();
    for x in 0..40 {
        channel.publish(move_of(a_id, Point(x, 0), Point(x + 1, 0)));
    }
    assert_eq!(40, a.number_of_events_received());
    channel.publish(event(0, 0, 1, 0));
    assert_eq!(40, a.number_of_events_received());
    channel.publish(event(64, 0, 65, 0));
    assert_eq!(40, a.number_of_events_received());
    channel.publish(event(48, 0, 49, 0));
    assert_eq!(41, a.number_of_events_received());
}

#[test]
fn zone_listed_twice_in_a_window_is_published_once() {
    let mut channel: SpatialChannel<CountingSubscriber, TestEntity> =
        SpatialChannel::new(MapDefinition::new(ZONE_WIDTH, 2));
    assert_eq!(
        vec![0, 1, 2, 2, 3, 4],
        compute_indexes_for_zones_in_range(&Point(0, 20), ZONE_WIDTH, 2)
    );
    let subscriber = CountingSubscriber::new(fresh_id());
    channel.subscribe(subscriber.clone(), &Point(16, 0)).unwrap();
    channel.publish(event(0, 20, 0, 21));
    assert_eq!(1, subscriber.number_of_events_received());
}

#[test]
fn subscriber_that_ends_its_subscription_is_dropped() {
    let mut channel = test_channel();
    let once = CountingSubscriber::answering(fresh_id(), Ok(false));
    let gone = CountingSubscriber::answering(fresh_id(), Err(PubSubError::ReceiverIsGone));
    let stays = CountingSubscriber::new(fresh_id());
    channel.subscribe(once.clone(), &Point(0, 0)).unwrap();
    channel.subscribe(stays.clone(), &Point(0, 0)).unwrap();
    channel.subscribe(gone.clone(), &Point(0, 0)).unwrap();
    channel.publish(SpatialEvent {
        from: Point(0, 0),
        to: Some(Point(0, 0)),
        acting_entity: TestEntity { id: fresh_id() },
        is_a_move: false,
    });
    channel.publish(event(3, 3, 3, 4));
    assert_eq!(1, once.number_of_events_received());
    assert_eq!(1, gone.number_of_events_received());
    assert_eq!(2, stays.number_of_events_received());
}

#[test]
fn subscriber_that_fails_during_catch_up_is_refused() {
    let mut channel = test_channel();
    channel.publish(event(0, 0, 1, 0));
    let dead = CountingSubscriber::answering(fresh_id(), Err(PubSubError::ReceiverIsGone));
    assert_eq!(
        Err(SubscribeError::CatchUpFailure),
        channel.subscribe(dead.clone(), &Point(0, 0))
    );
    let leaving = CountingSubscriber::answering(fresh_id(), Ok(false));
    assert_eq!(
        Err(SubscribeError::CatchUpFailure),
        channel.subscribe(leaving.clone(), &Point(0, 0))
    );
    channel.publish(event(2, 2, 2, 3));
    assert_eq!(1, dead.number_of_events_received());
    assert_eq!(1, leaving.number_of_events_received());
    assert_eq!(Ok(()), channel.do_subscribe(dead.clone(), &Point(0, 0), false));
}

#[test]
fn advisory_event_changes_no_resident() {
    let mut channel = test_channel();
    channel.publish(SpatialEvent {
        from: Point(0, 0),
        to: Some(Point(1, 0)),
        acting_entity: TestEntity { id: fresh_id() },
        is_a_move: false,
    });
    let subscriber = CountingSubscriber::new(fresh_id());
    channel.subscribe(subscriber.clone(), &Point(0, 0)).unwrap();
    assert_eq!(0, subscriber.number_of_events_received());
}

#[test]
fn zone_channel_hands_out_the_subscriber_of_the_leaving_entity() {
    let mut zone: ZoneChannel<CountingSubscriber, TestEntity> =
        ZoneChannel::new(Zone(Point(0, 0), Point(16, 16)));
    let own = fresh_id();
    let other = CountingSubscriber::new(fresh_id());
    let mine = CountingSubscriber::new(own);
    zone.subscribe(other.clone(), true).unwrap();
    zone.subscribe(mine.clone(), true).unwrap();
    assert!(zone.publish(&move_of(own, Point(3, 3), Point(4, 3))).is_none());
    let detached = zone.publish(&move_of(own, Point(4, 3), Point(16, 3)));
    assert_eq!(Some(own), detached.map(|subscription| subscription.entity_id()));
    assert!(zone.publish(&move_of(fresh_id(), Point(1, 1), Point(1, 2))).is_none());
    assert_eq!(3, other.number_of_events_received());
    assert_eq!(2, mine.number_of_events_received());
}

#[test]
fn entity_that_disappears_is_no_resident_any_more() {
    let mut channel = test_channel();
    let a = fresh_id();
    channel.publish(move_of(a, Point(0, 0), Point(1, 0)));
    channel.publish(SpatialEvent {
        from: Point(1, 0),
        to: None,
        acting_entity: TestEntity { id: a },
        is_a_move: true,
    });
    let subscriber = CountingSubscriber::new(fresh_id());
    channel.subscribe(subscriber.clone(), &Point(0, 0)).unwrap();
    assert_eq!(0, subscriber.number_of_events_received());
}

#[test]
fn newcomer_is_told_of_every_resident_once() {
    let mut channel = test_channel();
    let mut residents = HashSet::new();
    for x in 0..10 {
        let id = fresh_id();
        residents.insert(id);
        channel.publish(move_of(id, Point(x, 1), Point(x, 2)));
    }
    let subscriber = CountingSubscriber::new(fresh_id());
    channel.subscribe(subscriber.clone(), &Point(0, 0)).unwrap();
    assert_eq!(10, subscriber.number_of_events_received());
    let mut told = HashSet::new();
    for index in 0..10 {
        let notice = subscriber.event(index);
        assert!(!notice.is_a_move);
        assert_eq!(Some(notice.from), notice.to);
        assert_eq!(2, notice.from.1);
        told.insert(notice.acting_entity.id);
    }
    assert_eq!(residents, told);
}

#[test]
fn flagged_items_are_kept_in_their_order() {
    assert_eq!(vec![10, 30], keep_flagged(vec![10, 20, 30], &vec![true, false, true]));
    assert_eq!(Vec::<u8>::new(), keep_flagged(vec![1u8, 2], &vec![false, false]));
    assert_eq!(vec![1u8, 2], keep_flagged(vec![1u8, 2], &vec![true, true]));
    assert_eq!(Vec::<u8>::new(), keep_flagged(Vec::<u8>::new(), &Vec::new()));
}

#[test]
fn every_subscriber_is_handed_the_event_and_gives_its_answer() {
    let stays = CountingSubscriber::new(1);
    let leaves = CountingSubscriber::answering(2, Ok(false));
    let gone = CountingSubscriber::answering(3, Err(PubSubError::ReceiverIsGone));
    let mut subscriptions = vec![
        Subscription::new(stays.clone()),
        Subscription::new(leaves.clone()),
        Subscription::new(gone.clone()),
    ];
    let answers = deliver_to_all(&mut subscriptions, &event(0, 0, 1, 0));
    assert_eq!(vec![true, false, false], answers);
    assert_eq!(3, subscriptions.len());
    assert_eq!(1, stays.number_of_events_received());
    assert_eq!(1, leaves.number_of_events_received());
    assert_eq!(1, gone.number_of_events_received());
}

fn sorted_ids(
    ids: Vec<u128>,
    answers: Vec<bool>,
    leaving: bool,
    acting: u128,
) -> (Vec<u128>, Option<u128>) {
    let sent: Vec<Subscription<CountingSubscriber, SpatialEvent<TestEntity>>> =
        ids.into_iter().map(|id| Subscription::new(CountingSubscriber::new(id))).collect();
    let (staying, detached) = sort_subscribers(sent, &answers, leaving, acting);
    (
        staying.iter().map(|subscription| subscription.entity_id()).collect(),
        detached.map(|subscription| subscription.entity_id()),
    )
}

#[test]
fn subscribers_are_sorted_by_their_answers() {
    assert_eq!(
        (vec![1, 3], None),
        sorted_ids(vec![1, 2, 3], vec![true, false, true], false, 3)
    );
    assert_eq!(
        (vec![1], Some(3)),
        sorted_ids(vec![1, 2, 3], vec![true, false, true], true, 3)
    );
}

#[test]
fn own_subscriber_that_ends_its_subscription_is_not_handed_out() {
    assert_eq!((vec![1, 2], None), sorted_ids(vec![1, 2, 3], vec![true, true, false], true, 3));
    assert_eq!((vec![1, 3], Some(2)), sorted_ids(vec![1, 2, 3], vec![true, true, true], true, 2));
    assert_eq!((vec![1], Some(2)), sorted_ids(vec![2, 1, 2], vec![true, true, true], true, 2));
    assert_eq!((Vec::new(), None), sorted_ids(vec![], vec![], true, 2));
}

#[test]
fn subscription_is_attached_only_if_it_kept_answering() {
    let mut zone: ZoneChannel<CountingSubscriber, TestEntity> =
        ZoneChannel::new(Zone(Point(0, 0), Point(16, 16)));
    let refused = CountingSubscriber::new(1);
    let attached = CountingSubscriber::new(2);
    assert_eq!(
        Err(SubscribeError::CatchUpFailure),
        zone.attach_if_kept(Subscription::new(refused.clone()), false)
    );
    assert_eq!(Ok(()), zone.attach_if_kept(Subscription::new(attached.clone()), true));
    assert!(zone.publish(&event(1, 1, 1, 2)).is_none());
    assert_eq!(0, refused.number_of_events_received());
    assert_eq!(1, attached.number_of_events_received());
}

#[derive(Clone, Debug, PartialEq)]
struct NamedEntity {
    id: u128,
    name: String,
}

impl Entity for NamedEntity {
    fn spec_id(&self) -> u128 {
        self.id
    }

    fn id(&self) -> u128 {
        self.id
    }

    fn duplicate(&self) -> NamedEntity {
        self.clone()
    }
}

#[derive(Clone)]
struct NameCollector {
    entity_id: u128,
    names: Rc<RefCell<Vec<(String, bool)>>>,
}

impl Subscriber<SpatialEvent<NamedEntity>> for NameCollector {
    fn spec_entity_id(&self) -> u128 {
        self.entity_id
    }

    fn send(&self, event: &SpatialEvent<NamedEntity>) -> Result<bool, PubSubError> {
        self.names.borrow_mut().push((event.acting_entity.name.clone(), event.is_a_move));
        Ok(true)
    }

    fn entity_id(&self) -> u128 {
        self.entity_id
    }
}

#[test]
fn entity_need_not_be_copied_bit_by_bit() {
    let mut channel: SpatialChannel<NameCollector, NamedEntity> =
        SpatialChannel::new(MapDefinition::new(ZONE_WIDTH, ZONE_WIDTH));
    let ada = NamedEntity { id: 1, name: "Ada".to_string() };
    channel.publish(SpatialEvent {
        from: Point(0, 0),
        to: Some(Point(1, 0)),
        acting_entity: ada.clone(),
        is_a_move: true,
    });
    let collector = NameCollector { entity_id: 2, names: Rc::new(RefCell::new(Vec::new())) };
    channel.subscribe(collector.clone(), &Point(3, 3)).unwrap();
    channel.publish(SpatialEvent {
        from: Point(1, 0),
        to: Some(Point(2, 0)),
        acting_entity: ada,
        is_a_move: true,
    });
    assert_eq!(
        vec![("Ada".to_string(), false), ("Ada".to_string(), true)],
        *collector.names.borrow()
    );
}
