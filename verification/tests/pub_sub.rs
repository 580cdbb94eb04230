use futures::Future;
use futures::Stream;
use spatiub::futures_sub::answer_of_queue;
use spatiub::futures_sub::new_subscriber;
use spatiub::pub_sub::keeps_subscription;
use spatiub::pub_sub::PubSubChannel;
use spatiub::pub_sub::PubSubError;
use spatiub::pub_sub::Subscriber;
use spatiub::pub_sub::Subscription;
use spatiub::spatial::MapDefinition;
use spatiub::spatial::Point;
use spatiub::spatial::SpatialChannel;
use spatiub::spatial::SpatialEvent;
use spatiub::entity::DemoEntity;
use spatiub::entity::Timestamp;
use spatiub::std_sub::StdSubscriber;
use std::rc::Rc;
use std::sync::mpsc;
use uuid::Uuid;

#[derive(Debug, PartialEq, Clone)]
struct TestEvent {}

fn new_id() -> u128 {
    u128::from_be_bytes(*Uuid::new_v4().as_bytes())
}

#[test]
fn futures_sub_can_subscribe() {
    let (subscriber, receiver) = new_subscriber(new_id());
    let mut pub_sub = PubSubChannel::new();

    pub_sub.subscribe(subscriber);

    pub_sub.publish(&TestEvent {}).unwrap();

    let (received_event_option, _receiver) = receiver.into_future().wait().unwrap();
    assert_eq!(TestEvent {}, Rc::try_unwrap(received_event_option.unwrap()).unwrap());
}

#[test]
fn std_sub_can_subscribe() {
    let (sender, receiver) = mpsc::channel();

    let subscriber = StdSubscriber::new(sender, new_id());
    let mut pub_sub = PubSubChannel::new();

    pub_sub.subscribe(subscriber);

    pub_sub.publish(&TestEvent {}).unwrap();

    let received_event = receiver.recv().unwrap();
    assert_eq!(TestEvent {}, Rc::try_unwrap(received_event).unwrap());
}

#[test]
fn subscriber_keeps_the_identity_it_was_made_for() {
    let id = new_id();
    let (subscriber, _receiver) = new_subscriber::<TestEvent>(id);
    assert_eq!(id, subscriber.entity_id());
    assert_eq!(id, subscriber.clone().entity_id());
    let (sender, _receiver) = mpsc::channel::<Rc<TestEvent>>();
    let subscriber = StdSubscriber::new(sender, id);
    assert_eq!(id, subscriber.entity_id());
    assert_eq!(id, subscriber.clone().entity_id());
}

#[test]
fn subscriber_reports_a_receiver_that_is_gone() {
    let (subscriber, receiver) = new_subscriber::<TestEvent>(new_id());
    assert_eq!(Ok(true), subscriber.send(&TestEvent {}));
    drop(receiver);
    assert_eq!(Err(PubSubError::ReceiverIsGone), subscriber.send(&TestEvent {}));

    let (sender, receiver) = mpsc::channel::<Rc<TestEvent>>();
    let subscriber = StdSubscriber::new(sender, new_id());
    assert_eq!(Ok(true), subscriber.send(&TestEvent {}));
    drop(receiver);
    assert_eq!(Err(PubSubError::ReceiverIsGone), subscriber.send(&TestEvent {}));
}

#[test]
fn queue_answer_is_kept_or_gone() {
    assert_eq!(Ok(true), answer_of_queue(true));
    assert_eq!(Err(PubSubError::ReceiverIsGone), answer_of_queue(false));
}

#[test]
fn plain_channel_drops_a_subscriber_whose_receiver_is_gone() {
    let (first, first_receiver) = new_subscriber::<TestEvent>(new_id());
    let (second, second_receiver) = new_subscriber::<TestEvent>(new_id());
    let mut pub_sub = PubSubChannel::new();
    pub_sub.subscribe(first);
    pub_sub.subscribe(second);
    assert_eq!(Ok(()), pub_sub.publish(&TestEvent {}));
    drop(first_receiver);
    assert_eq!(Ok(()), pub_sub.publish(&TestEvent {}));
    assert_eq!(Ok(()), pub_sub.publish(&TestEvent {}));
    let received: Vec<Rc<TestEvent>> = second_receiver.take(3).collect().wait().unwrap();
    assert_eq!(3, received.len());
}

#[test]
fn subscription_hands_events_on_and_gives_the_subscriber_back() {
    let id = new_id();
    let (subscriber, receiver) = new_subscriber::<TestEvent>(id);
    let mut subscription = Subscription::new(subscriber);
    assert_eq!(id, subscription.entity_id());
    assert!(subscription.send(&TestEvent {}));
    drop(receiver);
    assert!(!subscription.send(&TestEvent {}));
    assert_eq!(id, subscription.into_handle().entity_id());
}

#[test]
fn walk_is_received_in_order_through_a_queue() {
    let mut channel: SpatialChannel<_, DemoEntity> =
        SpatialChannel::new(MapDefinition::new(16, 16));
    let entity = DemoEntity { id: new_id(), last_state_update: Timestamp::new().unwrap() };
    let (subscriber, receiver) = new_subscriber(entity.id);
    channel.subscribe(subscriber, &Point(0, 0)).unwrap();
    for i in 0..160 {
        channel.publish(SpatialEvent {
            from: Point(i, 0),
            to: Some(Point(i + 1, 0)),
            acting_entity: entity,
            is_a_move: true,
        });
    }
    let received: Vec<Rc<SpatialEvent<DemoEntity>>> =
        receiver.take(160).collect().wait().unwrap();
    assert_eq!(160, received.len());
    for i in 0..160 {
        assert_eq!(Some(Point(i + 1, 0)), received[i].to);
        assert_eq!(entity, received[i].acting_entity);
    }
}

#[test]
fn only_a_plain_yes_keeps_a_subscription() {
    assert!(keeps_subscription(Ok(true)));
    assert!(!keeps_subscription(Ok(false)));
    assert!(!keeps_subscription(Err(PubSubError::ReceiverIsGone)));
}

#[test]
fn thousand_moves_in_a_row_are_all_received() {
    let map_width_in_zones = 64;
    let map_width = map_width_in_zones * 16;
    let mut channel: SpatialChannel<_, DemoEntity> =
        SpatialChannel::new(MapDefinition::new(16, map_width_in_zones));
    let entity = DemoEntity { id: new_id(), last_state_update: Timestamp::new().unwrap() };
    let (subscriber, receiver) = new_subscriber(entity.id);
    let number_of_events = 1000;
    let mut position = Point(0, 0);
    channel.subscribe(subscriber, &position).unwrap();
    for _i in 0..number_of_events {
        let new_x = position.0 + 1;
        assert!(new_x < map_width);
        let destination = Point(new_x, position.1);
        channel.publish(SpatialEvent {
            from: position,
            to: Some(destination),
            acting_entity: entity,
            is_a_move: true,
        });
        position = destination;
    }
    let received: Vec<Rc<SpatialEvent<DemoEntity>>> =
        receiver.take(number_of_events as u64).collect().wait().unwrap();
    assert_eq!(number_of_events, received.len());
    assert_eq!(Some(Point(1000, 0)), received[999].to);
}
