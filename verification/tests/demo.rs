use spatiub::client::plan_next_move;
use spatiub::client::ClientSession;
use spatiub::client::SessionFault;
use spatiub::client_log::ClientEventLogger;
use spatiub::client_log::LOGGER_BUFFER_SIZE;
use spatiub::codec::length_field_for;
use spatiub::codec::FrameError;
use spatiub::codec::LengthFieldBasedCodec;
use spatiub::entity::DemoEntity;
use spatiub::entity::Timestamp;
use spatiub::message::event_from_client;
use spatiub::message::move_delay_millis;
use spatiub::message::move_message;
use spatiub::message::own_move;
use spatiub::message::Message;
use spatiub::message::Refusal;
use spatiub::futures_sub::new_subscriber;
use spatiub::pub_sub::PubSubError;
use spatiub::server::admit_client;
use spatiub::server::handle_message;
use spatiub::spatial::MapDefinition;
use spatiub::spatial::SpatialChannel;
use futures::Future;
use futures::Stream;
use std::rc::Rc;
use spatiub::spatial::Entity;
use spatiub::spatial::Point;
use spatiub::spatial::SpatialEvent;

fn stamp(secs: u64, nanos: u32) -> Timestamp {
    Timestamp::from_parts(secs, nanos).unwrap()
}

fn entity(id: u128) -> DemoEntity {
    DemoEntity { id, last_state_update: stamp(10, 0) }
}

fn moved(id: u128, to: Option<Point>, is_a_move: bool) -> SpatialEvent<DemoEntity> {
    SpatialEvent { from: Point(1, 1), to, acting_entity: entity(id), is_a_move }
}

#[test]
fn clock_reads_a_time_after_the_epoch() {
    let now = Timestamp::new().unwrap();
    assert!(now.secs() > 1_500_000_000);
    assert!(now.subsec_nanos() < 1_000_000_000);
    let later = Timestamp::new().unwrap();
    assert!(later.as_nanos() >= now.as_nanos());
}

#[test]
fn timestamp_counts_nanoseconds_and_milliseconds() {
    let time = stamp(3, 450_000_007);
    assert_eq!(3, time.secs());
    assert_eq!(450_000_007, time.subsec_nanos());
    assert_eq!(3_450_000_007, time.as_nanos());
    assert_eq!(3_450, time.as_millis());
    assert_eq!(None, Timestamp::from_reading(None));
    assert_eq!(Some(time), Timestamp::from_reading(Some((3, 450_000_007))));
    assert_eq!(None, Timestamp::from_reading(Some((3, 1_000_000_000))));
    assert_eq!(None, Timestamp::from_parts(3, 1_000_000_000));
    assert_eq!(18_446_744_073_709_551_615_999, stamp(u64::MAX, 999_999_999).as_millis());
}

#[test]
fn timestamp_measures_the_span_since_an_earlier_one() {
    let early = stamp(3, 900_000_000);
    let late = stamp(5, 100_000_000);
    assert_eq!(Some(1_200_000_000), late.nanos_since(&early));
    assert_eq!(Some(0), late.nanos_since(&late));
    assert_eq!(None, early.nanos_since(&late));
}

#[test]
fn elapsed_is_measured_against_the_clock() {
    let start = Timestamp::new().unwrap();
    assert!(start.elapsed().is_some());
    assert!(stamp(0, 0).elapsed().unwrap() > 1_500_000_000_000_000_000);
    assert_eq!(None, stamp(u64::MAX, 0).elapsed());
}

#[test]
fn demo_entity_is_known_by_its_id() {
    assert_eq!(77, entity(77).id());
    assert_eq!(entity(77), entity(77).clone());
}

#[test]
fn server_takes_events_of_the_connection_entity_only() {
    let own = Message::Event(moved(5, Some(Point(1, 2)), true));
    match event_from_client(&own, 5) {
        Ok(event) => {
            assert_eq!(5, event.acting_entity.id);
            assert_eq!(Some(Point(1, 2)), event.to);
        },
        Err(_) => panic!(),
    }
    assert_eq!(Some(Refusal::ForeignEntity), event_from_client(&own, 6).err());
    let ack = Message::ConnectionAck(entity(5));
    assert_eq!(Some(Refusal::ForbiddenMessage), event_from_client(&ack, 5).err());
}

#[test]
fn client_moves_on_after_its_own_move_only() {
    let own = Message::Event(moved(5, Some(Point(1, 2)), true));
    assert_eq!(Some((entity(5), Point(1, 2))), own_move(&own, 5));
    assert_eq!(None, own_move(&own, 6));
    assert_eq!(None, own_move(&Message::Event(moved(5, None, true)), 5));
    assert_eq!(None, own_move(&Message::Event(moved(5, Some(Point(1, 2)), false)), 5));
    assert_eq!(None, own_move(&Message::ConnectionAck(entity(5)), 5));
}

#[test]
fn move_message_carries_the_new_time() {
    match move_message(entity(5), Point(1, 2), Point(1, 3), stamp(20, 5)) {
        Message::Event(event) => {
            assert_eq!(Point(1, 2), event.from);
            assert_eq!(Some(Point(1, 3)), event.to);
            assert!(event.is_a_move);
            assert_eq!(5, event.acting_entity.id);
            assert_eq!(stamp(20, 5), event.acting_entity.last_state_update);
        },
        Message::ConnectionAck(_) => panic!(),
    }
}

#[test]
fn move_delay_lies_around_the_mean_interval() {
    let mut rng = rand::thread_rng();
    for _i in 0..1000 {
        let slow = move_delay_millis(&mut rng, 1);
        assert!(500 <= slow && slow < 1500);
        let fast = move_delay_millis(&mut rng, 1000);
        assert_eq!(0, fast);
    }
}

#[test]
fn frame_is_length_then_payload() {
    let codec = LengthFieldBasedCodec::new();
    let mut wire = vec![9u8];
    assert_eq!(Ok(()), codec.encode(&[1, 2, 3], &mut wire));
    assert_eq!(vec![9u8, 0, 0, 0, 3, 1, 2, 3], wire);
    let mut long = Vec::new();
    assert_eq!(Ok(()), codec.encode(&vec![7u8; 0x01020304], &mut long));
    assert_eq!(&[1u8, 2, 3, 4, 7][..], &long[..5]);
    assert_eq!(0x01020304 + 4, long.len());
}

#[test]
fn frame_is_decoded_once_it_is_whole() {
    let codec = LengthFieldBasedCodec::new();
    assert_eq!(None, codec.decode(&[]));
    assert_eq!(None, codec.decode(&[0, 0, 0]));
    assert_eq!(None, codec.decode(&[0, 0, 0, 2, 5]));
    assert_eq!(None, codec.decode(&[0, 0, 0, 4, 5, 6, 7]));
    assert_eq!(Some(vec![5u8, 6]), codec.decode(&[0, 0, 0, 2, 5, 6]));
    assert_eq!(Some(vec![5u8, 6]), codec.decode(&[0, 0, 0, 2, 5, 6, 0, 0]));
    assert_eq!(Some(vec![]), codec.decode(&[0, 0, 0, 0]));
    assert_eq!(None, codec.decode(&[1, 0, 0, 0, 5, 6]));
    assert_eq!(None, codec.decode(&[255, 255, 255, 255, 5, 6]));
}

#[test]
fn frame_reads_back_as_its_payload() {
    let codec = LengthFieldBasedCodec::new();
    let payload: Vec<u8> = (0..=255u8).cycle().take(70_000).collect();
    let mut wire = Vec::new();
    assert_eq!(Ok(()), codec.encode(&payload, &mut wire));
    wire.extend_from_slice(&[1, 2, 3]);
    assert_eq!(Some(payload), codec.decode(&wire));
}

#[test]
fn payload_too_long_for_the_length_field_is_refused() {
    assert_eq!(Ok(0), length_field_for(0));
    assert_eq!(Ok(0xffff_ffff), length_field_for(0xffff_ffff));
    assert_eq!(Err(FrameError::PayloadTooLong), length_field_for(0x1_0000_0000));
    assert_eq!(Err(FrameError::PayloadTooLong), length_field_for(usize::MAX));
}

#[test]
fn timestamp_is_written_in_milliseconds() {
    assert_eq!("3450", stamp(3, 450_000_007).to_text());
    assert_eq!("0", stamp(0, 999_999).to_text());
}

#[test]
fn failure_is_written_by_its_name() {
    assert_eq!("ReceiverIsGone", PubSubError::ReceiverIsGone.to_text());
}

#[test]
fn logger_hands_out_a_full_batch_newest_first() {
    assert_eq!(500, LOGGER_BUFFER_SIZE);
    let mut logger = ClientEventLogger::new();
    assert_eq!(None, logger.flush_if_needed());
    for i in 0..499u64 {
        let event = SpatialEvent {
            from: Point(0, 0),
            to: None,
            acting_entity: DemoEntity { id: 1, last_state_update: stamp(i, 5_000_000) },
            is_a_move: true,
        };
        assert_eq!(None, logger.log(event, 2_000_000_000 + i as u128));
    }
    let last = SpatialEvent {
        from: Point(0, 0),
        to: None,
        acting_entity: DemoEntity { id: 1, last_state_update: stamp(499, 5_000_000) },
        is_a_move: true,
    };
    let batch = logger.log(last, 3_000_000_499).unwrap();
    assert_eq!(500, batch.len());
    assert_eq!((499, 499_005), batch[0]);
    assert_eq!((498, 498_005), batch[1]);
    assert_eq!((0, 5), batch[499]);
    assert_eq!(None, logger.flush_if_needed());
    assert_eq!(None, logger.log(last, 1));
}

#[test]
fn client_waits_for_the_acknowledgement_before_it_moves() {
    let mut session = ClientSession::new();
    let own = Message::Event(moved(5, Some(Point(1, 2)), true));
    assert_eq!(Err(SessionFault::EntityUnknown), session.on_message(&own));
    assert_eq!(Ok(None), session.on_message(&Message::ConnectionAck(entity(5))));
    assert_eq!(Ok(Some((entity(5), Point(1, 2)))), session.on_message(&own));
    let foreign = Message::Event(moved(6, Some(Point(1, 2)), true));
    assert_eq!(Ok(None), session.on_message(&foreign));
    assert_eq!(Ok(None), session.on_message(&Message::ConnectionAck(entity(6))));
    assert_eq!(Ok(Some((entity(6), Point(1, 2)))), session.on_message(&foreign));
}

#[test]
fn server_admits_a_client_and_announces_it() {
    let mut channel: SpatialChannel<_, DemoEntity> =
        SpatialChannel::new(MapDefinition::new(16, 16));
    let mut rng = rand::thread_rng();
    let (first, first_receiver) = new_subscriber(1);
    let position = admit_client(&mut channel, first, entity(1), &mut rng).unwrap();
    assert!(channel.map_definition().point_is_inside(&position));
    let received: Vec<Rc<SpatialEvent<DemoEntity>>> =
        first_receiver.take(1).collect().wait().unwrap();
    assert_eq!(position, received[0].from);
    assert_eq!(Some(position), received[0].to);
    assert!(received[0].is_a_move);
    assert_eq!(entity(1), received[0].acting_entity);

    let (second, second_receiver) = new_subscriber(2);
    assert_eq!(Ok(()), channel.subscribe(second, &position));
    let told: Vec<Rc<SpatialEvent<DemoEntity>>> =
        second_receiver.take(1).collect().wait().unwrap();
    assert!(!told[0].is_a_move);
    assert_eq!(position, told[0].from);
    assert_eq!(entity(1), told[0].acting_entity);
}

#[test]
fn server_publishes_what_it_takes_and_nothing_else() {
    let mut channel: SpatialChannel<_, DemoEntity> =
        SpatialChannel::new(MapDefinition::new(16, 16));
    let (watcher, receiver) = new_subscriber(9);
    channel.subscribe(watcher, &Point(1, 1)).unwrap();

    let ack = Message::ConnectionAck(entity(5));
    assert_eq!(Err(Refusal::ForbiddenMessage), handle_message(&mut channel, &ack, 5));
    let own = Message::Event(moved(5, Some(Point(1, 2)), true));
    assert_eq!(Err(Refusal::ForeignEntity), handle_message(&mut channel, &own, 6));
    let leaving = Message::Event(moved(5, Some(Point(1, 256)), true));
    assert_eq!(Err(Refusal::OffTheMap), handle_message(&mut channel, &leaving, 5));
    let outside = Message::Event(SpatialEvent {
        from: Point(256, 0),
        to: None,
        acting_entity: entity(5),
        is_a_move: true,
    });
    assert_eq!(Err(Refusal::OffTheMap), handle_message(&mut channel, &outside, 5));
    assert_eq!(Ok(()), handle_message(&mut channel, &own, 5));

    let received: Vec<Rc<SpatialEvent<DemoEntity>>> = receiver.take(1).collect().wait().unwrap();
    assert_eq!(Some(Point(1, 2)), received[0].to);
    assert_eq!(5, received[0].acting_entity.id);
}

#[test]
fn next_move_is_one_step_away_and_not_at_once() {
    let map = MapDefinition::new(16, 16);
    let mut rng = rand::thread_rng();
    for _i in 0..1000 {
        let from = map.random_point(&mut rng);
        let (to, delay) = plan_next_move(&map, &from, 2, &mut rng);
        assert!(map.point_is_inside(&to));
        let dx = if to.0 > from.0 { to.0 - from.0 } else { from.0 - to.0 };
        let dy = if to.1 > from.1 { to.1 - from.1 } else { from.1 - to.1 };
        assert_eq!(1, dx * dx + dy * dy);
        assert!(250 <= delay && delay < 750);
    }
}

#[test]
fn span_is_measured_up_to_a_reading() {
    let start = stamp(3, 900_000_000);
    assert_eq!(Some(1_200_000_000), start.elapsed_until(Some(stamp(5, 100_000_000))));
    assert_eq!(Some(0), start.elapsed_until(Some(start)));
    assert_eq!(None, start.elapsed_until(Some(stamp(3, 899_999_999))));
    assert_eq!(None, start.elapsed_until(None));
}
