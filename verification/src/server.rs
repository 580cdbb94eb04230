use crate::entity::DemoEntity;
use crate::message::client_event;
use crate::message::event_from_client;
use crate::message::Message;
use crate::message::Refusal;
use crate::pub_sub::Subscriber;
use crate::spatial::channel::publish_outcome;
use crate::spatial::channel::SpatialChannel;
use crate::spatial::geometry::MapDefinition;
use crate::spatial::geometry::Point;
use crate::spatial::zone::SpatialEvent;
use crate::spatial::zone::SubscribeError;
use vstd::prelude::*;

verus! {

/// The event by which the server announces that `entity` has appeared at `position`.
pub open spec fn arrival(entity: DemoEntity, position: Point) -> SpatialEvent<DemoEntity> {
    SpatialEvent { from: position, to: Some(position), acting_entity: entity, is_a_move: true }
}

/// The event that the server publishes for a client's message, or why it
/// publishes none: the message must be an event of the connection's own entity,
/// and the event must stay on the map.
pub open spec fn event_to_publish(map: MapDefinition, message: Message, connection_entity: u128) -> Result<
    SpatialEvent<DemoEntity>,
    Refusal,
> {
    match client_event(message, connection_entity) {
        Ok(event) => if map.contains(event.from) && (event.to is Some ==> map.contains(
            event.to.unwrap(),
        )) {
            Ok(event)
        } else {
            Err(Refusal::OffTheMap)
        },
        Err(refusal) => Err(refusal),
    }
}

/// Brings a new client onto the map: draws a cell for its entity, admits its
/// subscriber there, and announces the entity at that cell. A subscriber that
/// is refused leaves no trace beyond the notices handed to it.
pub fn admit_client<S: Subscriber<SpatialEvent<DemoEntity>>>(
    channel: &mut SpatialChannel<S, DemoEntity>,
    subscriber: S,
    entity: DemoEntity,
    rng: &mut rand::rngs::ThreadRng,
) -> (admitted: Result<Point, SubscribeError>)
    requires
        old(channel).wf(),
        old(channel).map().spec_coordinate_max() > 0,
    ensures
        final(channel).wf(),
        final(channel).map() == old(channel).map(),
        match admitted {
            Ok(position) => old(channel).map().contains(position) && exists|
                joined: SpatialChannel<S, DemoEntity>,
                outcome: Result<(), SubscribeError>,
            |
                #[trigger] SpatialChannel::subscribed(
                    *old(channel),
                    joined,
                    subscriber,
                    position,
                    true,
                    outcome,
                ) && outcome is Ok && publish_outcome(
                    joined,
                    *final(channel),
                    arrival(entity, position),
                ),
            Err(refusal) => exists|position: Point|
                old(channel).map().contains(position) && #[trigger] SpatialChannel::subscribed(
                    *old(channel),
                    *final(channel),
                    subscriber,
                    position,
                    true,
                    Err(refusal),
                ),
        },
{
    let map: MapDefinition = channel.map_definition();
    let position: Point = map.random_point(rng);
    let admitted: Result<(), SubscribeError> = channel.subscribe(subscriber, &position);
    match admitted {
        Ok(()) => {
            let ghost joined = *channel;
            channel.publish(
                SpatialEvent {
                    to: Some(position),
                    from: position,
                    acting_entity: entity,
                    is_a_move: true,
                },
            );
            assert(SpatialChannel::subscribed(
                *old(channel),
                joined,
                subscriber,
                position,
                true,
                admitted,
            ));
            Ok(position)
        },
        Err(refusal) => {
            assert(admitted == Err::<(), SubscribeError>(refusal));
            assert(SpatialChannel::subscribed(
                *old(channel),
                *channel,
                subscriber,
                position,
                true,
                Err(refusal),
            ));
            Err(refusal)
        },
    }
}

/// Takes a message from the client whose connection was issued for
/// `connection_entity`: publishes the event it carries, or refuses it and
/// leaves the channel as it is.
pub fn handle_message<S: Subscriber<SpatialEvent<DemoEntity>>>(
    channel: &mut SpatialChannel<S, DemoEntity>,
    message: &Message,
    connection_entity: u128,
) -> (handled: Result<(), Refusal>)
    requires
        old(channel).wf(),
    ensures
        match event_to_publish(old(channel).map(), *message, connection_entity) {
            Ok(event) => handled is Ok && publish_outcome(*old(channel), *final(channel), event),
            Err(refusal) => handled == Err::<(), Refusal>(refusal) && *final(channel) == *old(
                channel,
            ),
        },
{
    let map: MapDefinition = channel.map_definition();
    match event_from_client(message, connection_entity) {
        Ok(event) => {
            let on_the_map: bool = map.point_is_inside(&event.from) && match event.to {
                Some(to) => map.point_is_inside(&to),
                None => true,
            };
            if on_the_map {
                channel.publish(event);
                Ok(())
            } else {
                Err(Refusal::OffTheMap)
            }
        },
        Err(refusal) => Err(refusal),
    }
}

} // verus!
