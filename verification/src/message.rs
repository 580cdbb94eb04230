use crate::entity::DemoEntity;
use crate::entity::Timestamp;
use crate::spatial::rng::gen_range_usize;
use crate::spatial::geometry::Point;
use crate::spatial::zone::SpatialEvent;
use vstd::prelude::*;

verus! {

/// What travels between the server and a client.
#[derive(Debug, Clone, Copy)]
pub enum Message {
    /// Server to client, once per connection: the entity minted for the client.
    ConnectionAck(DemoEntity),
    /// Either way: something happened to an entity.
    Event(SpatialEvent<DemoEntity>),
}

/// Why the server does not take a message from a client.
#[derive(Debug, PartialEq, Eq, Structural, Clone, Copy)]
pub enum Refusal {
    /// Only the server acknowledges connections.
    ForbiddenMessage,
    /// The event speaks for an entity other than the connection's own.
    ForeignEntity,
    /// The event starts or ends on a cell that the map does not have.
    OffTheMap,
}

/// What the server makes of a message from the client whose connection was
/// issued for `connection_entity`: an event of that entity is taken, anything
/// else is refused.
pub open spec fn client_event(message: Message, connection_entity: u128) -> Result<
    SpatialEvent<DemoEntity>,
    Refusal,
> {
    match message {
        Message::ConnectionAck(_) => Err(Refusal::ForbiddenMessage),
        Message::Event(event) => if event.acting_entity.id == connection_entity {
            Ok(event)
        } else {
            Err(Refusal::ForeignEntity)
        },
    }
}

/// What the server makes of a message from the client whose connection was
/// issued for `connection_entity`.
pub fn event_from_client(message: &Message, connection_entity: u128) -> (accepted: Result<
    SpatialEvent<DemoEntity>,
    Refusal,
>)
    ensures
        accepted == client_event(*message, connection_entity),
{
    match *message {
        Message::ConnectionAck(_) => Err(Refusal::ForbiddenMessage),
        Message::Event(event) => {
            if event.acting_entity.id == connection_entity {
                Ok(event)
            } else {
                Err(Refusal::ForeignEntity)
            }
        },
    }
}

/// The entity and the cell from which its next move starts, if `message` tells
/// the client of `client_entity` that its own entity has moved.
pub open spec fn own_move_in(message: Message, client_entity: u128) -> Option<(DemoEntity, Point)> {
    match message {
        Message::Event(event) => if event.is_a_move && event.to is Some
            && event.acting_entity.id == client_entity {
            Some((event.acting_entity, event.to.unwrap()))
        } else {
            None
        },
        Message::ConnectionAck(_) => None,
    }
}

/// Whether a message tells a client that its own entity has moved, and if so
/// the entity and the cell from which its next move starts.
pub fn own_move(message: &Message, client_entity: u128) -> (moved: Option<(DemoEntity, Point)>)
    ensures
        moved == own_move_in(*message, client_entity),
{
    match *message {
        Message::Event(event) => {
            match event.to {
                Some(to) => {
                    if event.is_a_move && event.acting_entity.id == client_entity {
                        Some((event.acting_entity, to))
                    } else {
                        None
                    }
                },
                None => None,
            }
        },
        Message::ConnectionAck(_) => None,
    }
}

/// The message by which a client announces that `entity` moves from `from` to
/// `to`, stamped with the time `now`.
pub fn move_message(entity: DemoEntity, from: Point, to: Point, now: Timestamp) -> (message: Message)
    ensures
        message matches Message::Event(event) && event.from == from && event.to == Some(to)
            && event.is_a_move && event.acting_entity.id == entity.id
            && event.acting_entity.last_state_update == now,
{
    Message::Event(
        SpatialEvent {
            from,
            to: Some(to),
            acting_entity: DemoEntity { id: entity.id, last_state_update: now },
            is_a_move: true,
        },
    )
}

/// Draws how many milliseconds a client waits before its next move, for a rate
/// of `msg_per_sec` moves a second: between half and one and a half times the
/// mean interval.
pub fn move_delay_millis(rng: &mut rand::rngs::ThreadRng, msg_per_sec: u64) -> (millis: u64)
    requires
        msg_per_sec > 0,
        500u64 / msg_per_sec < 1500u64 / msg_per_sec,
    ensures
        500u64 / msg_per_sec <= millis < 1500u64 / msg_per_sec,
{
    let low: usize = (500 / msg_per_sec) as usize;
    let high: usize = (1500 / msg_per_sec) as usize;
    gen_range_usize(rng, low, high) as u64
}

} // verus!
