use crate::entity::DemoEntity;
use crate::message::move_delay_millis;
use crate::message::own_move;
use crate::message::own_move_in;
use crate::message::Message;
use crate::spatial::geometry::squared_distance;
use crate::spatial::geometry::MapDefinition;
use crate::spatial::geometry::Point;
use vstd::prelude::*;

verus! {

/// Plans the next move of a client's entity that stands at `from`: the cell
/// to move to, one step away, and how many milliseconds to wait before the
/// move, for a rate of `msg_per_sec` moves a second.
pub fn plan_next_move(
    map: &MapDefinition,
    from: &Point,
    msg_per_sec: u64,
    rng: &mut rand::rngs::ThreadRng,
) -> (plan: (Point, u64))
    requires
        map.can_step_from(*from),
        msg_per_sec > 0,
        500u64 / msg_per_sec < 1500u64 / msg_per_sec,
    ensures
        exists|direction: usize| direction < 4 && plan.0 == #[trigger] map.neighbor(*from, direction),
        map.wf() && map.contains(*from) ==> map.contains(plan.0) && squared_distance(*from, plan.0)
            == 1,
        500u64 / msg_per_sec <= plan.1 < 1500u64 / msg_per_sec,
{
    let next_destination: Point = map.random_point_next_to(from, rng);
    let delay: u64 = move_delay_millis(rng, msg_per_sec);
    (next_destination, delay)
}

/// Why a client cannot go on.
#[derive(Debug, PartialEq, Eq, Structural, Clone, Copy)]
pub enum SessionFault {
    /// The server has sent an event before it has told the client which entity
    /// is the client's own.
    EntityUnknown,
}

/// What a client knows of its connection: the identity of its own entity, once
/// the server has acknowledged the connection.
#[derive(Debug, Clone, Copy)]
pub struct ClientSession {
    entity_id: Option<u128>,
}

impl ClientSession {
    /// The identity of the client's own entity, if the server has told it.
    pub closed spec fn entity_id(&self) -> Option<u128> {
        self.entity_id
    }

    /// The session of a connection that the server has not acknowledged yet.
    pub fn new() -> (session: ClientSession)
        ensures
            session.entity_id() is None,
    {
        ClientSession { entity_id: None }
    }

    /// What the session knows once `message` has come in: an acknowledgement
    /// tells the client its entity, an event changes nothing.
    pub open spec fn entity_after(&self, message: Message) -> Option<u128> {
        match message {
            Message::ConnectionAck(entity) => Some(entity.id),
            Message::Event(_) => self.entity_id(),
        }
    }

    /// Takes a message from the server and tells what to do next: move on from
    /// the cell the client's own entity has just reached, or wait.
    pub fn on_message(&mut self, message: &Message) -> (next: Result<
        Option<(DemoEntity, Point)>,
        SessionFault,
    >)
        ensures
            final(self).entity_id() == old(self).entity_after(*message),
            match final(self).entity_id() {
                Some(id) => next == Ok::<Option<(DemoEntity, Point)>, SessionFault>(
                    own_move_in(*message, id),
                ),
                None => next == Err::<Option<(DemoEntity, Point)>, SessionFault>(
                    SessionFault::EntityUnknown,
                ),
            },
    {
        match *message {
            Message::ConnectionAck(entity) => {
                self.entity_id = Some(entity.id);
            },
            Message::Event(_) => {},
        }
        match self.entity_id {
            Some(id) => Ok(own_move(message, id)),
            None => Err(SessionFault::EntityUnknown),
        }
    }
}

} // verus!
