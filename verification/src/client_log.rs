use crate::entity::DemoEntity;
use crate::spatial::zone::SpatialEvent;
use vstd::prelude::*;

verus! {

/// How many events the logger holds back before it hands them out.
pub const LOGGER_BUFFER_SIZE: usize = 500;

/// What is written of one event: the nanoseconds of the second under way of
/// its latency, and the time of the entity's last update in milliseconds.
pub open spec fn log_entry(event: SpatialEvent<DemoEntity>, latency: u128) -> (u128, u128) {
    (
        (latency % 1_000_000_000) as u128,
        (event.acting_entity.last_state_update.spec_secs() * 1000
            + event.acting_entity.last_state_update.spec_subsec_nanos() / 1_000_000) as u128,
    )
}

/// The entries of a batch: those of the buffered events, newest first.
pub open spec fn batch_of(entries: Seq<(SpatialEvent<DemoEntity>, u128)>) -> Seq<(u128, u128)> {
    Seq::new(
        entries.len(),
        |k: int| log_entry(entries[entries.len() - 1 - k].0, entries[entries.len() - 1 - k].1),
    )
}

/// Holds the events a client has received, each with its latency in
/// nanoseconds, until a batch of them is due.
pub struct ClientEventLogger {
    buffer: Vec<(SpatialEvent<DemoEntity>, u128)>,
}

impl ClientEventLogger {
    /// The events held back, oldest first.
    pub closed spec fn entries(&self) -> Seq<(SpatialEvent<DemoEntity>, u128)> {
        self.buffer@
    }

    pub fn new() -> (logger: ClientEventLogger)
        ensures
            logger.entries() == Seq::<(SpatialEvent<DemoEntity>, u128)>::empty(),
    {
        ClientEventLogger { buffer: Vec::new() }
    }

    /// Takes one event in, and hands out the batch if that makes it due.
    pub fn log(&mut self, event: SpatialEvent<DemoEntity>, latency: u128) -> (batch: Option<
        Vec<(u128, u128)>,
    >)
        ensures
            match batch {
                Some(lines) => old(self).entries().len() + 1 == LOGGER_BUFFER_SIZE && lines@
                    == batch_of(old(self).entries().push((event, latency)))
                    && final(self).entries() == Seq::<(SpatialEvent<DemoEntity>, u128)>::empty(),
                None => old(self).entries().len() + 1 != LOGGER_BUFFER_SIZE && final(self).entries()
                    == old(self).entries().push((event, latency)),
            },
    {
        self.buffer.push((event, latency));
        self.flush_if_needed()
    }

    /// Hands out a batch once exactly `LOGGER_BUFFER_SIZE` events are held
    /// back, and holds back none of them any longer.
    pub fn flush_if_needed(&mut self) -> (batch: Option<Vec<(u128, u128)>>)
        ensures
            match batch {
                Some(lines) => old(self).entries().len() == LOGGER_BUFFER_SIZE && lines@ == batch_of(
                    old(self).entries(),
                ) && final(self).entries() == Seq::<(SpatialEvent<DemoEntity>, u128)>::empty(),
                None => old(self).entries().len() != LOGGER_BUFFER_SIZE && final(self).entries()
                    == old(self).entries(),
            },
    {
        if self.buffer.len() != LOGGER_BUFFER_SIZE {
            return None;
        }
        let ghost held = self.buffer@;
        let mut lines: Vec<(u128, u128)> = Vec::new();
        while self.buffer.len() > 0
            invariant
                self.buffer@.len() + lines@.len() == held.len(),
                self.buffer@ == held.take(self.buffer@.len() as int),
                forall|k: int|
                    0 <= k < lines@.len() ==> #[trigger] lines@[k] == log_entry(
                        held[held.len() - 1 - k].0,
                        held[held.len() - 1 - k].1,
                    ),
            decreases self.buffer@.len(),
        {
            match self.buffer.pop() {
                Some((event, reception_time)) => {
                    lines.push(
                        (
                            reception_time % 1_000_000_000,
                            event.acting_entity.last_state_update.as_millis(),
                        ),
                    );
                },
                None => {},
            }
        }
        assert(lines@ =~= batch_of(held));
        Some(lines)
    }
}

} // verus!
