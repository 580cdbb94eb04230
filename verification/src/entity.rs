use crate::spatial::zone::Entity;
use vstd::prelude::*;

verus! {

/// The nanoseconds in a second.
pub const NANOS_PER_SEC: u32 = 1_000_000_000;

/// A reading of the system clock, as the time that has passed since the Unix
/// epoch: whole seconds, and the nanoseconds of the second under way.
#[derive(Debug, PartialEq, Eq, Structural, Clone, Copy)]
pub struct Timestamp {
    secs: u64,
    subsec_nanos: u32,
}

/// Reads the system clock with `std::time::SystemTime::elapsed` on
/// `std::time::UNIX_EPOCH`. `None` stands for a clock set before the epoch.
/// Of a reading only this is claimed: its nanoseconds stay under one second,
/// as `Duration::subsec_nanos` documents.
#[verifier::external_body]
fn time_since_unix_epoch() -> (reading: Option<(u64, u32)>)
    ensures
        reading matches Some((_, nanos)) ==> nanos < NANOS_PER_SEC,
{
    match std::time::UNIX_EPOCH.elapsed() {
        Ok(duration) => Some((duration.as_secs(), duration.subsec_nanos())),
        Err(_) => None,
    }
}

impl Timestamp {
    pub closed spec fn spec_secs(&self) -> u64 {
        self.secs
    }

    pub closed spec fn spec_subsec_nanos(&self) -> u32 {
        self.subsec_nanos
    }

    /// The nanoseconds of the second under way stay under one second.
    pub open spec fn wf(&self) -> bool {
        self.spec_subsec_nanos() < NANOS_PER_SEC
    }

    /// The nanoseconds since the Unix epoch.
    pub open spec fn nanos(&self) -> nat {
        (self.spec_secs() * NANOS_PER_SEC + self.spec_subsec_nanos()) as nat
    }

    /// The timestamp of `secs` whole seconds and `subsec_nanos` nanoseconds
    /// since the epoch; none where the nanoseconds make up a second or more.
    pub fn from_parts(secs: u64, subsec_nanos: u32) -> (stamp: Option<Timestamp>)
        ensures
            match stamp {
                Some(time) => subsec_nanos < NANOS_PER_SEC && time.wf() && time.spec_secs() == secs
                    && time.spec_subsec_nanos() == subsec_nanos,
                None => subsec_nanos >= NANOS_PER_SEC,
            },
    {
        if subsec_nanos < NANOS_PER_SEC {
            Some(Timestamp { secs, subsec_nanos })
        } else {
            None
        }
    }

    /// The timestamp of a clock reading. A clock set before the epoch gives no
    /// reading, and no timestamp.
    pub fn from_reading(reading: Option<(u64, u32)>) -> (stamp: Option<Timestamp>)
        ensures
            match reading {
                Some((secs, nanos)) => match stamp {
                    Some(time) => nanos < NANOS_PER_SEC && time.wf() && time.spec_secs() == secs
                        && time.spec_subsec_nanos() == nanos,
                    None => nanos >= NANOS_PER_SEC,
                },
                None => stamp is None,
            },
    {
        match reading {
            Some((secs, subsec_nanos)) => Timestamp::from_parts(secs, subsec_nanos),
            None => None,
        }
    }

    /// The current time, or none where the clock is set before the epoch. Of a
    /// reading nothing is known but that it is well formed.
    pub fn new() -> (stamp: Option<Timestamp>)
        ensures
            stamp matches Some(time) ==> time.wf(),
    {
        Timestamp::from_reading(time_since_unix_epoch())
    }

    #[verifier::when_used_as_spec(spec_secs)]
    pub fn secs(&self) -> (secs: u64)
        ensures
            secs == self.spec_secs(),
    {
        self.secs
    }

    #[verifier::when_used_as_spec(spec_subsec_nanos)]
    pub fn subsec_nanos(&self) -> (nanos: u32)
        ensures
            nanos == self.spec_subsec_nanos(),
    {
        self.subsec_nanos
    }

    /// The nanoseconds since the Unix epoch.
    pub fn as_nanos(&self) -> (total: u128)
        ensures
            total == self.nanos(),
    {
        let secs: u128 = self.secs as u128;
        let nanos: u128 = self.subsec_nanos as u128;
        assert(secs * 1_000_000_000 <= 0xffff_ffff_ffff_ffff * 1_000_000_000) by (nonlinear_arith)
            requires
                secs <= 0xffff_ffff_ffff_ffff,
        ;
        secs * 1_000_000_000 + nanos
    }

    /// The whole milliseconds since the Unix epoch.
    pub fn as_millis(&self) -> (total: u128)
        ensures
            total == self.spec_secs() * 1000 + self.spec_subsec_nanos() / 1_000_000,
    {
        let secs: u128 = self.secs as u128;
        let nanos: u128 = self.subsec_nanos as u128;
        assert(secs * 1000 <= 0xffff_ffff_ffff_ffff * 1000) by (nonlinear_arith)
            requires
                secs <= 0xffff_ffff_ffff_ffff,
        ;
        secs * 1000 + nanos / 1_000_000
    }

    /// The whole milliseconds since the Unix epoch, in decimal digits as the
    /// standard library writes a number.
    pub fn to_text(&self) -> (text: String)
        ensures
            vstd::string::to_string_from_display_ensures::<u128>(
                &((self.spec_secs() * 1000 + self.spec_subsec_nanos() / 1_000_000) as u128),
                text,
            ),
    {
        let millis: u128 = self.as_millis();
        millis.to_string()
    }

    /// The nanoseconds from `earlier` to this timestamp; `None` when `earlier`
    /// is the later of the two.
    pub fn nanos_since(&self, earlier: &Timestamp) -> (span: Option<u128>)
        ensures
            match span {
                Some(nanos) => earlier.nanos() + nanos == self.nanos(),
                None => earlier.nanos() > self.nanos(),
            },
    {
        let end: u128 = self.as_nanos();
        let start: u128 = earlier.as_nanos();
        if start <= end {
            Some(end - start)
        } else {
            None
        }
    }

    /// The nanoseconds from this timestamp to the time `reading`; none where
    /// there is no reading or the reading is the earlier of the two.
    pub open spec fn span_until(&self, reading: Option<Timestamp>) -> Option<u128> {
        match reading {
            Some(now) => if self.nanos() <= now.nanos() {
                Some((now.nanos() - self.nanos()) as u128)
            } else {
                None
            },
            None => None,
        }
    }

    /// The nanoseconds from this timestamp to the time that the clock gave when
    /// it was read, if it gave one.
    pub fn elapsed_until(&self, reading: Option<Timestamp>) -> (span: Option<u128>)
        ensures
            span == self.span_until(reading),
    {
        match reading {
            Some(now) => now.nanos_since(self),
            None => None,
        }
    }

    /// The nanoseconds from this timestamp to the current time. None where the
    /// clock is set before the epoch or reads earlier than this timestamp.
    pub fn elapsed(&self) -> (span: Option<u128>)
        ensures
            exists|reading: Option<Timestamp>|
                (reading matches Some(now) ==> now.wf()) && span == #[trigger] self.span_until(
                    reading,
                ),
    {
        let reading: Option<Timestamp> = Timestamp::new();
        self.elapsed_until(reading)
    }
}

/// The entity of the demo: an identity and the time of its last update.
#[derive(Debug, PartialEq, Eq, Structural, Clone, Copy)]
pub struct DemoEntity {
    pub id: u128,
    pub last_state_update: Timestamp,
}

impl Entity for DemoEntity {
    open spec fn spec_id(&self) -> u128 {
        self.id
    }

    fn id(&self) -> (id: u128) {
        self.id
    }

    fn duplicate(&self) -> (copy: Self) {
        *self
    }
}

} // verus!
