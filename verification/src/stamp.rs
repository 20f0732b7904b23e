//! Points in time and fresh identifiers, the two things every record takes
//! from outside the library.

use vstd::prelude::*;

verus! {

/// A point in time: microseconds since 1970-01-01T00:00:00Z.
#[derive(Clone, Copy, Debug, PartialEq, Eq, Structural, PartialOrd, Ord, Hash)]
pub struct Timestamp {
    pub micros: i64,
}

impl Timestamp {
    /// The timestamp at `micros` microseconds after the Unix epoch.
    pub fn from_micros(micros: i64) -> (t: Timestamp)
        ensures
            t.micros == micros,
    {
        Timestamp { micros }
    }
}

/// Reads the system clock with `std::time::SystemTime::now` and converts
/// the reading with chrono's `DateTime::<Utc>::from` and
/// `DateTime::timestamp_micros`. Nothing is claimed of the value: two
/// readings may be equal or go backwards. A clock set before 1970 gives a
/// negative reading; the conversion panics only on a clock set outside the
/// years that a `DateTime` holds, some quarter of a million either way.
#[verifier::external_body]
pub(crate) fn now() -> (t: Timestamp) {
    let reading = chrono::DateTime::<chrono::Utc>::from(std::time::SystemTime::now());
    Timestamp { micros: reading.timestamp_micros() }
}

/// Draws a random identifier with `uuid::Uuid::new_v4` and renders it with
/// the `Display` of `Uuid`, the hyphenated form of 36 characters. Nothing is
/// claimed of which identifier comes back: callers that need it to be unused
/// test that themselves. `new_v4` panics if the operating system's random
/// source fails.
#[verifier::external_body]
pub(crate) fn fresh_id() -> (id: String)
    ensures
        id@.len() == 36,
{
    uuid::Uuid::new_v4().to_string()
}

} // verus!
