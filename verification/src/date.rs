//! Mac file timestamps: signed 32-bit second counts relative to the start of
//! the year 2000, and their conversion to calendar timestamps.

use vstd::prelude::*;

use crate::bytes::{be_i32_at, read_be_i32};

verus! {

/// Unix timestamp for 2000-01-01T00:00:00Z, the zero point of Mac file
/// timestamps.
pub const MAC_EPOCH: i64 = 946_684_800;

/// The lowest Unix timestamp that `time::OffsetDateTime` represents
/// (-9999-01-01T00:00:00Z).
pub const UNIX_TIMESTAMP_MIN: i64 = -377_705_116_800;

/// The highest whole-second Unix timestamp that `time::OffsetDateTime`
/// represents (9999-12-31T23:59:59Z).
pub const UNIX_TIMESTAMP_MAX: i64 = 253_402_300_799;

/// Mac file timestamp: the number of seconds before or after the start of
/// the year 2000.
#[derive(Debug, Default, Clone, Copy, PartialEq, Eq, PartialOrd, Ord, Structural)]
pub struct Date(pub i32);

/// `time::OffsetDateTime`, a calendar timestamp, carried opaquely.
#[verifier::external_type_specification]
#[verifier::external_body]
pub struct ExOffsetDateTime(time::OffsetDateTime);

/// The calendar timestamp that stands for a Unix timestamp: what
/// `time::OffsetDateTime::from_unix_timestamp` computes, which depends on
/// its argument alone.
pub uninterp spec fn datetime_of(ts: i64) -> time::OffsetDateTime;

/// Relies on time::OffsetDateTime::from_unix_timestamp: it returns the
/// calendar timestamp of its argument exactly when the argument lies within
/// the representable calendar range, whose bounds its source fixes at
/// -9999-01-01T00:00:00Z and 9999-12-31T23:59:59.999999999Z.
#[verifier::external_body]
fn datetime_from_unix(ts: i64) -> (r: Option<time::OffsetDateTime>)
    ensures
        r is Some <==> UNIX_TIMESTAMP_MIN <= ts <= UNIX_TIMESTAMP_MAX,
        r matches Some(dt) ==> dt == datetime_of(ts),
{
    time::OffsetDateTime::from_unix_timestamp(ts).ok()
}

impl Date {
    /// This timestamp as seconds after the Unix epoch.
    pub fn as_unix_timestamp(&self) -> (r: i64)
        ensures
            r == self.0 + MAC_EPOCH,
    {
        self.0 as i64 + MAC_EPOCH
    }

    /// This timestamp as a calendar timestamp: the one that stands for this
    /// count's absolute Unix time, which a 32-bit count always has within
    /// the representable calendar range. The raw count in `self` remains
    /// available either way; `None` is left to the signature for counts
    /// wider than this format carries.
    pub fn to_datetime(&self) -> (r: Option<time::OffsetDateTime>)
        ensures
            r matches Some(dt) && dt == datetime_of((self.0 + MAC_EPOCH) as i64),
    {
        let ts = self.as_unix_timestamp();
        assert(UNIX_TIMESTAMP_MIN <= ts <= UNIX_TIMESTAMP_MAX);
        datetime_from_unix(ts)
    }
}

/// All the dates that the Finder will record for a file.
#[derive(Debug, Default, Clone, Copy, PartialEq, Eq, Structural)]
pub struct Dates {
    pub create: Date,
    pub modify: Date,
    pub backup: Date,
    pub access: Date,
}

/// What the 16 file-date bytes starting at position 0 of `b` hold: creation,
/// modification, backup and access timestamps, one big-endian signed 32-bit
/// count each, in that order.
pub open spec fn spec_dates(b: Seq<u8>) -> Dates {
    Dates {
        create: Date(be_i32_at(b, 0)),
        modify: Date(be_i32_at(b, 4)),
        backup: Date(be_i32_at(b, 8)),
        access: Date(be_i32_at(b, 12)),
    }
}

impl Dates {
    /// Decodes the fixed 16-byte big-endian file-dates block.
    pub fn from_bytes(b: &[u8]) -> (r: Dates)
        requires
            b@.len() >= 16,
        ensures
            r == spec_dates(b@),
    {
        Dates {
            create: Date(read_be_i32(b, 0)),
            modify: Date(read_be_i32(b, 4)),
            backup: Date(read_be_i32(b, 8)),
            access: Date(read_be_i32(b, 12)),
        }
    }
}

} // verus!
