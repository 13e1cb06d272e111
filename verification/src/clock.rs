//! Points in time.

use vstd::prelude::*;

verus! {

/// The first and the last second that a timestamp can name, counted from the start of 1970 in UTC.
pub const FIRST_SECOND: i64 = -8334601228800;

pub const LAST_SECOND: i64 = 8210266876799;

/// A point in time: seconds from the start of 1970 in UTC, and nanoseconds within the second. The
/// nanoseconds run on past the whole second only in a leap second.
#[derive(Clone, Copy, PartialEq, Eq, Structural, Debug)]
pub struct Timestamp {
    seconds: i64,
    nanos: u32,
}

/// Whether seconds and nanoseconds name a point in time.
pub open spec fn names_a_time(seconds: i64, nanos: u32) -> bool {
    &&& FIRST_SECOND <= seconds <= LAST_SECOND
    &&& nanos < 1_000_000_000 || (nanos < 2_000_000_000 && seconds % 60 == 59)
}

/// The text that `chrono` writes for a point in time, with the offset as `Z` or as `+00:00`.
pub uninterp spec fn rfc3339(seconds: i64, nanos: u32, zulu: bool) -> Seq<char>;

/// `DateTime::to_rfc3339_opts` of `chrono`, on the time in UTC that `DateTime::from_timestamp`
/// makes of the seconds and nanoseconds: date and time in the notation of RFC 3339, with as many
/// digits after the second as the nanoseconds need.
#[verifier::external_body]
fn rfc3339_text(seconds: i64, nanos: u32, zulu: bool) -> (r: String)
    requires
        names_a_time(seconds, nanos),
    ensures
        r@ == rfc3339(seconds, nanos, zulu),
{
    chrono::DateTime::<chrono::Utc>::from_timestamp(seconds, nanos)
        .expect("the second is in range")
        .to_rfc3339_opts(chrono::SecondsFormat::AutoSi, zulu)
}

impl Timestamp {
    #[verifier::type_invariant]
    spec fn is_a_time(self) -> bool {
        names_a_time(self.seconds, self.nanos)
    }

    /// The seconds.
    pub closed spec fn spec_seconds(self) -> i64 {
        self.seconds
    }

    /// The nanoseconds within the second.
    pub closed spec fn spec_nanos(self) -> u32 {
        self.nanos
    }

    /// The text of the point in time.
    pub open spec fn spec_text(self, zulu: bool) -> Seq<char> {
        rfc3339(self.spec_seconds(), self.spec_nanos(), zulu)
    }

    /// The point in time that seconds and nanoseconds name, if they name one.
    pub fn from_unix(seconds: i64, nanos: u32) -> (r: Option<Timestamp>)
        ensures
            match r {
                Some(t) => names_a_time(seconds, nanos) && t.spec_seconds() == seconds
                    && t.spec_nanos() == nanos,
                None => !names_a_time(seconds, nanos),
            },
    {
        if seconds < FIRST_SECOND || seconds > LAST_SECOND {
            return None;
        }
        if nanos < 1_000_000_000 {
            return Some(Timestamp { seconds, nanos });
        }
        let shifted: u64 = (seconds - FIRST_SECOND) as u64;
        proof {
            assert(FIRST_SECOND % 60 == 0);
            assert(shifted % 60 == seconds % 60);
        }
        if nanos < 2_000_000_000 && shifted % 60 == 59 {
            Some(Timestamp { seconds, nanos })
        } else {
            None
        }
    }

    /// The seconds.
    pub fn seconds(self) -> (r: i64)
        ensures
            r == self.spec_seconds(),
    {
        self.seconds
    }

    /// The nanoseconds within the second.
    pub fn nanos(self) -> (r: u32)
        ensures
            r == self.spec_nanos(),
    {
        self.nanos
    }

    /// The point in time in the notation of RFC 3339, with the offset as `Z` or as `+00:00`.
    pub fn text(self, zulu: bool) -> (r: String)
        ensures
            r@ == self.spec_text(zulu),
    {
        proof {
            use_type_invariant(&self);
        }
        rfc3339_text(self.seconds, self.nanos, zulu)
    }
}

/// `SystemTime::now` of std, as whole seconds since the start of 1970; none where the clock is set
/// before that.
#[verifier::external_body]
pub(crate) fn unix_seconds() -> (r: Option<u64>)
{
    std::time::SystemTime::now().duration_since(std::time::UNIX_EPOCH).ok().map(|d| d.as_secs())
}

/// Every second between the first and the last has a thousand million nanoseconds, and the last second
/// of a minute has as many more, for a leap second. There is no time besides these.
pub proof fn which_times_there_are(seconds: i64, nanos: u32)
    ensures
        names_a_time(seconds, nanos) ==> -8334601228800 <= seconds <= 8210266876799,
        -8334601228800 <= seconds <= 8210266876799 && nanos < 1_000_000_000 ==> names_a_time(
            seconds,
            nanos,
        ),
        -8334601228800 <= seconds <= 8210266876799 && 1_000_000_000 <= nanos ==> (names_a_time(
            seconds,
            nanos,
        ) <==> nanos < 2_000_000_000 && (seconds + 1) % 60 == 0),
{
}

} // verus!
