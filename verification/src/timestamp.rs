use vstd::prelude::*;
use chrono::TimeZone;

verus! {

/// A point in time on the UTC time line: whole seconds since
/// 1970-01-01 00:00:00 UTC and the nanoseconds since that second began.
#[derive(Clone, Copy, Debug, PartialEq, Eq, Structural, PartialOrd, Ord, Hash)]
pub struct Timestamp {
    pub seconds: i64,
    pub nanoseconds: u32,
}

/// The error with which `chrono` rejects a text or a pattern. Nothing is
/// known of what it holds.
#[verifier::external_type_specification]
#[verifier::external_body]
pub struct ExDatetimeFormatError(chrono::format::ParseError);

/// What `chrono` reads out of `field` under the `strftime` pattern `format`,
/// taken as a UTC date and time: the seconds and nanoseconds of the instant,
/// or `None` where `chrono` rejects the text or the pattern.
pub uninterp spec fn utc_datetime_from_str(field: Seq<char>, format: Seq<char>) -> Option<
    (i64, u32),
>;

/// How `chrono` prints the UTC date and time that lies `nanoseconds` after the
/// `seconds`-th second since 1970-01-01 00:00:00 UTC, or `None` where `chrono`
/// has no date for that instant.
pub uninterp spec fn utc_datetime_text(seconds: i64, nanoseconds: u32) -> Option<Seq<char>>;

impl Timestamp {
    pub fn new(seconds: i64, nanoseconds: u32) -> (t: Timestamp)
        ensures
            t == (Timestamp { seconds, nanoseconds }),
    {
        Timestamp { seconds, nanoseconds }
    }

    /// `self` lies strictly before `other`.
    pub open spec fn before(self, other: Timestamp) -> bool {
        self.seconds < other.seconds || (self.seconds == other.seconds && self.nanoseconds
            < other.nanoseconds)
    }

    /// `self` lies before `other` or is the same instant.
    pub open spec fn not_after(self, other: Timestamp) -> bool {
        self == other || self.before(other)
    }

    pub fn is_before(&self, other: &Timestamp) -> (r: bool)
        ensures
            r == self.before(*other),
    {
        self.seconds < other.seconds || (self.seconds == other.seconds && self.nanoseconds
            < other.nanoseconds)
    }

    pub fn is_not_after(&self, other: &Timestamp) -> (r: bool)
        ensures
            r == self.not_after(*other),
    {
        self.seconds < other.seconds || (self.seconds == other.seconds && self.nanoseconds
            <= other.nanoseconds)
    }

    /// Calls `chrono::TimeZone::datetime_from_str` on `chrono::Utc` and takes
    /// the seconds and nanoseconds of the date it returns. The contract
    /// claims that the outcome is a function of the two texts alone, and
    /// gives that function a name; it claims nothing about which texts are
    /// accepted.
    #[verifier::external_body]
    pub(crate) fn parse_utc(field: &str, format: &str) -> (r: Result<
        Timestamp,
        chrono::format::ParseError,
    >)
        ensures
            match r {
                Ok(t) => utc_datetime_from_str(field@, format@) == Some(
                    (t.seconds, t.nanoseconds),
                ),
                Err(_) => utc_datetime_from_str(field@, format@) is None,
            },
    {
        #[allow(deprecated)]
        let parsed = chrono::Utc.datetime_from_str(field, format);
        parsed.map(|d| Timestamp { seconds: d.timestamp(), nanoseconds: d.timestamp_subsec_nanos() })
    }

    /// Builds the `chrono::DateTime<Utc>` of this instant with
    /// `chrono::DateTime::from_timestamp` and prints it with its `Display`
    /// (`2016-01-03 17:00:00 UTC`). The contract claims that the text is a
    /// function of the seconds and nanoseconds alone, and gives that function
    /// a name; `None` stands for the instants that `from_timestamp` refuses.
    #[verifier::external_body]
    pub(crate) fn utc_text(&self) -> (r: Option<String>)
        ensures
            match r {
                Some(s) => utc_datetime_text(self.seconds, self.nanoseconds) == Some(s@),
                None => utc_datetime_text(self.seconds, self.nanoseconds) is None,
            },
    {
        chrono::DateTime::from_timestamp(self.seconds, self.nanoseconds).map(|d| d.to_string())
    }
}

} // verus!
