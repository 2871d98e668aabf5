//! Universally unique identifiers and points in time.

use crate::number::hex;
use vstd::prelude::*;

verus! {

/// A universally unique identifier, as a number. Identifiers are ordered as
/// their numbers are.
#[derive(Debug, Clone, Copy, PartialEq, Eq, Structural)]
pub struct Uuid {
    pub value: u128,
}

impl View for Uuid {
    type V = u128;

    open spec fn view(&self) -> u128 {
        self.value
    }
}

/// The version of an identifier: its thirteenth hexadecimal digit.
pub open spec fn uuid_version(value: u128) -> int {
    value as int / 0x1000_0000_0000_0000_0000 % 16
}

/// The variant of an identifier: the two highest bits of its ninth byte.
pub open spec fn uuid_variant(value: u128) -> int {
    value as int / 0x4000_0000_0000_0000 % 4
}

/// An identifier in lower-case hexadecimal, in groups of 8, 4, 4, 4 and 12
/// digits with hyphens between them.
pub open spec fn uuid_text(value: u128) -> Seq<char> {
    let n = value as nat;
    hex(n / 0x1_0000_0000_0000_0000_0000_0000, 8) + seq!['-'] + hex(
        n / 0x1_0000_0000_0000_0000_0000,
        4,
    ) + seq!['-'] + hex(n / 0x1_0000_0000_0000_0000, 4) + seq!['-'] + hex(n / 0x1_0000_0000_0000, 4)
        + seq!['-'] + hex(n, 12)
}

/// What `uuid::Uuid::parse_str` reads from a text: the number, or the text of
/// its error.
pub uninterp spec fn uuid_read(text: Seq<char>) -> Result<u128, Seq<char>>;

/// `uuid::Uuid::from_u128` and `to_string` (through `Display`): the identifier
/// in hyphenated lower-case form.
#[verifier::external_body]
fn print_uuid(value: u128) -> (r: String)
    ensures
        r@ == uuid_text(value),
{
    uuid::Uuid::from_u128(value).to_string()
}

/// `uuid::Uuid::parse_str`: the identifier that the text describes, or the text
/// of the error. Which one depends on the text alone, and the hyphenated form
/// of an identifier is read as that identifier.
#[verifier::external_body]
fn read_uuid(text: &str) -> (r: Result<u128, String>)
    ensures
        r is Ok <==> uuid_read(text@) is Ok,
        r is Ok ==> r->Ok_0 == uuid_read(text@)->Ok_0,
        r is Err ==> r->Err_0@ == uuid_read(text@)->Err_0,
        forall|v: u128| text@ == #[trigger] uuid_text(v) ==> r is Ok && r->Ok_0 == v,
{
    match uuid::Uuid::parse_str(text) {
        Ok(id) => Ok(id.as_u128()),
        Err(e) => Err(e.to_string()),
    }
}

/// `uuid::Uuid::now_v7`: a fresh identifier of version 7. Which one depends on
/// the time and on chance. That the clock is not set to a time before 1970,
/// where the call panics, rests on the machine.
#[verifier::external_body]
fn fresh_uuid() -> (r: u128)
    ensures
        uuid_version(r) == 7,
        uuid_variant(r) == 2,
{
    uuid::Uuid::now_v7().as_u128()
}

impl Uuid {
    /// The identifier in hyphenated lower-case form.
    pub fn to_text(self) -> (r: String)
        ensures
            r@ == uuid_text(self@),
    {
        print_uuid(self.value)
    }

    /// The identifier that a text describes, or what is wrong with the text.
    pub fn parse(text: &str) -> (r: Result<Uuid, String>)
        ensures
            r is Ok <==> uuid_read(text@) is Ok,
            r is Ok ==> r->Ok_0@ == uuid_read(text@)->Ok_0,
            r is Err ==> r->Err_0@ == uuid_read(text@)->Err_0,
            forall|v: u128| text@ == #[trigger] uuid_text(v) ==> r is Ok && r->Ok_0@ == v,
    {
        match read_uuid(text) {
            Ok(value) => Ok(Uuid { value }),
            Err(e) => Err(e),
        }
    }

    /// A fresh identifier of version 7.
    pub fn now_v7() -> (r: Uuid)
        ensures
            uuid_version(r@) == 7,
            uuid_variant(r@) == 2,
    {
        Uuid { value: fresh_uuid() }
    }
}

/// A point in time: seconds since the start of 1970 and nanoseconds within the
/// second. A leap second counts on within its second.
#[derive(Debug, Clone, Copy, PartialEq, Eq, Structural)]
pub struct Timestamp {
    pub secs: i64,
    pub nanos: u32,
}

impl Timestamp {
    /// This point lies before `other`.
    pub open spec fn lt(self, other: Timestamp) -> bool {
        self.secs < other.secs || (self.secs == other.secs && self.nanos < other.nanos)
    }

    /// Whether this point lies before `other`.
    pub fn is_before(self, other: Timestamp) -> (r: bool)
        ensures
            r == self.lt(other),
    {
        self.secs < other.secs || (self.secs == other.secs && self.nanos < other.nanos)
    }

    /// The point lies within the calendar: it can be written as a date.
    pub open spec fn is_date(self) -> bool {
        &&& date_printed(self.secs, self.nanos) is Some
        &&& rfc3339_printed(self.secs, self.nanos) is Some
    }

    /// The present. Which point that is depends on the clock of the machine; it
    /// lies within the calendar, and never in a leap second.
    pub fn now() -> (r: Timestamp)
        ensures
            r.is_date(),
            r.nanos < 1_000_000_000,
    {
        let (secs, nanos) = utc_now();
        Timestamp { secs, nanos }
    }

    /// The date and the time of day in UTC, to the second; nothing if the point
    /// lies outside of the calendar.
    pub fn to_date_text(self) -> (r: Option<String>)
        ensures
            r is Some <==> date_printed(self.secs, self.nanos) is Some,
            r is Some ==> r->0@ == date_printed(self.secs, self.nanos)->0,
    {
        print_date(self.secs, self.nanos)
    }

    /// The date and the time of day as RFC 3339 writes them; nothing if the
    /// point lies outside of the calendar.
    pub fn to_rfc3339(self) -> (r: Option<String>)
        ensures
            r is Some <==> rfc3339_printed(self.secs, self.nanos) is Some,
            r is Some ==> r->0@ == rfc3339_printed(self.secs, self.nanos)->0,
    {
        print_rfc3339(self.secs, self.nanos)
    }
}

/// What `chrono::DateTime::format` prints with the pattern
/// `%Y-%m-%d %H:%M:%SZ` of the given second and nanosecond, in UTC; nothing
/// where `chrono` has no such date.
pub uninterp spec fn date_printed(secs: i64, nanos: u32) -> Option<Seq<char>>;

/// What `chrono::DateTime::to_rfc3339` prints of the given second and
/// nanosecond, in UTC; nothing where `chrono` has no such date.
pub uninterp spec fn rfc3339_printed(secs: i64, nanos: u32) -> Option<Seq<char>>;

/// `chrono::DateTime::format` with the pattern `%Y-%m-%d %H:%M:%SZ`, on the date
/// that `chrono::DateTime::from_timestamp` makes of the second and the
/// nanosecond, where it makes one. The text depends on these two alone: it is
/// the date in UTC, and neither a locale nor a time zone has a part in it.
#[verifier::external_body]
fn print_date(secs: i64, nanos: u32) -> (r: Option<String>)
    ensures
        r is Some <==> date_printed(secs, nanos) is Some,
        r is Some ==> r->0@ == date_printed(secs, nanos)->0,
{
    match chrono::DateTime::from_timestamp(secs, nanos) {
        Some(date) => Some(date.format("%Y-%m-%d %H:%M:%SZ").to_string()),
        None => None,
    }
}

/// `chrono::DateTime::to_rfc3339`, on the date that
/// `chrono::DateTime::from_timestamp` makes of the second and the nanosecond,
/// where it makes one. The text depends on these two alone.
#[verifier::external_body]
fn print_rfc3339(secs: i64, nanos: u32) -> (r: Option<String>)
    ensures
        r is Some <==> rfc3339_printed(secs, nanos) is Some,
        r is Some ==> r->0@ == rfc3339_printed(secs, nanos)->0,
{
    match chrono::DateTime::from_timestamp(secs, nanos) {
        Some(date) => Some(date.to_rfc3339()),
        None => None,
    }
}

/// `chrono::Utc::now`: the present time of the machine's clock, as the seconds
/// and nanoseconds that `timestamp` and `timestamp_subsec_nanos` give of it.
/// From these two `chrono::DateTime::from_timestamp` makes the same date again,
/// so both ways of printing it have a text; the clock counts no leap seconds,
/// so the nanoseconds stay below a full second. Which time it is, and that the
/// clock is not set to a time before 1970, where the call panics, is left
/// unsaid: both rest on the machine.
#[verifier::external_body]
fn utc_now() -> (r: (i64, u32))
    ensures
        date_printed(r.0, r.1) is Some,
        rfc3339_printed(r.0, r.1) is Some,
        r.1 < 1_000_000_000,
{
    let now = chrono::Utc::now();
    (now.timestamp(), now.timestamp_subsec_nanos())
}

} // verus!
