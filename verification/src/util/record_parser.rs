use vstd::prelude::*;
use crate::symbol::SymbolId;
use crate::timestamp::{utc_datetime_from_str, Timestamp};

verus! {

/// The error with which `str::parse` rejects the text of an integer.
/// Nothing is known of what it holds.
#[verifier::external_type_specification]
#[verifier::external_body]
pub struct ExParseIntError(std::num::ParseIntError);

/// Why a field of a record could not be read.
#[derive(Debug)]
pub enum RecordError {
    /// The field is no date and time in the parser's format.
    DatetimeError(chrono::format::ParseError),
    /// The field is no volume.
    VolumeError(std::num::ParseIntError),
}

/// The text holds decimal digits only.
pub open spec fn all_digits(text: Seq<char>) -> bool {
    forall|i: int| 0 <= i < text.len() ==> '0' <= #[trigger] text[i] <= '9'
}

/// The number that the decimal digits stand for.
pub open spec fn decimal_value(digits: Seq<char>) -> nat
    decreases digits.len(),
{
    if digits.len() == 0 {
        0
    } else {
        (decimal_value(digits.drop_last()) * 10 + (digits.last() as u32 - '0' as u32)) as nat
    }
}

/// The volume that a field stands for: an optional `+`, then one decimal
/// digit or more, the number being no larger than `u32::MAX`. Any other text
/// stands for none.
pub open spec fn volume_of(field: Seq<char>) -> Option<u32> {
    let digits = if field.len() > 0 && field[0] == '+' {
        field.skip(1)
    } else {
        field
    };
    if digits.len() > 0 && all_digits(digits) && decimal_value(digits) <= u32::MAX {
        Some(decimal_value(digits) as u32)
    } else {
        None
    }
}

/// Calls `str::parse::<u32>`. The contract states what the documentation of
/// `u32::from_str` says: the text is an optional `+` followed by decimal
/// digits only, an empty text or a number that does not fit is an error.
#[verifier::external_body]
fn parse_u32(field: &str) -> (r: Result<u32, std::num::ParseIntError>)
    ensures
        match r {
            Ok(value) => volume_of(field@) == Some(value),
            Err(_) => volume_of(field@) is None,
        },
{
    field.parse::<u32>()
}

/// Reads the fields of the records of one instrument.
#[derive(Debug, PartialEq, Eq)]
pub struct RecordParser {
    symbol_id: SymbolId,
    datetime_format: String,
}

impl Clone for RecordParser {
    fn clone(&self) -> (r: Self)
        ensures
            r.symbol() == self.symbol(),
            r.format() == self.format(),
    {
        RecordParser {
            symbol_id: self.symbol_id.clone(),
            datetime_format: self.datetime_format.clone(),
        }
    }
}

impl RecordParser {
    /// The instrument of the records.
    pub closed spec fn symbol(&self) -> Seq<char> {
        self.symbol_id@
    }

    /// The `strftime` pattern of the date and time field.
    pub closed spec fn format(&self) -> Seq<char> {
        self.datetime_format@
    }

    pub fn new(symbol_id: SymbolId, datetime_format: String) -> (r: RecordParser)
        ensures
            r.symbol() == symbol_id@,
            r.format() == datetime_format@,
    {
        RecordParser { symbol_id, datetime_format }
    }

    pub fn symbol_id(&self) -> (r: &SymbolId)
        ensures
            r@ == self.symbol(),
    {
        &self.symbol_id
    }

    /// Reads a date and time in the parser's format, as a UTC time.
    pub fn parse_datetime_field(&self, field: &str) -> (r: Result<Timestamp, RecordError>)
        ensures
            match r {
                Ok(t) => utc_datetime_from_str(field@, self.format()) == Some(
                    (t.seconds, t.nanoseconds),
                ),
                Err(e) => utc_datetime_from_str(field@, self.format()) is None && e
                    is DatetimeError,
            },
    {
        match Timestamp::parse_utc(field, self.datetime_format.as_str()) {
            Ok(d) => Ok(d),
            Err(e) => Err(RecordError::DatetimeError(e)),
        }
    }

    /// Reads a volume.
    pub fn parse_volume_field(&self, field: &str) -> (r: Result<u32, RecordError>)
        ensures
            match r {
                Ok(value) => volume_of(field@) == Some(value),
                Err(e) => volume_of(field@) is None && e is VolumeError,
            },
    {
        match parse_u32(field) {
            Ok(value) => Ok(value),
            Err(e) => Err(RecordError::VolumeError(e)),
        }
    }
}

} // verus!
