//! The proxy's configuration as an operator writes it, and the reading of
//! its body-size limit.
//!
//! The limit is a number and a unit, such as `64KB` or `64 B`. Units of 1000
//! are `kB`, `MB`, `GB` and so on, whatever the case of their letters; units
//! of 1024 are `KiB`, `MiB`, `GiB` and so on; and `KB` in capitals is 1024
//! bytes, so that `64KB` is 65536 bytes.

use vstd::prelude::*;
use vstd::string::StringExecFns;
use vstd::utf8::is_ascii_chars;
use vstd::utf8::is_ascii_chars_concat;

verus! {

/// Why a text is no size.
#[derive(Clone, Copy, Debug, PartialEq, Eq, Structural)]
pub enum SizeError {
    /// The text is empty or blank.
    EmptyInput,
    /// The text is a unit with no number before it.
    MissingValue,
    /// The number cannot be read, or is no size for a chunk.
    InvalidValue,
    /// The number has no unit behind it.
    MissingMultiple,
    /// What stands behind the number is no unit.
    InvalidMultiple,
}

/// What the `human-size` crate makes of a text as a size in bytes.
pub uninterp spec fn parsed_size(text: Seq<char>) -> Result<u64, SizeError>;

/// Reads a text as a size in bytes.
///
/// Parses the text as `human_size::SpecificSize<Byte>` and takes its
/// `to_bytes`, or hands on the error, variant for variant. How the crate
/// reads a size takes pages to say, so the contract only names the outcome.
/// The crate splits the text at a count of characters as if it were a count
/// of bytes, which can panic on text outside ASCII: `requires` leaves such
/// text out. Taken on trust.
#[verifier::external_body]
pub(crate) fn parse_size(text: &str) -> (parsed: Result<u64, SizeError>)
    requires
        is_ascii_chars(text@),
    ensures
        parsed == parsed_size(text@),
{
    match text.parse::<human_size::SpecificSize<human_size::Byte>>() {
        Ok(size) => Ok(size.to_bytes()),
        Err(human_size::ParsingError::EmptyInput) => Err(SizeError::EmptyInput),
        Err(human_size::ParsingError::MissingValue) => Err(SizeError::MissingValue),
        Err(human_size::ParsingError::InvalidValue) => Err(SizeError::InvalidValue),
        Err(human_size::ParsingError::MissingMultiple) => Err(SizeError::MissingMultiple),
        Err(human_size::ParsingError::InvalidMultiple) => Err(SizeError::InvalidMultiple),
    }
}

/// The chunk size that an outcome of parsing stands for.
///
/// A size must be more than nothing and fit the machine's word; one that is
/// not is an invalid value. A text that starts with no number lacks its
/// value where the text alone is a unit; where it is not even that, nothing
/// in it can be read, and its value counts as invalid.
pub open spec fn chunk_size_of(parsed: Result<u64, SizeError>, unit_alone: bool) -> Result<
    usize,
    SizeError,
> {
    match parsed {
        Ok(bytes) => if 0 < bytes <= usize::MAX {
            Ok(bytes as usize)
        } else {
            Err(SizeError::InvalidValue)
        },
        Err(SizeError::MissingValue) => if unit_alone {
            Err(SizeError::MissingValue)
        } else {
            Err(SizeError::InvalidValue)
        },
        Err(e) => Err(e),
    }
}

/// The chunk size that a text stands for. Text outside ASCII is no size.
///
/// Whether a text alone is a unit is asked of the parser, by putting the
/// number 1 before it.
pub open spec fn chunk_size(text: Seq<char>) -> Result<usize, SizeError> {
    if !is_ascii_chars(text) {
        Err(SizeError::InvalidValue)
    } else {
        chunk_size_of(parsed_size(text), parsed_size(seq!['1'] + text) is Ok)
    }
}

/// Turns an outcome of parsing into a chunk size.
pub fn size_from_parse(parsed: Result<u64, SizeError>, unit_alone: bool) -> (size: Result<
    usize,
    SizeError,
>)
    ensures
        size == chunk_size_of(parsed, unit_alone),
{
    match parsed {
        Ok(bytes) => {
            if 0 < bytes && bytes <= usize::MAX as u64 {
                Ok(bytes as usize)
            } else {
                Err(SizeError::InvalidValue)
            }
        },
        Err(SizeError::MissingValue) => {
            if unit_alone {
                Err(SizeError::MissingValue)
            } else {
                Err(SizeError::InvalidValue)
            }
        },
        Err(e) => Err(e),
    }
}

/// Reads a text as a chunk size.
pub fn parse_chunk_size(text: &str) -> (size: Result<usize, SizeError>)
    ensures
        size == chunk_size(text@),
{
    if !text.is_ascii() {
        return Err(SizeError::InvalidValue);
    }
    let parsed = parse_size(text);
    let unit_alone = match parsed {
        Err(SizeError::MissingValue) => {
            let probe = String::from_str("1").concat(text);
            proof {
                reveal_strlit("1");
                assert("1"@ == seq!['1']);
                is_ascii_chars_concat(probe@, "1"@, text@);
            }
            parse_size(probe.as_str()).is_ok()
        },
        _ => false,
    };
    size_from_parse(parsed, unit_alone)
}

/// The configuration of one proxy.
#[derive(Debug)]
pub struct ProxyConfig {
    /// The upstream base URL.
    pub upstream_url: String,
    /// The most bytes that one chunk of a response body holds, as a size
    /// with its unit.
    pub utf8_body_limit: String,
}

/// What is wrong with a configuration.
#[derive(Debug)]
pub enum ScroogeError<'a> {
    /// The body-size limit, and why it is no size.
    InvalidSizeFormat(&'a str, SizeError),
}

impl ProxyConfig {
    /// A configuration of the two values.
    pub fn new(upstream_url: String, utf8_body_limit: String) -> (config: Self)
        ensures
            config.upstream_url == upstream_url,
            config.utf8_body_limit == utf8_body_limit,
    {
        Self { upstream_url, utf8_body_limit }
    }

    /// The body-size limit in bytes: always more than none.
    pub fn max_chunk_size_in_bytes(&self) -> (size: Result<usize, ScroogeError<'_>>)
        ensures
            match size {
                Ok(bytes) => chunk_size(self.utf8_body_limit@) == Ok::<usize, SizeError>(bytes)
                    && bytes > 0,
                Err(ScroogeError::InvalidSizeFormat(value, why)) => value@ == self.utf8_body_limit@
                    && chunk_size(self.utf8_body_limit@) == Err::<usize, SizeError>(why),
            },
    {
        match parse_chunk_size(self.utf8_body_limit.as_str()) {
            Ok(bytes) => Ok(bytes),
            Err(why) => Err(ScroogeError::InvalidSizeFormat(self.utf8_body_limit.as_str(), why)),
        }
    }
}

/// What a [`ScroogeError`] says.
pub open spec fn message_of(value: Seq<char>, why: SizeError) -> Seq<char> {
    match why {
        SizeError::EmptyInput => "Body size limit is required to be defined, found empty value."@,
        SizeError::InvalidMultiple => "Invalid multiple used in "@ + value
            + ". Valid multiples are: B, kB, MB, GB, TB."@,
        SizeError::InvalidValue => "Invalid number value "@ + value + "."@,
        SizeError::MissingMultiple => "Missing multiple in "@ + value
            + ". Valid multiples are: B, kB, MB, GB, TB."@,
        SizeError::MissingValue => "Missing body size value in "@ + value + "."@,
    }
}

impl<'a> ScroogeError<'a> {
    /// The error in words, for the operator.
    pub fn message(&self) -> (text: String)
        ensures
            match *self {
                ScroogeError::InvalidSizeFormat(value, why) => text@ == message_of(value@, why),
            },
    {
        match self {
            ScroogeError::InvalidSizeFormat(value, why) => match why {
                SizeError::EmptyInput => String::from_str(
                    "Body size limit is required to be defined, found empty value.",
                ),
                SizeError::InvalidMultiple => String::from_str("Invalid multiple used in ").concat(
                    value,
                ).concat(". Valid multiples are: B, kB, MB, GB, TB."),
                SizeError::InvalidValue => String::from_str("Invalid number value ").concat(
                    value,
                ).concat("."),
                SizeError::MissingMultiple => String::from_str("Missing multiple in ").concat(
                    value,
                ).concat(". Valid multiples are: B, kB, MB, GB, TB."),
                SizeError::MissingValue => String::from_str("Missing body size value in ").concat(
                    value,
                ).concat("."),
            },
        }
    }
}

} // verus!
