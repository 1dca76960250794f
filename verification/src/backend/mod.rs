//! The stores that hold the repository: what kinds of files there are, how
//! they are named, and the options that every store understands.

use crate::id::{hex_of, Id};
use vstd::prelude::*;
use vstd::string::{StrSliceExecFns, StringExecFns, StringSliceAdditionalSpecFns};

pub mod choice;
pub mod s3;

verus! {

/// Seconds after which a store gives up retrying, once retries have been
/// switched on by an option.
pub const RETRY_SECS: u64 = 120;

/// The kind of a file in the repository.
#[derive(Clone, Copy, Debug, PartialEq, Eq, Hash, Structural)]
pub enum FileType {
    Config,
    Index,
    Key,
    Snapshot,
    Pack,
}

impl FileType {
    /// The name of the directory that holds the files of this type; for the
    /// configuration, the name of the file itself.
    pub open spec fn spec_name(&self) -> Seq<char> {
        match self {
            FileType::Config => "config"@,
            FileType::Index => "index"@,
            FileType::Key => "keys"@,
            FileType::Snapshot => "snapshots"@,
            FileType::Pack => "data"@,
        }
    }

    /// The name of the directory that holds the files of this type; for the
    /// configuration, the name of the file itself.
    pub fn name(&self) -> (name: &'static str)
        ensures
            name@ == self.spec_name(),
    {
        match self {
            FileType::Config => "config",
            FileType::Index => "index",
            FileType::Key => "keys",
            FileType::Snapshot => "snapshots",
            FileType::Pack => "data",
        }
    }
}

/// The path of a file below the root of the repository: `config` for the
/// configuration, else the directory of the type, a slash, and the
/// hexadecimal name of the identifier.
pub open spec fn file_path(tpe: FileType, id: Id) -> Seq<char> {
    if tpe == FileType::Config {
        "config"@
    } else {
        tpe.spec_name() + seq!['/'] + hex_of(id@)
    }
}

/// The path below the root of the repository at which the files of a type
/// are listed: `config` for the configuration, else the directory of the
/// type and a slash.
pub open spec fn list_path(tpe: FileType) -> Seq<char> {
    if tpe == FileType::Config {
        "config"@
    } else {
        tpe.spec_name() + seq!['/']
    }
}

/// `str::eq` tells whether two strings hold the same characters.
pub assume_specification[ <str as PartialEq>::eq ](a: &str, b: &str) -> (r: bool)
    ensures
        r == (a@ == b@),
;

/// Whether two strings hold the same characters.
pub fn same_str(a: &str, b: &str) -> (r: bool)
    ensures
        r == (a@ == b@),
{
    a.eq(b)
}

/// The path of a file below the root of the repository.
pub fn path_of(tpe: FileType, id: &Id) -> (path: String)
    ensures
        path@ == file_path(tpe, *id),
{
    match tpe {
        FileType::Config => String::from_str("config"),
        _ => {
            let mut path = String::from_str(tpe.name());
            path.push('/');
            let hex = id.to_hex();
            path.append(hex.as_str());
            assert(path@ =~= file_path(tpe, *id));
            path
        },
    }
}

/// The path below the root of the repository at which the files of a type
/// are listed.
pub fn list_path_of(tpe: FileType) -> (path: String)
    ensures
        path@ == list_path(tpe),
{
    match tpe {
        FileType::Config => String::from_str("config"),
        _ => {
            let mut path = String::from_str(tpe.name());
            path.push('/');
            assert(path@ =~= list_path(tpe));
            path
        },
    }
}

/// How long a store waits for an answer.
#[derive(Clone, Copy, Debug, PartialEq, Eq, Structural)]
pub struct Timeout {
    pub secs: u64,
    pub nanos: u32,
}

/// Whether a store retries an operation that failed for a passing reason,
/// and for how many seconds at most. The waits between the tries grow
/// exponentially.
#[derive(Clone, Copy, Debug, PartialEq, Eq)]
pub struct MaybeBackoff(pub Option<u64>);

/// The options of a store.
#[derive(Clone, Copy, Debug, PartialEq, Eq)]
pub struct BackendOptions {
    pub backoff: MaybeBackoff,
    pub timeout: Option<Timeout>,
}

/// Why an option was not set.
#[derive(Clone, Copy, Debug, PartialEq, Eq, Structural)]
pub enum OptionError {
    /// No store has an option of that name.
    UnknownOption,
    /// The option cannot have that value.
    InvalidValue,
}

/// `humantime::DurationError`: why a string is no duration.
#[verifier::external_type_specification]
#[verifier::external_body]
pub struct ExDurationError(humantime::DurationError);

/// The most digits that a duration may be written with. With no more
/// digits than these a duration stays below 4 * 10^18 seconds.
pub const MAX_DURATION_DIGITS: usize = 11;

/// Whether a character is a decimal digit.
pub open spec fn is_digit(c: char) -> bool {
    '0' <= c <= '9'
}

/// The number of decimal digits in a string.
pub open spec fn digit_count(s: Seq<char>) -> nat
    decreases s.len(),
{
    if s.len() == 0 {
        0
    } else {
        digit_count(s.drop_last()) + if is_digit(s.last()) {
            1nat
        } else {
            0nat
        }
    }
}

/// Whether a string has no more than `MAX_DURATION_DIGITS` decimal digits.
pub fn has_few_digits(value: &str) -> (r: bool)
    ensures
        r == (digit_count(value@) <= MAX_DURATION_DIGITS),
{
    let ascii: bool = value.is_ascii();
    let len: usize = if ascii {
        proof {
            vstd::string::is_ascii_spec_bytes(value);
            assert(value.spec_bytes().len() == value@.len());
        }
        value.as_bytes().len()
    } else {
        value.unicode_len()
    };
    let mut count: usize = 0;
    let mut i: usize = 0;
    while i < len
        invariant
            i <= len,
            len == value@.len(),
            ascii == vstd::string::is_ascii(value),
            count <= i,
            count == digit_count(value@.take(i as int)),
        decreases len - i,
    {
        let digit: bool = if ascii {
            let b: u8 = value.get_ascii(i);
            assert('\0' <= value@[i as int] <= '\u{7f}');
            48 <= b && b <= 57
        } else {
            let c: char = value.get_char(i);
            '0' <= c && c <= '9'
        };
        proof {
            assert(value@.take(i + 1).drop_last() =~= value@.take(i as int));
            assert(value@.take(i + 1).last() == value@[i as int]);
        }
        if digit {
            count += 1;
        }
        i += 1;
    }
    assert(value@.take(i as int) =~= value@);
    count <= MAX_DURATION_DIGITS
}

/// The duration that `parse_duration` of the crate `humantime` reads from a
/// string, as seconds and nanoseconds, or `None` where it reads none.
pub uninterp spec fn humantime_duration(value: Seq<char>) -> Option<Timeout>;

/// Calls `parse_duration` of the crate `humantime`, which reads a duration
/// written as numbers with units, `30s` or `1hour 12min 5s`. The result
/// depends on the string alone. That function panics where the seconds
/// reach the largest `u64` while a whole second of nanoseconds is carried;
/// every other overflow it answers with an error. A string of no more than
/// `MAX_DURATION_DIGITS` digits stays far from that: its numbers add up to
/// less than 10^11, the largest unit is a year of 31,557,600 seconds, and a
/// fraction or a carry adds less than one more unit to each number.
#[verifier::external_body]
fn parse_duration(value: &str) -> (r: Result<Timeout, humantime::DurationError>)
    requires
        digit_count(value@) <= MAX_DURATION_DIGITS,
    ensures
        match r {
            Ok(timeout) => humantime_duration(value@) == Some(timeout),
            Err(_) => humantime_duration(value@) is None,
        },
{
    match humantime::parse_duration(value) {
        Ok(duration) => Ok(Timeout { secs: duration.as_secs(), nanos: duration.subsec_nanos() }),
        Err(e) => Err(e),
    }
}

/// The options after `option` has been set to `value`, or why it cannot be
/// set. `retry` is `true` or `false`; `timeout` is a duration that is
/// written with no more than `MAX_DURATION_DIGITS` digits.
pub open spec fn with_option(options: BackendOptions, option: Seq<char>, value: Seq<char>)
    -> Result<BackendOptions, OptionError> {
    if option == "retry"@ {
        if value == "true"@ {
            Ok(BackendOptions { backoff: MaybeBackoff(Some(RETRY_SECS)), ..options })
        } else if value == "false"@ {
            Ok(BackendOptions { backoff: MaybeBackoff(None), ..options })
        } else {
            Err(OptionError::InvalidValue)
        }
    } else if option == "timeout"@ {
        if digit_count(value) > MAX_DURATION_DIGITS {
            Err(OptionError::InvalidValue)
        } else {
            match humantime_duration(value) {
                Some(timeout) => Ok(BackendOptions { timeout: Some(timeout), ..options }),
                None => Err(OptionError::InvalidValue),
            }
        }
    } else {
        Err(OptionError::UnknownOption)
    }
}

impl BackendOptions {
    /// Options with the given retry policy and no timeout.
    pub fn new(backoff: MaybeBackoff) -> (options: BackendOptions)
        ensures
            options == (BackendOptions { backoff, timeout: None }),
    {
        BackendOptions { backoff, timeout: None }
    }

    /// Sets `retry` to `true` or `false`.
    pub fn set_retry(&mut self, value: &str) -> (r: Result<(), OptionError>)
        ensures
            match with_option(*old(self), "retry"@, value@) {
                Ok(options) => r is Ok && *final(self) == options,
                Err(e) => r == Err::<(), OptionError>(e) && *final(self) == *old(self),
            },
    {
        proof {
            reveal_strlit("true");
            reveal_strlit("false");
        }
        if same_str(value, "true") {
            self.backoff = MaybeBackoff(Some(RETRY_SECS));
            Ok(())
        } else if same_str(value, "false") {
            self.backoff = MaybeBackoff(None);
            Ok(())
        } else {
            Err(OptionError::InvalidValue)
        }
    }

    /// Sets the timeout.
    pub fn set_timeout(&mut self, timeout: Timeout)
        ensures
            *final(self) == (BackendOptions { timeout: Some(timeout), ..*old(self) }),
    {
        self.timeout = Some(timeout);
    }

    /// Sets an option from its name and its value as strings.
    pub fn set_option(&mut self, option: &str, value: &str) -> (r: Result<(), OptionError>)
        ensures
            match with_option(*old(self), option@, value@) {
                Ok(options) => r is Ok && *final(self) == options,
                Err(e) => r == Err::<(), OptionError>(e) && *final(self) == *old(self),
            },
    {
        proof {
            reveal_strlit("retry");
            reveal_strlit("timeout");
        }
        if same_str(option, "retry") {
            self.set_retry(value)
        } else if same_str(option, "timeout") {
            if !has_few_digits(value) {
                return Err(OptionError::InvalidValue);
            }
            match parse_duration(value) {
                Ok(timeout) => {
                    self.set_timeout(timeout);
                    Ok(())
                },
                Err(_) => Err(OptionError::InvalidValue),
            }
        } else {
            Err(OptionError::UnknownOption)
        }
    }
}

} // verus!
