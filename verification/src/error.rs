//! Error type of the GPS signal generator library.
use vstd::prelude::*;
use vstd::string::StringExecFns;

verus! {

/// Errors reported by the library.
#[derive(Debug)]
pub enum Error {
    /// Error when processing navigation file data.
    NavigationFile(String),
    /// No ephemeris data is available for a satellite.
    NoEphemeris,
    /// Navigation data exceeds the fixed ephemeris-set capacity.
    TooManyEphemerisSets {
        /// Maximum number of ephemeris time sets supported by fixed storage.
        max_supported: usize,
    },
    /// No current set of ephemerides is found for the simulation time.
    NoCurrentEphemerides,
    /// An invalid sampling frequency was specified.
    InvalidSamplingFrequency,
    /// An invalid I/Q data format was specified.
    InvalidDataFormat,
    /// Position(s) were set more than once.
    DuplicatePositionSetting,
    /// A coordinate vector does not contain exactly three values.
    InvalidCoordinateCount {
        /// Number of supplied coordinate values.
        actual: usize,
    },
    /// An invalid simulation duration was specified.
    InvalidDuration,
    /// Requested sample generation exceeds supported resource limits.
    UnsupportedWorkload {
        /// Description of the rejected arithmetic or resource requirement.
        reason: String,
    },
    /// An invalid start time was specified.
    InvalidStartTime,
    /// An invalid GPS day number was specified.
    InvalidGpsDay,
    /// An invalid GPS week number was specified.
    InvalidGpsWeek,
    /// An invalid delta leap second value was specified.
    InvalidDeltaLeapSecond,
    /// Leap second parameters are incomplete or malformed.
    InvalidLeapSecondParameters,
    /// Incorrect position data was provided.
    WrongPositions,
    /// The data format is not set before simulation.
    DataFormatNotSet,
    /// Navigation data is not set before simulation.
    NavigationNotSet,
    /// The I/Q writer is not initialized.
    IQWriterNotInitialized,
    /// A primary output failure together with a finalization failure.
    OutputFinalization {
        /// Primary generation, packing, or write failure.
        primary: Box<Error>,
        /// Secondary failure encountered while finalizing the output.
        finalization: Box<Error>,
    },
    /// The signal generator is not initialized.
    NotInitialized,
    /// A callback consumed the final block but rejected the run.
    FiniteRunInterruptedAtEnd,
    /// Direct output failed and cannot safely be resumed.
    FiniteRunOutputFailed,
    /// A civil calendar label has invalid fields.
    InvalidCalendarDate {
        /// Time scale of the rejected calendar label.
        scale: &'static str,
        /// Validation failure details.
        reason: String,
    },
    /// A conversion was requested before the GPS epoch.
    TimeBeforeGpsEpoch {
        /// Time scale of the rejected value.
        scale: &'static str,
    },
    /// A GPS time value is not normalized or is out of range.
    InvalidGpsTime(String),
    /// A time value could not be converted by the time library.
    TimeParseError(String),
    /// General parsing error with a message.
    ParsingError(String),
    /// Unknown or unspecified error.
    Unknown,
}

impl Error {
    /// Creates a general error with a message.
    pub fn msg(message: &str) -> (error: Self)
        ensures
            error matches Error::ParsingError(m) && m@ == message@,
    {
        Error::ParsingError(message.to_owned())
    }

    /// Creates an error for an unsupported workload.
    pub fn unsupported_workload(reason: &str) -> (error: Self)
        ensures
            error matches Error::UnsupportedWorkload { reason: r } && r@ == reason@,
    {
        Error::UnsupportedWorkload { reason: reason.to_owned() }
    }

    /// Renders the error as human-readable text.
    pub fn to_string(&self) -> (text: String)
        ensures
            text@ == error_text(*self),
        decreases self,
    {
        match self {
            Error::NavigationFile(m) => prefixed("Invalid navigation file: ", m.as_str()),
            Error::NoEphemeris => "No ephemeris available".to_owned(),
            Error::TooManyEphemerisSets { max_supported } => {
                let mut text = "Navigation file contains more than ".to_owned();
                push_decimal(&mut text, *max_supported);
                text.append(" ephemeris time sets");
                text
            },
            Error::NoCurrentEphemerides => "No current set of ephemerides found".to_owned(),
            Error::InvalidSamplingFrequency => "Invalid sampling frequency".to_owned(),
            Error::InvalidDataFormat => "Invalid I/Q data format".to_owned(),
            Error::DuplicatePositionSetting => "Cannot set position(s) more than once".to_owned(),
            Error::InvalidCoordinateCount { actual } => {
                let mut text = "Invalid coordinate count: expected 3 values, got ".to_owned();
                push_decimal(&mut text, *actual);
                text
            },
            Error::InvalidDuration => "Invalid duration".to_owned(),
            Error::UnsupportedWorkload { reason } => prefixed("Unsupported workload: ", reason.as_str()),
            Error::InvalidStartTime => "Invalid start time".to_owned(),
            Error::InvalidGpsDay => "Invalid GPS day number".to_owned(),
            Error::InvalidGpsWeek => "Invalid GPS week number".to_owned(),
            Error::InvalidDeltaLeapSecond => "Invalid delta leap second".to_owned(),
            Error::InvalidLeapSecondParameters => "Invalid leap second parameters (expected 3 values: week, day, delta)".to_owned(),
            Error::WrongPositions => "Wrong positions".to_owned(),
            Error::DataFormatNotSet => "Data format not set".to_owned(),
            Error::NavigationNotSet => "Navigation data not set".to_owned(),
            Error::IQWriterNotInitialized => "IQWriter not initialized".to_owned(),
            Error::OutputFinalization { primary, finalization } => {
                let mut text = prefixed("output operation failed: ", primary.to_string().as_str());
                text.append("; output finalization also failed: ");
                text.append(finalization.to_string().as_str());
                text
            },
            Error::NotInitialized => "Signal generator not initialized".to_owned(),
            Error::FiniteRunInterruptedAtEnd => "Finite run was interrupted after its final sample; call initialize() before starting a new run".to_owned(),
            Error::FiniteRunOutputFailed => "Finite run output failed; call initialize() before starting another direct run".to_owned(),
            Error::InvalidCalendarDate { scale, reason } => {
                let mut text = prefixed("Invalid ", scale);
                text.append(" calendar date: ");
                text.append(reason.as_str());
                text
            },
            Error::TimeBeforeGpsEpoch { scale } => {
                let mut text = (*scale).to_owned();
                text.append(" time is before the GPS epoch");
                text
            },
            Error::InvalidGpsTime(m) => prefixed("Invalid GPS time: ", m.as_str()),
            Error::TimeParseError(e) => prefixed("Time parsing error: ", e.as_str()),
            Error::ParsingError(m) => prefixed("Parsing error: ", m.as_str()),
            Error::Unknown => "Unknown error".to_owned(),
        }
    }
}

/// The decimal digit character of `digit` (0 to 9).
pub open spec fn digit_char(digit: int) -> char {
    if digit == 0 {
        '0'
    } else if digit == 1 {
        '1'
    } else if digit == 2 {
        '2'
    } else if digit == 3 {
        '3'
    } else if digit == 4 {
        '4'
    } else if digit == 5 {
        '5'
    } else if digit == 6 {
        '6'
    } else if digit == 7 {
        '7'
    } else if digit == 8 {
        '8'
    } else {
        '9'
    }
}

/// The decimal numeral of a natural number, without leading zeros.
pub open spec fn decimal(value: nat) -> Seq<char>
    decreases value,
{
    if value < 10 {
        seq![digit_char(value as int)]
    } else {
        decimal(value / 10).push(digit_char((value % 10) as int))
    }
}

/// Appends the decimal numeral of `value`.
fn push_decimal(text: &mut String, value: usize)
    ensures
        final(text)@ == old(text)@ + decimal(value as nat),
    decreases value,
{
    if value >= 10 {
        push_decimal(text, value / 10);
    }
    let digit = value % 10;
    let symbol = if digit == 0 {
        "0"
    } else if digit == 1 {
        "1"
    } else if digit == 2 {
        "2"
    } else if digit == 3 {
        "3"
    } else if digit == 4 {
        "4"
    } else if digit == 5 {
        "5"
    } else if digit == 6 {
        "6"
    } else if digit == 7 {
        "7"
    } else if digit == 8 {
        "8"
    } else {
        "9"
    };
    proof {
        reveal_strlit("0");
        reveal_strlit("1");
        reveal_strlit("2");
        reveal_strlit("3");
        reveal_strlit("4");
        reveal_strlit("5");
        reveal_strlit("6");
        reveal_strlit("7");
        reveal_strlit("8");
        reveal_strlit("9");
        assert(symbol@ == seq![digit_char(digit as int)]);
    }
    text.append(symbol);
    proof {
        if value >= 10 {
            assert(old(text)@ + decimal((value / 10) as nat) + seq![digit_char(digit as int)] =~= old(
                text,
            )@ + decimal(value as nat));
        } else {
            assert(old(text)@ + seq![digit_char(digit as int)] =~= old(text)@ + decimal(value as nat));
        }
    }
}

/// The human-readable text of an error.
pub open spec fn error_text(error: Error) -> Seq<char>
    decreases error,
{
    match error {
        Error::NavigationFile(m) => "Invalid navigation file: "@ + m@,
        Error::NoEphemeris => "No ephemeris available"@,
        Error::TooManyEphemerisSets { max_supported } => "Navigation file contains more than "@
            + decimal(max_supported as nat) + " ephemeris time sets"@,
        Error::NoCurrentEphemerides => "No current set of ephemerides found"@,
        Error::InvalidSamplingFrequency => "Invalid sampling frequency"@,
        Error::InvalidDataFormat => "Invalid I/Q data format"@,
        Error::DuplicatePositionSetting => "Cannot set position(s) more than once"@,
        Error::InvalidCoordinateCount { actual } => "Invalid coordinate count: expected 3 values, got "@
            + decimal(actual as nat),
        Error::InvalidDuration => "Invalid duration"@,
        Error::UnsupportedWorkload { reason } => "Unsupported workload: "@ + reason@,
        Error::InvalidStartTime => "Invalid start time"@,
        Error::InvalidGpsDay => "Invalid GPS day number"@,
        Error::InvalidGpsWeek => "Invalid GPS week number"@,
        Error::InvalidDeltaLeapSecond => "Invalid delta leap second"@,
        Error::InvalidLeapSecondParameters => "Invalid leap second parameters (expected 3 values: week, day, delta)"@,
        Error::WrongPositions => "Wrong positions"@,
        Error::DataFormatNotSet => "Data format not set"@,
        Error::NavigationNotSet => "Navigation data not set"@,
        Error::IQWriterNotInitialized => "IQWriter not initialized"@,
        Error::OutputFinalization { primary, finalization } => "output operation failed: "@
            + error_text(*primary) + "; output finalization also failed: "@ + error_text(*finalization),
        Error::NotInitialized => "Signal generator not initialized"@,
        Error::FiniteRunInterruptedAtEnd => "Finite run was interrupted after its final sample; call initialize() before starting a new run"@,
        Error::FiniteRunOutputFailed => "Finite run output failed; call initialize() before starting another direct run"@,
        Error::InvalidCalendarDate { scale, reason } => "Invalid "@ + scale@ + " calendar date: "@ + reason@,
        Error::TimeBeforeGpsEpoch { scale } => scale@ + " time is before the GPS epoch"@,
        Error::InvalidGpsTime(m) => "Invalid GPS time: "@ + m@,
        Error::TimeParseError(m) => "Time parsing error: "@ + m@,
        Error::ParsingError(m) => "Parsing error: "@ + m@,
        Error::Unknown => "Unknown error"@,
    }
}

/// Concatenates a prefix and a detail text.
fn prefixed(prefix: &str, detail: &str) -> (text: String)
    ensures
        text@ == prefix@ + detail@,
{
    let mut text = prefix.to_owned();
    text.append(detail);
    text
}

/// Resolves a primary operation and its independently attempted finalization.
///
/// A failure of both keeps both errors, the primary one first.
pub fn resolve_with_finalization<T>(
    primary: Result<T, Error>,
    finalization: Result<(), Error>,
) -> (resolved: Result<T, Error>)
    ensures
        primary is Ok && finalization is Ok ==> resolved == primary,
        primary is Err && finalization is Ok ==> resolved == primary,
        primary is Ok && finalization is Err ==> (resolved matches Err(e) && finalization
            == Err::<(), Error>(e)),
        primary is Err && finalization is Err ==> (resolved matches Err(
            Error::OutputFinalization { primary: p, finalization: f },
        ) && primary == Err::<T, Error>(*p) && finalization == Err::<(), Error>(*f)),
{
    match (primary, finalization) {
        (Ok(value), Ok(())) => Ok(value),
        (Err(primary), Ok(())) => Err(primary),
        (Ok(_), Err(finalization)) => Err(finalization),
        (Err(primary), Err(finalization)) => Err(
            Error::OutputFinalization { primary: Box::new(primary), finalization: Box::new(finalization) },
        ),
    }
}

} // verus!
