//! Enumerations of the wire format. On the wire a variant is its number.

use vstd::prelude::*;

verus! {

/// How one audio sample is stored.
#[derive(Debug, Clone, Copy, PartialEq, Eq, Structural)]
pub enum SampleFormat {
    Unspecified,
    F32,
    I16,
}

impl SampleFormat {
    /// The number of the variant.
    pub open spec fn number(self) -> i32 {
        match self {
            SampleFormat::Unspecified => 0,
            SampleFormat::F32 => 1,
            SampleFormat::I16 => 2,
        }
    }

    /// The number of the variant.
    pub fn value(self) -> (number: i32)
        ensures
            number == self.number(),
    {
        match self {
            SampleFormat::Unspecified => 0,
            SampleFormat::F32 => 1,
            SampleFormat::I16 => 2,
        }
    }

    /// The variant with number `number`; `None` for a number without one.
    pub fn from_value(number: i32) -> (variant: Option<SampleFormat>)
        ensures
            variant is Some <==> 0 <= number <= 2,
            variant matches Some(v) ==> v.number() == number,
    {
        match number {
            0 => Some(SampleFormat::Unspecified),
            1 => Some(SampleFormat::F32),
            2 => Some(SampleFormat::I16),
            _ => None,
        }
    }
}

/// Whether a subtitle may still change.
#[derive(Debug, Clone, Copy, PartialEq, Eq, Structural)]
pub enum SubtitleKind {
    Unspecified,
    Partial,
    Committed,
}

impl SubtitleKind {
    /// The number of the variant.
    pub open spec fn number(self) -> i32 {
        match self {
            SubtitleKind::Unspecified => 0,
            SubtitleKind::Partial => 1,
            SubtitleKind::Committed => 2,
        }
    }

    /// The number of the variant.
    pub fn value(self) -> (number: i32)
        ensures
            number == self.number(),
    {
        match self {
            SubtitleKind::Unspecified => 0,
            SubtitleKind::Partial => 1,
            SubtitleKind::Committed => 2,
        }
    }

    /// The variant with number `number`; `None` for a number without one.
    pub fn from_value(number: i32) -> (variant: Option<SubtitleKind>)
        ensures
            variant is Some <==> 0 <= number <= 2,
            variant matches Some(v) ==> v.number() == number,
    {
        match number {
            0 => Some(SubtitleKind::Unspecified),
            1 => Some(SubtitleKind::Partial),
            2 => Some(SubtitleKind::Committed),
            _ => None,
        }
    }
}

/// What the core is doing.
#[derive(Debug, Clone, Copy, PartialEq, Eq, Structural)]
pub enum CoreStatus {
    Unspecified,
    Idle,
    Listening,
    Paused,
}

impl CoreStatus {
    /// The number of the variant.
    pub open spec fn number(self) -> i32 {
        match self {
            CoreStatus::Unspecified => 0,
            CoreStatus::Idle => 1,
            CoreStatus::Listening => 2,
            CoreStatus::Paused => 3,
        }
    }

    /// The number of the variant.
    pub fn value(self) -> (number: i32)
        ensures
            number == self.number(),
    {
        match self {
            CoreStatus::Unspecified => 0,
            CoreStatus::Idle => 1,
            CoreStatus::Listening => 2,
            CoreStatus::Paused => 3,
        }
    }

    /// The variant with number `number`; `None` for a number without one.
    pub fn from_value(number: i32) -> (variant: Option<CoreStatus>)
        ensures
            variant is Some <==> 0 <= number <= 3,
            variant matches Some(v) ==> v.number() == number,
    {
        match number {
            0 => Some(CoreStatus::Unspecified),
            1 => Some(CoreStatus::Idle),
            2 => Some(CoreStatus::Listening),
            3 => Some(CoreStatus::Paused),
            _ => None,
        }
    }
}

/// What kind of error is reported.
#[derive(Debug, Clone, Copy, PartialEq, Eq, Structural)]
pub enum ErrorCode {
    Unspecified,
    Internal,
    BadRequest,
    Unsupported,
    AudioFormat,
    InvalidSession,
    ProviderFailure,
}

impl ErrorCode {
    /// The number of the variant.
    pub open spec fn number(self) -> i32 {
        match self {
            ErrorCode::Unspecified => 0,
            ErrorCode::Internal => 1,
            ErrorCode::BadRequest => 2,
            ErrorCode::Unsupported => 3,
            ErrorCode::AudioFormat => 4,
            ErrorCode::InvalidSession => 5,
            ErrorCode::ProviderFailure => 6,
        }
    }

    /// The number of the variant.
    pub fn value(self) -> (number: i32)
        ensures
            number == self.number(),
    {
        match self {
            ErrorCode::Unspecified => 0,
            ErrorCode::Internal => 1,
            ErrorCode::BadRequest => 2,
            ErrorCode::Unsupported => 3,
            ErrorCode::AudioFormat => 4,
            ErrorCode::InvalidSession => 5,
            ErrorCode::ProviderFailure => 6,
        }
    }

    /// The variant with number `number`; `None` for a number without one.
    pub fn from_value(number: i32) -> (variant: Option<ErrorCode>)
        ensures
            variant is Some <==> 0 <= number <= 6,
            variant matches Some(v) ==> v.number() == number,
    {
        match number {
            0 => Some(ErrorCode::Unspecified),
            1 => Some(ErrorCode::Internal),
            2 => Some(ErrorCode::BadRequest),
            3 => Some(ErrorCode::Unsupported),
            4 => Some(ErrorCode::AudioFormat),
            5 => Some(ErrorCode::InvalidSession),
            6 => Some(ErrorCode::ProviderFailure),
            _ => None,
        }
    }
}

// ---------------------------------------------------------------------------
// Laws
// ---------------------------------------------------------------------------

/// The formats are numbered from zero in the order in which they are declared.
pub proof fn law_format_numbers(a: SampleFormat, b: SampleFormat)
    ensures
        SampleFormat::Unspecified.number() == 0,
        SampleFormat::F32.number() == SampleFormat::Unspecified.number() + 1,
        SampleFormat::I16.number() == SampleFormat::F32.number() + 1,
        a.number() == b.number() <==> a == b,
{
}

/// The kinds are numbered from zero in the order in which they are declared.
pub proof fn law_kind_numbers(a: SubtitleKind, b: SubtitleKind)
    ensures
        SubtitleKind::Unspecified.number() == 0,
        SubtitleKind::Partial.number() == SubtitleKind::Unspecified.number() + 1,
        SubtitleKind::Committed.number() == SubtitleKind::Partial.number() + 1,
        a.number() == b.number() <==> a == b,
{
}

/// The states are numbered from zero in the order in which they are declared.
pub proof fn law_status_numbers(a: CoreStatus, b: CoreStatus)
    ensures
        CoreStatus::Unspecified.number() == 0,
        CoreStatus::Idle.number() == CoreStatus::Unspecified.number() + 1,
        CoreStatus::Listening.number() == CoreStatus::Idle.number() + 1,
        CoreStatus::Paused.number() == CoreStatus::Listening.number() + 1,
        a.number() == b.number() <==> a == b,
{
}

/// The codes are numbered from zero in the order in which they are declared.
pub proof fn law_code_numbers(a: ErrorCode, b: ErrorCode)
    ensures
        ErrorCode::Unspecified.number() == 0,
        ErrorCode::Internal.number() == ErrorCode::Unspecified.number() + 1,
        ErrorCode::BadRequest.number() == ErrorCode::Internal.number() + 1,
        ErrorCode::Unsupported.number() == ErrorCode::BadRequest.number() + 1,
        ErrorCode::AudioFormat.number() == ErrorCode::Unsupported.number() + 1,
        ErrorCode::InvalidSession.number() == ErrorCode::AudioFormat.number() + 1,
        ErrorCode::ProviderFailure.number() == ErrorCode::InvalidSession.number() + 1,
        a.number() == b.number() <==> a == b,
{
}

} // verus!
