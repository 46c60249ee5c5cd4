//! The failures that code generation and URI parsing report.
use vstd::prelude::*;

verus! {

#[derive(Debug, Clone, Copy, PartialEq, Eq, Structural)]
pub enum OtpError {
    /// The secret decodes to no byte at all.
    InvalidSecretEncoding,
    /// A counter-based generator was asked for a code without a counter.
    MissingCounterForHotp,
    /// The system clock reads earlier than the Unix epoch.
    ClockBeforeEpoch,
    /// The URI does not start with `otpauth://`.
    InvalidUriScheme,
    /// No `/` separates the type from the label.
    MalformedUri,
    /// The label names no account.
    EmptyAccountName,
    /// The query has no `secret` parameter.
    MissingSecretParameter,
    /// The `secret` parameter is empty.
    EmptySecretParameter,
    /// A `%` is not followed by two hexadecimal digits.
    InvalidPercentEncoding,
    /// Percent-decoded bytes are not valid UTF-8.
    NonTextDecodedBytes,
}

} // verus!
