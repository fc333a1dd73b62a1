//! The error taxonomy of the boundary codecs. Every failure of a decoder or
//! encoder falls in one of these classes; no malformed token is ever coerced
//! to a default.

use vstd::prelude::*;

verus! {

/// Name of the output-record field whose decoding failed; carried by
/// [`CodecError::InvalidOutputFormat`] so that a truncated or malformed
/// stream reports where it went wrong.
#[derive(Clone, Copy, Debug, PartialEq, Eq, Structural)]
pub enum OutputField {
    Version,
    InitialState,
    NextState,
    Origin,
    Caller,
    TxHash,
    PayloadFrom,
    PayloadTo,
    PayloadAmount,
}

/// One failure class per protocol, as the design demands.
#[derive(Clone, Debug)]
pub enum CodecError {
    /// A token of the argument grammar is not a felt in range; carries the
    /// offending token.
    InvalidArgument(String),
    /// The bracket structure of the argument grammar is not flat and
    /// balanced.
    UnbalancedBrackets,
    /// A byte-array word failed its integer, hex or UTF-8 decoding, or the
    /// word stream ran out.
    InvalidEncoding,
    /// The output stream is exhausted or a fixed structural field is
    /// malformed; names the field being decoded.
    InvalidOutputFormat(OutputField),
}

/// Mathematical image of a [`CodecError`]: the same variants over a
/// character sequence instead of a heap string.
pub ghost enum CodecErrorSpec {
    InvalidArgument(Seq<char>),
    UnbalancedBrackets,
    InvalidEncoding,
    InvalidOutputFormat(OutputField),
}

impl View for CodecError {
    type V = CodecErrorSpec;

    open spec fn view(&self) -> CodecErrorSpec {
        match self {
            CodecError::InvalidArgument(t) => CodecErrorSpec::InvalidArgument(t@),
            CodecError::UnbalancedBrackets => CodecErrorSpec::UnbalancedBrackets,
            CodecError::InvalidEncoding => CodecErrorSpec::InvalidEncoding,
            CodecError::InvalidOutputFormat(f) => CodecErrorSpec::InvalidOutputFormat(*f),
        }
    }
}

impl CodecError {
    /// Short description of the failure class, for callers that report it.
    pub fn describe(&self) -> (r: &'static str)
        ensures
            r@ == match self@ {
                CodecErrorSpec::InvalidArgument(_) => "invalid argument"@,
                CodecErrorSpec::UnbalancedBrackets => "unbalanced brackets"@,
                CodecErrorSpec::InvalidEncoding => "invalid encoding"@,
                CodecErrorSpec::InvalidOutputFormat(_) => "invalid output format"@,
            },
    {
        match self {
            CodecError::InvalidArgument(_) => "invalid argument",
            CodecError::UnbalancedBrackets => "unbalanced brackets",
            CodecError::InvalidEncoding => "invalid encoding",
            CodecError::InvalidOutputFormat(_) => "invalid output format",
        }
    }
}

} // verus!
