//! The library's error type.
//!
//! Every failure surfaces to the immediate caller as one of these
//! variants; nothing is retried internally.

use vstd::prelude::*;

verus! {

#[derive(Debug, Clone)]
pub enum PulumistError {
    /// The boundary call itself failed (a null or unreachable runtime).
    Ffi(String),
    /// Wire bytes could not be decoded, or a value could not be
    /// represented.
    Serialization(String),
    /// The runtime completed the call and reported failure; carries the
    /// runtime's error text verbatim.
    StackOperation(String),
    /// A provider-side failure.
    Provider(String),
    /// A mandatory configuration field was missing.
    ConfigError(String),
    Unknown(String),
}

pub open spec fn error_text(e: PulumistError) -> Seq<char> {
    match e {
        PulumistError::Ffi(m) => "FFI error: "@ + m@,
        PulumistError::Serialization(m) => "Serialization error: "@ + m@,
        PulumistError::StackOperation(m) => "Stack operation failed: "@ + m@,
        PulumistError::Provider(m) => "Provider error: "@ + m@,
        PulumistError::ConfigError(m) => "Configuration error: "@ + m@,
        PulumistError::Unknown(m) => "Unknown error: "@ + m@,
    }
}

impl PulumistError {
    /// The error's display text.
    pub fn message(&self) -> (r: String)
        ensures
            r@ == error_text(*self),
    {
        let mut s = String::new();
        match self {
            PulumistError::Ffi(m) => {
                s.append("FFI error: ");
                s.append(m.as_str());
            },
            PulumistError::Serialization(m) => {
                s.append("Serialization error: ");
                s.append(m.as_str());
            },
            PulumistError::StackOperation(m) => {
                s.append("Stack operation failed: ");
                s.append(m.as_str());
            },
            PulumistError::Provider(m) => {
                s.append("Provider error: ");
                s.append(m.as_str());
            },
            PulumistError::ConfigError(m) => {
                s.append("Configuration error: ");
                s.append(m.as_str());
            },
            PulumistError::Unknown(m) => {
                s.append("Unknown error: ");
                s.append(m.as_str());
            },
        }
        proof {
            assert(Seq::<char>::empty() + error_text(*self) =~= error_text(*self));
        }
        s
    }
}

pub type Result<T> = core::result::Result<T, PulumistError>;

} // verus!
