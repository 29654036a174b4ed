//! Failures of context creation, and how the host is told of them.

use vstd::prelude::*;

verus! {

/// Why no context was created.
#[derive(Clone, Copy, PartialEq, Eq, Debug, Structural)]
pub enum CipherError {
    /// The key is not exactly sixteen bytes long.
    InvalidArgument,
    /// The cryptographic library rejected the parameters.
    SecurityInitializationFailure,
}

impl CipherError {
    /// The host exception class that stands for this failure.
    pub fn host_class(&self) -> (name: &'static str)
        ensures
            name@ == match *self {
                CipherError::InvalidArgument => "java/lang/IllegalArgumentException"@,
                CipherError::SecurityInitializationFailure => "java/security/GeneralSecurityException"@,
            },
    {
        match self {
            CipherError::InvalidArgument => "java/lang/IllegalArgumentException",
            CipherError::SecurityInitializationFailure => "java/security/GeneralSecurityException",
        }
    }

    /// The text that the host exception carries.
    pub fn message(&self) -> (text: &'static str)
        ensures
            text@ == match *self {
                CipherError::InvalidArgument => "cipher key not 16 bytes"@,
                CipherError::SecurityInitializationFailure => "openssl initialize cipher"@,
            },
    {
        match self {
            CipherError::InvalidArgument => "cipher key not 16 bytes",
            CipherError::SecurityInitializationFailure => "openssl initialize cipher",
        }
    }
}

} // verus!
