use vstd::prelude::*;

verus! {

/// The transport failures that the byte sources and sinks of this library can report.
#[derive(Debug, Clone, Copy, PartialEq, Eq, Structural)]
pub enum IoFailure {
    /// The source ended before a fixed-size field was complete.
    UnexpectedEof,
    /// The sink accepted no more bytes.
    WriteZero,
    /// Any other failure of the caller's transport.
    Other,
}

/// Every failure that the protocol layer reports.
#[derive(Debug, Clone, Copy, PartialEq, Eq, Structural)]
pub enum AsymcryptError {
    InvalidDataError,
    UnsupportedVersionError,
    UnexpectedDataTypeError,
    DecryptKeyMismatchError,
    SignatureKeyMismatchError,
    SignatureFailedError,
    CorruptOrTamperedDataError,
    IOError(IoFailure),
}

impl AsymcryptError {
    /// A short human-readable description of the failure.
    pub open spec fn message_spec(&self) -> &'static str {
        match *self {
            AsymcryptError::InvalidDataError => "The input data is not in the expected format.",
            AsymcryptError::UnsupportedVersionError => "Unsupported encrypted/signed data version.",
            AsymcryptError::UnexpectedDataTypeError =>
                "The given data is of an unexpected cryptographic type.",
            AsymcryptError::DecryptKeyMismatchError => "The given key cannot decrypt the given data.",
            AsymcryptError::SignatureKeyMismatchError =>
                "The given key did not create the given signature.",
            AsymcryptError::SignatureFailedError => "The digital signature has failed.",
            AsymcryptError::CorruptOrTamperedDataError =>
                "Decrypting found corrupt or tampered with data.",
            AsymcryptError::IOError(IoFailure::UnexpectedEof) => "failed to fill whole buffer",
            AsymcryptError::IOError(IoFailure::WriteZero) => "failed to write whole buffer",
            AsymcryptError::IOError(IoFailure::Other) => "an I/O error occurred",
        }
    }

    /// A short human-readable description of the failure.
    pub fn message(&self) -> (r: &'static str)
        ensures
            r == self.message_spec(),
    {
        match *self {
            AsymcryptError::InvalidDataError => "The input data is not in the expected format.",
            AsymcryptError::UnsupportedVersionError => "Unsupported encrypted/signed data version.",
            AsymcryptError::UnexpectedDataTypeError =>
                "The given data is of an unexpected cryptographic type.",
            AsymcryptError::DecryptKeyMismatchError => "The given key cannot decrypt the given data.",
            AsymcryptError::SignatureKeyMismatchError =>
                "The given key did not create the given signature.",
            AsymcryptError::SignatureFailedError => "The digital signature has failed.",
            AsymcryptError::CorruptOrTamperedDataError =>
                "Decrypting found corrupt or tampered with data.",
            AsymcryptError::IOError(IoFailure::UnexpectedEof) => "failed to fill whole buffer",
            AsymcryptError::IOError(IoFailure::WriteZero) => "failed to write whole buffer",
            AsymcryptError::IOError(IoFailure::Other) => "an I/O error occurred",
        }
    }
}

/// The error that a read past the end of a source produces.
pub open spec fn eof_error() -> AsymcryptError {
    AsymcryptError::IOError(IoFailure::UnexpectedEof)
}

} // verus!
