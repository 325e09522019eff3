//! Error kinds of the library.
use vstd::prelude::*;

verus! {

/// What went wrong; each variant carries a one-line explanation.
#[derive(Debug, Clone)]
pub enum SteError {
    /// A cryptographic operation failed.
    CryptoError(String),
    /// Network or communication error.
    NetworkError(String),
    /// The quorum is smaller than the threshold needs.
    InvalidThreshold(String),
    /// Key generation failed.
    KeyGenerationFailed(String),
    /// Decryption failed.
    DecryptionFailure(String),
    /// A signature did not verify.
    InvalidSignature(String),
    /// Bytes that do not encode a value of the expected type.
    SerializationError(String),
    /// A parameter out of range (tau zero, `n` not a power of two, ...).
    InvalidParameter(String),
    /// A polynomial commitment could not be formed.
    KzgError(String),
    /// No evaluation domain of the asked size.
    DomainError(String),
    /// Inputs that do not fit together, or a failed final check.
    ValidationError(String),
    /// A multi-scalar multiplication got malformed input.
    MsmError(String),
    /// A field element without inverse.
    FieldInverseError(String),
    /// The random source failed.
    RandomnessError(String),
    /// TLS or certificate error.
    TlsError(String),
    /// Input/output error.
    IoError(String),
}

impl SteError {
    /// The explanation carried by the error.
    pub fn message(&self) -> (r: &String)
        ensures
            r@ == self.msg(),
    {
        match self {
            SteError::CryptoError(m) => m,
            SteError::NetworkError(m) => m,
            SteError::InvalidThreshold(m) => m,
            SteError::KeyGenerationFailed(m) => m,
            SteError::DecryptionFailure(m) => m,
            SteError::InvalidSignature(m) => m,
            SteError::SerializationError(m) => m,
            SteError::InvalidParameter(m) => m,
            SteError::KzgError(m) => m,
            SteError::DomainError(m) => m,
            SteError::ValidationError(m) => m,
            SteError::MsmError(m) => m,
            SteError::FieldInverseError(m) => m,
            SteError::RandomnessError(m) => m,
            SteError::TlsError(m) => m,
            SteError::IoError(m) => m,
        }
    }

    /// The explanation, as a sequence of characters.
    pub open spec fn msg(&self) -> Seq<char> {
        match self {
            SteError::CryptoError(m) => m@,
            SteError::NetworkError(m) => m@,
            SteError::InvalidThreshold(m) => m@,
            SteError::KeyGenerationFailed(m) => m@,
            SteError::DecryptionFailure(m) => m@,
            SteError::InvalidSignature(m) => m@,
            SteError::SerializationError(m) => m@,
            SteError::InvalidParameter(m) => m@,
            SteError::KzgError(m) => m@,
            SteError::DomainError(m) => m@,
            SteError::ValidationError(m) => m@,
            SteError::MsmError(m) => m@,
            SteError::FieldInverseError(m) => m@,
            SteError::RandomnessError(m) => m@,
            SteError::TlsError(m) => m@,
            SteError::IoError(m) => m@,
        }
    }

    /// The label of the kind of error, as `to_string` writes it.
    pub open spec fn kind_label(&self) -> Seq<char> {
        match self {
            SteError::CryptoError(_) => "Cryptographic error: "@,
            SteError::NetworkError(_) => "Network error: "@,
            SteError::InvalidThreshold(_) => "Invalid threshold: "@,
            SteError::KeyGenerationFailed(_) => "Key generation failed: "@,
            SteError::DecryptionFailure(_) => "Decryption failure: "@,
            SteError::InvalidSignature(_) => "Invalid signature: "@,
            SteError::SerializationError(_) => "Serialization error: "@,
            SteError::InvalidParameter(_) => "Invalid parameter: "@,
            SteError::KzgError(_) => "KZG error: "@,
            SteError::DomainError(_) => "Domain error: "@,
            SteError::ValidationError(_) => "Validation error: "@,
            SteError::MsmError(_) => "MSM error: "@,
            SteError::FieldInverseError(_) => "Field inverse error: "@,
            SteError::RandomnessError(_) => "Randomness error: "@,
            SteError::TlsError(_) => "TLS error: "@,
            SteError::IoError(_) => "IO error: "@,
        }
    }

    /// The error as one line: its kind, then its explanation.
    pub fn to_string(&self) -> (r: String)
        ensures
            r@ == self.kind_label() + self.msg(),
    {
        let kind = match self {
            SteError::CryptoError(_) => {
                proof {
                    reveal_strlit("Cryptographic error: ");
                }
                "Cryptographic error: "
            },
            SteError::NetworkError(_) => {
                proof {
                    reveal_strlit("Network error: ");
                }
                "Network error: "
            },
            SteError::InvalidThreshold(_) => {
                proof {
                    reveal_strlit("Invalid threshold: ");
                }
                "Invalid threshold: "
            },
            SteError::KeyGenerationFailed(_) => {
                proof {
                    reveal_strlit("Key generation failed: ");
                }
                "Key generation failed: "
            },
            SteError::DecryptionFailure(_) => {
                proof {
                    reveal_strlit("Decryption failure: ");
                }
                "Decryption failure: "
            },
            SteError::InvalidSignature(_) => {
                proof {
                    reveal_strlit("Invalid signature: ");
                }
                "Invalid signature: "
            },
            SteError::SerializationError(_) => {
                proof {
                    reveal_strlit("Serialization error: ");
                }
                "Serialization error: "
            },
            SteError::InvalidParameter(_) => {
                proof {
                    reveal_strlit("Invalid parameter: ");
                }
                "Invalid parameter: "
            },
            SteError::KzgError(_) => {
                proof {
                    reveal_strlit("KZG error: ");
                }
                "KZG error: "
            },
            SteError::DomainError(_) => {
                proof {
                    reveal_strlit("Domain error: ");
                }
                "Domain error: "
            },
            SteError::ValidationError(_) => {
                proof {
                    reveal_strlit("Validation error: ");
                }
                "Validation error: "
            },
            SteError::MsmError(_) => {
                proof {
                    reveal_strlit("MSM error: ");
                }
                "MSM error: "
            },
            SteError::FieldInverseError(_) => {
                proof {
                    reveal_strlit("Field inverse error: ");
                }
                "Field inverse error: "
            },
            SteError::RandomnessError(_) => {
                proof {
                    reveal_strlit("Randomness error: ");
                }
                "Randomness error: "
            },
            SteError::TlsError(_) => {
                proof {
                    reveal_strlit("TLS error: ");
                }
                "TLS error: "
            },
            SteError::IoError(_) => {
                proof {
                    reveal_strlit("IO error: ");
                }
                "IO error: "
            },
        };
        let mut out = kind.to_string();
        out.append(self.message().as_str());
        out
    }
}

} // verus!
