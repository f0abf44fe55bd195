use vstd::prelude::*;

verus! {

/// Every failure the library reports. All are returned to the caller;
/// none is recovered locally.
#[derive(Clone, Copy, Debug, PartialEq, Eq, Structural)]
pub enum MlKemError {
    /// A byte-string length does not match the value the call's
    /// parameter set requires.
    InvalidLength,
    /// The ciphertext handed to decapsulation has the wrong length.
    CiphertextLength,
    /// The decapsulation key has the wrong length.
    DecapsKeyLength,
    /// A matrix or vector shape mismatch in a module operation.
    DimensionMismatch,
    /// Two ring elements tagged with different domains were multiplied
    /// or added.
    DomainMismatch,
    /// The vector inside an encapsulation key fails its re-encoding
    /// round trip: a coefficient exceeded q - 1.
    ModulusCheckFailed,
    /// The hash embedded in a decapsulation key disagrees with the
    /// freshly computed hash of the encapsulation key.
    HashCheckFailed,
    /// The two byte strings handed to the constant-time selector have
    /// different lengths.
    LengthMismatch,
    /// Uniform rejection sampling exhausted its XOF byte budget before a
    /// matrix element filled. Reachable only with probability far below
    /// two to the minus hundreds per key.
    SamplingExhausted,
}

} // verus!
