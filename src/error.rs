//! Error kinds reported by validation, fusion, sealing and identity.
use vstd::prelude::*;

verus! {

/// Every failure the core reports; none of them is retried or downgraded.
#[derive(Debug, Clone)]
pub enum OpenTrustError {
    /// A degree lies outside `[0, SCALE]`.
    InvalidValue { field: String, value: u32, message: String },
    /// The three degrees add up to more than `SCALE`.
    ConservationViolation { t: u32, i: u32, f: u32, sum: u64 },
    /// A judgment was given no provenance entry.
    EmptyProvenanceChain,
    /// The entry at `index` has a blank source id or timestamp.
    InvalidProvenanceEntry { index: usize, message: String },
    /// A fusion, seal or verification input is unusable.
    InvalidFusionInput { message: String },
    /// Weights and judgments differ in number.
    WeightsLengthMismatch { judgments_len: usize, weights_len: usize },
    /// Every weight is zero.
    AllWeightsZero,
    /// A value could not be encoded.
    SerializationError { message: String },
}

} // verus!
