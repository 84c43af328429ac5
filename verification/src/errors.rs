use vstd::prelude::*;

verus! {

/// Why a parameter set or a nonce was refused.
#[derive(Debug, Clone, Copy, PartialEq, Eq, Structural)]
pub enum TraverseVErr {
    MemoryTooSmall,
    TimeTooSmall,
    EvaluationTooFew,
    DifficultyTooLow,
    DifficultyTooHigh,
    InvalidNonce,
}

impl TraverseVErr {
    /// The human-readable description of the error.
    pub fn message(&self) -> (msg: &'static str)
        ensures
            *self == TraverseVErr::MemoryTooSmall ==> msg@ == "memory cost is too small"@,
            *self == TraverseVErr::TimeTooSmall ==> msg@ == "time cost is too small"@,
            *self == TraverseVErr::EvaluationTooFew ==> msg@ == "evaluation rounds is too few"@,
            *self == TraverseVErr::DifficultyTooLow ==> msg@ == "difficulty is too low"@,
            *self == TraverseVErr::DifficultyTooHigh ==> msg@ == "difficulty is too high"@,
            *self == TraverseVErr::InvalidNonce ==> msg@ == "nonce time before unix epoch"@,
    {
        match self {
            TraverseVErr::MemoryTooSmall => "memory cost is too small",
            TraverseVErr::TimeTooSmall => "time cost is too small",
            TraverseVErr::EvaluationTooFew => "evaluation rounds is too few",
            TraverseVErr::DifficultyTooLow => "difficulty is too low",
            TraverseVErr::DifficultyTooHigh => "difficulty is too high",
            TraverseVErr::InvalidNonce => "nonce time before unix epoch",
        }
    }
}

} // verus!
