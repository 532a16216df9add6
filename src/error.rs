use vstd::prelude::*;

verus! {

/// The ways in which loading or running the engine can fail.
#[derive(Debug, Clone, Copy, PartialEq, Eq, Structural)]
pub enum LlamaError {
    /// Hyper-parameters that are missing, unparseable or inconsistent.
    Configuration,
    /// A weight or vocabulary buffer that is truncated or of the wrong size.
    Io,
    /// A token id outside the vocabulary, or a position outside the sequence.
    Bounds,
    /// A tensor whose length does not match the model's shape.
    Shape,
}

impl LlamaError {
    /// A human-readable description of the error.
    pub fn message(&self) -> (r: String)
        ensures
            r@ == match self {
                LlamaError::Configuration => "invalid hyper-parameters"@,
                LlamaError::Io => "weight or vocabulary data is truncated or malformed"@,
                LlamaError::Bounds => "token id or position out of range"@,
                LlamaError::Shape => "tensor shape does not match the model"@,
            },
    {
        match self {
            LlamaError::Configuration => String::from_str("invalid hyper-parameters"),
            LlamaError::Io => String::from_str("weight or vocabulary data is truncated or malformed"),
            LlamaError::Bounds => String::from_str("token id or position out of range"),
            LlamaError::Shape => String::from_str("tensor shape does not match the model"),
        }
    }
}

} // verus!
