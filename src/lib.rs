//! Inference-engine building blocks for a LLaMA-family decoder: hyper-parameter
//! validation, the weight-file layout, the key/value cache, the greedy tokenizer and
//! the generation session that drives the decoder position by position.

pub mod context;
pub mod error;
pub mod param;
pub mod session;
pub mod tokenizer;
pub mod weight;

pub use context::Context;
pub use error::LlamaError;
pub use param::HyperParam;
pub use session::{Phase, Session};
pub use tokenizer::{Tokenizer, EOS, SOS};
pub use weight::{weight_file_len, weight_shapes, TensorShape};
