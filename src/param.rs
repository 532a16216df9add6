use vstd::prelude::*;

verus! {

/// The model's hyper-parameters, fixed once loaded.
pub struct HyperParam {
    pub name: String,
    /// Embedding width.
    pub dim: usize,
    /// Hidden width of the feed-forward sub-layer.
    pub ffn_dim: usize,
    /// Number of transformer blocks.
    pub layer: usize,
    /// Number of query heads.
    pub head: usize,
    /// Number of key/value heads; must equal `head`.
    pub kv_head: usize,
    /// Number of token ids.
    pub vocab_size: usize,
    /// Largest supported position plus one.
    pub seq_len: usize,
}

impl HyperParam {
    /// All sizes positive, `head` divides `dim`, the head width is even and
    /// every query head has its own key/value head.
    pub open spec fn well_formed(&self) -> bool {
        &&& self.dim > 0
        &&& self.ffn_dim > 0
        &&& self.layer > 0
        &&& self.head > 0
        &&& self.kv_head > 0
        &&& self.vocab_size > 0
        &&& self.seq_len > 0
        &&& self.dim % self.head == 0
        &&& (self.dim / self.head) % 2 == 0
        &&& self.kv_head == self.head
    }

    /// Checks the constraints of `well_formed`.
    pub fn validate(&self) -> (r: Result<(), crate::LlamaError>)
        ensures
            r is Ok <==> self.well_formed(),
            r is Err ==> r == Err::<(), crate::LlamaError>(crate::LlamaError::Configuration),
    {
        if self.dim == 0 || self.ffn_dim == 0 || self.layer == 0 || self.head == 0
            || self.kv_head == 0 || self.vocab_size == 0 || self.seq_len == 0 {
            return Err(crate::LlamaError::Configuration);
        }
        if self.dim % self.head != 0 || (self.dim / self.head) % 2 != 0 || self.kv_head
            != self.head {
            return Err(crate::LlamaError::Configuration);
        }
        Ok(())
    }

    /// The width of one attention head.
    pub fn head_dim(&self) -> (r: usize)
        requires
            self.head > 0,
        ensures
            r == self.dim / self.head,
    {
        self.dim / self.head
    }
}

} // verus!
