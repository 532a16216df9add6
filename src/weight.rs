use vstd::prelude::*;

verus! {

/// The shape of one tensor of the weight file: `depth` matrices of `rows` by `cols`
/// 32-bit floats, the last dimension varying fastest.
#[derive(Debug, Clone, Copy, PartialEq, Eq, Structural)]
pub struct TensorShape {
    pub depth: usize,
    pub rows: usize,
    pub cols: usize,
}

/// A tensor shape from its three extents.
pub open spec fn shape(depth: int, rows: int, cols: int) -> TensorShape {
    TensorShape { depth: depth as usize, rows: rows as usize, cols: cols as usize }
}

/// The tensors of the weight file, in file order: token embeddings, attention
/// norms, Wq, Wk, Wv, Wo, FFN norms, W1, W2, W3, final norm, RoPE cosines and
/// RoPE sines.
pub open spec fn weight_layout(hp: &crate::HyperParam) -> Seq<TensorShape> {
    let half = hp.dim / hp.head / 2;
    seq![
        shape(1, hp.vocab_size as int, hp.dim as int),
        shape(1, hp.layer as int, hp.dim as int),
        shape(hp.layer as int, hp.dim as int, hp.dim as int),
        shape(hp.layer as int, hp.dim as int, hp.dim as int),
        shape(hp.layer as int, hp.dim as int, hp.dim as int),
        shape(hp.layer as int, hp.dim as int, hp.dim as int),
        shape(1, hp.layer as int, hp.dim as int),
        shape(hp.layer as int, hp.ffn_dim as int, hp.dim as int),
        shape(hp.layer as int, hp.dim as int, hp.ffn_dim as int),
        shape(hp.layer as int, hp.ffn_dim as int, hp.dim as int),
        shape(1, 1, hp.dim as int),
        shape(1, hp.seq_len as int, half as int),
        shape(1, hp.seq_len as int, half as int),
    ]
}

/// The number of floats in a tensor of shape `s`.
pub open spec fn shape_len(s: TensorShape) -> int {
    s.depth * s.rows * s.cols
}

/// The number of floats in all the tensors of `shapes`.
pub open spec fn total_len(shapes: Seq<TensorShape>) -> int
    decreases shapes.len(),
{
    if shapes.len() == 0 {
        0
    } else {
        total_len(shapes.drop_last()) + shape_len(shapes.last())
    }
}

/// The shapes of the tensors of the weight file, in file order.
pub fn weight_shapes(hp: &crate::HyperParam) -> (r: Vec<TensorShape>)
    requires
        hp.well_formed(),
    ensures
        r@ == weight_layout(hp),
{
    let half = hp.dim / hp.head / 2;
    let d = hp.dim;
    let l = hp.layer;
    let f = hp.ffn_dim;
    let r = vec![
        TensorShape { depth: 1, rows: hp.vocab_size, cols: d },
        TensorShape { depth: 1, rows: l, cols: d },
        TensorShape { depth: l, rows: d, cols: d },
        TensorShape { depth: l, rows: d, cols: d },
        TensorShape { depth: l, rows: d, cols: d },
        TensorShape { depth: l, rows: d, cols: d },
        TensorShape { depth: 1, rows: l, cols: d },
        TensorShape { depth: l, rows: f, cols: d },
        TensorShape { depth: l, rows: d, cols: f },
        TensorShape { depth: l, rows: f, cols: d },
        TensorShape { depth: 1, rows: 1, cols: d },
        TensorShape { depth: 1, rows: hp.seq_len, cols: half },
        TensorShape { depth: 1, rows: hp.seq_len, cols: half },
    ];
    proof {
        assert(r@ =~= weight_layout(hp));
    }
    r
}

/// The exact size in bytes of a weight file for `hp`: four bytes per float of the
/// layout. `Configuration` where `hp` is not well formed or the size does not fit
/// in a `usize`.
pub fn weight_file_len(hp: &crate::HyperParam) -> (r: Result<usize, crate::LlamaError>)
    ensures
        hp.well_formed() && 4 * total_len(weight_layout(hp)) <= usize::MAX ==> r == Ok::<
            usize,
            crate::LlamaError,
        >((4 * total_len(weight_layout(hp))) as usize),
        !(hp.well_formed() && 4 * total_len(weight_layout(hp)) <= usize::MAX) ==> r == Err::<
            usize,
            crate::LlamaError,
        >(crate::LlamaError::Configuration),
{
    if hp.validate().is_err() {
        return Err(crate::LlamaError::Configuration);
    }
    let shapes = weight_shapes(hp);
    let mut total: usize = 0;
    let mut i: usize = 0;
    while i < shapes.len()
        invariant
            hp.well_formed(),
            shapes@ == weight_layout(hp),
            i <= shapes@.len(),
            total == total_len(shapes@.subrange(0, i as int)),
        decreases shapes.len() - i,
    {
        let s = shapes[i];
        proof {
            assert(shapes@.subrange(0, i + 1).drop_last() =~= shapes@.subrange(0, i as int));
            lemma_total_len_grows(shapes@, i + 1);
            lemma_total_len_grows_to_end(shapes@, i + 1);
        }
        let n = match s.depth.checked_mul(s.rows) {
            Some(dr) => match dr.checked_mul(s.cols) {
                Some(n) => n,
                None => {
                    proof {
                        lemma_shape_len_exceeds(s, dr as int);
                    }
                    return Err(crate::LlamaError::Configuration);
                },
            },
            None => {
                proof {
                    lemma_layout_cols_positive(hp);
                    lemma_product_exceeds(s);
                }
                return Err(crate::LlamaError::Configuration);
            },
        };
        total = match total.checked_add(n) {
            Some(t) => t,
            None => return Err(crate::LlamaError::Configuration),
        };
        i += 1;
    }
    proof {
        assert(shapes@.subrange(0, i as int) =~= shapes@);
    }
    match total.checked_mul(4) {
        Some(b) => Ok(b),
        None => Err(crate::LlamaError::Configuration),
    }
}

/// The total over a prefix grows to the total over a longer prefix.
proof fn lemma_total_len_grows(s: Seq<TensorShape>, j: int)
    requires
        0 < j <= s.len(),
    ensures
        total_len(s.subrange(0, j)) == total_len(s.subrange(0, j - 1)) + shape_len(s[j - 1]),
        shape_len(s[j - 1]) >= 0,
{
    assert(s.subrange(0, j).drop_last() =~= s.subrange(0, j - 1));
    lemma_shape_len_nonneg(s[j - 1]);
}

/// The total over a prefix is at most the total over the whole sequence.
proof fn lemma_total_len_grows_to_end(s: Seq<TensorShape>, j: int)
    requires
        0 <= j <= s.len(),
    ensures
        total_len(s.subrange(0, j)) <= total_len(s),
    decreases s.len() - j,
{
    if j < s.len() {
        lemma_total_len_grows(s, j + 1);
        lemma_total_len_grows_to_end(s, j + 1);
    } else {
        assert(s.subrange(0, j) =~= s);
    }
}

proof fn lemma_shape_len_nonneg(s: TensorShape)
    ensures
        shape_len(s) >= 0,
{
    assert(s.depth * s.rows >= 0) by (nonlinear_arith);
    assert((s.depth * s.rows) * s.cols >= 0) by (nonlinear_arith);
}

/// Every tensor of a well-formed layout has at least one column.
proof fn lemma_layout_cols_positive(hp: &crate::HyperParam)
    requires
        hp.well_formed(),
    ensures
        forall|i: int| 0 <= i < 13 ==> #[trigger] weight_layout(hp)[i].cols >= 1,
{
    let hd = hp.dim / hp.head;
    assert(hd >= 1) by (nonlinear_arith)
        requires
            hp.dim > 0,
            hp.head > 0,
            hp.dim % hp.head == 0,
            hd == hp.dim / hp.head,
    ;
    assert(hd / 2 >= 1);
}

/// Where `depth * rows` overflows, so does the whole product.
proof fn lemma_product_exceeds(s: TensorShape)
    requires
        s.depth * s.rows > usize::MAX,
    ensures
        shape_len(s) > usize::MAX || s.cols == 0,
{
    if s.cols > 0 {
        assert((s.depth * s.rows) * s.cols >= s.depth * s.rows) by (nonlinear_arith)
            requires
                s.cols >= 1,
                s.depth * s.rows >= 0,
        ;
    }
}

proof fn lemma_shape_len_exceeds(s: TensorShape, dr: int)
    requires
        dr == s.depth * s.rows,
        dr * s.cols > usize::MAX,
    ensures
        shape_len(s) > usize::MAX,
{
}

} // verus!
