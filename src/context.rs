use vstd::prelude::*;

verus! {

/// The key/value cache of one generation: for each layer and position, the rotated
/// key and the value vector of width `dim`. Slot `(layer, pos)` is stored at
/// `layer * seq_len + pos`.
pub struct Context<T> {
    layers: usize,
    seq_len: usize,
    dim: usize,
    k_cache: Vec<Vec<T>>,
    v_cache: Vec<Vec<T>>,
}

/// `n` copies of `x`.
pub open spec fn repeat<T>(x: T, n: nat) -> Seq<T> {
    Seq::new(n, |i: int| x)
}

/// The slot of `(layer, pos)` lies inside the cache, and distinct pairs have
/// distinct slots.
proof fn lemma_slot(layers: int, seq_len: int, l: int, p: int)
    requires
        0 <= l < layers,
        0 <= p < seq_len,
    ensures
        0 <= l * seq_len + p < layers * seq_len,
        forall|l2: int, p2: int|
            0 <= l2 < layers && 0 <= p2 < seq_len && (l2 != l || p2 != p) ==> #[trigger] (l2
                * seq_len + p2) != l * seq_len + p,
{
    assert(0 <= l * seq_len + p < layers * seq_len) by (nonlinear_arith)
        requires
            0 <= l < layers,
            0 <= p < seq_len,
    ;
    assert forall|l2: int, p2: int|
        0 <= l2 < layers && 0 <= p2 < seq_len && (l2 != l || p2 != p) implies #[trigger] (l2
            * seq_len + p2) != l * seq_len + p by {
        if l2 == l {
        } else if l2 < l {
            assert(l2 * seq_len + p2 < l * seq_len + p) by (nonlinear_arith)
                requires
                    l2 < l,
                    0 <= p2 < seq_len,
                    0 <= p,
            ;
        } else {
            assert(l * seq_len + p < l2 * seq_len + p2) by (nonlinear_arith)
                requires
                    l < l2,
                    0 <= p < seq_len,
                    0 <= p2,
            ;
        }
    }
}

impl<T: Copy> Context<T> {
    /// Number of layers.
    pub closed spec fn layers(&self) -> nat {
        self.layers as nat
    }

    /// Number of positions per layer.
    pub closed spec fn seq_len(&self) -> nat {
        self.seq_len as nat
    }

    /// Width of each stored vector.
    pub closed spec fn dim(&self) -> nat {
        self.dim as nat
    }

    /// The key stored for `(l, p)`.
    pub closed spec fn key_at(&self, l: int, p: int) -> Seq<T> {
        self.k_cache@[l * self.seq_len + p]@
    }

    /// The value stored for `(l, p)`.
    pub closed spec fn value_at(&self, l: int, p: int) -> Seq<T> {
        self.v_cache@[l * self.seq_len + p]@
    }

    /// One slot per layer and position, each of width `dim`.
    pub closed spec fn wf(&self) -> bool {
        &&& self.k_cache@.len() == self.layers * self.seq_len
        &&& self.v_cache@.len() == self.layers * self.seq_len
        &&& forall|i: int| 0 <= i < self.k_cache@.len() ==> #[trigger] self.k_cache@[i]@.len() == self.dim
        &&& forall|i: int| 0 <= i < self.v_cache@.len() ==> #[trigger] self.v_cache@[i]@.len() == self.dim
    }

    /// A cache of `hp.layer` layers of `hp.seq_len` positions, every key and value
    /// `hp.dim` copies of `zero`.
    pub fn new(hp: &crate::HyperParam, zero: T) -> (r: Context<T>)
        requires
            hp.layer * hp.seq_len <= usize::MAX,
        ensures
            r.wf(),
            r.layers() == hp.layer,
            r.seq_len() == hp.seq_len,
            r.dim() == hp.dim,
            forall|l: int, p: int|
                0 <= l < hp.layer && 0 <= p < hp.seq_len ==> #[trigger] r.key_at(l, p) == repeat(
                    zero,
                    hp.dim as nat,
                ),
            forall|l: int, p: int|
                0 <= l < hp.layer && 0 <= p < hp.seq_len ==> #[trigger] r.value_at(l, p) == repeat(
                    zero,
                    hp.dim as nat,
                ),
    {
        let slots = hp.layer * hp.seq_len;
        let mut row: Vec<T> = Vec::new();
        let mut i: usize = 0;
        while i < hp.dim
            invariant
                i <= hp.dim,
                row@ == repeat(zero, i as nat),
            decreases hp.dim - i,
        {
            row.push(zero);
            i += 1;
            proof {
                assert(row@ =~= repeat(zero, i as nat));
            }
        }
        let mut k_cache: Vec<Vec<T>> = Vec::new();
        let mut v_cache: Vec<Vec<T>> = Vec::new();
        let mut s: usize = 0;
        while s < slots
            invariant
                s <= slots,
                row@ == repeat(zero, hp.dim as nat),
                k_cache@.len() == s,
                v_cache@.len() == s,
                forall|j: int| 0 <= j < s ==> #[trigger] k_cache@[j]@ == row@,
                forall|j: int| 0 <= j < s ==> #[trigger] v_cache@[j]@ == row@,
            decreases slots - s,
        {
            k_cache.push(copy_row(&row));
            v_cache.push(copy_row(&row));
            s += 1;
        }
        let r = Context { layers: hp.layer, seq_len: hp.seq_len, dim: hp.dim, k_cache, v_cache };
        proof {
            assert forall|l: int, p: int| 0 <= l < hp.layer && 0 <= p < hp.seq_len implies #[trigger] r.key_at(l, p)
                == repeat(zero, hp.dim as nat) by {
                lemma_slot(hp.layer as int, hp.seq_len as int, l, p);
                assert(r.k_cache@[l * hp.seq_len + p]@ == row@);
            }
            assert forall|l: int, p: int| 0 <= l < hp.layer && 0 <= p < hp.seq_len implies #[trigger] r.value_at(l, p)
                == repeat(zero, hp.dim as nat) by {
                lemma_slot(hp.layer as int, hp.seq_len as int, l, p);
                assert(r.v_cache@[l * hp.seq_len + p]@ == row@);
            }
        }
        r
    }

    /// Stores `k` and `v` for `(layer, pos)`. `Bounds` where `layer` or `pos` is out
    /// of range; otherwise `Shape` where `k` or `v` is not of width `dim`. The cache
    /// changes only on success, and then only at `(layer, pos)`.
    pub fn write(&mut self, layer: usize, pos: usize, k: Vec<T>, v: Vec<T>) -> (r: Result<
        (),
        crate::LlamaError,
    >)
        requires
            old(self).wf(),
        ensures
            final(self).wf(),
            final(self).layers() == old(self).layers(),
            final(self).seq_len() == old(self).seq_len(),
            final(self).dim() == old(self).dim(),
            layer >= old(self).layers() || pos >= old(self).seq_len() ==> r == Err::<
                (),
                crate::LlamaError,
            >(crate::LlamaError::Bounds),
            layer < old(self).layers() && pos < old(self).seq_len() && (k@.len() != old(self).dim()
                || v@.len() != old(self).dim()) ==> r == Err::<(), crate::LlamaError>(
                crate::LlamaError::Shape,
            ),
            layer < old(self).layers() && pos < old(self).seq_len() && k@.len() == old(self).dim()
                && v@.len() == old(self).dim() ==> r is Ok,
            r is Err ==> *final(self) == *old(self),
            r is Ok ==> final(self).key_at(layer as int, pos as int) == k@ && final(self).value_at(
                layer as int,
                pos as int,
            ) == v@,
            r is Ok ==> forall|l: int, p: int|
                0 <= l < old(self).layers() && 0 <= p < old(self).seq_len() && (l != layer || p
                    != pos) ==> #[trigger] final(self).key_at(l, p) == old(self).key_at(l, p),
            r is Ok ==> forall|l: int, p: int|
                0 <= l < old(self).layers() && 0 <= p < old(self).seq_len() && (l != layer || p
                    != pos) ==> #[trigger] final(self).value_at(l, p) == old(self).value_at(l, p),
    {
        if layer >= self.layers || pos >= self.seq_len {
            return Err(crate::LlamaError::Bounds);
        }
        if k.len() != self.dim || v.len() != self.dim {
            return Err(crate::LlamaError::Shape);
        }
        let _n = self.k_cache.len();
        proof {
            lemma_slot(self.layers as int, self.seq_len as int, layer as int, pos as int);
        }
        let slot = layer * self.seq_len + pos;
        let ghost prev = *self;
        self.k_cache.set(slot, k);
        self.v_cache.set(slot, v);
        proof {
            assert forall|l: int, p: int|
                0 <= l < prev.layers() && 0 <= p < prev.seq_len() && (l != layer || p != pos) implies #[trigger] self.key_at(l, p)
                == prev.key_at(l, p) by {
                lemma_slot(self.layers as int, self.seq_len as int, l, p);
            }
            assert forall|l: int, p: int|
                0 <= l < prev.layers() && 0 <= p < prev.seq_len() && (l != layer || p != pos) implies #[trigger] self.value_at(l, p)
                == prev.value_at(l, p) by {
                lemma_slot(self.layers as int, self.seq_len as int, l, p);
            }
        }
        Ok(())
    }

    /// The key stored for `(layer, pos)`.
    pub fn key(&self, layer: usize, pos: usize) -> (r: &Vec<T>)
        requires
            self.wf(),
            layer < self.layers(),
            pos < self.seq_len(),
        ensures
            r@ == self.key_at(layer as int, pos as int),
            r@.len() == self.dim(),
    {
        let _n = self.k_cache.len();
        proof {
            lemma_slot(self.layers as int, self.seq_len as int, layer as int, pos as int);
        }
        &self.k_cache[layer * self.seq_len + pos]
    }

    /// The value stored for `(layer, pos)`.
    pub fn value(&self, layer: usize, pos: usize) -> (r: &Vec<T>)
        requires
            self.wf(),
            layer < self.layers(),
            pos < self.seq_len(),
        ensures
            r@ == self.value_at(layer as int, pos as int),
            r@.len() == self.dim(),
    {
        let _n = self.v_cache.len();
        proof {
            lemma_slot(self.layers as int, self.seq_len as int, layer as int, pos as int);
        }
        &self.v_cache[layer * self.seq_len + pos]
    }
}

/// A fresh vector holding the elements of `row`.
fn copy_row<T: Copy>(row: &Vec<T>) -> (r: Vec<T>)
    ensures
        r@ == row@,
{
    let mut r: Vec<T> = Vec::new();
    let mut i: usize = 0;
    while i < row.len()
        invariant
            i <= row@.len(),
            r@ == row@.subrange(0, i as int),
        decreases row.len() - i,
    {
        r.push(row[i]);
        i += 1;
        proof {
            assert(r@ =~= row@.subrange(0, i as int));
        }
    }
    proof {
        assert(row@.subrange(0, i as int) =~= row@);
    }
    r
}

} // verus!
