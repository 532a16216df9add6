use vstd::prelude::*;

verus! {

/// Where a generation stands.
#[derive(Debug, Clone, Copy, PartialEq, Eq, Structural)]
pub enum Phase {
    /// Feeding prompt tokens; the decoder's logits are discarded.
    Priming,
    /// Feeding back the last token and sampling the next one.
    Generating,
    /// The token budget is reached.
    Done,
}

/// The phase at position `pos` of a generation with a prompt of `plen` tokens and a
/// budget of `max` tokens.
pub open spec fn phase_at(plen: nat, max: nat, pos: nat) -> Phase {
    if pos < plen {
        Phase::Priming
    } else if pos < max {
        Phase::Generating
    } else {
        Phase::Done
    }
}

/// The decisions of one generation: which token to feed at which position, and when
/// to stop. The next position is the number of tokens recorded so far. While
/// priming, prompt token `pos` is fed at `pos`; while generating, the last recorded
/// token is fed and the token sampled from the logits is recorded. The first
/// generating step thus feeds the last prompt token once more, right after the
/// prompt. Generation stops once `max` tokens are recorded.
pub struct Session {
    prompt: Vec<usize>,
    toks: Vec<usize>,
    max: usize,
    vocab_size: usize,
}

impl Session {
    /// The prompt.
    pub closed spec fn prompt(&self) -> Seq<usize> {
        self.prompt@
    }

    /// The tokens recorded so far: the prompt, then the generated ones.
    pub closed spec fn tokens(&self) -> Seq<usize> {
        self.toks@
    }

    /// The token budget.
    pub closed spec fn max(&self) -> nat {
        self.max as nat
    }

    /// The vocabulary size that every token stays below.
    pub closed spec fn vocab_size(&self) -> nat {
        self.vocab_size as nat
    }

    /// The current phase.
    pub open spec fn phase_spec(&self) -> Phase {
        phase_at(self.prompt().len(), self.max(), self.tokens().len())
    }

    /// The prompt is non-empty, the recorded tokens start with the prompt and stop at
    /// the later of its end and the budget, and every token lies in the vocabulary.
    pub closed spec fn wf(&self) -> bool {
        &&& self.prompt@.len() > 0
        &&& self.toks@.len() <= self.prompt@.len() || self.toks@.len() <= self.max
        &&& forall|i: int|
            0 <= i < self.toks@.len() && i < self.prompt@.len() ==> #[trigger] self.toks@[i]
                == self.prompt@[i]
        &&& forall|i: int| 0 <= i < self.prompt@.len() ==> #[trigger] self.prompt@[i] < self.vocab_size
        &&& forall|i: int| 0 <= i < self.toks@.len() ==> #[trigger] self.toks@[i] < self.vocab_size
    }

    /// A session for `prompt` and a budget of `max` tokens. `Shape` where the prompt
    /// is empty; otherwise `Bounds` where a prompt token is not below
    /// `hp.vocab_size`, or the prompt or the budget is longer than `hp.seq_len`.
    pub fn new(hp: &crate::HyperParam, prompt: Vec<usize>, max: usize) -> (r: Result<
        Session,
        crate::LlamaError,
    >)
        ensures
            prompt@.len() == 0 ==> r == Err::<Session, crate::LlamaError>(
                crate::LlamaError::Shape,
            ),
            prompt@.len() > 0 && ((exists|i: int|
                0 <= i < prompt@.len() && #[trigger] prompt@[i] >= hp.vocab_size)
                || prompt@.len() > hp.seq_len || max > hp.seq_len) ==> r == Err::<
                Session,
                crate::LlamaError,
            >(crate::LlamaError::Bounds),
            r is Ok ==> {
                let s = r->Ok_0;
                &&& s.wf()
                &&& s.prompt() == prompt@
                &&& s.tokens() == Seq::<usize>::empty()
                &&& s.max() == max
                &&& s.vocab_size() == hp.vocab_size
            },
            prompt@.len() > 0 && (forall|i: int|
                0 <= i < prompt@.len() ==> #[trigger] prompt@[i] < hp.vocab_size)
                && prompt@.len() <= hp.seq_len && max <= hp.seq_len ==> r is Ok,
    {
        if prompt.len() == 0 {
            return Err(crate::LlamaError::Shape);
        }
        if prompt.len() > hp.seq_len || max > hp.seq_len {
            return Err(crate::LlamaError::Bounds);
        }
        let mut i: usize = 0;
        while i < prompt.len()
            invariant
                i <= prompt@.len(),
                forall|j: int| 0 <= j < i ==> #[trigger] prompt@[j] < hp.vocab_size,
            decreases prompt.len() - i,
        {
            if prompt[i] >= hp.vocab_size {
                return Err(crate::LlamaError::Bounds);
            }
            i += 1;
        }
        Ok(Session { prompt, toks: Vec::new(), max, vocab_size: hp.vocab_size })
    }

    /// The current phase.
    pub fn phase(&self) -> (r: Phase)
        ensures
            r == self.phase_spec(),
    {
        let pos = self.toks.len();
        if pos < self.prompt.len() {
            Phase::Priming
        } else if pos < self.max {
            Phase::Generating
        } else {
            Phase::Done
        }
    }

    /// The token and position to decode next: the next prompt token while priming,
    /// the last recorded token while generating, nothing when done.
    pub fn next_input(&self) -> (r: Option<(usize, usize)>)
        requires
            self.wf(),
        ensures
            self.phase_spec() == Phase::Priming ==> r == Some(
                (self.prompt()[self.tokens().len() as int], self.tokens().len() as usize),
            ),
            self.phase_spec() == Phase::Generating ==> r == Some(
                (self.tokens().last(), self.tokens().len() as usize),
            ),
            self.phase_spec() == Phase::Done ==> r is None,
            r matches Some((tok, _)) ==> tok < self.vocab_size(),
    {
        let pos = self.toks.len();
        if pos < self.prompt.len() {
            Some((self.prompt[pos], pos))
        } else if pos < self.max {
            Some((self.toks[pos - 1], pos))
        } else {
            None
        }
    }

    /// Records the prompt token just decoded.
    pub fn advance_prompt(&mut self)
        requires
            old(self).wf(),
            old(self).phase_spec() == Phase::Priming,
        ensures
            final(self).wf(),
            final(self).prompt() == old(self).prompt(),
            final(self).max() == old(self).max(),
            final(self).vocab_size() == old(self).vocab_size(),
            final(self).tokens() == old(self).tokens().push(
                old(self).prompt()[old(self).tokens().len() as int],
            ),
    {
        let t = self.prompt[self.toks.len()];
        self.toks.push(t);
    }

    /// Records a generated token. `Bounds`, with nothing recorded, where `tok` is not
    /// below the vocabulary size.
    pub fn advance(&mut self, tok: usize) -> (r: Result<(), crate::LlamaError>)
        requires
            old(self).wf(),
            old(self).phase_spec() == Phase::Generating,
        ensures
            final(self).wf(),
            final(self).prompt() == old(self).prompt(),
            final(self).max() == old(self).max(),
            final(self).vocab_size() == old(self).vocab_size(),
            tok < old(self).vocab_size() ==> r is Ok && final(self).tokens() == old(
                self,
            ).tokens().push(tok),
            tok >= old(self).vocab_size() ==> r == Err::<(), crate::LlamaError>(
                crate::LlamaError::Bounds,
            ) && final(self).tokens() == old(self).tokens(),
    {
        if tok >= self.vocab_size {
            return Err(crate::LlamaError::Bounds);
        }
        self.toks.push(tok);
        Ok(())
    }

    /// The tokens recorded so far.
    pub fn tokens_vec(&self) -> (r: &Vec<usize>)
        ensures
            r@ == self.tokens(),
    {
        &self.toks
    }
}

} // verus!
