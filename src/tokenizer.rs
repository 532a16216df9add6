use vstd::prelude::*;
use vstd::string::StrSliceExecFns;
use vstd::utf8::encode_scalar;

verus! {

/// Token id of the start-of-sequence sentinel.
pub const SOS: usize = 1;

/// Token id of the end-of-sequence sentinel.
pub const EOS: usize = 2;

/// A vocabulary: token id `i` stands for the string `vocab[i]`.
pub struct Tokenizer {
    vocab: Vec<String>,
    /// The characters of each vocabulary entry, kept for matching.
    pieces: Vec<Vec<char>>,
}

/// `p` is a prefix of `t`.
pub open spec fn is_prefix(p: Seq<char>, t: Seq<char>) -> bool {
    p.len() <= t.len() && t.subrange(0, p.len() as int) == p
}

/// Among the first `n` entries of `vocab`, the index of the longest non-empty entry
/// that is a prefix of `t`; among equally long ones, the last.
pub open spec fn best_match(vocab: Seq<Seq<char>>, t: Seq<char>, n: int) -> Option<int>
    decreases n,
{
    if n <= 0 {
        None
    } else {
        let prev = best_match(vocab, t, n - 1);
        let i = n - 1;
        if vocab[i].len() > 0 && is_prefix(vocab[i], t) && (prev is None || vocab[prev->0].len()
            <= vocab[i].len()) {
            Some(i)
        } else {
            prev
        }
    }
}

/// The entry that greedy tokenization takes at the start of `t`, if any.
pub open spec fn longest_match(vocab: Seq<Seq<char>>, t: Seq<char>) -> Option<int> {
    best_match(vocab, t, vocab.len() as int)
}

/// The UTF-8 bytes of `c`, each as a token id.
pub open spec fn char_byte_ids(c: char) -> Seq<usize> {
    encode_scalar(c as u32).map_values(|b: u8| b as usize)
}

/// Greedy longest-match tokenization of `t`: take the longest vocabulary entry that
/// starts the remaining text; where none does, emit the UTF-8 bytes of the next
/// character as token ids.
pub open spec fn tokenize(vocab: Seq<Seq<char>>, t: Seq<char>) -> Seq<usize>
    decreases t.len(),
{
    if t.len() == 0 {
        seq![]
    } else {
        match longest_match(vocab, t) {
            Some(i) => {
                let n = vocab[i].len();
                if 0 < n <= t.len() {
                    seq![i as usize] + tokenize(vocab, t.skip(n as int))
                } else {
                    seq![]
                }
            },
            None => char_byte_ids(t[0]) + tokenize(vocab, t.skip(1)),
        }
    }
}

/// Greedy tokenization of `t` finds a vocabulary entry at every step.
pub open spec fn always_matches(vocab: Seq<Seq<char>>, t: Seq<char>) -> bool
    decreases t.len(),
{
    if t.len() == 0 {
        true
    } else {
        match longest_match(vocab, t) {
            Some(i) => {
                let n = vocab[i].len();
                0 < n <= t.len() && always_matches(vocab, t.skip(n as int))
            },
            None => false,
        }
    }
}

/// The concatenation of the entries that `toks` name.
pub open spec fn detokenize(vocab: Seq<Seq<char>>, toks: Seq<usize>) -> Seq<char>
    decreases toks.len(),
{
    if toks.len() == 0 {
        seq![]
    } else {
        vocab[toks[0] as int] + detokenize(vocab, toks.skip(1))
    }
}

/// The little-endian `u32` in the four bytes of `b` from `at`.
pub open spec fn le_u32(b: Seq<u8>, at: int) -> nat {
    (b[at] + 256 * b[at + 1] + 65536 * b[at + 2] + 16777216 * b[at + 3]) as nat
}

/// Each byte read as the character of the same code point.
pub open spec fn latin1(b: Seq<u8>) -> Seq<char> {
    b.map_values(|x: u8| x as char)
}

/// `n` records read from `buf` at `at`, each a little-endian `u32` length followed by
/// that many bytes; `None` where the buffer ends first.
pub open spec fn parse_vocab(buf: Seq<u8>, at: int, n: nat) -> Option<Seq<Seq<char>>>
    decreases n,
{
    if n == 0 {
        Some(seq![])
    } else if at + 4 > buf.len() {
        None
    } else {
        let end = at + 4 + le_u32(buf, at);
        if end > buf.len() {
            None
        } else {
            match parse_vocab(buf, end, (n - 1) as nat) {
                Some(rest) => Some(seq![latin1(buf.subrange(at + 4, end))] + rest),
                None => None,
            }
        }
    }
}

/// A result found so far of `best_match` is an index of a non-empty prefix.
proof fn lemma_best_match(vocab: Seq<Seq<char>>, t: Seq<char>, n: int)
    requires
        n <= vocab.len(),
    ensures
        best_match(vocab, t, n) matches Some(i) ==> 0 <= i < n && 0 < vocab[i].len() <= t.len()
            && is_prefix(vocab[i], t),
    decreases n,
{
    if n > 0 {
        lemma_best_match(vocab, t, n - 1);
    }
}

/// A non-empty entry that is a prefix of `t` is a match, so greedy tokenization finds one.
proof fn lemma_some_match(vocab: Seq<Seq<char>>, t: Seq<char>, n: int, j: int)
    requires
        0 <= j < n <= vocab.len(),
        vocab[j].len() > 0,
        is_prefix(vocab[j], t),
    ensures
        best_match(vocab, t, n) is Some,
    decreases n,
{
    if j < n - 1 {
        lemma_some_match(vocab, t, n - 1, j);
    }
}

/// Where greedy tokenization finds a vocabulary entry at every step, concatenating
/// the entries of the tokens it returns gives back the text.
pub proof fn lemma_round_trip(vocab: Seq<Seq<char>>, t: Seq<char>)
    requires
        vocab.len() <= usize::MAX,
        always_matches(vocab, t),
    ensures
        detokenize(vocab, tokenize(vocab, t)) == t,
    decreases t.len(),
{
    if t.len() > 0 {
        lemma_best_match(vocab, t, vocab.len() as int);
        let i = longest_match(vocab, t)->0;
        let n = vocab[i].len();
        lemma_round_trip(vocab, t.skip(n as int));
        let toks = tokenize(vocab, t);
        assert(toks.skip(1) =~= tokenize(vocab, t.skip(n as int)));
        assert(toks[0] as int == i);
        assert(detokenize(vocab, toks) == vocab[i] + detokenize(vocab, toks.skip(1)));
        assert(t =~= vocab[i] + t.skip(n as int));
    }
}

/// Where every character of `t` is itself a vocabulary entry, greedy tokenization
/// finds an entry at every step.
pub proof fn lemma_single_chars_always_match(vocab: Seq<Seq<char>>, t: Seq<char>)
    requires
        forall|k: int| 0 <= k < t.len() ==> vocab.contains(seq![#[trigger] t[k]]),
    ensures
        always_matches(vocab, t),
    decreases t.len(),
{
    if t.len() > 0 {
        let j = vocab.index_of(seq![t[0]]);
        assert(t.subrange(0, 1) =~= seq![t[0]]);
        lemma_some_match(vocab, t, vocab.len() as int, j);
        lemma_best_match(vocab, t, vocab.len() as int);
        let i = longest_match(vocab, t)->0;
        let n = vocab[i].len();
        let rest = t.skip(n as int);
        assert forall|k: int| 0 <= k < rest.len() implies vocab.contains(seq![#[trigger] rest[k]])
            by {
            assert(rest[k] == t[k + n]);
        }
        lemma_single_chars_always_match(vocab, rest);
    }
}


/// Relies on String::push: appends one character to the string.
#[verifier::external_body]
fn push_char(s: &mut String, c: char)
    ensures
        final(s)@ == old(s)@.push(c),
{
    s.push(c);
}

/// The characters of `s`.
fn chars_of(s: &String) -> (r: Vec<char>)
    ensures
        r@ == s@,
{
    let st = s.as_str();
    let n = st.unicode_len();
    let mut r: Vec<char> = Vec::new();
    let mut i: usize = 0;
    while i < n
        invariant
            n == st@.len(),
            st@ == s@,
            i <= n,
            r@ == st@.subrange(0, i as int),
        decreases n - i,
    {
        r.push(st.get_char(i));
        i += 1;
        proof {
            assert(r@ =~= st@.subrange(0, i as int));
        }
    }
    proof {
        assert(r@ =~= st@);
    }
    r
}

/// The UTF-8 bytes of `c`, each as a token id.
fn utf8_byte_ids(c: char) -> (r: Vec<usize>)
    ensures
        r@ == char_byte_ids(c),
{
    let v = c as u32;
    let mut bytes: Vec<u8> = Vec::new();
    if v <= 0x7F {
        bytes.push((v & 0x7F) as u8);
    } else if 0x80 <= v && v <= 0x7FF {
        bytes.push(0xC0 | ((v >> 6) & 0x1F) as u8);
        bytes.push(0x80 | (v & 0x3F) as u8);
    } else if 0x800 <= v && v <= 0xFFFF && !(0xD800 <= v && v <= 0xDFFF) {
        bytes.push(0xE0 | ((v >> 12) & 0x0F) as u8);
        bytes.push(0x80 | ((v >> 6) & 0x3F) as u8);
        bytes.push(0x80 | (v & 0x3F) as u8);
    } else {
        bytes.push(0xF0 | ((v >> 18) & 0x7) as u8);
        bytes.push(0x80 | ((v >> 12) & 0x3F) as u8);
        bytes.push(0x80 | ((v >> 6) & 0x3F) as u8);
        bytes.push(0x80 | (v & 0x3F) as u8);
    }
    proof {
        assert(bytes@ =~= encode_scalar(v));
    }
    let mut r: Vec<usize> = Vec::new();
    let mut i: usize = 0;
    while i < bytes.len()
        invariant
            i <= bytes@.len(),
            bytes@ == encode_scalar(v),
            r@ == bytes@.subrange(0, i as int).map_values(|b: u8| b as usize),
        decreases bytes.len() - i,
    {
        r.push(bytes[i] as usize);
        i += 1;
        proof {
            assert(r@ =~= bytes@.subrange(0, i as int).map_values(|b: u8| b as usize));
        }
    }
    proof {
        assert(bytes@.subrange(0, i as int) =~= bytes@);
    }
    r
}

/// Whether `p` is a prefix of `t` from position `pos` on.
fn starts_with_at(p: &Vec<char>, t: &Vec<char>, pos: usize) -> (r: bool)
    requires
        pos <= t@.len(),
    ensures
        r == is_prefix(p@, t@.skip(pos as int)),
{
    if p.len() > t.len() - pos {
        return false;
    }
    let mut j: usize = 0;
    while j < p.len()
        invariant
            pos <= t@.len(),
            pos + p@.len() <= t.len(),
            j <= p@.len(),
            forall|k: int| 0 <= k < j ==> p@[k] == t@[pos + k],
        decreases p.len() - j,
    {
        if p[j] != t[pos + j] {
            proof {
                assert(t@.skip(pos as int).subrange(0, p@.len() as int)[j as int] == t@[pos + j]);
            }
            return false;
        }
        j += 1;
    }
    proof {
        assert(t@.skip(pos as int).subrange(0, p@.len() as int) =~= p@);
    }
    true
}

/// `o` with `acc` put in front of the sequence it holds.
spec fn prepend(acc: Seq<Seq<char>>, o: Option<Seq<Seq<char>>>) -> Option<Seq<Seq<char>>> {
    match o {
        Some(rest) => Some(acc + rest),
        None => None,
    }
}

impl View for Tokenizer {
    type V = Seq<Seq<char>>;

    closed spec fn view(&self) -> Seq<Seq<char>> {
        self.vocab@.map_values(|s: String| s@)
    }
}

impl Tokenizer {
    /// The kept characters of each entry agree with the entry.
    pub closed spec fn wf(&self) -> bool {
        &&& self.pieces@.len() == self.vocab@.len()
        &&& forall|i: int| 0 <= i < self.vocab@.len() ==> #[trigger] self.pieces@[i]@ == self.vocab@[i]@
    }

    /// A tokenizer over the given entries, token id `i` standing for `vocab[i]`.
    pub fn new(vocab: Vec<String>) -> (r: Tokenizer)
        ensures
            r.wf(),
            r@ == vocab@.map_values(|s: String| s@),
    {
        let mut pieces: Vec<Vec<char>> = Vec::new();
        let mut i: usize = 0;
        while i < vocab.len()
            invariant
                i <= vocab@.len(),
                pieces@.len() == i,
                forall|k: int| 0 <= k < i ==> #[trigger] pieces@[k]@ == vocab@[k]@,
            decreases vocab.len() - i,
        {
            pieces.push(chars_of(&vocab[i]));
            i += 1;
        }
        Tokenizer { vocab, pieces }
    }

    /// Reads `hp.vocab_size` records from `buf`: each a little-endian `u32` length
    /// followed by that many bytes, every byte taken as one character. Bytes after
    /// the last record are ignored.
    pub fn from_buf(buf: &[u8], hp: &crate::HyperParam) -> (r: Result<Tokenizer, crate::LlamaError>)
        ensures
            match parse_vocab(buf@, 0, hp.vocab_size as nat) {
                Some(v) => r is Ok && r->Ok_0.wf() && r->Ok_0@ == v,
                None => r == Err::<Tokenizer, crate::LlamaError>(crate::LlamaError::Io),
            },
    {
        let mut vocab: Vec<String> = Vec::new();
        let mut pieces: Vec<Vec<char>> = Vec::new();
        let ghost mut acc: Seq<Seq<char>> = seq![];
        let mut at: usize = 0;
        let mut k: usize = 0;
        while k < hp.vocab_size
            invariant
                k <= hp.vocab_size,
                at <= buf@.len(),
                acc.len() == k,
                vocab@.len() == k,
                pieces@.len() == k,
                forall|i: int| 0 <= i < k ==> #[trigger] vocab@[i]@ == acc[i],
                forall|i: int| 0 <= i < k ==> #[trigger] pieces@[i]@ == acc[i],
                parse_vocab(buf@, 0, hp.vocab_size as nat) == prepend(
                    acc,
                    parse_vocab(buf@, at as int, (hp.vocab_size - k) as nat),
                ),
            decreases hp.vocab_size - k,
        {
            if buf.len() - at < 4 {
                return Err(crate::LlamaError::Io);
            }
            let len64: u64 = buf[at] as u64 + (buf[at + 1] as u64) * 256 + (buf[at + 2] as u64)
                * 65536 + (buf[at + 3] as u64) * 16777216;
            if len64 > (buf.len() - at - 4) as u64 {
                return Err(crate::LlamaError::Io);
            }
            let len = len64 as usize;
            let start = at + 4;
            let end = start + len;
            let mut chars: Vec<char> = Vec::new();
            let mut s = String::new();
            let mut j: usize = start;
            while j < end
                invariant
                    start <= j <= end,
                    end <= buf@.len(),
                    chars@ == latin1(buf@.subrange(start as int, j as int)),
                    s@ == chars@,
                decreases end - j,
            {
                let c = buf[j] as char;
                chars.push(c);
                push_char(&mut s, c);
                j += 1;
                proof {
                    assert(chars@ =~= latin1(buf@.subrange(start as int, j as int)));
                }
            }
            proof {
                let piece = latin1(buf@.subrange(start as int, end as int));
                let m = (hp.vocab_size - k) as nat;
                assert(le_u32(buf@, at as int) == len);
                match parse_vocab(buf@, end as int, (m - 1) as nat) {
                    Some(rest) => {
                        assert(acc + (seq![piece] + rest) =~= acc.push(piece) + rest);
                    },
                    None => {},
                }
                acc = acc.push(piece);
            }
            vocab.push(s);
            pieces.push(chars);
            at = end;
            k += 1;
        }
        let t = Tokenizer { vocab, pieces };
        proof {
            assert(t@ =~= acc);
            assert(acc + seq![] =~= acc);
        }
        Ok(t)
    }

    /// The number of entries.
    pub fn len(&self) -> (r: usize)
        ensures
            r == self@.len(),
    {
        self.vocab.len()
    }

    /// The string that token `tok` stands for.
    pub fn tok_to_str(&self, tok: usize) -> (r: &String)
        requires
            tok < self@.len(),
        ensures
            r@ == self@[tok as int],
    {
        &self.vocab[tok]
    }

    /// Greedy longest-match tokenization of `text` (see `tokenize`).
    pub fn str_to_tok(&self, text: String) -> (r: Vec<usize>)
        requires
            self.wf(),
        ensures
            r@ == tokenize(self@, text@),
    {
        let chars = chars_of(&text);
        let n = chars.len();
        let mut ret: Vec<usize> = Vec::new();
        let mut pos: usize = 0;
        proof {
            assert(chars@.skip(0) =~= chars@);
            assert(ret@ + tokenize(self@, chars@) =~= tokenize(self@, chars@));
        }
        while pos < n
            invariant
                self.wf(),
                n == chars@.len(),
                chars@ == text@,
                pos <= n,
                ret@ + tokenize(self@, chars@.skip(pos as int)) == tokenize(self@, text@),
            decreases n - pos,
        {
            let ghost rest = chars@.skip(pos as int);
            let mut best: Option<usize> = None;
            let mut best_len: usize = 0;
            let mut i: usize = 0;
            while i < self.pieces.len()
                invariant
                    self.wf(),
                    pos < n,
                    n == chars@.len(),
                    rest == chars@.skip(pos as int),
                    i <= self@.len(),
                    match best_match(self@, rest, i as int) {
                        Some(b) => best == Some(b as usize) && best_len == self@[b].len(),
                        None => best is None,
                    },
                decreases self.pieces.len() - i,
            {
                proof {
                    lemma_best_match(self@, rest, i as int);
                }
                let piece = &self.pieces[i];
                if piece.len() > 0 && starts_with_at(piece, &chars, pos) && (best.is_none()
                    || best_len <= piece.len()) {
                    best = Some(i);
                    best_len = piece.len();
                }
                i += 1;
            }
            proof {
                lemma_best_match(self@, rest, self@.len() as int);
            }
            match best {
                Some(b) => {
                    proof {
                        assert(rest.skip(best_len as int) =~= chars@.skip(pos + best_len));
                        assert(ret@.push(b) + tokenize(self@, rest.skip(best_len as int)) =~= ret@
                            + (seq![b] + tokenize(self@, rest.skip(best_len as int))));
                    }
                    ret.push(b);
                    pos += best_len;
                },
                None => {
                    let ids = utf8_byte_ids(chars[pos]);
                    let ghost before = ret@;
                    let mut j: usize = 0;
                    while j < ids.len()
                        invariant
                            j <= ids@.len(),
                            ret@ == before + ids@.subrange(0, j as int),
                        decreases ids.len() - j,
                    {
                        ret.push(ids[j]);
                        j += 1;
                        proof {
                            assert(ret@ =~= before + ids@.subrange(0, j as int));
                        }
                    }
                    proof {
                        assert(ids@.subrange(0, j as int) =~= ids@);
                        assert(rest.skip(1) =~= chars@.skip(pos + 1));
                        assert(before + ids@ + tokenize(self@, rest.skip(1)) =~= before + (ids@
                            + tokenize(self@, rest.skip(1))));
                    }
                    pos += 1;
                },
            }
        }
        proof {
            assert(ret@ + seq![] =~= ret@);
        }
        ret
    }
}

} // verus!
