use llama_infer::{HyperParam, LlamaError, Tokenizer, EOS, SOS};

fn toy_vocab(entries: &[&str]) -> Tokenizer {
    Tokenizer::new(entries.iter().map(|s| s.to_string()).collect())
}

fn hp_with_vocab(vocab_size: usize) -> HyperParam {
    HyperParam {
        name: "toy".to_string(),
        dim: 8,
        ffn_dim: 16,
        layer: 2,
        head: 2,
        kv_head: 2,
        vocab_size,
        seq_len: 16,
    }
}

fn record(bytes: &[u8]) -> Vec<u8> {
    let mut r = (bytes.len() as u32).to_le_bytes().to_vec();
    r.extend_from_slice(bytes);
    r
}

#[test]
fn greedy_prefers_longest_piece() {
    let t = toy_vocab(&["a", "ab", "abc"]);
    assert_eq!(t.str_to_tok("abcab".to_string()), vec![2, 1]);
}

#[test]
fn equal_pieces_take_the_last_index() {
    let t = toy_vocab(&["x", "ab", "ab"]);
    assert_eq!(t.str_to_tok("abx".to_string()), vec![2, 0]);
}

#[test]
fn unknown_character_falls_back_to_utf8_bytes() {
    let t = toy_vocab(&["a", "b"]);
    assert_eq!(t.str_to_tok("aéb".to_string()), vec![0, 0xC3, 0xA9, 1]);
    assert_eq!(t.str_to_tok("z".to_string()), vec![b'z' as usize]);
    assert_eq!(t.str_to_tok("€".to_string()), vec![0xE2, 0x82, 0xAC]);
    assert_eq!(t.str_to_tok("😀".to_string()), vec![0xF0, 0x9F, 0x98, 0x80]);
}

#[test]
fn empty_text_gives_no_tokens() {
    let t = toy_vocab(&["a"]);
    assert!(t.str_to_tok(String::new()).is_empty());
}

#[test]
fn empty_entries_never_match() {
    let t = toy_vocab(&["", "a"]);
    assert_eq!(t.str_to_tok("aa".to_string()), vec![1, 1]);
}

#[test]
fn in_vocab_text_round_trips() {
    let t = toy_vocab(&["<unk>", "<s>", "</s>", "he", "llo", " ", "wor", "ld", "l", "o"]);
    let text = "hello world hello";
    let toks = t.str_to_tok(text.to_string());
    let back: String = toks.iter().map(|&i| t.tok_to_str(i).as_str()).collect();
    assert_eq!(back, text);
}

#[test]
fn tok_to_str_looks_up_the_entry() {
    let t = toy_vocab(&["<unk>", "<s>", "</s>", "hi"]);
    assert_eq!(t.tok_to_str(3), "hi");
    assert_eq!(t.tok_to_str(SOS), "<s>");
    assert_eq!(t.tok_to_str(EOS), "</s>");
    assert_eq!(t.len(), 4);
}

#[test]
fn vocab_buffer_is_parsed() {
    let mut buf = Vec::new();
    buf.extend(record(b"<unk>"));
    buf.extend(record(b""));
    buf.extend(record(&[b'a', 0xE9]));
    buf.extend([9, 9, 9]);
    let t = Tokenizer::from_buf(&buf, &hp_with_vocab(3)).unwrap();
    assert_eq!(t.len(), 3);
    assert_eq!(t.tok_to_str(0), "<unk>");
    assert_eq!(t.tok_to_str(1), "");
    assert_eq!(t.tok_to_str(2), "aé");
}

#[test]
fn truncated_vocab_buffer_is_an_io_error() {
    let mut buf = record(b"abc");
    assert!(matches!(Tokenizer::from_buf(&buf, &hp_with_vocab(2)), Err(LlamaError::Io)));
    buf.extend([5, 0, 0]);
    assert!(matches!(Tokenizer::from_buf(&buf, &hp_with_vocab(2)), Err(LlamaError::Io)));
    let mut short = record(b"abcdef");
    short.truncate(7);
    assert!(matches!(Tokenizer::from_buf(&short, &hp_with_vocab(1)), Err(LlamaError::Io)));
}
