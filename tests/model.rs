use llama_infer::{
    weight_file_len, weight_shapes, Context, HyperParam, LlamaError, Phase, Session, TensorShape,
};

fn toy() -> HyperParam {
    HyperParam {
        name: "toy".to_string(),
        dim: 8,
        ffn_dim: 16,
        layer: 2,
        head: 2,
        kv_head: 2,
        vocab_size: 32,
        seq_len: 16,
    }
}

#[test]
fn toy_model_is_valid() {
    let hp = toy();
    assert_eq!(hp.validate(), Ok(()));
    assert_eq!(hp.head_dim(), 4);
}

#[test]
fn inconsistent_hyper_parameters_are_rejected() {
    let mut hp = toy();
    hp.head = 3;
    assert_eq!(hp.validate(), Err(LlamaError::Configuration));
    let mut hp = toy();
    hp.head = 4;
    hp.kv_head = 4;
    assert_eq!(hp.validate(), Ok(()));
    hp.head = 8;
    hp.kv_head = 8;
    assert_eq!(hp.validate(), Err(LlamaError::Configuration));
    let mut hp = toy();
    hp.kv_head = 1;
    assert_eq!(hp.validate(), Err(LlamaError::Configuration));
    let mut hp = toy();
    hp.seq_len = 0;
    assert_eq!(hp.validate(), Err(LlamaError::Configuration));
}

#[test]
fn weight_layout_follows_file_order() {
    let shapes = weight_shapes(&toy());
    assert_eq!(shapes.len(), 13);
    assert_eq!(shapes[0], TensorShape { depth: 1, rows: 32, cols: 8 });
    assert_eq!(shapes[2], TensorShape { depth: 2, rows: 8, cols: 8 });
    assert_eq!(shapes[8], TensorShape { depth: 2, rows: 8, cols: 16 });
    assert_eq!(shapes[12], TensorShape { depth: 1, rows: 16, cols: 2 });
}

#[test]
fn weight_file_len_of_toy_model() {
    // 256 + 16 + 4 * 128 + 16 + 3 * 256 + 8 + 2 * 32 floats
    assert_eq!(weight_file_len(&toy()), Ok(6560));
}

#[test]
fn weight_file_len_rejects_bad_or_huge_models() {
    let mut hp = toy();
    hp.head = 3;
    assert_eq!(weight_file_len(&hp), Err(LlamaError::Configuration));
    let mut hp = toy();
    hp.vocab_size = usize::MAX / 2;
    assert_eq!(weight_file_len(&hp), Err(LlamaError::Configuration));
}

#[test]
fn cache_starts_zeroed_and_stores_slots() {
    let hp = toy();
    let mut ctx: Context<f32> = Context::new(&hp, 0.0);
    assert_eq!(ctx.key(1, 15), &vec![0.0f32; 8]);
    let k: Vec<f32> = (0..8).map(|i| i as f32).collect();
    let v: Vec<f32> = (0..8).map(|i| -(i as f32)).collect();
    assert_eq!(ctx.write(1, 3, k.clone(), v.clone()), Ok(()));
    assert_eq!(ctx.key(1, 3), &k);
    assert_eq!(ctx.value(1, 3), &v);
    assert_eq!(ctx.key(0, 3), &vec![0.0f32; 8]);
    assert_eq!(ctx.key(1, 2), &vec![0.0f32; 8]);
}

#[test]
fn cache_rejects_out_of_range_and_misshapen_writes() {
    let hp = toy();
    let mut ctx: Context<f32> = Context::new(&hp, 0.0);
    assert_eq!(ctx.write(0, 16, vec![1.0; 8], vec![1.0; 8]), Err(LlamaError::Bounds));
    assert_eq!(ctx.write(2, 0, vec![1.0; 8], vec![1.0; 8]), Err(LlamaError::Bounds));
    assert_eq!(ctx.write(0, 0, vec![1.0; 7], vec![1.0; 8]), Err(LlamaError::Shape));
    assert_eq!(ctx.key(0, 0), &vec![0.0f32; 8]);
}

#[test]
fn session_primes_then_generates_up_to_budget() {
    let hp = toy();
    let mut s = Session::new(&hp, vec![1, 7], 4).unwrap();
    assert_eq!(s.phase(), Phase::Priming);
    assert_eq!(s.next_input(), Some((1, 0)));
    s.advance_prompt();
    assert_eq!(s.next_input(), Some((7, 1)));
    s.advance_prompt();
    assert_eq!(s.phase(), Phase::Generating);
    assert_eq!(s.next_input(), Some((7, 2)));
    assert_eq!(s.advance(40), Err(LlamaError::Bounds));
    assert_eq!(s.advance(9), Ok(()));
    assert_eq!(s.next_input(), Some((9, 3)));
    assert_eq!(s.advance(5), Ok(()));
    assert_eq!(s.phase(), Phase::Done);
    assert_eq!(s.next_input(), None);
    assert_eq!(s.tokens_vec(), &vec![1, 7, 9, 5]);
}

#[test]
fn session_with_budget_below_prompt_only_primes() {
    let hp = toy();
    let mut s = Session::new(&hp, vec![1, 2, 3], 1).unwrap();
    for _ in 0..3 {
        assert_eq!(s.phase(), Phase::Priming);
        s.advance_prompt();
    }
    assert_eq!(s.phase(), Phase::Done);
    assert_eq!(s.next_input(), None);
}

#[test]
fn session_rejects_bad_prompts_and_budgets() {
    let hp = toy();
    assert!(matches!(Session::new(&hp, vec![], 4), Err(LlamaError::Shape)));
    assert!(matches!(Session::new(&hp, vec![1, 32], 4), Err(LlamaError::Bounds)));
    assert!(matches!(Session::new(&hp, vec![1], 17), Err(LlamaError::Bounds)));
    assert!(matches!(Session::new(&hp, vec![1; 17], 4), Err(LlamaError::Bounds)));
    assert!(Session::new(&hp, vec![1], 16).is_ok());
}

#[test]
fn errors_have_messages() {
    for e in [LlamaError::Configuration, LlamaError::Io, LlamaError::Bounds, LlamaError::Shape] {
        assert!(!e.message().is_empty());
    }
    assert_eq!(LlamaError::Bounds.message(), "token id or position out of range");
}
