use lab16_core::inference::batch::Batch;
use lab16_core::inference::context::{
    decode_status, piece_from_size, token_capacity, tokenize_retry, Builder, Generation, KVType,
    NextStep, Sampled,
};
use lab16_core::inference::errors::{BatchAddError, DecodeError, TokenToStringError};
use lab16_core::inference::model::{ModelConfig, SplitMode};

#[test]
fn batch_fills_up_then_refuses() {
    let mut b = Batch::new(2, 1);
    assert_eq!(b.n_tokens(), 0);
    assert!(b.add(10, 0, &[0], false).is_ok());
    assert!(b.add(11, 1, &[0], true).is_ok());
    assert_eq!(b.n_tokens(), 2);
    assert_eq!(b.add(12, 2, &[0], true), Err(BatchAddError::InsufficientSpace(2)));
    assert_eq!(b.n_tokens(), 2);
    assert_eq!(b.initialized_logits(), &vec![1]);
    b.clear();
    assert_eq!(b.n_tokens(), 0);
    assert!(b.initialized_logits().is_empty());
    assert!(b.add(13, 5, &[0, 1], true).is_ok());
    assert_eq!(b.entries()[0].pos, 5);
    assert_eq!(b.entries()[0].seq_ids, vec![0, 1]);
}

#[test]
fn add_sequence_positions_and_logits() {
    let mut b = Batch::new(8, 1);
    assert!(b.add_sequence(&[7, 8, 9], 3, false).is_ok());
    assert_eq!(b.n_tokens(), 3);
    let pos: Vec<i32> = b.entries().iter().map(|e| e.pos).collect();
    assert_eq!(pos, vec![0, 1, 2]);
    assert_eq!(b.initialized_logits(), &vec![2]);
    assert!(b.add_sequence(&[1, 2], 0, true).is_ok());
    assert_eq!(b.initialized_logits(), &vec![2, 3, 4]);
    assert_eq!(b.add_sequence(&[1, 2, 3, 4], 0, true), Err(BatchAddError::InsufficientSpace(8)));
    assert_eq!(b.n_tokens(), 5);
}

#[test]
fn get_one_borrows_tokens() {
    assert_eq!(Batch::get_one(&[], 0, 0).err(), Some(BatchAddError::EmptyBuffer));
    let b = Batch::get_one(&[4, 5, 6], 10, 2).unwrap();
    assert_eq!(b.n_tokens(), 3);
    assert_eq!(b.initialized_logits(), &vec![2]);
    let pos: Vec<i32> = b.entries().iter().map(|e| e.pos).collect();
    assert_eq!(pos, vec![10, 11, 12]);
    let mut b = b;
    assert_eq!(b.add(1, 13, &[2], true), Err(BatchAddError::InsufficientSpace(0)));
}

#[test]
fn decoder_status_codes() {
    assert_eq!(decode_status(0), Ok(()));
    assert_eq!(decode_status(1), Err(DecodeError::NoKvCacheSlot));
    assert_eq!(decode_status(-1), Err(DecodeError::NTokensZero));
    assert_eq!(decode_status(7), Err(DecodeError::Unknown(7)));
}

#[test]
fn token_pieces() {
    assert_eq!(piece_from_size(0, b"****".to_vec()), Err(TokenToStringError::UnknownTokenType));
    assert_eq!(piece_from_size(-9, b"****".to_vec()), Err(TokenToStringError::InsufficientBufferSpace(-9)));
    assert_eq!(piece_from_size(2, b"ab**".to_vec()), Ok(b"ab".to_vec()));
    assert_eq!(piece_from_size(6, b"ab".to_vec()), Ok(b"ab".to_vec()));
}

#[test]
fn tokenizer_buffer_sizes() {
    assert_eq!(token_capacity(0, true), 8);
    assert_eq!(token_capacity(14, true), 8);
    assert_eq!(token_capacity(100, true), 51);
    assert_eq!(token_capacity(100, false), 50);
    assert_eq!(tokenize_retry(-40), Some(40));
    assert_eq!(tokenize_retry(12), None);
}

#[test]
fn generation_feeds_tokens_until_end() {
    let mut g = Generation::new(5, 4, 3);
    g.load_prompt_chunk(&[1, 2, 3, 4], 0);
    let logits: Vec<bool> = g.batch().entries().iter().map(|e| e.logits).collect();
    assert_eq!(logits, vec![false, false, false, false]);
    g.load_prompt_chunk(&[5], 1);
    assert_eq!(g.batch().entries()[0].pos, 4);
    assert!(g.batch().entries()[0].logits);
    assert!(matches!(g.next_step(), NextStep::Sample(0)));
    assert!(g.accept(42, Sampled::Piece(b"Hel".to_vec())));
    assert_eq!(g.batch().entries()[0].token, 42);
    assert_eq!(g.batch().entries()[0].pos, 5);
    assert!(g.accept(43, Sampled::Piece(b"lo".to_vec())));
    assert_eq!(g.batch().entries()[0].pos, 6);
    assert!(!g.accept(2, Sampled::EndOfGeneration));
    assert!(matches!(g.next_step(), NextStep::Finish));
    assert_eq!(g.response(), &b"Hello".to_vec());
}

#[test]
fn generation_stops_after_max_tokens() {
    let mut g = Generation::new(1, 8, 1);
    g.load_prompt_chunk(&[9], 0);
    assert!(g.accept(5, Sampled::Piece(b"x".to_vec())));
    assert!(matches!(g.next_step(), NextStep::Finish));
    let mut g = Generation::new(1, 8, 4);
    assert!(!g.accept(5, Sampled::PieceFailed(TokenToStringError::UnknownTokenType)));
    assert!(matches!(g.next_step(), NextStep::Finish));
    assert!(g.response().is_empty());
}

#[test]
fn context_and_model_settings() {
    let b = Builder::new().with_n_ctx(16384).with_type_kv(KVType::Q4_0, KVType::Q5_0).with_k_cache_hadamard();
    assert_eq!(b.n_ctx, Some(16384));
    assert_eq!(b.flash_attn, Some(true));
    assert_eq!(b.type_k.map(|t| t.ggml_type()), Some(2));
    assert_eq!(b.type_v.map(|t| t.ggml_type()), Some(6));
    assert_eq!(b.k_cache_hadamard, Some(true));
    assert_eq!(b.n_batch, None);
    let m = ModelConfig::new().with_n_gpu_layers(1000).with_split_mode(SplitMode::Layer);
    assert_eq!(m.n_gpu_layers, Some(1000));
    assert_eq!(m.split_mode, Some(SplitMode::Layer));
    assert_eq!(ModelConfig::new().with_n_gpu_layers(u32::MAX).n_gpu_layers, Some(i32::MAX));
}
