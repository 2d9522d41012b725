//! The decisions of an inference run: filling batches for the prompt,
//! the sampling loop, and reading the decoder's status codes and buffers.
//! The decoder itself is driven by the caller, which reports back here.
use vstd::prelude::*;
use super::batch::{Batch, BatchView, logit_positions};
use super::errors::{BatchAddError, DecodeError, TokenToStringError, decode_error_of};

verus! {

/// The outcome of decoding a batch, from the decoder's status code: 0 is
/// success, anything else an error.
pub fn decode_status(code: i32) -> (r: Result<(), DecodeError>)
    ensures
        code == 0 ==> r is Ok,
        code != 0 ==> r == Err::<(), DecodeError>(decode_error_of(code)),
{
    if code == 0 {
        Ok(())
    } else {
        Err(DecodeError::from_code(code))
    }
}

/// The text of a token from the decoder's answer: `size` is the number of
/// bytes it wrote into `buffer`, 0 when the token has no text, negative when
/// the buffer was too small.
pub fn piece_from_size(size: i32, buffer: Vec<u8>) -> (r: Result<Vec<u8>, TokenToStringError>)
    ensures
        size == 0 ==> r == Err::<Vec<u8>, TokenToStringError>(TokenToStringError::UnknownTokenType),
        size < 0 ==> r == Err::<Vec<u8>, TokenToStringError>(
            TokenToStringError::InsufficientBufferSpace(size),
        ),
        size > 0 ==> (r matches Ok(bytes) && bytes@ == if size <= buffer@.len() {
            buffer@.subrange(0, size as int)
        } else {
            buffer@
        }),
{
    if size == 0 {
        Err(TokenToStringError::UnknownTokenType)
    } else if size < 0 {
        Err(TokenToStringError::InsufficientBufferSpace(size))
    } else {
        let mut bytes = buffer;
        bytes.truncate(size as usize);
        Ok(bytes)
    }
}

/// The first guess at the number of tokens of a text of `byte_len` bytes:
/// half its length, plus one for the start token, but at least 8.
pub fn token_capacity(byte_len: usize, add_special: bool) -> (r: usize)
    ensures
        r == if 8 >= byte_len / 2 + (if add_special { 1int } else { 0int }) {
            8
        } else {
            byte_len / 2 + (if add_special { 1int } else { 0int })
        },
{
    let add_bos: usize = if add_special {
        1
    } else {
        0
    };
    let estimate = byte_len / 2 + add_bos;
    if 8 >= estimate {
        8
    } else {
        estimate
    }
}

/// What to do after tokenizing into a buffer: a negative count asks for a
/// second try with room for that many tokens; otherwise it is the count.
pub fn tokenize_retry(size: i32) -> (r: Option<usize>)
    requires
        size != i32::MIN,
    ensures
        size < 0 ==> r == Some((-size) as usize),
        size >= 0 ==> r is None,
{
    if size < 0 {
        Some((-size) as usize)
    } else {
        None
    }
}

/// What the sampler reports for a sampled token.
pub enum Sampled {
    /// The token ends the generation.
    EndOfGeneration,
    /// The token's text.
    Piece(Vec<u8>),
    /// The token's text could not be read.
    PieceFailed(TokenToStringError),
}

/// What an inference run should do next.
pub enum NextStep {
    /// Sample a token from the logits at this index of the last batch.
    Sample(i32),
    /// Stop; the response is complete.
    Finish,
}

/// An inference run as plain values.
pub struct GenerationView {
    pub batch: BatchView,
    /// The batch size.
    pub n_batch: nat,
    /// The position of the last prompt token (as the decoder numbers it).
    pub last_index: i32,
    /// The position of the next generated token.
    pub n_cur: i32,
    /// How many more tokens may be sampled.
    pub remaining: nat,
    /// The text generated so far.
    pub response: Seq<u8>,
    pub finished: bool,
}

/// The state of an inference run: the batch for the decoder, the position of
/// the next token, how many more tokens may be generated, and the response.
pub struct Generation {
    batch: Batch,
    n_batch: usize,
    last_index: i32,
    n_cur: i32,
    remaining: u32,
    response: Vec<u8>,
    finished: bool,
}

impl View for Generation {
    type V = GenerationView;

    closed spec fn view(&self) -> GenerationView {
        GenerationView {
            batch: self.batch@,
            n_batch: self.n_batch as nat,
            last_index: self.last_index,
            n_cur: self.n_cur,
            remaining: self.remaining as nat,
            response: self.response@,
            finished: self.finished,
        }
    }
}

/// The prompt entries of a chunk: its tokens at their absolute positions in
/// sequence 0, with logits only for the last token of the prompt.
pub open spec fn prefill_entries(chunk: Seq<i32>, first: int, last_index: i32) -> Seq<
    (i32, i32, Seq<i32>, bool),
> {
    Seq::new(
        chunk.len(),
        |j: int| (chunk[j], (first + j) as i32, seq![0i32], (first + j) as i32 == last_index),
    )
}

/// A run's batch has the run's batch size, which is positive and fits `i32`.
pub open spec fn generation_wf(g: GenerationView) -> bool {
    &&& g.batch.allocated == g.n_batch
    &&& 0 < g.n_batch <= i32::MAX
}

impl Generation {

    /// A run for a prompt of `prompt_len` tokens, with batches of `n_batch`
    /// tokens, generating at most `max_tokens` tokens.
    pub fn new(prompt_len: usize, n_batch: u32, max_tokens: u32) -> (r: Generation)
        requires
            prompt_len >= 1,
            0 < n_batch <= i32::MAX,
        ensures
            generation_wf(r@),
            r@.batch.allocated == n_batch,
            r@.batch.entries.len() == 0,
            r@.n_batch == n_batch,
            r@.last_index == (prompt_len - 1) as i32,
            r@.n_cur == prompt_len as i32,
            r@.remaining == max_tokens,
            r@.response.len() == 0,
            !r@.finished,
    {
        let batch = Batch::new(n_batch as usize, 1);
        Generation {
            batch,
            n_batch: n_batch as usize,
            last_index: (prompt_len - 1) as i32,
            n_cur: prompt_len as i32,
            remaining: max_tokens,
            response: Vec::new(),
            finished: false,
        }
    }

    /// The batch to hand to the decoder.
    pub fn batch(&self) -> (r: &Batch)
        ensures
            r@ == self@.batch,
    {
        &self.batch
    }

    /// The text generated so far.
    pub fn response(&self) -> (r: &Vec<u8>)
        ensures
            r@ == self@.response,
    {
        &self.response
    }

    /// Loads the `chunk_idx`-th chunk of the prompt into the batch: its
    /// tokens at their absolute positions, logits for the last prompt token.
    pub fn load_prompt_chunk(&mut self, chunk: &[i32], chunk_idx: usize)
        requires
            generation_wf(old(self)@),
            chunk@.len() <= old(self)@.n_batch,
            chunk_idx * old(self)@.n_batch + chunk@.len() <= usize::MAX,
        ensures
            final(self)@ == (GenerationView {
                batch: BatchView {
                    allocated: old(self)@.batch.allocated,
                    n_seq_max: old(self)@.batch.n_seq_max,
                    entries: prefill_entries(chunk@, chunk_idx * old(self)@.n_batch, old(self)@.last_index),
                    initialized_logits: logit_positions(
                        prefill_entries(chunk@, chunk_idx * old(self)@.n_batch, old(self)@.last_index),
                    ),
                },
                ..old(self)@
            }),
    {
        let mut batch = Batch::new(0, 1);
        std::mem::swap(&mut self.batch, &mut batch);
        batch.clear();
        let first = chunk_idx * self.n_batch;
        let ghost entries = prefill_entries(chunk@, first as int, self.last_index);
        let ids = vec![0i32];
        assert(ids@ == seq![0i32]);
        let n = chunk.len();
        for j in 0..n
            invariant
                n == chunk@.len(),
                n <= batch@.allocated,
                first + n <= usize::MAX,
                entries == prefill_entries(chunk@, first as int, self.last_index),
                ids@ == seq![0i32],
                batch@.allocated == old(self)@.batch.allocated,
                batch@.n_seq_max == old(self)@.batch.n_seq_max,
                batch@.entries == entries.subrange(0, j as int),
                batch@.allocated <= i32::MAX,
        {
            let absolute_pos = (first + j) as i32;
            let is_last_token = absolute_pos == self.last_index;
            let added = batch.add(chunk[j], absolute_pos, ids.as_slice(), is_last_token);
            assert(added is Ok);
            assert(entries.subrange(0, j + 1) == entries.subrange(0, j as int).push(
                (chunk@[j as int], absolute_pos, seq![0i32], is_last_token),
            ));
        }
        assert(entries.subrange(0, n as int) == entries);
        let _ = batch.initialized_logits();
        self.batch = batch;
    }

    /// What to do next: sample from the last batch's last logits while tokens
    /// may still be generated, or finish. When the last entry of the batch
    /// asks for logits (as after the last prompt chunk and after every
    /// accepted token), the index to sample at is one whose logits the
    /// decoder computed.
    pub fn next_step(&self) -> (r: NextStep)
        ensures
            !self@.finished && self@.remaining > 0 ==> r == NextStep::Sample(
                (self@.batch.entries.len() - 1) as i32,
            ),
            self@.finished || self@.remaining == 0 ==> r == NextStep::Finish,
            self@.batch.entries.len() > 0 && self@.batch.entries.last().3 ==> (r matches NextStep::Sample(
                i,
            ) ==> self@.batch.initialized_logits.contains(i)),
    {
        let logits = self.batch.initialized_logits();
        proof {
            let e = self@.batch.entries;
            if e.len() > 0 && e.last().3 {
                assert(logit_positions(e) == logit_positions(e.drop_last()).push((e.len() - 1) as i32));
                assert(logits@[logits@.len() - 1] == (e.len() - 1) as i32);
            }
        }
        if self.finished || self.remaining == 0 {
            NextStep::Finish
        } else {
            NextStep::Sample(self.batch.n_tokens() - 1)
        }
    }

    /// Takes in a sampled token. An end-of-generation token, or one whose text
    /// cannot be read, finishes the run; otherwise the token's text is added to
    /// the response and the batch is loaded with the token alone, at the next
    /// position with logits, for the decoder. Returns whether to decode.
    pub fn accept(&mut self, token: i32, sampled: Sampled) -> (r: bool)
        requires
            generation_wf(old(self)@),
            !old(self)@.finished,
            old(self)@.remaining > 0,
            old(self)@.n_cur < i32::MAX,
        ensures
            generation_wf(final(self)@),
            final(self)@.remaining == old(self)@.remaining - 1,
            final(self)@.n_batch == old(self)@.n_batch,
            final(self)@.last_index == old(self)@.last_index,
            match sampled {
                Sampled::Piece(bytes) => {
                    &&& r
                    &&& !final(self)@.finished
                    &&& final(self)@.response == old(self)@.response + bytes@
                    &&& final(self)@.batch.entries == seq![(token, old(self)@.n_cur, seq![0i32], true)]
                    &&& final(self)@.batch.initialized_logits == seq![0i32]
                    &&& final(self)@.n_cur == old(self)@.n_cur + 1
                },
                _ => {
                    &&& !r
                    &&& final(self)@.finished
                    &&& final(self)@.response == old(self)@.response
                    &&& final(self)@.batch == old(self)@.batch
                    &&& final(self)@.n_cur == old(self)@.n_cur
                },
            },
    {
        self.remaining = self.remaining - 1;
        match sampled {
            Sampled::EndOfGeneration => {
                self.finished = true;
                false
            },
            Sampled::PieceFailed(_) => {
                self.finished = true;
                false
            },
            Sampled::Piece(bytes) => {
                let mut piece = bytes;
                self.response.append(&mut piece);
                let mut batch = Batch::new(0, 1);
                std::mem::swap(&mut self.batch, &mut batch);
                batch.clear();
                let ids = vec![0i32];
                assert(ids@ == seq![0i32]);
                let added = batch.add(token, self.n_cur, ids.as_slice(), true);
                assert(added is Ok);
                let logits = batch.initialized_logits();
                proof {
                    let e = seq![(token, self.n_cur, seq![0i32], true)];
                    assert(e.drop_last() == Seq::<(i32, i32, Seq<i32>, bool)>::empty());
                    assert(logit_positions(Seq::<(i32, i32, Seq<i32>, bool)>::empty()) == Seq::<i32>::empty());
                    assert(e.last().3);
                    assert(logit_positions(e) == Seq::<i32>::empty().push(0i32));
                    assert(logit_positions(e) == seq![0i32]);
                }
                self.batch = batch;
                self.n_cur = self.n_cur + 1;
                true
            },
        }
    }
}

/// A type of the key/value cache entries.
#[derive(Debug, Clone, Copy, PartialEq, Eq, Structural)]
pub enum KVType {
    Q4_0,
    Q5_0,
    Q8_0,
    F16,
    F32,
}

impl KVType {
    /// The `ggml_type` code of the cache type.
    pub fn ggml_type(&self) -> (r: u32)
        ensures
            r == match *self {
                KVType::F32 => 0u32,
                KVType::F16 => 1u32,
                KVType::Q4_0 => 2u32,
                KVType::Q5_0 => 6u32,
                KVType::Q8_0 => 8u32,
            },
    {
        match self {
            KVType::F32 => 0,
            KVType::F16 => 1,
            KVType::Q4_0 => 2,
            KVType::Q5_0 => 6,
            KVType::Q8_0 => 8,
        }
    }
}

/// The settings a context is built with; what is not set keeps the
/// decoder's default.
#[derive(Clone, Copy)]
pub struct Builder {
    pub n_ctx: Option<u32>,
    pub n_batch: Option<u32>,
    pub flash_attn: Option<bool>,
    pub type_k: Option<KVType>,
    pub type_v: Option<KVType>,
    pub k_cache_hadamard: Option<bool>,
}

impl Builder {
    /// No setting overridden.
    pub fn new() -> (r: Builder)
        ensures
            r.n_ctx is None && r.n_batch is None && r.flash_attn is None,
            r.type_k is None && r.type_v is None && r.k_cache_hadamard is None,
    {
        Builder {
            n_ctx: None,
            n_batch: None,
            flash_attn: None,
            type_k: None,
            type_v: None,
            k_cache_hadamard: None,
        }
    }

    /// The size of the context window.
    pub fn with_n_ctx(self, n_ctx: u32) -> (r: Builder)
        ensures
            r == (Builder { n_ctx: Some(n_ctx), ..self }),
    {
        Builder { n_ctx: Some(n_ctx), ..self }
    }

    /// The largest batch the decoder takes at once.
    pub fn with_n_batch(self, n_batch: u32) -> (r: Builder)
        ensures
            r == (Builder { n_batch: Some(n_batch), ..self }),
    {
        Builder { n_batch: Some(n_batch), ..self }
    }

    /// Flash attention on.
    pub fn with_flash_attn(self) -> (r: Builder)
        ensures
            r == (Builder { flash_attn: Some(true), ..self }),
    {
        Builder { flash_attn: Some(true), ..self }
    }

    /// Quantized key and value caches; these need flash attention, which is
    /// turned on too.
    pub fn with_type_kv(self, type_k: KVType, type_v: KVType) -> (r: Builder)
        ensures
            r == (Builder {
                flash_attn: Some(true),
                type_k: Some(type_k),
                type_v: Some(type_v),
                ..self
            }),
    {
        Builder { flash_attn: Some(true), type_k: Some(type_k), type_v: Some(type_v), ..self }
    }

    /// A Hadamard transform of the key cache.
    pub fn with_k_cache_hadamard(self) -> (r: Builder)
        ensures
            r == (Builder { k_cache_hadamard: Some(true), ..self }),
    {
        Builder { k_cache_hadamard: Some(true), ..self }
    }
}

} // verus!
