//! The settings a model is loaded with.
use vstd::prelude::*;

verus! {

/// How a model is split across several GPUs.
#[derive(Debug, Clone, Copy, PartialEq, Eq, Structural)]
pub enum SplitMode {
    /// A single GPU.
    NoSplit,
    /// Layers and KV cache split across GPUs.
    Layer,
    /// Layers and KV cache split across GPUs, with tensor parallelism where supported.
    Row,
    /// Experimental tensor parallelism across GPUs.
    Tensor,
}

/// The settings a model is loaded with; what is not set keeps the loader's
/// default.
#[derive(Debug, Clone, Copy)]
pub struct ModelConfig {
    pub n_gpu_layers: Option<i32>,
    pub main_gpu: Option<i32>,
    pub vocab_only: Option<bool>,
    pub use_mmap: Option<bool>,
    pub use_mlock: Option<bool>,
    pub split_mode: Option<SplitMode>,
}

impl ModelConfig {
    /// No setting overridden.
    pub fn new() -> (r: ModelConfig)
        ensures
            r.n_gpu_layers is None && r.main_gpu is None && r.vocab_only is None,
            r.use_mmap is None && r.use_mlock is None && r.split_mode is None,
    {
        ModelConfig {
            n_gpu_layers: None,
            main_gpu: None,
            vocab_only: None,
            use_mmap: None,
            use_mlock: None,
            split_mode: None,
        }
    }

    /// How many layers to offload to the GPU; counts above `i32::MAX` mean
    /// `i32::MAX`, that is all layers.
    pub fn with_n_gpu_layers(self, n_gpu_layers: u32) -> (r: ModelConfig)
        ensures
            r == (ModelConfig {
                n_gpu_layers: Some(if n_gpu_layers <= i32::MAX { n_gpu_layers as i32 } else { i32::MAX }),
                ..self
            }),
    {
        let n: i32 = if n_gpu_layers <= i32::MAX as u32 {
            n_gpu_layers as i32
        } else {
            i32::MAX
        };
        ModelConfig { n_gpu_layers: Some(n), ..self }
    }

    /// The GPU that holds the model when it is not split.
    pub fn with_main_gpu(self, main_gpu: i32) -> (r: ModelConfig)
        ensures
            r == (ModelConfig { main_gpu: Some(main_gpu), ..self }),
    {
        ModelConfig { main_gpu: Some(main_gpu), ..self }
    }

    /// Load only the vocabulary.
    pub fn with_vocab_only(self, vocab_only: bool) -> (r: ModelConfig)
        ensures
            r == (ModelConfig { vocab_only: Some(vocab_only), ..self }),
    {
        ModelConfig { vocab_only: Some(vocab_only), ..self }
    }

    /// Map the model file into memory.
    pub fn with_use_mmap(self, use_mmap: bool) -> (r: ModelConfig)
        ensures
            r == (ModelConfig { use_mmap: Some(use_mmap), ..self }),
    {
        ModelConfig { use_mmap: Some(use_mmap), ..self }
    }

    /// Lock the model in memory.
    pub fn with_use_mlock(self, use_mlock: bool) -> (r: ModelConfig)
        ensures
            r == (ModelConfig { use_mlock: Some(use_mlock), ..self }),
    {
        ModelConfig { use_mlock: Some(use_mlock), ..self }
    }

    /// How to split the model across GPUs.
    pub fn with_split_mode(self, split_mode: SplitMode) -> (r: ModelConfig)
        ensures
            r == (ModelConfig { split_mode: Some(split_mode), ..self }),
    {
        ModelConfig { split_mode: Some(split_mode), ..self }
    }
}

} // verus!
