//! The dense LLaMA family as a target of speculative decoding.

use crate::batch::{ceil_div, chunk_at};
use crate::spec_ngram::{prompt_chunks, PromptChunk};
use vstd::prelude::*;

verus! {

/// What the model's configuration says.
#[derive(Debug, Clone, Copy, PartialEq, Eq, Structural)]
pub struct LlamaShape {
    pub n_layers: usize,
    pub n_kv_heads: usize,
    pub head_dim: usize,
    pub eos_token: u32,
}

/// The cache of keys and values.
#[derive(Debug, Clone, Copy, PartialEq, Eq, Structural)]
pub struct KvState {
    /// How far eviction has moved the cache's beginning.
    pub compact_offset: i32,
    pub physical_cap: usize,
}

/// A LLaMA model with its state.
#[derive(Debug, PartialEq, Eq)]
pub struct LlamaBundle {
    pub config: LlamaShape,
    pub kv: KvState,
    /// The layers whose hidden states a draft model reads.
    pub dflash_extract_layers: Vec<usize>,
}

/// The scratch of a verifying pass.
#[derive(Debug, Clone, Copy, PartialEq, Eq, Structural)]
pub struct LlamaSpecScratch {
    /// The tokens of the largest block.
    pub block_size: usize,
    /// The tokens of the cache that the block attends to.
    pub physical_cap: usize,
}

/// The bundle of a model file; a directory is refused.
pub fn load_bundle(is_dir: bool, config: LlamaShape, max_seq: usize) -> (r: Result<
    LlamaBundle,
    String,
>)
    ensures
        match r {
            Ok(b) => !is_dir && b.config == config && b.kv == (KvState {
                compact_offset: 0,
                physical_cap: max_seq,
            }) && b.dflash_extract_layers@.len() == 0,
            Err(e) => is_dir && e@ == "llama: directory source unsupported"@,
        },
{
    if is_dir {
        return Err("llama: directory source unsupported".to_owned());
    }
    Ok(
        LlamaBundle {
            config,
            kv: KvState { compact_offset: 0, physical_cap: max_seq },
            dflash_extract_layers: Vec::new(),
        },
    )
}

/// What is done next while a target takes tokens.
#[derive(Debug, Clone, Copy, PartialEq, Eq, Structural)]
pub enum AdvanceStep {
    /// Nothing: the caller gave up.
    Aborted,
    /// A pass over some of the tokens, which captures hidden states or not.
    Forward { chunk: PromptChunk, capture: bool },
    /// The pick behind the last token is read.
    Ready,
}

/// A target that is taking tokens.
#[derive(Debug, PartialEq, Eq)]
pub struct LlamaAdvance {
    chunks: Vec<PromptChunk>,
    next: usize,
    capture: bool,
}

impl LlamaAdvance {
    /// The passes, in order.
    pub closed spec fn passes(&self) -> Seq<PromptChunk> {
        self.chunks@
    }

    /// How many of the passes were begun.
    pub closed spec fn taken(&self) -> nat {
        self.next as nat
    }

    /// Whether the passes capture hidden states.
    pub closed spec fn capture(&self) -> bool {
        self.capture
    }

    /// The next pass, unless the caller gives up: the bundle then stands as at
    /// the beginning of a conversation. Once all passes are done there is
    /// nothing left to give up.
    pub fn step(&mut self, target: &mut LlamaBundle, abort: bool) -> (r: AdvanceStep)
        ensures
            final(self).passes() == old(self).passes(),
            final(self).capture() == old(self).capture(),
            old(self).taken() >= old(self).passes().len() ==> r is Ready && *final(target)
                == *old(target) && final(self).taken() == old(self).taken(),
            old(self).taken() < old(self).passes().len() && abort ==> r is Aborted && *final(target)
                == old(target).unshifted() && final(self).taken() == old(self).taken(),
            old(self).taken() < old(self).passes().len() && !abort ==> r == (AdvanceStep::Forward {
                chunk: old(self).passes()[old(self).taken() as int],
                capture: old(self).capture(),
            }) && *final(target) == *old(target) && final(self).taken() == old(self).taken() + 1,
    {
        if self.next >= self.chunks.len() {
            return AdvanceStep::Ready;
        }
        if abort {
            target.kv.compact_offset = 0;
            return AdvanceStep::Aborted;
        }
        let chunk: PromptChunk = self.chunks[self.next];
        self.next = self.next + 1;
        AdvanceStep::Forward { chunk, capture: self.capture }
    }
}

impl LlamaBundle {
    /// The bundle as it is where nothing has been evicted.
    pub open spec fn unshifted(self) -> LlamaBundle {
        LlamaBundle { kv: (KvState { compact_offset: 0, ..self.kv }), ..self }
    }

    /// Forgets the conversation: attention keeps nothing but the cache, and the
    /// next prompt overwrites that from its beginning.
    pub fn reset_recurrent(&mut self)
        ensures
            *final(self) == old(self).unshifted(),
    {
        self.kv.compact_offset = 0;
    }

    /// The scratch for blocks of `block_size`, or of two where that is less.
    pub fn new_spec_scratch(&self, block_size: usize) -> (r: LlamaSpecScratch)
        ensures
            r.block_size == (if block_size < 2 {
                2
            } else {
                block_size
            }),
            r.physical_cap == self.kv.physical_cap,
    {
        LlamaSpecScratch {
            block_size: if block_size < 2 {
                2
            } else {
                block_size
            },
            physical_cap: self.kv.physical_cap,
        }
    }

    /// Begins taking `n` tokens from `start_pos` on, from an empty conversation
    /// where `reset` is set, at most `chunk_max` of them in a pass.
    pub fn spec_advance(
        &mut self,
        n: usize,
        start_pos: usize,
        reset: bool,
        has_sink: bool,
        chunk_max: usize,
    ) -> (r: LlamaAdvance)
        requires
            0 < chunk_max,
            start_pos + n <= usize::MAX,
        ensures
            *final(self) == (if reset {
                old(self).unshifted()
            } else {
                *old(self)
            }),
            r.taken() == 0,
            r.passes().len() == ceil_div(n as int, chunk_max as int),
            forall|i: int|
                0 <= i < r.passes().len() ==> {
                    let c = chunk_at(n as int, chunk_max as int, i);
                    &&& (#[trigger] r.passes()[i]).start == c.0
                    &&& r.passes()[i].end == c.0 + c.1
                    &&& r.passes()[i].pos == start_pos + c.0
                },
            r.capture() == (old(self).dflash_extract_layers@.len() > 0 && has_sink),
    {
        if reset {
            self.kv.compact_offset = 0;
        }
        let capture: bool = self.captures(has_sink);
        LlamaAdvance { chunks: prompt_chunks(n, start_pos, chunk_max), next: 0, capture }
    }

    /// Whether a pass captures hidden states: a draft model reads some, and
    /// there is somewhere to put them.
    pub fn captures(&self, has_sink: bool) -> (r: bool)
        ensures
            r == (self.dflash_extract_layers@.len() > 0 && has_sink),
    {
        self.dflash_extract_layers.len() > 0 && has_sink
    }

    /// Commits the accepted part of a block: the verifying pass has left the
    /// cache right, and the next one overwrites the rest.
    pub fn commit_prefix(&mut self, accept_len: usize, position: usize)
        ensures
            *final(self) == *old(self),
    {
    }

    /// The token that ends a turn.
    pub fn eos_token(&self) -> (r: u32)
        ensures
            r == self.config.eos_token,
    {
        self.config.eos_token
    }

    /// The most tokens of a conversation.
    pub fn ctx_capacity(&self) -> (r: usize)
        ensures
            r == self.kv.physical_cap,
    {
        self.kv.physical_cap
    }

    /// The layers whose hidden states a draft model reads; nothing where there
    /// is none.
    pub fn dflash_extract_layers(&self) -> (r: Option<&Vec<usize>>)
        ensures
            match r {
                Some(layers) => layers@.len() > 0 && layers@ == self.dflash_extract_layers@,
                None => self.dflash_extract_layers@.len() == 0,
            },
    {
        if self.dflash_extract_layers.len() == 0 {
            None
        } else {
            Some(&self.dflash_extract_layers)
        }
    }
}

/// Forgetting a conversation puts the cache's beginning back and leaves all
/// else; forgetting it again changes nothing.
pub proof fn forgetting_keeps_the_rest(bundle: LlamaBundle)
    ensures
        bundle.unshifted().kv.compact_offset == 0,
        bundle.unshifted().kv.physical_cap == bundle.kv.physical_cap,
        bundle.unshifted().config == bundle.config,
        bundle.unshifted().dflash_extract_layers == bundle.dflash_extract_layers,
        bundle.unshifted().unshifted() == bundle.unshifted(),
{
}

} // verus!
