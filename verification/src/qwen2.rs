//! Qwen2 models: what a load refuses, and the model as a target of speculative
//! decoding.

use vstd::prelude::*;

verus! {

/// What the model's configuration says.
#[derive(Debug, Clone, Copy, PartialEq, Eq, Structural)]
pub struct Qwen2Config {
    pub eos_token_id: u32,
    pub vocab_size: usize,
}

/// The model's state: how far its cache is filled.
#[derive(Debug, Clone, Copy, PartialEq, Eq, Structural)]
pub struct Qwen2State {
    pub next_pos: usize,
    pub max_seq: usize,
}

/// A Qwen2 model with its state.
#[derive(Debug, Clone, Copy, PartialEq, Eq, Structural)]
pub struct Qwen2Bundle {
    pub config: Qwen2Config,
    pub state: Qwen2State,
}

/// The scratch of a verifying pass: nothing, since the block's tokens go
/// through the model one by one.
#[derive(Debug, Clone, Copy, PartialEq, Eq, Structural)]
pub struct Qwen2SpecScratch;

/// Why a load is refused; nothing where it is not.
pub open spec fn load_refusal(is_dir: bool, drafts: bool, evicts: bool) -> Option<Seq<char>> {
    if is_dir {
        Some("qwen2: directory source unsupported"@)
    } else if drafts {
        Some("DFlash not supported on arch_id=7 (qwen2 bring-up). Reload without a draft."@)
    } else if evicts {
        Some(
            "CASK eviction not supported on arch_id=7 (qwen2 bring-up). Reload without --cask-sidecar."@,
        )
    } else {
        None
    }
}

/// The bundle of a model file. A directory, a draft and an eviction sidecar
/// are refused.
pub fn load_bundle(
    is_dir: bool,
    drafts: bool,
    evicts: bool,
    config: Qwen2Config,
    max_seq: usize,
) -> (r: Result<Qwen2Bundle, String>)
    ensures
        match r {
            Ok(b) => load_refusal(is_dir, drafts, evicts) is None && b.config == config && b.state
                == (Qwen2State { next_pos: 0, max_seq }),
            Err(e) => load_refusal(is_dir, drafts, evicts) == Some(e@),
        },
{
    if is_dir {
        return Err("qwen2: directory source unsupported".to_owned());
    }
    if drafts {
        return Err(
            "DFlash not supported on arch_id=7 (qwen2 bring-up). Reload without a draft.".to_owned(),
        );
    }
    if evicts {
        return Err(
            "CASK eviction not supported on arch_id=7 (qwen2 bring-up). Reload without --cask-sidecar.".to_owned(),
        );
    }
    Ok(Qwen2Bundle { config, state: Qwen2State { next_pos: 0, max_seq } })
}

/// What is done next while a target takes tokens.
#[derive(Debug, Clone, Copy, PartialEq, Eq, Structural)]
pub enum TokenStep {
    /// Nothing: the caller gave up.
    Aborted,
    /// A pass over the next token.
    Forward,
    /// The pick behind the last token is read.
    Ready,
}

/// A target that is taking tokens.
#[derive(Debug, PartialEq, Eq)]
pub struct Qwen2Advance {
    left: usize,
}

impl Qwen2Advance {
    /// The tokens that have yet to be taken.
    pub closed spec fn left(&self) -> nat {
        self.left as nat
    }

    /// The next pass, unless the caller gives up: the next prompt then begins
    /// the conversation anew. Once all tokens are taken there is nothing left
    /// to give up.
    pub fn step(&mut self, target: &mut Qwen2Bundle, abort: bool) -> (r: TokenStep)
        ensures
            old(self).left() == 0 ==> r is Ready && *final(target) == *old(target)
                && final(self).left() == 0,
            old(self).left() > 0 && abort ==> r is Aborted && *final(target) == old(target).at(0)
                && final(self).left() == old(self).left(),
            old(self).left() > 0 && !abort ==> r is Forward && *final(target) == *old(target)
                && final(self).left() == old(self).left() - 1,
    {
        if self.left == 0 {
            return TokenStep::Ready;
        }
        if abort {
            target.state.next_pos = 0;
            return TokenStep::Aborted;
        }
        self.left = self.left - 1;
        TokenStep::Forward
    }
}

impl Qwen2Bundle {
    /// The bundle with its cursor elsewhere.
    pub open spec fn at(self, next_pos: usize) -> Qwen2Bundle {
        Qwen2Bundle { state: (Qwen2State { next_pos, ..self.state }), ..self }
    }

    /// Forgets the conversation: the next prompt overwrites the cache from its
    /// beginning.
    pub fn reset_recurrent(&mut self)
        ensures
            *final(self) == old(self).at(0),
    {
        self.state.next_pos = 0;
    }

    /// The scratch of a verifying pass, whatever the block.
    pub fn new_spec_scratch(&self) -> (r: Qwen2SpecScratch)
        ensures
            r == Qwen2SpecScratch,
    {
        Qwen2SpecScratch
    }

    /// Begins taking `n` tokens at `start_pos`, whether or not from an empty
    /// conversation: the tokens overwrite the cache from there on.
    pub fn spec_advance(&mut self, n: usize, start_pos: usize, reset: bool) -> (r: Qwen2Advance)
        ensures
            *final(self) == old(self).at(start_pos),
            r.left() == n,
    {
        if reset {
            self.state.next_pos = 0;
        }
        self.state.next_pos = start_pos;
        Qwen2Advance { left: n }
    }

    /// Takes one token: the next one goes to the place after it.
    pub fn step(&mut self)
        requires
            old(self).state.next_pos < usize::MAX,
        ensures
            *final(self) == old(self).at((old(self).state.next_pos + 1) as usize),
    {
        self.state.next_pos = self.state.next_pos + 1;
    }

    /// Begins verifying a block at `position`: its tokens overwrite what a
    /// rejected draft left there.
    pub fn verify_block(&mut self, position: usize)
        ensures
            *final(self) == old(self).at(position),
    {
        self.state.next_pos = position;
    }

    /// Commits the accepted part of a block: the verifying pass has left the
    /// cache right, and the next one overwrites the rest.
    pub fn commit_prefix(&mut self, accept_len: usize, position: usize)
        ensures
            *final(self) == *old(self),
    {
    }

    /// The token that ends a turn.
    pub fn eos_token(&self) -> (r: u32)
        ensures
            r == self.config.eos_token_id,
    {
        self.config.eos_token_id
    }

    /// The most tokens of a conversation.
    pub fn ctx_capacity(&self) -> (r: usize)
        ensures
            r == self.state.max_seq,
    {
        self.state.max_seq
    }
}

/// Putting the cursor elsewhere moves nothing but the cursor, and the last place
/// counts.
pub proof fn only_the_cursor_moves(bundle: Qwen2Bundle, a: usize, b: usize)
    ensures
        bundle.at(a).state.next_pos == a,
        bundle.at(a).state.max_seq == bundle.state.max_seq,
        bundle.at(a).config == bundle.config,
        bundle.at(a).at(b) == bundle.at(b),
{
}

/// A load is taken exactly where it is of a model file without a draft and
/// without an eviction sidecar.
pub proof fn plain_files_are_taken(is_dir: bool, drafts: bool, evicts: bool)
    ensures
        load_refusal(is_dir, drafts, evicts) is None <==> !is_dir && !drafts && !evicts,
        is_dir ==> load_refusal(is_dir, drafts, evicts) == load_refusal(true, false, false),
        !is_dir && drafts ==> load_refusal(is_dir, drafts, evicts) == load_refusal(
            false,
            true,
            false,
        ),
{
}

} // verus!
