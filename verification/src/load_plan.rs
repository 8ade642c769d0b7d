//! The steps of a load: what is built in which order once a model's
//! configuration is read, and how keys and values give way.

use crate::loader::{
    kv_mode_of, layer_split, parse_state_quant, sizes_view, split_entries, split_refusal,
    state_quant_of, entry_values, StateQuant,
};
use crate::order::{follows, only_at};
use crate::text;
use crate::text::parsed_number;
use crate::turn_cache::opt_str;
use vstd::prelude::*;

verus! {

/// How a layer attends.
#[derive(Debug, Clone, Copy, PartialEq, Eq, Structural)]
pub enum LayerType {
    LinearAttention,
    FullAttention,
}

/// Which layers keep keys and values: those that attend in full.
pub open spec fn kv_mask_of(types: Seq<LayerType>) -> Seq<bool> {
    types.map_values(|t: LayerType| t == LayerType::FullAttention)
}

/// Which layers keep keys and values.
pub fn kv_layer_mask(types: &Vec<LayerType>) -> (out: Vec<bool>)
    ensures
        out@ == kv_mask_of(types@),
{
    let mut out: Vec<bool> = Vec::new();
    let mut i: usize = 0;
    while i < types.len()
        invariant
            i <= types.len(),
            out@.len() == i,
            forall|j: int| 0 <= j < i ==> out@[j] == (types@[j] == LayerType::FullAttention),
        decreases types.len() - i,
    {
        out.push(types[i] == LayerType::FullAttention);
        i = i + 1;
    }
    assert(out@ =~= kv_mask_of(types@));
    out
}

/// The places of the layers that attend in full, ascending.
pub open spec fn full_layers_of(types: Seq<LayerType>) -> Seq<usize>
    decreases types.len(),
{
    if types.len() == 0 {
        Seq::empty()
    } else {
        let init = full_layers_of(types.drop_last());
        if types.last() == LayerType::FullAttention {
            init.push((types.len() - 1) as usize)
        } else {
            init
        }
    }
}

/// The places of the layers that attend in full, ascending.
pub fn full_attention_layers(types: &Vec<LayerType>) -> (out: Vec<usize>)
    ensures
        out@ == full_layers_of(types@),
{
    let mut out: Vec<usize> = Vec::new();
    let mut i: usize = 0;
    assert(out@ =~= full_layers_of(types@.subrange(0, 0)));
    while i < types.len()
        invariant
            i <= types.len(),
            out@ == full_layers_of(types@.subrange(0, i as int)),
        decreases types.len() - i,
    {
        assert(types@.subrange(0, i + 1).drop_last() =~= types@.subrange(0, i as int));
        if types[i] == LayerType::FullAttention {
            out.push(i);
        }
        i = i + 1;
    }
    assert(types@.subrange(0, types@.len() as int) =~= types@);
    out
}

/// The room behind budget and beta that a cache with eviction always keeps.
pub const CAP_FLOOR_SLACK: usize = 4;

/// The room behind budget and beta that such a cache has unless told otherwise.
pub const CAP_SAFETY: usize = 256;

/// A number between two bounds.
pub open spec fn clamped(n: int, low: int, high: int) -> int {
    if n < low {
        low
    } else if n > high {
        high
    } else {
        n
    }
}

/// The tokens that the key-value cache holds: with eviction as many as asked
/// for, else budget, beta and some room, but never less than eviction needs nor
/// more than the longest sequence; without eviction the longest sequence.
pub open spec fn physical_cap_of(
    evicts: bool,
    budget: int,
    beta: int,
    max_seq: int,
    asked: Option<Seq<char>>,
) -> int {
    if evicts {
        let floor = budget + beta + CAP_FLOOR_SLACK;
        let wanted = match asked {
            Some(s) => match parsed_number(s, usize::MAX as nat) {
                Some(n) => n as int,
                None => budget + beta + CAP_SAFETY,
            },
            None => budget + beta + CAP_SAFETY,
        };
        clamped(wanted, floor, max_seq)
    } else {
        max_seq
    }
}

/// The tokens that the key-value cache holds.
pub fn physical_cap(
    evicts: bool,
    budget: usize,
    beta: usize,
    max_seq: usize,
    asked: Option<&str>,
) -> (r: usize)
    requires
        evicts ==> budget + beta + CAP_SAFETY <= usize::MAX,
        evicts ==> budget + beta + CAP_FLOOR_SLACK <= max_seq,
    ensures
        r == physical_cap_of(
            evicts,
            budget as int,
            beta as int,
            max_seq as int,
            opt_str(asked),
        ),
{
    if !evicts {
        return max_seq;
    }
    let floor: usize = budget + beta + CAP_FLOOR_SLACK;
    let derived: usize = budget + beta + CAP_SAFETY;
    let wanted: usize = match asked {
        Some(s) => match text::parse_number(s, usize::MAX as u64) {
            Some(n) => n as usize,
            None => derived,
        },
        None => derived,
    };
    if wanted < floor {
        floor
    } else if wanted > max_seq {
        max_seq
    } else {
        wanted
    }
}

/// A cache with eviction always holds what eviction needs and no more than the
/// longest sequence.
pub proof fn physical_cap_is_bounded(
    budget: int,
    beta: int,
    max_seq: int,
    asked: Option<Seq<char>>,
)
    requires
        budget + beta + CAP_FLOOR_SLACK <= max_seq,
    ensures
        budget + beta + CAP_FLOOR_SLACK <= physical_cap_of(true, budget, beta, max_seq, asked)
            <= max_seq,
{
}

/// How keys and values give way once the cache is full.
#[derive(Debug, PartialEq, Eq)]
pub enum EvictionPlan {
    /// Not at all.
    Off,
    /// Not at all: no layer attends in full.
    NoFullLayers,
    /// Plainly dropped, on these layers.
    Plain { layers: Vec<usize> },
    /// Folded, `fold_m` at a time, on these layers.
    Cask { layers: Vec<usize>, fold_m: usize },
}

/// How keys and values give way.
pub fn eviction_plan(
    evicts: bool,
    folds: bool,
    fold_m: usize,
    types: &Vec<LayerType>,
) -> (r: EvictionPlan)
    ensures
        match r {
            EvictionPlan::Off => !evicts,
            EvictionPlan::NoFullLayers => evicts && full_layers_of(types@).len() == 0,
            EvictionPlan::Plain { layers } => evicts && !folds && layers@ == full_layers_of(types@)
                && layers@.len() > 0,
            EvictionPlan::Cask { layers, fold_m: m } => evicts && folds && m == fold_m && layers@
                == full_layers_of(types@) && layers@.len() > 0,
        },
{
    if !evicts {
        return EvictionPlan::Off;
    }
    let layers = full_attention_layers(types);
    if layers.len() == 0 {
        EvictionPlan::NoFullLayers
    } else if folds {
        EvictionPlan::Cask { layers, fold_m }
    } else {
        EvictionPlan::Plain { layers }
    }
}

/// What the plain eviction keeps.
#[derive(Debug, Clone, Copy, PartialEq, Eq, Structural)]
pub struct EvictionCtx {
    /// The keys that stay.
    pub budget: usize,
    /// The keys that may gather on top before the next eviction.
    pub beta: usize,
}

/// What the folding eviction keeps.
#[derive(Debug, Clone, Copy, PartialEq, Eq, Structural)]
pub struct CaskCtx {
    pub base: EvictionCtx,
    pub fold_m: usize,
}

/// An eviction at work.
#[derive(Debug, Clone, Copy, PartialEq, Eq, Structural)]
pub enum Eviction {
    Plain(EvictionCtx),
    Cask(CaskCtx),
}

impl Eviction {
    /// What either kind of eviction keeps.
    pub open spec fn kept(&self) -> EvictionCtx {
        match self {
            Eviction::Plain(c) => *c,
            Eviction::Cask(c) => c.base,
        }
    }

    /// The keys that stay.
    pub fn budget(&self) -> (r: usize)
        ensures
            r == self.kept().budget,
    {
        match self {
            Eviction::Plain(c) => c.budget,
            Eviction::Cask(c) => c.base.budget,
        }
    }

    /// The keys that may gather on top.
    pub fn beta(&self) -> (r: usize)
        ensures
            r == self.kept().beta,
    {
        match self {
            Eviction::Plain(c) => c.beta,
            Eviction::Cask(c) => c.base.beta,
        }
    }
}

/// Why the eviction sidecar could not be read.
#[derive(Debug, Clone, Copy, PartialEq, Eq, Structural)]
pub enum SidecarFault {
    /// The path is a link to nothing.
    DanglingLink,
    NotFound,
    BadFormat,
    Truncated,
    Other,
}

/// The text of a sidecar's fault.
pub open spec fn sidecar_reason(fault: SidecarFault, path: Seq<char>, detail: Seq<char>) -> Seq<
    char,
> {
    match fault {
        SidecarFault::DanglingLink => "dangling symlink (target absent): "@ + path,
        SidecarFault::NotFound => "file not found: "@ + path,
        SidecarFault::BadFormat => "bad format ("@ + detail + "): "@ + path,
        SidecarFault::Truncated => "truncated/corrupt sidecar: "@ + path,
        SidecarFault::Other => "read error ("@ + detail + "): "@ + path,
    }
}

/// The error's text of a sidecar that could not be read.
pub fn sidecar_error(fault: SidecarFault, path: &str, detail: &str) -> (r: String)
    ensures
        r@ == "cask sidecar load failed — "@ + sidecar_reason(fault, path@, detail@)
            + " (regen: hipfire sidecar-gen, or HIPFIRE_CASK_OFF=1)"@,
{
    let mut s = "cask sidecar load failed — ".to_owned();
    let ghost head = s@;
    match fault {
        SidecarFault::DanglingLink => {
            s.append("dangling symlink (target absent): ");
            s.append(path);
        },
        SidecarFault::NotFound => {
            s.append("file not found: ");
            s.append(path);
        },
        SidecarFault::BadFormat => {
            s.append("bad format (");
            s.append(detail);
            s.append("): ");
            s.append(path);
        },
        SidecarFault::Truncated => {
            s.append("truncated/corrupt sidecar: ");
            s.append(path);
        },
        SidecarFault::Other => {
            s.append("read error (");
            s.append(detail);
            s.append("): ");
            s.append(path);
        },
    }
    assert(s@ =~= head + sidecar_reason(fault, path@, detail@));
    s.append(" (regen: hipfire sidecar-gen, or HIPFIRE_CASK_OFF=1)");
    s
}

/// Which key-value modes a load allows.
#[derive(Debug, Clone, Copy, PartialEq, Eq, Structural)]
pub enum KvPolicy {
    /// A Qwen3.5 split over devices.
    Qwen35Split,
    /// A Qwen3.5 directory.
    Qwen35Directory,
    /// A directory of another architecture.
    Directory,
}

/// Which layers have keys and values.
#[derive(Debug, PartialEq, Eq)]
pub enum KvLayers {
    Mask(Vec<bool>),
    All(usize),
}

/// A key-value cache to build.
#[derive(Debug, PartialEq, Eq)]
pub struct KvPlan {
    pub mode: String,
    pub policy: KvPolicy,
    pub layers: KvLayers,
    pub n_kv_heads: usize,
    pub head_dim: usize,
    pub max_seq: usize,
}

/// What `KvLayers` holds.
pub enum KvLayersV {
    Mask(Seq<bool>),
    All(usize),
}

/// What a key-value plan holds.
#[verifier::ext_equal]
pub struct KvPlanV {
    pub mode: Seq<char>,
    pub policy: KvPolicy,
    pub layers: KvLayersV,
    pub n_kv_heads: usize,
    pub head_dim: usize,
    pub max_seq: usize,
}

impl View for KvPlan {
    type V = KvPlanV;

    open spec fn view(&self) -> KvPlanV {
        KvPlanV {
            mode: self.mode@,
            policy: self.policy,
            layers: match self.layers {
                KvLayers::Mask(m) => KvLayersV::Mask(m@),
                KvLayers::All(n) => KvLayersV::All(n),
            },
            n_kv_heads: self.n_kv_heads,
            head_dim: self.head_dim,
            max_seq: self.max_seq,
        }
    }
}

/// How the layers are split over devices.
#[derive(Debug, PartialEq, Eq)]
pub enum DeviceSplit {
    /// So many layers on each device.
    Counts(Vec<usize>),
    /// Evenly.
    Uniform { devices: usize, layers: usize },
}

/// What a device split holds.
pub enum DeviceSplitV {
    Counts(Seq<nat>),
    Uniform(usize, usize),
}

impl View for DeviceSplit {
    type V = DeviceSplitV;

    open spec fn view(&self) -> DeviceSplitV {
        match self {
            DeviceSplit::Counts(c) => DeviceSplitV::Counts(sizes_view(c@)),
            DeviceSplit::Uniform { devices, layers } => DeviceSplitV::Uniform(*devices, *layers),
        }
    }
}

/// One step of a load.
#[derive(Debug, PartialEq, Eq)]
pub enum LoadAction {
    /// Stop with this error.
    Fail(String),
    /// Open the devices and split the layers over them.
    Devices(DeviceSplit),
    /// Read the weights.
    Weights,
    KvCache(KvPlan),
    /// The recurrent state, stored so.
    DeltaState(StateQuant),
    /// The recurrent state, stored as the architecture does by itself.
    DefaultDeltaState,
    /// Scratch on every device, for so many rows and so long a sequence.
    ScratchSet { rows: usize, max_seq: usize },
    /// Scratch on the first device.
    Scratch { rows: usize, max_seq: usize },
    /// Scratch for so many rows.
    SmallScratch { rows: usize },
    /// Scratch of the plain architecture.
    ForwardScratch,
    /// The model is loaded, on so many devices, with so large a cache.
    Finish { pp: usize, physical_cap: usize },
}

/// What a step holds.
pub enum LoadActionV {
    Fail(Seq<char>),
    Devices(DeviceSplitV),
    Weights,
    KvCache(KvPlanV),
    DeltaState(StateQuant),
    DefaultDeltaState,
    ScratchSet(usize, usize),
    Scratch(usize, usize),
    SmallScratch(usize),
    ForwardScratch,
    Finish(usize, usize),
}

impl View for LoadAction {
    type V = LoadActionV;

    open spec fn view(&self) -> LoadActionV {
        match self {
            LoadAction::Fail(s) => LoadActionV::Fail(s@),
            LoadAction::Devices(d) => LoadActionV::Devices(d@),
            LoadAction::Weights => LoadActionV::Weights,
            LoadAction::KvCache(k) => LoadActionV::KvCache(k@),
            LoadAction::DeltaState(q) => LoadActionV::DeltaState(*q),
            LoadAction::DefaultDeltaState => LoadActionV::DefaultDeltaState,
            LoadAction::ScratchSet { rows, max_seq } => LoadActionV::ScratchSet(*rows, *max_seq),
            LoadAction::Scratch { rows, max_seq } => LoadActionV::Scratch(*rows, *max_seq),
            LoadAction::SmallScratch { rows } => LoadActionV::SmallScratch(*rows),
            LoadAction::ForwardScratch => LoadActionV::ForwardScratch,
            LoadAction::Finish { pp, physical_cap } => LoadActionV::Finish(*pp, *physical_cap),
        }
    }
}

/// What each of several steps holds.
pub open spec fn actions_view(actions: Seq<LoadAction>) -> Seq<LoadActionV> {
    actions.map_values(|a: LoadAction| a@)
}

/// What a model's configuration says of its attention.
#[derive(Debug, PartialEq, Eq)]
pub struct AttentionShape {
    pub layer_types: Vec<LayerType>,
    pub n_kv_heads: usize,
    pub head_dim: usize,
}

/// The settings of a load.
#[derive(Debug, PartialEq, Eq)]
pub struct LoadSettings<'a> {
    pub max_seq: usize,
    pub kv_mode_override: Option<&'a str>,
    pub kv_mode_env: Option<&'a str>,
    pub state_quant_override: Option<&'a str>,
}

/// The key-value cache of a load.
pub open spec fn kv_plan_of(
    settings: LoadSettings,
    policy: KvPolicy,
    layers: KvLayersV,
    n_kv_heads: usize,
    head_dim: usize,
) -> KvPlanV {
    KvPlanV {
        mode: kv_mode_of(opt_str(settings.kv_mode_override), opt_str(settings.kv_mode_env)),
        policy,
        layers,
        n_kv_heads,
        head_dim,
        max_seq: settings.max_seq,
    }
}

fn kv_plan(
    settings: &LoadSettings,
    policy: KvPolicy,
    layers: KvLayers,
    n_kv_heads: usize,
    head_dim: usize,
) -> (r: KvPlan)
    ensures
        r@ == kv_plan_of(
            *settings,
            policy,
            match layers {
                KvLayers::Mask(m) => KvLayersV::Mask(m@),
                KvLayers::All(n) => KvLayersV::All(n),
            },
            n_kv_heads,
            head_dim,
        ),
{
    KvPlan {
        mode: crate::loader::kv_mode(settings.kv_mode_override, settings.kv_mode_env),
        policy,
        layers,
        n_kv_heads,
        head_dim,
        max_seq: settings.max_seq,
    }
}

/// The rows that a full scratch is made for.
pub const SCRATCH_ROWS: usize = 2048;

/// The rows that a directory's scratch is made for.
pub const DIRECTORY_SCRATCH_ROWS: usize = 256;

/// Why a split over devices fails before anything is opened; an empty setting
/// is none.
pub open spec fn split_setting(split: Option<Seq<char>>) -> Option<Seq<char>> {
    match split {
        Some(s) => if s.len() > 0 {
            Some(s)
        } else {
            None
        },
        None => None,
    }
}

/// The steps of loading a Qwen3.5 over `pp` devices, from the devices on.
pub open spec fn split_load_actions(
    shape: AttentionShape,
    settings: LoadSettings,
    pp: usize,
    split: Option<Seq<char>>,
) -> Seq<LoadActionV> {
    let n = shape.layer_types@.len() as usize;
    let refusal = match split_setting(split) {
        Some(s) => split_refusal(s, pp, n),
        None => None,
    };
    let devices = match split_setting(split) {
        Some(s) => DeviceSplitV::Counts(entry_values(split_entries(s))),
        None => DeviceSplitV::Uniform(pp, n),
    };
    match refusal {
        Some(e) => seq![LoadActionV::Fail(e.text())],
        None => seq![
            LoadActionV::Devices(devices),
            LoadActionV::Weights,
            LoadActionV::KvCache(
                kv_plan_of(
                    settings,
                    KvPolicy::Qwen35Split,
                    KvLayersV::Mask(kv_mask_of(shape.layer_types@)),
                    shape.n_kv_heads,
                    shape.head_dim,
                ),
            ),
        ] + match state_quant_of(opt_str(settings.state_quant_override)) {
            None => seq![
                LoadActionV::Fail(
                    "unsupported DeltaNet state_quant '"@ + text::ascii_lower(
                        settings.state_quant_override->Some_0@,
                    ) + "' (expected q8|fp32|q4)"@,
                ),
            ],
            Some(q) => seq![
                LoadActionV::DeltaState(q),
                LoadActionV::ScratchSet(SCRATCH_ROWS, settings.max_seq),
                LoadActionV::Scratch(SCRATCH_ROWS, settings.max_seq),
                LoadActionV::Finish(pp, settings.max_seq),
            ],
        },
    }
}

/// The steps of loading a Qwen3.5 over `pp` devices, once its configuration is
/// read: the devices, the weights, the caches, the scratch. A setting that
/// cannot be read stops the load where it is read.
pub fn load_qwen35_pp(
    shape: &AttentionShape,
    settings: &LoadSettings,
    pp: usize,
    split: Option<&str>,
) -> (out: Vec<LoadAction>)
    ensures
        actions_view(out@) == split_load_actions(*shape, *settings, pp, opt_str(split)),
{
    let n: usize = shape.layer_types.len();
    let mut out: Vec<LoadAction> = Vec::new();
    let wanted = match split {
        Some(s) => if s.unicode_len() > 0 {
            Some(s)
        } else {
            None
        },
        None => None,
    };
    match wanted {
        Some(s) => match layer_split(s, pp, n) {
            Ok(counts) => {
                out.push(LoadAction::Devices(DeviceSplit::Counts(counts)));
            },
            Err(e) => {
                out.push(LoadAction::Fail(e.message()));
                assert(actions_view(out@) =~= seq![LoadActionV::Fail(e.text())]);
                return out;
            },
        },
        None => {
            out.push(LoadAction::Devices(DeviceSplit::Uniform { devices: pp, layers: n }));
        },
    }
    out.push(LoadAction::Weights);
    out.push(
        LoadAction::KvCache(
            kv_plan(
                settings,
                KvPolicy::Qwen35Split,
                KvLayers::Mask(kv_layer_mask(&shape.layer_types)),
                shape.n_kv_heads,
                shape.head_dim,
            ),
        ),
    );
    match parse_state_quant(settings.state_quant_override) {
        Ok(q) => {
            out.push(LoadAction::DeltaState(q));
            out.push(LoadAction::ScratchSet { rows: SCRATCH_ROWS, max_seq: settings.max_seq });
            out.push(LoadAction::Scratch { rows: SCRATCH_ROWS, max_seq: settings.max_seq });
            out.push(LoadAction::Finish { pp, physical_cap: settings.max_seq });
        },
        Err(e) => {
            out.push(LoadAction::Fail(e));
        },
    }
    assert(actions_view(out@) =~= split_load_actions(*shape, *settings, pp, opt_str(split)));
    out
}

/// The steps of loading a Qwen3.5 directory on one device, once its
/// configuration is read.
pub fn load_qwen35_dir(shape: &AttentionShape, settings: &LoadSettings) -> (out: Vec<LoadAction>)
    ensures
        actions_view(out@) == seq![
            LoadActionV::Weights,
            LoadActionV::KvCache(
                kv_plan_of(
                    *settings,
                    KvPolicy::Qwen35Directory,
                    KvLayersV::Mask(kv_mask_of(shape.layer_types@)),
                    shape.n_kv_heads,
                    shape.head_dim,
                ),
            ),
            LoadActionV::DefaultDeltaState,
            LoadActionV::SmallScratch(DIRECTORY_SCRATCH_ROWS),
            LoadActionV::Finish(1, settings.max_seq),
        ],
{
    let mut out: Vec<LoadAction> = Vec::new();
    out.push(LoadAction::Weights);
    out.push(
        LoadAction::KvCache(
            kv_plan(
                settings,
                KvPolicy::Qwen35Directory,
                KvLayers::Mask(kv_layer_mask(&shape.layer_types)),
                shape.n_kv_heads,
                shape.head_dim,
            ),
        ),
    );
    out.push(LoadAction::DefaultDeltaState);
    out.push(LoadAction::SmallScratch { rows: DIRECTORY_SCRATCH_ROWS });
    out.push(LoadAction::Finish { pp: 1, physical_cap: settings.max_seq });
    assert(actions_view(out@) =~= seq![
        LoadActionV::Weights,
        LoadActionV::KvCache(
            kv_plan_of(
                *settings,
                KvPolicy::Qwen35Directory,
                KvLayersV::Mask(kv_mask_of(shape.layer_types@)),
                shape.n_kv_heads,
                shape.head_dim,
            ),
        ),
        LoadActionV::DefaultDeltaState,
        LoadActionV::SmallScratch(DIRECTORY_SCRATCH_ROWS),
        LoadActionV::Finish(1, settings.max_seq),
    ]);
    out
}

/// The steps of loading a Llama directory, once its configuration is read.
pub fn load_llama_dir(
    n_layers: usize,
    n_kv_heads: usize,
    head_dim: usize,
    settings: &LoadSettings,
) -> (out: Vec<LoadAction>)
    ensures
        actions_view(out@) == seq![
            LoadActionV::Weights,
            LoadActionV::KvCache(
                kv_plan_of(
                    *settings,
                    KvPolicy::Directory,
                    KvLayersV::All(n_layers),
                    n_kv_heads,
                    head_dim,
                ),
            ),
            LoadActionV::ForwardScratch,
            LoadActionV::Finish(1, settings.max_seq),
        ],
{
    let mut out: Vec<LoadAction> = Vec::new();
    out.push(LoadAction::Weights);
    out.push(
        LoadAction::KvCache(
            kv_plan(
                settings,
                KvPolicy::Directory,
                KvLayers::All(n_layers),
                n_kv_heads,
                head_dim,
            ),
        ),
    );
    out.push(LoadAction::ForwardScratch);
    out.push(LoadAction::Finish { pp: 1, physical_cap: settings.max_seq });
    assert(actions_view(out@) =~= seq![
        LoadActionV::Weights,
        LoadActionV::KvCache(
            kv_plan_of(
                *settings,
                KvPolicy::Directory,
                KvLayersV::All(n_layers),
                n_kv_heads,
                head_dim,
            ),
        ),
        LoadActionV::ForwardScratch,
        LoadActionV::Finish(1, settings.max_seq),
    ]);
    out
}

/// The route of a Qwen3.5 load.
#[derive(Debug, Clone, Copy, PartialEq, Eq, Structural)]
pub enum Qwen35Route {
    /// Over several devices, from a model file.
    Split,
    /// On one device, from a model file.
    File,
    /// On one device, from a directory.
    Directory,
}

/// The route of a Qwen3.5 load, or its refusal.
pub fn qwen35_route(is_dir: bool, pp: usize) -> (r: Result<Qwen35Route, String>)
    ensures
        match r {
            Ok(Qwen35Route::Split) => !is_dir && pp > 1,
            Ok(Qwen35Route::File) => !is_dir && pp <= 1,
            Ok(Qwen35Route::Directory) => is_dir && pp <= 1,
            Err(e) => is_dir && pp > 1 && e@ == "qwen35: safetensors + pp>1 unsupported"@,
        },
{
    if pp > 1 {
        if is_dir {
            return Err("qwen35: safetensors + pp>1 unsupported".to_owned());
        }
        return Ok(Qwen35Route::Split);
    }
    if is_dir {
        Ok(Qwen35Route::Directory)
    } else {
        Ok(Qwen35Route::File)
    }
}

/// The layers that attend in full, by their places, are exactly those that keep
/// keys and values, and come in ascending order.
pub proof fn full_layers_keep_keys(types: Seq<LayerType>)
    requires
        types.len() <= usize::MAX,
    ensures
        kv_mask_of(types).len() == types.len(),
        forall|i: int|
            0 <= i < types.len() ==> (#[trigger] kv_mask_of(types)[i] <==> types[i]
                == LayerType::FullAttention),
        forall|i: int|
            0 <= i < types.len() ==> (full_layers_of(types).contains(i as usize) <==> #[trigger]
            types[i] == LayerType::FullAttention),
        forall|k: int|
            0 <= k < full_layers_of(types).len() ==> #[trigger] full_layers_of(types)[k]
                < types.len(),
        forall|j: int, k: int|
            0 <= j < k < full_layers_of(types).len() ==> #[trigger] full_layers_of(types)[j]
                < #[trigger] full_layers_of(types)[k],
    decreases types.len(),
{
    if types.len() > 0 {
        let init = types.drop_last();
        full_layers_keep_keys(init);
        let before = full_layers_of(init);
        let all = full_layers_of(types);
        let last = types.len() - 1;
        assert(types.last() == types[last]);
        assert forall|i: int| 0 <= i < types.len() implies (all.contains(i as usize)
            <==> #[trigger] types[i] == LayerType::FullAttention) by {
            if i < last {
                assert(init[i] == types[i]);
                if before.contains(i as usize) {
                    let k = choose|k: int| 0 <= k < before.len() && before[k] == i as usize;
                    assert(all[k] == i as usize);
                }
                if all.contains(i as usize) {
                    let k = choose|k: int| 0 <= k < all.len() && all[k] == i as usize;
                    if k < before.len() {
                        assert(before[k] == i as usize);
                    }
                }
            } else {
                if types[last] == LayerType::FullAttention {
                    assert(all[before.len() as int] == last as usize);
                } else if all.contains(i as usize) {
                    let k = choose|k: int| 0 <= k < all.len() && all[k] == i as usize;
                    assert(before[k] < init.len());
                }
            }
        }
    }
}

/// Without eviction the cache holds the longest sequence. With it, a number that
/// was asked for is kept where it lies within the bounds; without one, or with a
/// text that is none, the cache has the usual room behind budget and beta, as far
/// as the longest sequence goes.
pub proof fn caps_that_fit_are_kept(
    budget: int,
    beta: int,
    max_seq: int,
    asked: Seq<char>,
    n: nat,
)
    requires
        budget + beta + 4 <= max_seq,
    ensures
        physical_cap_of(false, budget, beta, max_seq, Some(asked)) == max_seq,
        parsed_number(asked, usize::MAX as nat) == Some(n) && budget + beta + 4 <= n <= max_seq
            ==> physical_cap_of(true, budget, beta, max_seq, Some(asked)) == n,
        parsed_number(asked, usize::MAX as nat) == Some(n) && n > max_seq ==> physical_cap_of(
            true,
            budget,
            beta,
            max_seq,
            Some(asked),
        ) == max_seq,
        parsed_number(asked, usize::MAX as nat) == Some(n) && n < budget + beta + 4
            ==> physical_cap_of(true, budget, beta, max_seq, Some(asked)) == budget + beta + 4,
        parsed_number(asked, usize::MAX as nat) is None ==> physical_cap_of(
            true,
            budget,
            beta,
            max_seq,
            Some(asked),
        ) == physical_cap_of(true, budget, beta, max_seq, None),
        budget + beta + 256 <= max_seq ==> physical_cap_of(true, budget, beta, max_seq, None)
            == budget + beta + 256,
        budget + beta + 256 > max_seq ==> physical_cap_of(true, budget, beta, max_seq, None)
            == max_seq,
{
}

/// Whether a step stops the load.
pub open spec fn stops(step: LoadActionV) -> bool {
    step is Fail || step is Finish
}

/// A load over several devices stops at its last step and at no other: it
/// finishes on as many devices as asked for and with a cache of the longest
/// sequence, or it fails, at once where the split is refused and behind the
/// cache where the state's storage is none.
pub proof fn split_loads_stop_once(
    shape: AttentionShape,
    settings: LoadSettings,
    pp: usize,
    split: Option<Seq<char>>,
)
    ensures
        ({
            let all = split_load_actions(shape, settings, pp, split);
            let n = shape.layer_types@.len() as usize;
            let refused = split matches Some(s) && s.len() > 0 && split_refusal(
                s,
                pp,
                n,
            ) is Some;
            let unstored = state_quant_of(opt_str(settings.state_quant_override)) is None;
            &&& all.len() > 0
            &&& forall|i: int| 0 <= i < all.len() - 1 ==> !stops(#[trigger] all[i])
            &&& refused ==> all.len() == 1 && all[0] is Fail
            &&& !refused && unstored ==> all.last() is Fail && all[all.len() - 2] is KvCache
            &&& !refused && !unstored ==> all.last() == LoadActionV::Finish(pp, settings.max_seq)
        }),
{
}

/// A load over several devices opens them before it reads the weights, has the
/// weights before any cache, and the caches before the scratch; every part is
/// made once, for the sequence that the settings ask for.
pub proof fn split_loads_build_in_order(
    shape: AttentionShape,
    settings: LoadSettings,
    pp: usize,
    split: Option<Seq<char>>,
    quant: StateQuant,
)
    requires
        split matches Some(s) ==> s.len() > 0 ==> split_refusal(
            s,
            pp,
            shape.layer_types@.len() as usize,
        ) is None,
        state_quant_of(opt_str(settings.state_quant_override)) == Some(quant),
    ensures
        ({
            let all = split_load_actions(shape, settings, pp, split);
            let n = shape.layer_types@.len() as usize;
            let devices = if split is Some && split->Some_0.len() > 0 {
                DeviceSplitV::Counts(entry_values(split_entries(split->Some_0)))
            } else {
                DeviceSplitV::Uniform(pp, n)
            };
            &&& follows(all, LoadActionV::Devices(devices), LoadActionV::Weights)
            &&& follows(all, LoadActionV::Weights, LoadActionV::DeltaState(quant))
            &&& follows(
                all,
                LoadActionV::DeltaState(quant),
                LoadActionV::ScratchSet(2048, settings.max_seq),
            )
            &&& follows(
                all,
                LoadActionV::DeltaState(quant),
                LoadActionV::Scratch(2048, settings.max_seq),
            )
            &&& follows(
                all,
                LoadActionV::ScratchSet(2048, settings.max_seq),
                LoadActionV::Finish(pp, settings.max_seq),
            )
            &&& follows(
                all,
                LoadActionV::Scratch(2048, settings.max_seq),
                LoadActionV::Finish(pp, settings.max_seq),
            )
            &&& exists|i: int|
                0 <= i < all.len() && {
                    let step = #[trigger] all[i];
                    &&& step matches LoadActionV::KvCache(k)
                    &&& k.policy == KvPolicy::Qwen35Split
                    &&& k.max_seq == settings.max_seq
                    &&& k.n_kv_heads == shape.n_kv_heads
                    &&& k.head_dim == shape.head_dim
                    &&& k.mode == kv_mode_of(
                        opt_str(settings.kv_mode_override),
                        opt_str(settings.kv_mode_env),
                    )
                    &&& k.layers == KvLayersV::Mask(kv_mask_of(shape.layer_types@))
                    &&& follows(all, LoadActionV::Weights, step)
                    &&& follows(all, step, LoadActionV::DeltaState(quant))
                }
        }),
{
    let all = split_load_actions(shape, settings, pp, split);
    assert(all.len() == 7);
    assert(only_at(all, all[0], 0));
    assert(only_at(all, all[1], 1));
    assert(all[2] is KvCache);
    assert(only_at(all, all[2], 2));
    assert(only_at(all, all[3], 3));
    assert(only_at(all, all[4], 4));
    assert(only_at(all, all[5], 5));
    assert(only_at(all, all[6], 6));
}

} // verus!
