//! The vision tower's configuration, as a model file's metadata gives it.

use crate::json;
use crate::json::{json_of, json_of_text, JsonV};
use vstd::prelude::*;

verus! {

/// The vision tower, its projector, and how images are cut for it. The two
/// fractions are the bits of binary64 numbers that are used as binary32.
#[derive(Debug, Clone, Copy, PartialEq, Eq, Structural)]
pub struct VisionConfig {
    pub hidden_size: usize,
    pub num_heads: usize,
    pub head_dim: usize,
    pub num_layers: usize,
    pub mlp_dim: usize,
    pub patch_size: usize,
    pub num_channels: usize,
    /// The entries of the square table of learned positions.
    pub num_position_embeddings: usize,
    pub norm_eps: u64,
    pub downsample_factor: usize,
    pub projector_hidden_size: usize,
    pub out_hidden_size: usize,
    pub do_image_splitting: bool,
    pub tile_size: usize,
    pub min_tiles: usize,
    pub max_tiles: usize,
    pub use_thumbnail: bool,
    pub min_image_tokens: usize,
    pub max_image_tokens: usize,
    pub max_pixels_tolerance: u64,
}

/// The configuration of the published checkpoint.
pub open spec fn pinned() -> VisionConfig {
    VisionConfig {
        hidden_size: 1152,
        num_heads: 16,
        head_dim: 72,
        num_layers: 27,
        mlp_dim: 4304,
        patch_size: 16,
        num_channels: 3,
        num_position_embeddings: 256,
        norm_eps: 0x3eb0_c6f7_a0b5_ed8d,
        downsample_factor: 2,
        projector_hidden_size: 2048,
        out_hidden_size: 2048,
        do_image_splitting: true,
        tile_size: 512,
        min_tiles: 1,
        max_tiles: 10,
        use_thumbnail: true,
        min_image_tokens: 64,
        max_image_tokens: 256,
        max_pixels_tolerance: 0x4000_0000_0000_0000,
    }
}

impl Default for VisionConfig {
    fn default() -> (r: VisionConfig)
        ensures
            r == pinned(),
    {
        VisionConfig {
            hidden_size: 1152,
            num_heads: 16,
            head_dim: 72,
            num_layers: 27,
            mlp_dim: 4304,
            patch_size: 16,
            num_channels: 3,
            num_position_embeddings: 256,
            norm_eps: 0x3eb0_c6f7_a0b5_ed8d,
            downsample_factor: 2,
            projector_hidden_size: 2048,
            out_hidden_size: 2048,
            do_image_splitting: true,
            tile_size: 512,
            min_tiles: 1,
            max_tiles: 10,
            use_thumbnail: true,
            min_image_tokens: 64,
            max_image_tokens: 256,
            max_pixels_tolerance: 0x4000_0000_0000_0000,
        }
    }
}

impl VisionConfig {
    /// How many patches a token is made of, along one axis.
    pub open spec fn step(self) -> int {
        if self.downsample_factor == 0 {
            1
        } else {
            self.downsample_factor as int
        }
    }

    /// The tokens of a grid of `gh` by `gw` patches.
    pub open spec fn grid_tokens(self, gh: int, gw: int) -> int {
        (gh / self.step()) * (gw / self.step())
    }

    /// The tokens of a grid of `gh` by `gw` patches.
    pub fn tokens_for_grid(&self, gh: usize, gw: usize) -> (r: usize)
        requires
            self.grid_tokens(gh as int, gw as int) <= usize::MAX,
        ensures
            r == self.grid_tokens(gh as int, gw as int),
    {
        let f: usize = if self.downsample_factor == 0 {
            1
        } else {
            self.downsample_factor
        };
        (gh / f) * (gw / f)
    }

    /// The tokens of a whole tile.
    pub fn tokens_per_tile(&self) -> (r: usize)
        requires
            self.patch_size > 0,
            self.grid_tokens(
                self.tile_size as int / self.patch_size as int,
                self.tile_size as int / self.patch_size as int,
            ) <= usize::MAX,
        ensures
            r == self.grid_tokens(
                self.tile_size as int / self.patch_size as int,
                self.tile_size as int / self.patch_size as int,
            ),
    {
        let patches: usize = self.tile_size / self.patch_size;
        self.tokens_for_grid(patches, patches)
    }
}

/// A size under one of two names: the second name counts only where there is
/// nothing under the first.
pub open spec fn size_under(o: JsonV, first: Seq<char>, second: Seq<char>, default: usize) -> usize {
    let found = if o.member(first) is Some {
        o.member_unsigned(first)
    } else {
        o.member_unsigned(second)
    };
    match found {
        Some(n) => n as usize,
        None => default,
    }
}

/// A size of the tower, else of the checkpoint.
pub open spec fn picked_size(tower: JsonV, config: JsonV, key: Seq<char>, default: usize) -> usize {
    match tower.member_unsigned(key) {
        Some(n) => n as usize,
        None => match config.member_unsigned(key) {
            Some(n) => n as usize,
            None => default,
        },
    }
}

/// A switch of the tower, else of the checkpoint.
pub open spec fn picked_truth(tower: JsonV, config: JsonV, key: Seq<char>, default: bool) -> bool {
    match tower.member_truth(key) {
        Some(b) => b,
        None => match config.member_truth(key) {
            Some(b) => b,
            None => default,
        },
    }
}

/// A fraction of the tower, else of the checkpoint.
pub open spec fn picked_double(tower: JsonV, config: JsonV, key: Seq<char>, default: u64) -> u64 {
    match tower.member_double(key) {
        Some(b) => b,
        None => match config.member_double(key) {
            Some(b) => b,
            None => default,
        },
    }
}

/// The checkpoint's text model's width.
pub open spec fn text_width(config: JsonV, default: usize) -> usize {
    match config.member("text_config"@) {
        Some(t) => match t.member_unsigned("hidden_size"@) {
            Some(n) => n as usize,
            None => default,
        },
        None => default,
    }
}

/// The configuration that a tower and its checkpoint give. What neither says is
/// as in the published checkpoint.
pub open spec fn tower_config(tower: JsonV, config: JsonV) -> VisionConfig {
    let p = pinned();
    let hidden_size = size_under(tower, "hidden_size"@, "hidden_size"@, p.hidden_size);
    let num_heads = size_under(tower, "num_attention_heads"@, "num_heads"@, p.num_heads);
    VisionConfig {
        hidden_size,
        num_heads,
        head_dim: (hidden_size as int / num_heads as int) as usize,
        num_layers: size_under(tower, "num_hidden_layers"@, "depth"@, p.num_layers),
        mlp_dim: size_under(tower, "intermediate_size"@, "intermediate_size"@, p.mlp_dim),
        patch_size: size_under(tower, "patch_size"@, "patch_size"@, p.patch_size),
        num_channels: size_under(tower, "num_channels"@, "num_channels"@, p.num_channels),
        num_position_embeddings: size_under(
            tower,
            "num_patches"@,
            "num_patches"@,
            p.num_position_embeddings,
        ),
        norm_eps: match tower.member_double("layer_norm_eps"@) {
            Some(b) => b,
            None => p.norm_eps,
        },
        downsample_factor: picked_size(tower, config, "downsample_factor"@, p.downsample_factor),
        projector_hidden_size: picked_size(
            tower,
            config,
            "projector_hidden_size"@,
            p.projector_hidden_size,
        ),
        out_hidden_size: text_width(config, p.out_hidden_size),
        do_image_splitting: picked_truth(
            tower,
            config,
            "do_image_splitting"@,
            p.do_image_splitting,
        ),
        tile_size: picked_size(tower, config, "tile_size"@, p.tile_size),
        min_tiles: picked_size(tower, config, "min_tiles"@, p.min_tiles),
        max_tiles: picked_size(tower, config, "max_tiles"@, p.max_tiles),
        use_thumbnail: picked_truth(tower, config, "use_thumbnail"@, p.use_thumbnail),
        min_image_tokens: picked_size(tower, config, "min_image_tokens"@, p.min_image_tokens),
        max_image_tokens: picked_size(tower, config, "max_image_tokens"@, p.max_image_tokens),
        max_pixels_tolerance: picked_double(
            tower,
            config,
            "max_pixels_tolerance"@,
            p.max_pixels_tolerance,
        ),
    }
}

/// A tower without attention heads, whose heads have no width.
#[derive(Debug, Clone, Copy, PartialEq, Eq, Structural)]
pub struct NoHeads;

/// What a document says of a vision tower.
pub open spec fn vision_config_of(meta: JsonV) -> Result<Option<VisionConfig>, NoHeads> {
    match meta.member("config"@) {
        None => Ok(None),
        Some(config) => match config.member("vision_config"@) {
            None => Ok(None),
            Some(tower) => if tower_config(tower, config).num_heads == 0 {
                Err(NoHeads)
            } else {
                Ok(Some(tower_config(tower, config)))
            },
        },
    }
}

fn read_size(o: &serde_json::Value, first: &str, second: &str, default: usize) -> (r: usize)
    ensures
        r == size_under(json_of(*o), first@, second@, default),
{
    let found: Option<u64> = match json::get(o, first) {
        Some(v) => json::as_u64(v),
        None => json::member_unsigned(o, second),
    };
    match found {
        Some(n) => n as usize,
        None => default,
    }
}

fn pick_u64(
    tower: &serde_json::Value,
    config: &serde_json::Value,
    key: &str,
    default: usize,
) -> (r: usize)
    ensures
        r == picked_size(json_of(*tower), json_of(*config), key@, default),
{
    match json::member_unsigned(tower, key) {
        Some(n) => n as usize,
        None => match json::member_unsigned(config, key) {
            Some(n) => n as usize,
            None => default,
        },
    }
}

fn pick_bool(
    tower: &serde_json::Value,
    config: &serde_json::Value,
    key: &str,
    default: bool,
) -> (r: bool)
    ensures
        r == picked_truth(json_of(*tower), json_of(*config), key@, default),
{
    match json::member_truth(tower, key) {
        Some(b) => b,
        None => match json::member_truth(config, key) {
            Some(b) => b,
            None => default,
        },
    }
}

fn pick_double(
    tower: &serde_json::Value,
    config: &serde_json::Value,
    key: &str,
    default: u64,
) -> (r: u64)
    ensures
        r == picked_double(json_of(*tower), json_of(*config), key@, default),
{
    match json::member_double(tower, key) {
        Some(b) => b,
        None => match json::member_double(config, key) {
            Some(b) => b,
            None => default,
        },
    }
}

fn out_width(config: &serde_json::Value, default: usize) -> (r: usize)
    ensures
        r == text_width(json_of(*config), default),
{
    match json::get(config, "text_config") {
        Some(t) => match json::member_unsigned(t, "hidden_size") {
            Some(n) => n as usize,
            None => default,
        },
        None => default,
    }
}

/// What a document says of a vision tower: nothing where it is of a text model.
pub fn vision_config(meta: &serde_json::Value) -> (r: Result<Option<VisionConfig>, NoHeads>)
    ensures
        r == vision_config_of(json_of(*meta)),
{
    let config = match json::get(meta, "config") {
        Some(c) => c,
        None => {
            return Ok(None);
        },
    };
    let tower = match json::get(config, "vision_config") {
        Some(t) => t,
        None => {
            return Ok(None);
        },
    };
    let p = VisionConfig::default();
    let hidden_size: usize = read_size(tower, "hidden_size", "hidden_size", p.hidden_size);
    let num_heads: usize = read_size(tower, "num_attention_heads", "num_heads", p.num_heads);
    if num_heads == 0 {
        return Err(NoHeads);
    }
    Ok(
        Some(
            VisionConfig {
                hidden_size,
                num_heads,
                head_dim: hidden_size / num_heads,
                num_layers: read_size(tower, "num_hidden_layers", "depth", p.num_layers),
                mlp_dim: read_size(tower, "intermediate_size", "intermediate_size", p.mlp_dim),
                patch_size: read_size(tower, "patch_size", "patch_size", p.patch_size),
                num_channels: read_size(tower, "num_channels", "num_channels", p.num_channels),
                num_position_embeddings: read_size(
                    tower,
                    "num_patches",
                    "num_patches",
                    p.num_position_embeddings,
                ),
                norm_eps: match json::member_double(tower, "layer_norm_eps") {
                    Some(b) => b,
                    None => p.norm_eps,
                },
                downsample_factor: pick_u64(
                    tower,
                    config,
                    "downsample_factor",
                    p.downsample_factor,
                ),
                projector_hidden_size: pick_u64(
                    tower,
                    config,
                    "projector_hidden_size",
                    p.projector_hidden_size,
                ),
                out_hidden_size: out_width(config, p.out_hidden_size),
                do_image_splitting: pick_bool(
                    tower,
                    config,
                    "do_image_splitting",
                    p.do_image_splitting,
                ),
                tile_size: pick_u64(tower, config, "tile_size", p.tile_size),
                min_tiles: pick_u64(tower, config, "min_tiles", p.min_tiles),
                max_tiles: pick_u64(tower, config, "max_tiles", p.max_tiles),
                use_thumbnail: pick_bool(tower, config, "use_thumbnail", p.use_thumbnail),
                min_image_tokens: pick_u64(
                    tower,
                    config,
                    "min_image_tokens",
                    p.min_image_tokens,
                ),
                max_image_tokens: pick_u64(
                    tower,
                    config,
                    "max_image_tokens",
                    p.max_image_tokens,
                ),
                max_pixels_tolerance: pick_double(
                    tower,
                    config,
                    "max_pixels_tolerance",
                    p.max_pixels_tolerance,
                ),
            },
        ),
    )
}

/// What a model file's metadata says of a vision tower: nothing where it is
/// no document, or of a text model.
pub fn vision_config_from_hfq(metadata_json: &str) -> (r: Result<Option<VisionConfig>, NoHeads>)
    ensures
        r == (match json_of_text(metadata_json@) {
            Some(meta) => vision_config_of(meta),
            None => Ok(None),
        }),
{
    match json::parse(metadata_json) {
        Ok(meta) => vision_config(&meta),
        Err(_) => Ok(None),
    }
}

/// A grid of whole blocks has a token for each of them; what is left over at its
/// edges has none.
pub proof fn blocks_are_tokens(cfg: VisionConfig, a: int, b: int, x: int, y: int)
    requires
        cfg.downsample_factor > 0,
        0 <= a,
        0 <= b,
        0 <= x < cfg.downsample_factor,
        0 <= y < cfg.downsample_factor,
    ensures
        cfg.grid_tokens(a * cfg.downsample_factor + x, b * cfg.downsample_factor + y) == a * b,
{
    let f = cfg.downsample_factor as int;
    vstd::arithmetic::div_mod::lemma_fundamental_div_mod_converse(a * f + x, f, a, x);
    vstd::arithmetic::div_mod::lemma_fundamental_div_mod_converse(b * f + y, f, b, y);
}

/// Without a factor every patch is a token.
pub proof fn patches_are_tokens(cfg: VisionConfig, gh: int, gw: int)
    requires
        cfg.downsample_factor == 0,
    ensures
        cfg.grid_tokens(gh, gw) == gh * gw,
{
}

/// What the tower says goes before what the checkpoint says, and that before the
/// default.
pub proof fn the_tower_goes_first(
    tower: JsonV,
    config: JsonV,
    key: Seq<char>,
    size: usize,
    truth: bool,
    double: u64,
)
    ensures
        tower.member_unsigned(key) matches Some(n) ==> picked_size(tower, config, key, size)
            == n as usize,
        tower.member_unsigned(key) is None && config.member_unsigned(key) is Some ==> picked_size(
            tower,
            config,
            key,
            size,
        ) == config.member_unsigned(key)->Some_0 as usize,
        tower.member_unsigned(key) is None && config.member_unsigned(key) is None ==> picked_size(
            tower,
            config,
            key,
            size,
        ) == size,
        tower.member_truth(key) matches Some(b) ==> picked_truth(tower, config, key, truth) == b,
        tower.member_truth(key) is None && config.member_truth(key) is Some ==> picked_truth(
            tower,
            config,
            key,
            truth,
        ) == config.member_truth(key)->Some_0,
        tower.member_truth(key) is None && config.member_truth(key) is None ==> picked_truth(
            tower,
            config,
            key,
            truth,
        ) == truth,
        tower.member_double(key) matches Some(b) ==> picked_double(tower, config, key, double)
            == b,
        tower.member_double(key) is None && config.member_double(key) is None ==> picked_double(
            tower,
            config,
            key,
            double,
        ) == double,
{
}

/// A tower whose sizes are named has each of them under its own name, and heads
/// that share its width.
pub proof fn towers_have_their_named_sizes(tower: JsonV, config: JsonV)
    ensures
        ({
            let c = tower_config(tower, config);
            let names = |k: Seq<char>, n: usize|
                tower.member_unsigned(k) matches Some(m) ==> n == m as usize;
            &&& names("hidden_size"@, c.hidden_size)
            &&& names("num_attention_heads"@, c.num_heads)
            &&& names("num_hidden_layers"@, c.num_layers)
            &&& names("intermediate_size"@, c.mlp_dim)
            &&& names("patch_size"@, c.patch_size)
            &&& names("num_channels"@, c.num_channels)
            &&& names("num_patches"@, c.num_position_embeddings)
            &&& names("downsample_factor"@, c.downsample_factor)
            &&& names("projector_hidden_size"@, c.projector_hidden_size)
            &&& names("tile_size"@, c.tile_size)
            &&& names("min_tiles"@, c.min_tiles)
            &&& names("max_tiles"@, c.max_tiles)
            &&& names("min_image_tokens"@, c.min_image_tokens)
            &&& names("max_image_tokens"@, c.max_image_tokens)
            &&& tower.member_truth("do_image_splitting"@) matches Some(b) ==> c.do_image_splitting
                == b
            &&& tower.member_truth("use_thumbnail"@) matches Some(b) ==> c.use_thumbnail == b
            &&& tower.member_double("layer_norm_eps"@) matches Some(b) ==> c.norm_eps == b
            &&& tower.member_double("max_pixels_tolerance"@) matches Some(b)
                ==> c.max_pixels_tolerance == b
            &&& c.num_heads > 0 ==> c.num_heads * c.head_dim <= c.hidden_size < c.num_heads
                * c.head_dim + c.num_heads
        }),
{
    let c = tower_config(tower, config);
    if c.num_heads > 0 {
        let (h, n) = (c.hidden_size as int, c.num_heads as int);
        vstd::arithmetic::div_mod::lemma_fundamental_div_mod(h, n);
        vstd::arithmetic::div_mod::lemma_div_pos_is_pos(h, n);
        vstd::arithmetic::div_mod::lemma_div_is_ordered_by_denominator(h, 1, n);
    }
}

/// A document of which neither the tower nor the checkpoint says anything gives
/// the published configuration.
pub proof fn silence_is_the_published_checkpoint(tower: JsonV, config: JsonV)
    requires
        forall|k: Seq<char>| (#[trigger] tower.member(k)) is None,
        forall|k: Seq<char>| (#[trigger] config.member(k)) is None,
    ensures
        tower_config(tower, config) == pinned(),
{
    assert(1152int / 16int == 72);
}

/// A document has a tower exactly where its configuration has one, and one
/// without heads is refused.
pub proof fn towers_without_heads_are_refused(meta: JsonV)
    ensures
        vision_config_of(meta) matches Ok(Some(c)) ==> c.num_heads > 0,
        meta.member("config"@) is None ==> vision_config_of(meta) == Ok::<
            Option<VisionConfig>,
            NoHeads,
        >(None),
        meta.member("config"@) is Some && meta.member("config"@)->Some_0.member("vision_config"@)
            is None ==> vision_config_of(meta) == Ok::<Option<VisionConfig>, NoHeads>(None),
        meta.member("config"@) is Some && meta.member("config"@)->Some_0.member("vision_config"@)
            is Some ==> vision_config_of(meta) is Err || vision_config_of(meta) == Ok::<
            Option<VisionConfig>,
            NoHeads,
        >(
            Some(
                tower_config(
                    meta.member("config"@)->Some_0.member("vision_config"@)->Some_0,
                    meta.member("config"@)->Some_0,
                ),
            ),
        ),
{
}

} // verus!
