//! Converting a Maple checkpoint: which tensors are packed and which are kept,
//! in which order they are written, and what the file says of itself.

use crate::binary64::{decoded, from_bits, Binary64};
use crate::dtype::{widen, widened, DType};
use crate::json;
use crate::json::{json_of, json_of_text, text_of_json, JsonNumber, JsonV};
use crate::safetensors_index::{directory_entry, is_shard, DirectoryEntry};
use crate::text;
use crate::text::{ascending, decimal, parts_view, trimmed};
use crate::turn_cache::opt_str;
use vstd::prelude::*;

verus! {

/// Maple's number among the architectures.
pub const ARCH_ID_MAPLE: u32 = 15;

/// The weights of a packed group.
pub const GROUP_SIZE: u32 = 256;

/// The tier of packed ternary weights.
pub const TERNARY_TIER: u8 = 51;

/// What becomes of a tensor, by its name.
#[derive(Debug, Clone, Copy, PartialEq, Eq, Structural)]
pub enum MapleTensorPolicy {
    /// Its weights are ternary and are packed.
    Ternary,
    /// It is kept as it is.
    KeepHighPrecision,
}

/// Running totals. The fractions are the bits of binary64 numbers that are not
/// negative.
#[derive(Debug, Clone, Copy, PartialEq, Eq, Structural)]
pub struct MapleConvertStats {
    pub ternary_tensors: usize,
    pub ternary_weights: u64,
    pub ternary_bytes: u64,
    pub high_precision_tensors: usize,
    pub high_precision_bytes: u64,
    pub min_nonzero_frac: u64,
    pub max_nonzero_frac: u64,
}

/// Totals of nothing.
pub open spec fn no_stats() -> MapleConvertStats {
    MapleConvertStats {
        ternary_tensors: 0,
        ternary_weights: 0,
        ternary_bytes: 0,
        high_precision_tensors: 0,
        high_precision_bytes: 0,
        min_nonzero_frac: 0,
        max_nonzero_frac: 0,
    }
}

impl Default for MapleConvertStats {
    fn default() -> (r: MapleConvertStats)
        ensures
            r == no_stats(),
    {
        MapleConvertStats {
            ternary_tensors: 0,
            ternary_weights: 0,
            ternary_bytes: 0,
            high_precision_tensors: 0,
            high_precision_bytes: 0,
            min_nonzero_frac: 0,
            max_nonzero_frac: 0,
        }
    }
}

/// A tensor as it is written. Its bytes may have been set aside; `spilled_len`
/// is then their number.
#[derive(Debug, PartialEq, Eq)]
pub struct HfqTensor {
    pub name: String,
    pub quant_type: DType,
    pub shape: Vec<u32>,
    pub group_size: u32,
    pub data: Vec<u8>,
    pub spilled_len: u64,
}

/// What a tensor holds.
pub struct HfqTensorV {
    pub name: Seq<char>,
    pub quant_type: DType,
    pub shape: Seq<u32>,
    pub group_size: u32,
    pub data: Seq<u8>,
    pub spilled_len: u64,
}

impl View for HfqTensor {
    type V = HfqTensorV;

    open spec fn view(&self) -> HfqTensorV {
        HfqTensorV {
            name: self.name@,
            quant_type: self.quant_type,
            shape: self.shape@,
            group_size: self.group_size,
            data: self.data@,
            spilled_len: self.spilled_len,
        }
    }
}

/// A shape as the file writes it.
pub open spec fn file_shape(shape: Seq<usize>) -> Seq<u32> {
    shape.map_values(|d: usize| d as u32)
}

/// The bits of the 32-bit floats that a blob of brain floats widens to.
pub fn bf16_blob_to_f32(bytes: &Vec<u8>) -> (r: Result<Vec<u32>, String>)
    ensures
        match r {
            Ok(v) => bytes@.len() % 2 == 0 && v@ == widened(bytes@),
            Err(e) => bytes@.len() % 2 != 0 && e@ == "BF16 blob length "@ + decimal(bytes@.len())
                + " is odd"@,
        },
{
    let n: usize = bytes.len();
    if n % 2 != 0 {
        let mut s = "BF16 blob length ".to_owned();
        text::push_decimal(&mut s, n);
        s.append(" is odd");
        return Err(s);
    }
    Ok(widen(bytes))
}

/// What is to be done with a tensor.
#[derive(Debug, PartialEq, Eq)]
pub enum Conversion {
    /// Its weights are packed along rows of `k`.
    Pack { k: usize, weights: Vec<u32> },
    /// It is written as it is.
    Keep(HfqTensor),
}

/// Why a tensor cannot be converted; nothing where it can, as far as its
/// header and its length tell.
pub open spec fn conversion_refusal(
    name: Seq<char>,
    dtype: Seq<char>,
    shape: Seq<usize>,
    bytes: Seq<u8>,
    policy: MapleTensorPolicy,
) -> Option<Seq<char>> {
    if dtype != "BF16"@ {
        Some(
            name + ": expected BF16 (Maple publishes dequantized bf16 masters), got "@ + dtype,
        )
    } else if policy == MapleTensorPolicy::Ternary && shape.len() == 0 {
        Some(name + ": ternary tensor has no dimensions"@)
    } else if policy == MapleTensorPolicy::Ternary && bytes.len() % 2 != 0 {
        Some("BF16 blob length "@ + decimal(bytes.len()) + " is odd"@)
    } else {
        None
    }
}

fn shape_of(shape: &Vec<usize>) -> (out: Vec<u32>)
    ensures
        out@ == file_shape(shape@),
{
    let mut out: Vec<u32> = Vec::new();
    let mut i: usize = 0;
    while i < shape.len()
        invariant
            i <= shape@.len(),
            out@ == file_shape(shape@.subrange(0, i as int)),
        decreases shape@.len() - i,
    {
        out.push(shape[i] as u32);
        i = i + 1;
        assert(out@ =~= file_shape(shape@.subrange(0, i as int)));
    }
    assert(shape@.subrange(0, i as int) =~= shape@);
    out
}

/// Begins converting a tensor: what is packed is handed out, what is kept is
/// counted and done.
pub fn convert_tensor(
    name: &str,
    dtype: &str,
    shape: &Vec<usize>,
    bytes: &Vec<u8>,
    policy: MapleTensorPolicy,
    stats: &mut MapleConvertStats,
) -> (r: Result<Conversion, String>)
    requires
        old(stats).high_precision_tensors < usize::MAX,
        old(stats).high_precision_bytes + bytes@.len() <= u64::MAX,
    ensures
        match r {
            Err(e) => conversion_refusal(name@, dtype@, shape@, bytes@, policy) == Some(e@)
                && *final(stats) == *old(stats),
            Ok(Conversion::Pack { k, weights }) => {
                &&& conversion_refusal(name@, dtype@, shape@, bytes@, policy) is None
                &&& policy == MapleTensorPolicy::Ternary
                &&& k == shape@.last()
                &&& weights@ == widened(bytes@)
                &&& *final(stats) == *old(stats)
            },
            Ok(Conversion::Keep(t)) => {
                &&& conversion_refusal(name@, dtype@, shape@, bytes@, policy) is None
                &&& policy == MapleTensorPolicy::KeepHighPrecision
                &&& t@ == (HfqTensorV {
                    name: name@,
                    quant_type: DType::BF16,
                    shape: file_shape(shape@),
                    group_size: 1,
                    data: bytes@,
                    spilled_len: 0,
                })
                &&& *final(stats) == (MapleConvertStats {
                    high_precision_tensors: (old(stats).high_precision_tensors + 1) as usize,
                    high_precision_bytes: (old(stats).high_precision_bytes + bytes@.len()) as u64,
                    ..*old(stats)
                })
            },
        },
{
    if !text::same(dtype, "BF16") {
        let mut s = name.to_owned();
        s.append(": expected BF16 (Maple publishes dequantized bf16 masters), got ");
        s.append(dtype);
        return Err(s);
    }
    match policy {
        MapleTensorPolicy::Ternary => {
            let rank: usize = shape.len();
            if rank == 0 {
                let mut s = name.to_owned();
                s.append(": ternary tensor has no dimensions");
                return Err(s);
            }
            match bf16_blob_to_f32(bytes) {
                Ok(weights) => Ok(Conversion::Pack { k: shape[rank - 1], weights }),
                Err(e) => Err(e),
            }
        },
        MapleTensorPolicy::KeepHighPrecision => {
            stats.high_precision_tensors = stats.high_precision_tensors + 1;
            stats.high_precision_bytes = stats.high_precision_bytes + bytes.len() as u64;
            let mut data: Vec<u8> = Vec::new();
            data.extend_from_slice(bytes.as_slice());
            assert(data@ =~= bytes@);
            Ok(
                Conversion::Keep(
                    HfqTensor {
                        name: name.to_owned(),
                        quant_type: DType::BF16,
                        shape: shape_of(shape),
                        group_size: 1,
                        data,
                        spilled_len: 0,
                    },
                ),
            )
        },
    }
}

/// The lesser of two fractions; what is no number is passed over.
pub open spec fn lesser_fraction(a: u64, b: u64) -> u64 {
    if decoded(a) is Nan || decoded(b).below(decoded(a)) {
        b
    } else {
        a
    }
}

/// The greater of two fractions; what is no number is passed over.
pub open spec fn greater_fraction(a: u64, b: u64) -> u64 {
    if decoded(a) is Nan || decoded(a).below(decoded(b)) {
        b
    } else {
        a
    }
}

fn lesser_bits(a: u64, b: u64) -> (r: u64)
    ensures
        r == lesser_fraction(a, b),
{
    let x = from_bits(a).size;
    let y = from_bits(b).size;
    match x {
        Binary64::Nan => b,
        _ => if y.below(x) {
            b
        } else {
            a
        },
    }
}

fn greater_bits(a: u64, b: u64) -> (r: u64)
    ensures
        r == greater_fraction(a, b),
{
    let x = from_bits(a).size;
    let y = from_bits(b).size;
    match x {
        Binary64::Nan => b,
        _ => if x.below(y) {
            b
        } else {
            a
        },
    }
}

/// Totals with one packed tensor more.
pub open spec fn with_packed(
    stats: MapleConvertStats,
    weights: int,
    bytes: int,
    nonzero_frac: u64,
) -> MapleConvertStats {
    MapleConvertStats {
        ternary_tensors: (stats.ternary_tensors + 1) as usize,
        ternary_weights: (stats.ternary_weights + weights) as u64,
        ternary_bytes: (stats.ternary_bytes + bytes) as u64,
        min_nonzero_frac: if stats.ternary_tensors == 0 {
            nonzero_frac
        } else {
            lesser_fraction(stats.min_nonzero_frac, nonzero_frac)
        },
        max_nonzero_frac: if stats.ternary_tensors == 0 {
            nonzero_frac
        } else {
            greater_fraction(stats.max_nonzero_frac, nonzero_frac)
        },
        ..stats
    }
}

/// Ends converting a tensor whose packing gave `packed`: its bytes and the
/// fraction of its weights that are not zero, or why it cannot be packed. Such
/// a tensor ends the conversion; nothing lossy is written in its place.
pub fn finish_packed(
    name: &str,
    shape: &Vec<usize>,
    n_weights: usize,
    packed: Result<(Vec<u8>, u64), String>,
    stats: &mut MapleConvertStats,
) -> (r: Result<HfqTensor, String>)
    requires
        old(stats).ternary_tensors < usize::MAX,
        old(stats).ternary_weights + n_weights <= u64::MAX,
        packed matches Ok(p) ==> old(stats).ternary_bytes + p.0@.len() <= u64::MAX,
    ensures
        match (packed, r) {
            (Ok(p), Ok(t)) => {
                &&& t@ == (HfqTensorV {
                    name: name@,
                    quant_type: DType::MQ2G256LloydU,
                    shape: file_shape(shape@),
                    group_size: GROUP_SIZE,
                    data: p.0@,
                    spilled_len: 0,
                })
                &&& *final(stats) == with_packed(
                    *old(stats),
                    n_weights as int,
                    p.0@.len() as int,
                    p.1,
                )
            },
            (Err(why), Err(e)) => e@ == name@ + ": "@ + why@ && *final(stats) == *old(stats),
            _ => false,
        },
{
    let (data, nonzero_frac) = match packed {
        Ok(p) => p,
        Err(why) => {
            let mut s = name.to_owned();
            s.append(": ");
            s.append(why.as_str());
            return Err(s);
        },
    };
    let first: bool = stats.ternary_tensors == 0;
    stats.ternary_tensors = stats.ternary_tensors + 1;
    stats.ternary_weights = stats.ternary_weights + n_weights as u64;
    stats.ternary_bytes = stats.ternary_bytes + data.len() as u64;
    if first {
        stats.min_nonzero_frac = nonzero_frac;
        stats.max_nonzero_frac = nonzero_frac;
    } else {
        stats.min_nonzero_frac = lesser_bits(stats.min_nonzero_frac, nonzero_frac);
        stats.max_nonzero_frac = greater_bits(stats.max_nonzero_frac, nonzero_frac);
    }
    Ok(
        HfqTensor {
            name: name.to_owned(),
            quant_type: DType::MQ2G256LloydU,
            shape: shape_of(shape),
            group_size: GROUP_SIZE,
            data,
            spilled_len: 0,
        },
    )
}

/// The shards of a directory by ascending names; an error's text where there
/// are none.
pub fn shard_paths(dir: &str, names: &Vec<String>) -> (r: Result<Vec<String>, String>)
    ensures
        match r {
            Ok(shards) => {
                &&& shards@.len() > 0
                &&& ascending(parts_view(shards@))
                &&& forall|x: Seq<char>|
                    #![trigger parts_view(shards@).contains(x)]
                    parts_view(shards@).contains(x) <==> parts_view(names@).contains(x)
                        && is_shard(x)
            },
            Err(e) => {
                &&& forall|i: int| 0 <= i < names@.len() ==> !is_shard((#[trigger] names@[i])@)
                &&& e@ == "no .safetensors files in "@ + dir@
                    + " — point --input at the model directory"@
            },
        },
{
    let mut shards: Vec<String> = Vec::new();
    let mut i: usize = 0;
    let ghost all = parts_view(names@);
    while i < names.len()
        invariant
            i <= names@.len(),
            all == parts_view(names@),
            ascending(parts_view(shards@)),
            forall|x: Seq<char>|
                #![trigger parts_view(shards@).contains(x)]
                parts_view(shards@).contains(x) <==> all.subrange(0, i as int).contains(x)
                    && is_shard(x),
        decreases names@.len() - i,
    {
        let ghost before = parts_view(shards@);
        let name = names[i].as_str();
        if directory_entry(name, true) == DirectoryEntry::Shard {
            text::insert_ascending(&mut shards, name);
        }
        proof {
            let pre = all.subrange(0, i as int);
            let next = all.subrange(0, i + 1);
            assert(next =~= pre.push(name@));
            assert forall|x: Seq<char>| next.contains(x) <==> (pre.contains(x) || x == name@) by {
                assert(next[i as int] == name@);
                if pre.contains(x) {
                    let k = choose|k: int| 0 <= k < pre.len() && pre[k] == x;
                    assert(next[k] == x);
                }
                if next.contains(x) {
                    let k = choose|k: int| 0 <= k < next.len() && next[k] == x;
                    if k < i {
                        assert(pre[k] == x);
                    }
                }
            }
        }
        i = i + 1;
    }
    assert(all.subrange(0, i as int) =~= all);
    if shards.len() == 0 {
        proof {
            assert forall|k: int| 0 <= k < names@.len() implies !is_shard((#[trigger] names@[k])@)
                by {
                assert(all[k] == names@[k]@);
                assert(all.contains(all[k]));
                if is_shard(all[k]) {
                    assert(parts_view(shards@).contains(all[k]));
                }
            }
        }
        let mut s = "no .safetensors files in ".to_owned();
        s.append(dir);
        s.append(" — point --input at the model directory");
        return Err(s);
    }
    Ok(shards)
}

/// The tensors that were converted, in the order in which their bytes were set
/// aside.
#[derive(Debug, PartialEq, Eq)]
pub struct MapleConvert {
    pub tensors: Vec<HfqTensor>,
    pub stats: MapleConvertStats,
}

/// The names of some tensors.
pub open spec fn names_of(tensors: Seq<HfqTensor>) -> Seq<Seq<char>> {
    tensors.map_values(|t: HfqTensor| t.name@)
}

impl MapleConvert {
    /// No tensor occurs twice.
    pub open spec fn wf(&self) -> bool {
        names_of(self.tensors@).no_duplicates()
    }

    /// Nothing is converted yet.
    pub fn new() -> (r: MapleConvert)
        ensures
            r.wf(),
            r.tensors@.len() == 0,
            r.stats == no_stats(),
    {
        MapleConvert { tensors: Vec::new(), stats: MapleConvertStats::default() }
    }

    /// Adds a tensor behind the others, once its bytes are set aside. A tensor
    /// that is there already ends the conversion.
    pub fn spilled(&mut self, tensor: HfqTensor) -> (r: Result<(), String>)
        requires
            old(self).wf(),
        ensures
            final(self).wf(),
            final(self).stats == old(self).stats,
            match r {
                Ok(_) => {
                    &&& !names_of(old(self).tensors@).contains(tensor.name@)
                    &&& final(self).tensors@.len() == old(self).tensors@.len() + 1
                    &&& final(self).tensors@.drop_last() == old(self).tensors@
                    &&& final(self).tensors@.last()@ == (HfqTensorV {
                        data: Seq::empty(),
                        spilled_len: tensor.data@.len() as u64,
                        ..tensor@
                    })
                },
                Err(e) => {
                    &&& names_of(old(self).tensors@).contains(tensor.name@)
                    &&& final(self).tensors == old(self).tensors
                    &&& e@ == tensor.name@ + ": duplicate tensor across shards"@
                },
            },
    {
        let mut i: usize = 0;
        while i < self.tensors.len()
            invariant
                i <= self.tensors@.len(),
                *self == *old(self),
                self.wf(),
                forall|k: int| 0 <= k < i ==> (#[trigger] self.tensors@[k]).name@ != tensor.name@,
            decreases self.tensors@.len() - i,
        {
            if text::same(self.tensors[i].name.as_str(), tensor.name.as_str()) {
                assert(names_of(self.tensors@)[i as int] == tensor.name@);
                let mut s = tensor.name.clone();
                s.append(": duplicate tensor across shards");
                return Err(s);
            }
            i = i + 1;
        }
        let len: u64 = tensor.data.len() as u64;
        let ghost before = self.tensors@;
        self.tensors.push(
            HfqTensor {
                name: tensor.name,
                quant_type: tensor.quant_type,
                shape: tensor.shape,
                group_size: tensor.group_size,
                data: Vec::new(),
                spilled_len: len,
            },
        );
        proof {
            let names = names_of(before);
            let after = names_of(self.tensors@);
            assert(after =~= names.push(tensor.name@));
            assert(self.tensors@.drop_last() =~= before);
            assert forall|k: int| 0 <= k < names.len() implies names[k] != tensor.name@ by {
                assert(before[k].name@ == names[k]);
            }
            assert(self.tensors@.last()@.data =~= Seq::<u8>::empty());
        }
        Ok(())
    }

    /// Whether what was converted is a Maple checkpoint: some of its tensors
    /// were packed.
    pub fn finish(&self) -> (r: Result<(), String>)
        ensures
            match r {
                Ok(_) => self.stats.ternary_tensors > 0,
                Err(e) => self.stats.ternary_tensors == 0 && e@
                    == "no ternary tensors found — this does not look like a Maple checkpoint"@,
            },
    {
        if self.stats.ternary_tensors == 0 {
            return Err(
                "no ternary tensors found — this does not look like a Maple checkpoint".to_owned(),
            );
        }
        Ok(())
    }
}

/// The bytes that were set aside, of all tensors in order.
pub open spec fn set_aside(blobs: Seq<Seq<u8>>) -> Seq<u8>
    decreases blobs.len(),
{
    if blobs.len() == 0 {
        Seq::empty()
    } else {
        set_aside(blobs.drop_last()) + blobs.last()
    }
}

/// Where the bytes of a tensor begin among those set aside: behind those of the
/// tensors before it.
pub open spec fn begins_at(lens: Seq<nat>, i: int) -> nat
    decreases i,
{
    if i <= 0 {
        0
    } else {
        begins_at(lens, i - 1) + lens[i - 1]
    }
}

/// Reading what was set aside in the order of the tensors, as many bytes as
/// each of them has, gives each tensor its own bytes.
pub proof fn each_tensor_reads_its_own_bytes(blobs: Seq<Seq<u8>>, lens: Seq<nat>, i: int)
    requires
        lens.len() == blobs.len(),
        forall|k: int| 0 <= k < blobs.len() ==> #[trigger] lens[k] == blobs[k].len(),
        0 <= i < blobs.len(),
    ensures
        begins_at(lens, i) + lens[i] <= set_aside(blobs).len(),
        set_aside(blobs).subrange(
            begins_at(lens, i) as int,
            (begins_at(lens, i) + lens[i]) as int,
        ) == blobs[i],
    decreases blobs.len(),
{
    let rest = blobs.drop_last();
    let short = lens.drop_last();
    assert(lens[i] == blobs[i].len());
    if i < rest.len() {
        each_tensor_reads_its_own_bytes(rest, short, i);
        begins_alike(lens, i);
        let from = begins_at(lens, i) as int;
        assert(set_aside(blobs).subrange(from, from + lens[i]) =~= set_aside(rest).subrange(
            from,
            from + lens[i],
        ));
    } else {
        begins_alike(lens, i);
        ends_at_length(rest, short);
        let from = begins_at(lens, i) as int;
        assert(set_aside(blobs).subrange(from, from + lens[i]) =~= blobs[i]);
    }
}

proof fn begins_alike(lens: Seq<nat>, i: int)
    requires
        0 <= i < lens.len(),
    ensures
        begins_at(lens.drop_last(), i) == begins_at(lens, i),
    decreases i,
{
    if i > 0 {
        begins_alike(lens, i - 1);
        assert(lens.drop_last()[i - 1] == lens[i - 1]);
    }
}

proof fn ends_at_length(blobs: Seq<Seq<u8>>, lens: Seq<nat>)
    requires
        lens.len() == blobs.len(),
        forall|k: int| 0 <= k < blobs.len() ==> #[trigger] lens[k] == blobs[k].len(),
    ensures
        begins_at(lens, lens.len() as int) == set_aside(blobs).len(),
    decreases blobs.len(),
{
    if blobs.len() > 0 {
        let n = lens.len() as int;
        ends_at_length(blobs.drop_last(), lens.drop_last());
        begins_alike(lens, n - 1);
        assert(lens[n - 1] == blobs[n - 1].len());
    }
}

/// What lies beside a checkpoint's weights, as far as it could be read.
#[derive(Debug, PartialEq, Eq)]
pub struct Sidecars<'a> {
    pub tokenizer: Option<&'a str>,
    pub tokenizer_config: Option<&'a str>,
    pub generation_config: Option<&'a str>,
    pub chat_template: Option<&'a str>,
}

/// The document that a text writes, where there is one.
pub open spec fn document(t: Option<Seq<char>>) -> Option<JsonV> {
    match t {
        Some(s) => json_of_text(s),
        None => None,
    }
}

/// A document, or nothing.
pub open spec fn or_null(d: Option<JsonV>) -> JsonV {
    match d {
        Some(j) => j,
        None => JsonV::Null,
    }
}

/// A tokenizer's configuration with the chat template that lies beside it,
/// where it has none of its own.
pub open spec fn with_template(config: Option<JsonV>, template: Option<Seq<char>>) -> Option<
    JsonV,
> {
    let has_template = config matches Some(c) && (c.member("chat_template"@) matches Some(t) && t
        !is Null);
    match template {
        Some(t) => if has_template {
            config
        } else {
            match config {
                None => Some(
                    JsonV::Object(Map::empty().insert("chat_template"@, JsonV::Str(t))),
                ),
                Some(JsonV::Object(m)) => Some(
                    JsonV::Object(m.insert("chat_template"@, JsonV::Str(t))),
                ),
                Some(other) => Some(other),
            }
        },
        None => config,
    }
}

/// Where the packed weights come from. `low` and `high` stand for the totals'
/// least and greatest fraction.
pub open spec fn provenance(stats: MapleConvertStats, low: JsonV, high: JsonV) -> JsonV {
    JsonV::Object(
        Map::empty().insert("carrier"@, JsonV::Str("MQ2G256LloydU"@)).insert(
            "quant_type"@,
            JsonV::Number(JsonNumber::Unsigned(TERNARY_TIER as u64)),
        ).insert("exact"@, JsonV::Bool(true)).insert("rotation"@, JsonV::Str("none"@)).insert(
            "ternary_tensors"@,
            JsonV::Number(JsonNumber::Unsigned(stats.ternary_tensors as u64)),
        ).insert(
            "ternary_weights"@,
            JsonV::Number(JsonNumber::Unsigned(stats.ternary_weights)),
        ).insert("nonzero_frac_min"@, low).insert("nonzero_frac_max"@, high),
    )
}

/// What the file says of itself: an envelope around the checkpoint's
/// configuration. The tokenizer is a text in it, not a document.
pub open spec fn envelope(
    config: JsonV,
    tokenizer: Option<Seq<char>>,
    tokenizer_config: Option<JsonV>,
    generation_config: Option<JsonV>,
    provenance: JsonV,
) -> JsonV {
    JsonV::Object(
        Map::empty().insert("architecture"@, JsonV::Str("maple"@)).insert("config"@, config).insert(
            "tokenizer"@,
            JsonV::Str(
                match tokenizer {
                    Some(t) => t,
                    None => "{}"@,
                },
            ),
        ).insert("tokenizer_config"@, or_null(tokenizer_config)).insert(
            "generation_config"@,
            or_null(generation_config),
        ).insert("hipfire_maple_provenance"@, provenance),
    )
}

/// A checkpoint's configuration: an empty one where its text is blank.
pub open spec fn config_of(text: Seq<char>) -> Option<JsonV> {
    if trimmed(text).len() == 0 {
        Some(JsonV::Object(Map::empty()))
    } else {
        json_of_text(text)
    }
}

fn read_json(t: Option<&str>) -> (r: Option<serde_json::Value>)
    ensures
        match r {
            Some(v) => document(opt_str(t)) == Some(json_of(v)),
            None => document(opt_str(t)) is None,
        },
{
    match t {
        Some(s) => match json::parse(s) {
            Ok(v) => Some(v),
            Err(_) => None,
        },
        None => None,
    }
}

fn value_or_null(v: Option<serde_json::Value>) -> (r: serde_json::Value)
    ensures
        json_of(r) == (match v {
            Some(j) => json_of(j),
            None => JsonV::Null,
        }),
{
    match v {
        Some(j) => j,
        None => json::null(),
    }
}

fn fold_template(config: Option<serde_json::Value>, template: Option<&str>) -> (r: Option<
    serde_json::Value,
>)
    ensures
        ({
            let before = match config {
                Some(c) => Some(json_of(c)),
                None => None,
            };
            match r {
                Some(v) => with_template(before, opt_str(template)) == Some(json_of(v)),
                None => with_template(before, opt_str(template)) is None,
            }
        }),
{
    let t = match template {
        Some(t) => t,
        None => {
            return config;
        },
    };
    match config {
        Some(c) => {
            let own: bool = match json::get(&c, "chat_template") {
                Some(v) => !json::is_null(v),
                None => false,
            };
            if own {
                return Some(c);
            }
            let mut c = c;
            json::insert(&mut c, "chat_template", json::string(t));
            Some(c)
        },
        None => {
            let mut c = json::empty_object();
            json::insert(&mut c, "chat_template", json::string(t));
            Some(c)
        },
    }
}

fn provenance_value(
    stats: &MapleConvertStats,
    low: serde_json::Value,
    high: serde_json::Value,
) -> (r: serde_json::Value)
    ensures
        json_of(r) == provenance(*stats, json_of(low), json_of(high)),
{
    let mut v = json::empty_object();
    json::insert(&mut v, "carrier", json::string("MQ2G256LloydU"));
    json::insert(&mut v, "quant_type", json::integer(TERNARY_TIER as u64));
    json::insert(&mut v, "exact", json::truth_value(true));
    json::insert(&mut v, "rotation", json::string("none"));
    json::insert(&mut v, "ternary_tensors", json::integer(stats.ternary_tensors as u64));
    json::insert(&mut v, "ternary_weights", json::integer(stats.ternary_weights));
    json::insert(&mut v, "nonzero_frac_min", low);
    json::insert(&mut v, "nonzero_frac_max", high);
    v
}

/// Why a file's metadata cannot be written: the checkpoint's configuration is
/// no document.
#[derive(Debug)]
pub struct ConfigFault(pub serde_json::Error);

/// What the file says of itself, as a document. `low` and `high` are the least
/// and the greatest fraction of weights that are not zero.
pub fn metadata_value(
    config_json: &str,
    sidecars: &Sidecars,
    stats: &MapleConvertStats,
    low: serde_json::Value,
    high: serde_json::Value,
) -> (r: Result<serde_json::Value, ConfigFault>)
    ensures
        match r {
            Ok(v) => config_of(config_json@) is Some && json_of(v) == envelope(
                config_of(config_json@)->Some_0,
                opt_str(sidecars.tokenizer),
                with_template(
                    document(opt_str(sidecars.tokenizer_config)),
                    opt_str(sidecars.chat_template),
                ),
                document(opt_str(sidecars.generation_config)),
                provenance(*stats, json_of(low), json_of(high)),
            ),
            Err(_) => config_of(config_json@) is None,
        },
{
    let blank = text::trim(config_json);
    let config: serde_json::Value = if text::chars_of(blank.as_str()).len() == 0 {
        json::empty_object()
    } else {
        match json::parse(config_json) {
            Ok(v) => v,
            Err(e) => {
                return Err(ConfigFault(e));
            },
        }
    };
    let tokenizer_config = fold_template(
        read_json(sidecars.tokenizer_config),
        sidecars.chat_template,
    );
    let generation_config = read_json(sidecars.generation_config);
    let tokenizer = match sidecars.tokenizer {
        Some(t) => json::string(t),
        None => json::string("{}"),
    };
    let stamp = provenance_value(stats, low, high);
    let mut v = json::empty_object();
    json::insert(&mut v, "architecture", json::string("maple"));
    json::insert(&mut v, "config", config);
    json::insert(&mut v, "tokenizer", tokenizer);
    json::insert(&mut v, "tokenizer_config", value_or_null(tokenizer_config));
    json::insert(&mut v, "generation_config", value_or_null(generation_config));
    json::insert(&mut v, "hipfire_maple_provenance", stamp);
    Ok(v)
}

/// What the file says of itself, as it is written.
pub fn build_metadata(
    config_json: &str,
    sidecars: &Sidecars,
    stats: &MapleConvertStats,
    low: serde_json::Value,
    high: serde_json::Value,
) -> (r: Result<String, ConfigFault>)
    ensures
        match r {
            Ok(s) => config_of(config_json@) is Some && s@ == text_of_json(
                envelope(
                    config_of(config_json@)->Some_0,
                    opt_str(sidecars.tokenizer),
                    with_template(
                        document(opt_str(sidecars.tokenizer_config)),
                        opt_str(sidecars.chat_template),
                    ),
                    document(opt_str(sidecars.generation_config)),
                    provenance(*stats, json_of(low), json_of(high)),
                ),
            ),
            Err(_) => config_of(config_json@) is None,
        },
{
    match metadata_value(config_json, sidecars, stats, low, high) {
        Ok(v) => match json::write(&v) {
            Ok(s) => Ok(s),
            Err(e) => Err(ConfigFault(e)),
        },
        Err(e) => Err(e),
    }
}

/// A checkpoint's own chat template stays, whatever lies beside it.
pub proof fn own_template_stays(
    m: Map<Seq<char>, JsonV>,
    own: Seq<char>,
    template: Option<Seq<char>>,
)
    requires
        m.dom().contains("chat_template"@),
        m["chat_template"@] == JsonV::Str(own),
    ensures
        with_template(Some(JsonV::Object(m)), template) == Some(JsonV::Object(m)),
{
}

/// Without a chat template beside it a configuration gets none.
pub proof fn no_template_is_made_up(config: Option<JsonV>)
    ensures
        with_template(config, None) == config,
{
}

/// A tensor can be converted exactly where it is of brain floats and, where its
/// weights are to be packed, has rows and whole floats.
pub proof fn only_brain_floats_are_converted(
    name: Seq<char>,
    dtype: Seq<char>,
    shape: Seq<usize>,
    bytes: Seq<u8>,
)
    ensures
        conversion_refusal(name, dtype, shape, bytes, MapleTensorPolicy::KeepHighPrecision) is None
            <==> dtype == "BF16"@,
        conversion_refusal(name, dtype, shape, bytes, MapleTensorPolicy::Ternary) is None <==> dtype
            == "BF16"@ && shape.len() > 0 && widened(bytes).len() * 2 == bytes.len(),
{
}

/// The lesser and the greater of two fractions are these two, neither is less
/// than the lesser or greater than the greater, and what is no number gives way.
pub proof fn fractions_are_bounds(a: u64, b: u64)
    ensures
        ({
            let (low, high) = (lesser_fraction(a, b), greater_fraction(a, b));
            &&& low == a || low == b
            &&& high == a || high == b
            &&& !decoded(a).below(decoded(low)) && !decoded(b).below(decoded(low))
            &&& !decoded(high).below(decoded(a)) && !decoded(high).below(decoded(b))
            &&& decoded(a) !is Nan || decoded(b) !is Nan ==> decoded(low) !is Nan && decoded(high)
                !is Nan
        }),
{
    below_is_one_way(a, b);
    below_is_one_way(a, a);
    below_is_one_way(b, b);
}

proof fn below_is_one_way(a: u64, b: u64)
    ensures
        decoded(a).below(decoded(b)) ==> !decoded(b).below(decoded(a)),
{
}

/// The totals of packed tensors do not depend on their order, and count each
/// tensor, its weights and its bytes.
pub proof fn totals_add_up(
    stats: MapleConvertStats,
    w: int,
    n: int,
    f: u64,
    v: int,
    m: int,
    g: u64,
)
    requires
        0 <= w && 0 <= n && 0 <= v && 0 <= m,
        stats.ternary_tensors + 2 <= usize::MAX,
        stats.ternary_weights + w + v <= u64::MAX,
        stats.ternary_bytes + n + m <= u64::MAX,
    ensures
        ({
            let both = with_packed(with_packed(stats, w, n, f), v, m, g);
            let turned = with_packed(with_packed(stats, v, m, g), w, n, f);
            &&& both.ternary_tensors == stats.ternary_tensors + 2
            &&& both.ternary_weights == stats.ternary_weights + w + v
            &&& both.ternary_bytes == stats.ternary_bytes + n + m
            &&& turned.ternary_tensors == both.ternary_tensors
            &&& turned.ternary_weights == both.ternary_weights
            &&& turned.ternary_bytes == both.ternary_bytes
            &&& both.high_precision_tensors == stats.high_precision_tensors
            &&& both.high_precision_bytes == stats.high_precision_bytes
        }),
{
}

/// The bounds of the fractions hold every packed tensor's: of two, none is below
/// the least or above the greatest.
pub proof fn fractions_are_within_their_bounds(w: int, n: int, f: u64, v: int, m: int, g: u64)
    ensures
        ({
            let both = with_packed(with_packed(no_stats(), w, n, f), v, m, g);
            let (low, high) = (both.min_nonzero_frac, both.max_nonzero_frac);
            &&& low == f || low == g
            &&& high == f || high == g
            &&& !decoded(f).below(decoded(low)) && !decoded(g).below(decoded(low))
            &&& !decoded(high).below(decoded(f)) && !decoded(high).below(decoded(g))
        }),
{
    fractions_are_bounds(f, g);
}

/// A configuration without a template of its own gets the one that lies beside it
/// and keeps all else; what is no object stays as it is.
pub proof fn a_missing_template_is_filled_in(m: Map<Seq<char>, JsonV>, t: Seq<char>, key: Seq<char>)
    requires
        !m.dom().contains("chat_template"@) || m["chat_template"@] is Null,
    ensures
        with_template(Some(JsonV::Object(m)), Some(t)) matches Some(c) && {
            &&& c.member_text("chat_template"@) == Some(t)
            &&& key != "chat_template"@ ==> c.member(key) == JsonV::Object(m).member(key)
        },
        with_template(None, Some(t)) matches Some(c) && {
            &&& c.member_text("chat_template"@) == Some(t)
            &&& key != "chat_template"@ ==> c.member(key) is None
        },
{
}

/// The envelope holds each part under its own name; what is not there is null,
/// and a tokenizer that is not there is an empty document's text.
pub proof fn the_envelope_holds_its_parts(
    config: JsonV,
    tokenizer: Option<Seq<char>>,
    tokenizer_config: Option<JsonV>,
    generation_config: Option<JsonV>,
    origin: JsonV,
)
    ensures
        ({
            let e = envelope(config, tokenizer, tokenizer_config, generation_config, origin);
            &&& e.member_text("architecture"@) == Some("maple"@)
            &&& e.member("config"@) == Some(config)
            &&& tokenizer matches Some(t) ==> e.member_text("tokenizer"@) == Some(t)
            &&& tokenizer is None ==> e.member_text("tokenizer"@) == Some("{}"@)
            &&& tokenizer_config matches Some(c) ==> e.member("tokenizer_config"@) == Some(c)
            &&& tokenizer_config is None ==> e.member("tokenizer_config"@) == Some(JsonV::Null)
            &&& generation_config matches Some(c) ==> e.member("generation_config"@) == Some(c)
            &&& generation_config is None ==> e.member("generation_config"@) == Some(JsonV::Null)
            &&& e.member("hipfire_maple_provenance"@) == Some(origin)
        }),
{
    reveal_strlit("architecture");
    reveal_strlit("config");
    reveal_strlit("tokenizer");
    reveal_strlit("tokenizer_config");
    reveal_strlit("generation_config");
    reveal_strlit("hipfire_maple_provenance");
    assert("architecture"@.len() == 12 && "config"@.len() == 6 && "tokenizer"@.len() == 9
        && "tokenizer_config"@.len() == 16 && "generation_config"@.len() == 17
        && "hipfire_maple_provenance"@.len() == 24);
}

/// The provenance names the carrier and its tier, says that nothing was lost or
/// rotated, and gives the totals and the bounds under their own names.
pub proof fn the_provenance_gives_the_totals(stats: MapleConvertStats, low: JsonV, high: JsonV)
    ensures
        ({
            let p = provenance(stats, low, high);
            &&& p.member_text("carrier"@) == Some(DType::MQ2G256LloydU.text())
            &&& p.member_unsigned("quant_type"@) == Some(TERNARY_TIER as u64)
            &&& p.member_truth("exact"@) == Some(true)
            &&& p.member_text("rotation"@) == Some("none"@)
            &&& p.member_unsigned("ternary_tensors"@) == Some(stats.ternary_tensors as u64)
            &&& p.member_unsigned("ternary_weights"@) == Some(stats.ternary_weights)
            &&& p.member("nonzero_frac_min"@) == Some(low)
            &&& p.member("nonzero_frac_max"@) == Some(high)
        }),
{
    reveal_strlit("carrier");
    reveal_strlit("quant_type");
    reveal_strlit("exact");
    reveal_strlit("rotation");
    reveal_strlit("ternary_tensors");
    reveal_strlit("ternary_weights");
    reveal_strlit("nonzero_frac_min");
    reveal_strlit("nonzero_frac_max");
    assert("carrier"@.len() == 7 && "quant_type"@.len() == 10 && "exact"@.len() == 5
        && "rotation"@.len() == 8 && "ternary_tensors"@.len() == 15 && "ternary_weights"@.len()
        == 15 && "nonzero_frac_min"@.len() == 16 && "nonzero_frac_max"@.len() == 16);
    assert("ternary_tensors"@[8] == 't' && "ternary_weights"@[8] == 'w');
    assert("nonzero_frac_min"@[14] == 'i' && "nonzero_frac_max"@[14] == 'a');
}

/// A configuration of white space alone is an empty one.
pub proof fn blank_configurations_are_empty(s: Seq<char>)
    requires
        forall|i: int| 0 <= i < s.len() ==> crate::text::is_white(#[trigger] s[i]),
    ensures
        config_of(s) == Some(JsonV::Object(Map::empty())),
{
    let (a, b) = crate::text::trimming_takes_white_ends(s);
    let t = trimmed(s);
    if t.len() > 0 {
        assert(s[a.len() as int] == t[0]);
    }
}

} // verus!
