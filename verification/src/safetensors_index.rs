//! Fail-closed validation of sharded safetensors directories: the shards that
//! are there must be those of the index, and every tensor must stand in the
//! shard that the index assigns it to.

use crate::json;
use crate::json::{
    is_listing, json_of, json_of_text, listing_is_unique, listing_of, members_view, JsonV,
};
use crate::text;
use crate::text::{ascending, ends, parts_view};
use vstd::prelude::*;

verus! {

/// The largest header that is read.
pub const MAX_HEADER_BYTES: u64 = 268_435_456;

/// The counts of a valid directory.
#[derive(Debug, Clone, Copy, PartialEq, Eq, Structural)]
pub struct IndexedSafetensors {
    pub shard_count: usize,
    pub tensor_count: usize,
}

/// Why a directory is refused.
#[derive(Debug, PartialEq, Eq)]
pub enum IndexError {
    /// The index has no object of weights.
    NoWeightMap,
    /// The object of weights is empty.
    EmptyWeightMap,
    /// A tensor has a name that no tensor can have.
    TensorName(String),
    /// A tensor's entry is no file name.
    NotAShard(String),
    /// A shard's name is no plain name of a safetensors file.
    ShardName(String),
    /// The shards that are there are not those of the index.
    ShardSet { missing: Vec<String>, extra: Vec<String> },
    /// A header describes a tensor by something else than an object.
    Descriptor { tensor: String, shard: String },
    /// A tensor stands in two shards.
    Duplicate { tensor: String, previous: String, shard: String },
    /// A tensor stands in another shard than the index says.
    Misassigned { tensor: String, shard: String, expected: String },
    /// A tensor stands in a shard but not in the index.
    Unindexed { tensor: String, shard: String },
    /// Tensors of the index stand in no shard.
    Absent(Vec<String>),
}

/// What an error holds.
pub enum IndexErrorV {
    NoWeightMap,
    EmptyWeightMap,
    TensorName(Seq<char>),
    NotAShard(Seq<char>),
    ShardName(Seq<char>),
    ShardSet(Seq<Seq<char>>, Seq<Seq<char>>),
    Descriptor(Seq<char>, Seq<char>),
    Duplicate(Seq<char>, Seq<char>, Seq<char>),
    Misassigned(Seq<char>, Seq<char>, Seq<char>),
    Unindexed(Seq<char>, Seq<char>),
    Absent(Seq<Seq<char>>),
}

impl View for IndexError {
    type V = IndexErrorV;

    open spec fn view(&self) -> IndexErrorV {
        match self {
            IndexError::NoWeightMap => IndexErrorV::NoWeightMap,
            IndexError::EmptyWeightMap => IndexErrorV::EmptyWeightMap,
            IndexError::TensorName(t) => IndexErrorV::TensorName(t@),
            IndexError::NotAShard(t) => IndexErrorV::NotAShard(t@),
            IndexError::ShardName(s) => IndexErrorV::ShardName(s@),
            IndexError::ShardSet { missing, extra } => IndexErrorV::ShardSet(
                parts_view(missing@),
                parts_view(extra@),
            ),
            IndexError::Descriptor { tensor, shard } => IndexErrorV::Descriptor(tensor@, shard@),
            IndexError::Duplicate { tensor, previous, shard } => IndexErrorV::Duplicate(
                tensor@,
                previous@,
                shard@,
            ),
            IndexError::Misassigned { tensor, shard, expected } => IndexErrorV::Misassigned(
                tensor@,
                shard@,
                expected@,
            ),
            IndexError::Unindexed { tensor, shard } => IndexErrorV::Unindexed(tensor@, shard@),
            IndexError::Absent(list) => IndexErrorV::Absent(parts_view(list@)),
        }
    }
}

/// The name of a directory's index.
pub const INDEX_FILE: &'static str = "model.safetensors.index.json";

/// How a text is shown in quotes.
pub uninterp spec fn quoted(s: Seq<char>) -> Seq<char>;

/// `str`'s `Debug`, through `format!`: the text in quotes, with what cannot be
/// shown escaped. Which characters are escaped, and how, is left unsaid.
#[verifier::external_body]
fn quote(s: &str) -> (r: String)
    ensures
        r@ == quoted(s@),
{
    format!("{:?}", s)
}

/// Several texts in quotes, with commas between them.
pub open spec fn quoted_each(list: Seq<Seq<char>>) -> Seq<char>
    decreases list.len(),
{
    if list.len() == 0 {
        Seq::empty()
    } else if list.len() == 1 {
        quoted(list[0])
    } else {
        quoted_each(list.drop_last()) + ", "@ + quoted(list.last())
    }
}

fn quote_each(list: &Vec<String>) -> (r: String)
    ensures
        r@ == quoted_each(parts_view(list@)),
{
    let mut out = String::new();
    let ghost all = parts_view(list@);
    let mut i: usize = 0;
    assert(all.subrange(0, 0) =~= Seq::<Seq<char>>::empty());
    while i < list.len()
        invariant
            i <= list@.len(),
            all == parts_view(list@),
            out@ == quoted_each(all.subrange(0, i as int)),
        decreases list@.len() - i,
    {
        let ghost pre = all.subrange(0, i + 1);
        assert(pre.drop_last() =~= all.subrange(0, i as int));
        assert(pre.last() == list@[i as int]@);
        if i > 0 {
            out.append(", ");
        }
        let q = quote(list[i].as_str());
        out.append(q.as_str());
        i = i + 1;
        assert(out@ =~= quoted_each(pre));
    }
    assert(all.subrange(0, i as int) =~= all);
    out
}

/// An error's text. `index` is the path of the index, `shard` that of the shard
/// that the error is about.
pub open spec fn error_text(e: IndexErrorV, index: Seq<char>, shard: Seq<char>) -> Seq<char> {
    match e {
        IndexErrorV::NoWeightMap => index + " has no object weight_map"@,
        IndexErrorV::EmptyWeightMap => index + " has an empty weight_map"@,
        IndexErrorV::TensorName(t) => index + " has invalid tensor name "@ + quoted(t)
            + " in weight_map"@,
        IndexErrorV::NotAShard(t) => index + " weight_map["@ + quoted(t)
            + "] is not a shard filename"@,
        IndexErrorV::ShardName(s) => index + " contains unsafe/non-safetensors shard name "@
            + quoted(s),
        IndexErrorV::ShardSet(missing, extra) => "safetensors shard set does not match "@ + index
            + " (missing=["@ + quoted_each(missing) + "], extra=["@ + quoted_each(extra)
            + "]); refusing mixed/incomplete directory"@,
        IndexErrorV::Descriptor(t, _) => shard + " tensor "@ + quoted(t)
            + " has a non-object descriptor"@,
        IndexErrorV::Duplicate(t, a, b) => "duplicate safetensors tensor "@ + quoted(t)
            + " in shards "@ + quoted(a) + " and "@ + quoted(b),
        IndexErrorV::Misassigned(t, s, expected) => "tensor "@ + quoted(t) + " is physically in "@
            + quoted(s) + ", but "@ + INDEX_FILE@ + " assigns it to "@ + quoted(expected),
        IndexErrorV::Unindexed(t, s) => "tensor "@ + quoted(t) + " in shard "@ + quoted(s)
            + " is absent from "@ + INDEX_FILE@,
        IndexErrorV::Absent(list) => index
            + " lists tensors absent from their assigned shards: ["@ + quoted_each(list) + "]"@,
    }
}

fn append_quoted(out: &mut String, s: &str)
    ensures
        final(out)@ == old(out)@ + quoted(s@),
{
    let q = quote(s);
    out.append(q.as_str());
}

impl IndexError {
    /// The error's text. `index` is the path of the index, `shard` that of the
    /// shard that the error is about.
    pub fn message(&self, index: &str, shard: &str) -> (r: String)
        ensures
            r@ == error_text(self@, index@, shard@),
    {
        match self {
            IndexError::NoWeightMap => {
                let mut out = index.to_owned();
                out.append(" has no object weight_map");
                out
            },
            IndexError::EmptyWeightMap => {
                let mut out = index.to_owned();
                out.append(" has an empty weight_map");
                out
            },
            IndexError::TensorName(t) => {
                let mut out = index.to_owned();
                out.append(" has invalid tensor name ");
                append_quoted(&mut out, t.as_str());
                out.append(" in weight_map");
                out
            },
            IndexError::NotAShard(t) => {
                let mut out = index.to_owned();
                out.append(" weight_map[");
                append_quoted(&mut out, t.as_str());
                out.append("] is not a shard filename");
                out
            },
            IndexError::ShardName(s) => {
                let mut out = index.to_owned();
                out.append(" contains unsafe/non-safetensors shard name ");
                append_quoted(&mut out, s.as_str());
                out
            },
            IndexError::ShardSet { missing, extra } => {
                let mut out = "safetensors shard set does not match ".to_owned();
                out.append(index);
                out.append(" (missing=[");
                out.append(quote_each(missing).as_str());
                out.append("], extra=[");
                out.append(quote_each(extra).as_str());
                out.append("]); refusing mixed/incomplete directory");
                out
            },
            IndexError::Descriptor { tensor, .. } => {
                let mut out = shard.to_owned();
                out.append(" tensor ");
                append_quoted(&mut out, tensor.as_str());
                out.append(" has a non-object descriptor");
                out
            },
            IndexError::Duplicate { tensor, previous, shard } => {
                let mut out = "duplicate safetensors tensor ".to_owned();
                append_quoted(&mut out, tensor.as_str());
                out.append(" in shards ");
                append_quoted(&mut out, previous.as_str());
                out.append(" and ");
                append_quoted(&mut out, shard.as_str());
                out
            },
            IndexError::Misassigned { tensor, shard, expected } => {
                let mut out = "tensor ".to_owned();
                append_quoted(&mut out, tensor.as_str());
                out.append(" is physically in ");
                append_quoted(&mut out, shard.as_str());
                out.append(", but ");
                out.append(INDEX_FILE);
                out.append(" assigns it to ");
                append_quoted(&mut out, expected.as_str());
                out
            },
            IndexError::Unindexed { tensor, shard } => {
                let mut out = "tensor ".to_owned();
                append_quoted(&mut out, tensor.as_str());
                out.append(" in shard ");
                append_quoted(&mut out, shard.as_str());
                out.append(" is absent from ");
                out.append(INDEX_FILE);
                out
            },
            IndexError::Absent(list) => {
                let mut out = index.to_owned();
                out.append(" lists tensors absent from their assigned shards: [");
                out.append(quote_each(list).as_str());
                out.append("]");
                out
            },
        }
    }
}

/// Whether a name is a plain file name with the extension of safetensors:
/// something before the extension, and no directory.
pub open spec fn is_plain_shard(name: Seq<char>) -> bool {
    &&& ends(name, ".safetensors"@)
    &&& name.len() > ".safetensors"@.len()
    &&& forall|i: int| 0 <= i < name.len() ==> #[trigger] name[i] != '/'
}

/// Whether a shard's name is a plain file name with the extension of safetensors.
pub fn validate_plain_shard_name(shard: &str) -> (r: bool)
    ensures
        r == is_plain_shard(shard@),
{
    if !text::ends_with(shard, ".safetensors") {
        return false;
    }
    let chars = text::chars_of(shard);
    let extension: &str = ".safetensors";
    if chars.len() <= extension.unicode_len() {
        return false;
    }
    let mut i: usize = 0;
    while i < chars.len()
        invariant
            i <= chars.len(),
            chars@ == shard@,
            forall|j: int| 0 <= j < i ==> #[trigger] chars@[j] != '/',
        decreases chars.len() - i,
    {
        if chars[i] == '/' {
            assert(shard@[i as int] == '/');
            return false;
        }
        i = i + 1;
    }
    true
}

/// A tensor with the shard that it is assigned to or stands in.
pub open spec fn pairs_view(pairs: Seq<(String, String)>) -> Seq<(Seq<char>, Seq<char>)> {
    pairs.map_values(|p: (String, String)| (p.0@, p.1@))
}

/// What an entry of the weight map assigns.
pub open spec fn assignment_of(tensor: Seq<char>, shard: JsonV) -> Result<
    (Seq<char>, Seq<char>),
    IndexErrorV,
> {
    if tensor == "__metadata__"@ || tensor.len() == 0 {
        Err(IndexErrorV::TensorName(tensor))
    } else {
        match shard.text() {
            None => Err(IndexErrorV::NotAShard(tensor)),
            Some(s) => if is_plain_shard(s) {
                Ok((tensor, s))
            } else {
                Err(IndexErrorV::ShardName(s))
            },
        }
    }
}

/// What the entries of the weight map assign, or the error of the first that
/// is refused.
pub open spec fn assignments_of(entries: Seq<(Seq<char>, JsonV)>) -> Result<
    Seq<(Seq<char>, Seq<char>)>,
    IndexErrorV,
>
    decreases entries.len(),
{
    if entries.len() == 0 {
        Ok(Seq::empty())
    } else {
        match assignments_of(entries.drop_last()) {
            Err(e) => Err(e),
            Ok(done) => match assignment_of(entries.last().0, entries.last().1) {
                Ok(p) => Ok(done.push(p)),
                Err(e) => Err(e),
            },
        }
    }
}

/// What an index document assigns.
pub open spec fn index_of(index: JsonV) -> Result<Seq<(Seq<char>, Seq<char>)>, IndexErrorV> {
    match index.member("weight_map"@) {
        Some(JsonV::Object(m)) => if listing_of(m).len() == 0 {
            Err(IndexErrorV::EmptyWeightMap)
        } else {
            assignments_of(listing_of(m))
        },
        _ => Err(IndexErrorV::NoWeightMap),
    }
}

/// Whether a shard is assigned some tensor.
pub open spec fn names_shard(pairs: Seq<(Seq<char>, Seq<char>)>, shard: Seq<char>) -> bool {
    exists|i: int| 0 <= i < pairs.len() && (#[trigger] pairs[i]).1 == shard
}

/// The tensors of an index with their shards, and the shards.
#[derive(Debug, PartialEq, Eq)]
pub struct ShardIndex {
    pub tensors: Vec<(String, String)>,
    pub shards: Vec<String>,
}

impl ShardIndex {
    /// The shards are those that the tensors name, ascending, none of them
    /// twice, and no tensor is listed twice.
    pub open spec fn wf(&self) -> bool {
        &&& ascending(parts_view(self.shards@))
        &&& forall|s: Seq<char>| #[trigger]
            parts_view(self.shards@).contains(s) <==> names_shard(pairs_view(self.tensors@), s)
        &&& forall|i: int, j: int|
            0 <= i < j < self.tensors@.len() ==> (#[trigger] pairs_view(self.tensors@)[i]).0 != (
            #[trigger] pairs_view(self.tensors@)[j]).0
    }
}

proof fn assignments_error_stands(entries: Seq<(Seq<char>, JsonV)>, k: int)
    requires
        0 <= k <= entries.len(),
        assignments_of(entries.subrange(0, k)) is Err,
    ensures
        assignments_of(entries) == assignments_of(entries.subrange(0, k)),
    decreases entries.len(),
{
    if k == entries.len() {
        assert(entries.subrange(0, k) =~= entries);
    } else {
        assert(entries.drop_last().subrange(0, k) =~= entries.subrange(0, k));
        assignments_error_stands(entries.drop_last(), k);
    }
}

fn read_assignment(tensor: &str, shard: &serde_json::Value) -> (r: Result<String, IndexError>)
    ensures
        match assignment_of(tensor@, json_of(*shard)) {
            Ok(p) => r is Ok && r->Ok_0@ == p.1 && p.0 == tensor@,
            Err(e) => r is Err && r->Err_0@ == e,
        },
{
    if text::same(tensor, "__metadata__") || tensor.unicode_len() == 0 {
        return Err(IndexError::TensorName(tensor.to_owned()));
    }
    match json::as_str(shard) {
        None => Err(IndexError::NotAShard(tensor.to_owned())),
        Some(s) => {
            if validate_plain_shard_name(s) {
                Ok(s.to_owned())
            } else {
                Err(IndexError::ShardName(s.to_owned()))
            }
        },
    }
}

/// Reads an index document.
pub fn read_index(index: &serde_json::Value) -> (r: Result<ShardIndex, IndexError>)
    ensures
        match index_of(json_of(*index)) {
            Ok(pairs) => r is Ok && pairs_view(r->Ok_0.tensors@) == pairs && r->Ok_0.wf(),
            Err(e) => r is Err && r->Err_0@ == e,
        },
{
    let map = match json::get(index, "weight_map") {
        Some(m) => m,
        None => {
            return Err(IndexError::NoWeightMap);
        },
    };
    let entries = match json::members(map) {
        Some(e) => e,
        None => {
            return Err(IndexError::NoWeightMap);
        },
    };
    let ghost listing = members_view(entries@);
    proof {
        match json_of(*map) {
            JsonV::Object(m) => {
                listing_is_unique(m, listing);
            },
            _ => {},
        }
    }
    if entries.len() == 0 {
        return Err(IndexError::EmptyWeightMap);
    }
    let mut tensors: Vec<(String, String)> = Vec::new();
    let mut shards: Vec<String> = Vec::new();
    let mut i: usize = 0;
    assert(listing.subrange(0, 0) =~= Seq::<(Seq<char>, JsonV)>::empty());
    assert(pairs_view(tensors@) =~= Seq::<(Seq<char>, Seq<char>)>::empty());
    while i < entries.len()
        invariant
            i <= entries.len(),
            listing == members_view(entries@),
            index_of(json_of(*index)) == assignments_of(listing),
            assignments_of(listing.subrange(0, i as int)) == Ok::<
                Seq<(Seq<char>, Seq<char>)>,
                IndexErrorV,
            >(pairs_view(tensors@)),
            tensors@.len() == i,
            forall|j: int| 0 <= j < i ==> (#[trigger] pairs_view(tensors@)[j]).0 == listing[j].0,
            ascending(parts_view(shards@)),
            forall|s: Seq<char>| #[trigger]
                parts_view(shards@).contains(s) <==> names_shard(pairs_view(tensors@), s),
        decreases entries.len() - i,
    {
        let ghost pre = listing.subrange(0, i + 1);
        assert(pre.drop_last() =~= listing.subrange(0, i as int));
        assert(pre.last() == (entries@[i as int].0@, json_of(entries@[i as int].1)));
        let entry = &entries[i];
        match read_assignment(entry.0.as_str(), &entry.1) {
            Ok(shard) => {
                let ghost had = pairs_view(tensors@);
                let ghost had_shards = parts_view(shards@);
                text::insert_ascending(&mut shards, shard.as_str());
                let ghost name = shard@;
                tensors.push((entry.0.clone(), shard));
                proof {
                    let now = pairs_view(tensors@);
                    assert(now =~= had.push((entry.0@, name)));
                    assert forall|s: Seq<char>| #[trigger]
                        parts_view(shards@).contains(s) <==> names_shard(now, s) by {
                        if names_shard(had, s) {
                            let k = choose|k: int|
                                0 <= k < had.len() && (#[trigger] had[k]).1 == s;
                            assert(now[k].1 == s);
                        }
                        if s == name {
                            assert(now[now.len() - 1].1 == s);
                        }
                        if names_shard(now, s) {
                            let k = choose|k: int|
                                0 <= k < now.len() && (#[trigger] now[k]).1 == s;
                            if k < had.len() {
                                assert(had[k].1 == s);
                            }
                        }
                        assert(had_shards.contains(s) <==> names_shard(had, s));
                    }
                }
            },
            Err(e) => {
                proof {
                    assignments_error_stands(listing, i + 1);
                }
                return Err(e);
            },
        }
        i = i + 1;
    }
    assert(listing.subrange(0, listing.len() as int) =~= listing);
    proof {
        let pairs = pairs_view(tensors@);
        let keys = crate::json::keys_of(listing);
        assert forall|a: int, b: int| 0 <= a < b < tensors@.len() implies (
        #[trigger] pairs[a]).0 != (#[trigger] pairs[b]).0 by {
            assert(keys[a] == listing[a].0 && keys[b] == listing[b].0);
            assert(text::comes_before(keys[a], keys[b]));
            text::order_is_irreflexive(keys[a]);
        }
    }
    Ok(ShardIndex { tensors, shards })
}

/// Why an index's text could not be taken.
#[derive(Debug)]
pub enum IndexTextError {
    /// The text writes no document.
    Parse(serde_json::Error),
    /// The document is refused, for this reason.
    Refused(IndexError),
}

/// Reads an index's text.
pub fn read_index_text(text: &str) -> (r: Result<ShardIndex, IndexTextError>)
    ensures
        match json_of_text(text@) {
            None => r is Err && r->Err_0 is Parse,
            Some(v) => match index_of(v) {
                Ok(pairs) => r is Ok && pairs_view(r->Ok_0.tensors@) == pairs && r->Ok_0.wf(),
                Err(e) => r is Err && r->Err_0 is Refused && r->Err_0->Refused_0@ == e,
            },
        },
{
    match json::parse(text) {
        Ok(index) => match read_index(&index) {
            Ok(index) => Ok(index),
            Err(e) => Err(IndexTextError::Refused(e)),
        },
        Err(e) => Err(IndexTextError::Parse(e)),
    }
}

/// What an entry of a directory is to the directory's shards.
#[derive(Debug, Clone, Copy, PartialEq, Eq, Structural)]
pub enum DirectoryEntry {
    /// It is no safetensors file.
    Other,
    /// It is a shard.
    Shard,
    /// It has a shard's name and is no regular file.
    Refused,
}

/// Whether a file name is a shard's: it ends in the extension and has something
/// before it.
pub open spec fn is_shard(name: Seq<char>) -> bool {
    ends(name, ".safetensors"@) && name != ".safetensors"@
}

/// What an entry of a directory is, by its name and whether it is a regular file.
pub fn directory_entry(name: &str, regular: bool) -> (r: DirectoryEntry)
    ensures
        r == (if !is_shard(name@) {
            DirectoryEntry::Other
        } else if regular {
            DirectoryEntry::Shard
        } else {
            DirectoryEntry::Refused
        }),
{
    if !text::ends_with(name, ".safetensors") || text::same(name, ".safetensors") {
        DirectoryEntry::Other
    } else if regular {
        DirectoryEntry::Shard
    } else {
        DirectoryEntry::Refused
    }
}

/// Those of a list that another does not hold, in their order.
pub open spec fn left_over(list: Seq<Seq<char>>, other: Seq<Seq<char>>) -> Seq<Seq<char>>
    decreases list.len(),
{
    if list.len() == 0 {
        Seq::empty()
    } else {
        let init = left_over(list.drop_last(), other);
        if other.contains(list.last()) {
            init
        } else {
            init.push(list.last())
        }
    }
}

proof fn left_over_is_empty(list: Seq<Seq<char>>, other: Seq<Seq<char>>)
    ensures
        left_over(list, other).len() == 0 <==> forall|i: int|
            0 <= i < list.len() ==> other.contains(#[trigger] list[i]),
    decreases list.len(),
{
    if list.len() > 0 {
        let init = list.drop_last();
        left_over_is_empty(init, other);
        assert(forall|i: int| 0 <= i < init.len() ==> init[i] == list[i]);
        assert(list[list.len() - 1] == list.last());
        if left_over(list, other).len() == 0 {
            assert forall|i: int| 0 <= i < list.len() implies other.contains(
                #[trigger] list[i],
            ) by {
                if i < init.len() {
                    assert(other.contains(init[i]));
                }
            }
        }
    }
}

fn names_left_over(list: &Vec<String>, other: &Vec<String>) -> (out: Vec<String>)
    ensures
        parts_view(out@) == left_over(parts_view(list@), parts_view(other@)),
{
    let ghost all = parts_view(list@);
    let ghost held = parts_view(other@);
    let mut out: Vec<String> = Vec::new();
    let mut i: usize = 0;
    assert(parts_view(out@) =~= left_over(all.subrange(0, 0), held));
    while i < list.len()
        invariant
            i <= list.len(),
            all == parts_view(list@),
            held == parts_view(other@),
            parts_view(out@) == left_over(all.subrange(0, i as int), held),
        decreases list.len() - i,
    {
        let ghost had = out@;
        assert(all.subrange(0, i + 1).drop_last() =~= all.subrange(0, i as int));
        assert(all.subrange(0, i + 1).last() == list@[i as int]@);
        let found = text::holds(other, list[i].as_str());
        proof {
            if found {
                let k = choose|k: int|
                    0 <= k < other@.len() && (#[trigger] other@[k])@ == list@[i as int]@;
                assert(held[k] == list@[i as int]@);
            } else if held.contains(list@[i as int]@) {
                let k = choose|k: int| 0 <= k < held.len() && held[k] == list@[i as int]@;
                assert(other@[k]@ == list@[i as int]@);
            }
        }
        if !found {
            out.push(list[i].clone());
            assert(parts_view(out@) =~= parts_view(had).push(list@[i as int]@));
        }
        i = i + 1;
    }
    assert(all.subrange(0, all.len() as int) =~= all);
    out
}

/// Texts in their order, none of them twice.
pub open spec fn sorted_of(list: Seq<Seq<char>>) -> Seq<Seq<char>> {
    choose|a: Seq<Seq<char>>|
        ascending(a) && forall|x: Seq<char>| #[trigger] a.contains(x) <==> list.contains(x)
}

fn sorted(list: &Vec<String>) -> (out: Vec<String>)
    ensures
        parts_view(out@) == sorted_of(parts_view(list@)),
        ascending(parts_view(out@)),
        forall|x: Seq<char>| #[trigger]
            parts_view(out@).contains(x) <==> parts_view(list@).contains(x),
{
    let ghost all = parts_view(list@);
    let mut out: Vec<String> = Vec::new();
    let mut i: usize = 0;
    while i < list.len()
        invariant
            i <= list.len(),
            all == parts_view(list@),
            ascending(parts_view(out@)),
            forall|x: Seq<char>| #[trigger]
                parts_view(out@).contains(x) <==> all.subrange(0, i as int).contains(x),
        decreases list.len() - i,
    {
        let ghost had = parts_view(out@);
        text::insert_ascending(&mut out, list[i].as_str());
        proof {
            let a = all.subrange(0, i as int);
            let b = all.subrange(0, i + 1);
            let s = list@[i as int]@;
            assert(b =~= a.push(s));
            assert forall|x: Seq<char>| #[trigger]
                parts_view(out@).contains(x) <==> b.contains(x) by {
                assert(had.contains(x) <==> a.contains(x));
                if a.contains(x) {
                    let k = choose|k: int| 0 <= k < a.len() && a[k] == x;
                    assert(b[k] == x);
                }
                if x == s {
                    assert(b[i as int] == x);
                }
                if b.contains(x) {
                    let k = choose|k: int| 0 <= k < b.len() && b[k] == x;
                    if k < i {
                        assert(a[k] == x);
                    }
                }
            }
        }
        i = i + 1;
    }
    proof {
        assert(all.subrange(0, all.len() as int) =~= all);
        let a = parts_view(out@);
        let b = sorted_of(all);
        assert(ascending(a) && forall|x: Seq<char>| #[trigger] a.contains(x) <==> all.contains(x));
        assert forall|x: Seq<char>| #[trigger] a.contains(x) <==> b.contains(x) by {
            assert(b.contains(x) <==> all.contains(x));
        }
        text::ascending_is_unique(a, b);
    }
    out
}

/// How the shards that are there differ from those of the index; nothing where
/// they do not.
pub open spec fn shard_set_fault(
    indexed: Seq<Seq<char>>,
    discovered: Seq<Seq<char>>,
) -> Option<IndexErrorV> {
    let there = sorted_of(discovered);
    let missing = left_over(indexed, there);
    let extra = left_over(there, indexed);
    if missing.len() > 0 || extra.len() > 0 {
        Some(IndexErrorV::ShardSet(missing, extra))
    } else {
        None
    }
}

/// Holds the shards that are there against those of the index.
pub fn check_shards(index: &ShardIndex, discovered: &Vec<String>) -> (r: Result<(), IndexError>)
    ensures
        match shard_set_fault(parts_view(index.shards@), parts_view(discovered@)) {
            Some(e) => r is Err && r->Err_0@ == e,
            None => r is Ok,
        },
{
    let there = sorted(discovered);
    let missing = names_left_over(&index.shards, &there);
    let extra = names_left_over(&there, &index.shards);
    assert(parts_view(missing@).len() == missing@.len());
    assert(parts_view(extra@).len() == extra@.len());
    if missing.len() > 0 || extra.len() > 0 {
        return Err(IndexError::ShardSet { missing, extra });
    }
    Ok(())
}

/// The shard that a tensor goes with, first place first.
pub open spec fn shard_for(pairs: Seq<(Seq<char>, Seq<char>)>, tensor: Seq<char>) -> Option<
    Seq<char>,
>
    decreases pairs.len(),
{
    if pairs.len() == 0 {
        None
    } else {
        match shard_for(pairs.drop_last(), tensor) {
            Some(s) => Some(s),
            None => if pairs.last().0 == tensor {
                Some(pairs.last().1)
            } else {
                None
            },
        }
    }
}

proof fn shard_for_is(pairs: Seq<(Seq<char>, Seq<char>)>, tensor: Seq<char>)
    ensures
        match shard_for(pairs, tensor) {
            Some(s) => exists|i: int|
                0 <= i < pairs.len() && (#[trigger] pairs[i]).0 == tensor && pairs[i].1 == s,
            None => forall|i: int| 0 <= i < pairs.len() ==> (#[trigger] pairs[i]).0 != tensor,
        },
    decreases pairs.len(),
{
    if pairs.len() > 0 {
        let init = pairs.drop_last();
        shard_for_is(init, tensor);
        assert(forall|i: int| 0 <= i < init.len() ==> init[i] == pairs[i]);
        assert(pairs[pairs.len() - 1] == pairs.last());
        match shard_for(init, tensor) {
            Some(s) => {
                let i = choose|i: int|
                    0 <= i < init.len() && (#[trigger] init[i]).0 == tensor && init[i].1 == s;
                assert(pairs[i].0 == tensor && pairs[i].1 == s);
            },
            None => {},
        }
    }
}

proof fn shard_for_first(pairs: Seq<(Seq<char>, Seq<char>)>, tensor: Seq<char>, k: int)
    requires
        0 <= k < pairs.len(),
        pairs[k].0 == tensor,
        forall|j: int| 0 <= j < k ==> (#[trigger] pairs[j]).0 != tensor,
    ensures
        shard_for(pairs, tensor) == Some(pairs[k].1),
    decreases pairs.len(),
{
    let init = pairs.drop_last();
    if k < init.len() {
        assert(init[k] == pairs[k]);
        assert forall|j: int| 0 <= j < k implies (#[trigger] init[j]).0 != tensor by {
            assert(init[j] == pairs[j]);
        }
        shard_for_first(init, tensor, k);
    } else {
        shard_for_is(init, tensor);
        assert(forall|j: int| 0 <= j < init.len() ==> init[j] == pairs[j]);
    }
}

fn find_shard<'a>(pairs: &'a Vec<(String, String)>, tensor: &str) -> (r: Option<&'a String>)
    ensures
        match r {
            Some(s) => shard_for(pairs_view(pairs@), tensor@) == Some(s@),
            None => shard_for(pairs_view(pairs@), tensor@) is None,
        },
{
    let ghost all = pairs_view(pairs@);
    let mut i: usize = 0;
    while i < pairs.len()
        invariant
            i <= pairs.len(),
            all == pairs_view(pairs@),
            forall|j: int| 0 <= j < i ==> (#[trigger] all[j]).0 != tensor@,
        decreases pairs.len() - i,
    {
        assert(all[i as int] == (pairs@[i as int].0@, pairs@[i as int].1@));
        if text::same(pairs[i].0.as_str(), tensor) {
            proof {
                shard_for_first(all, tensor@, i as int);
            }
            return Some(&pairs[i].1);
        }
        i = i + 1;
    }
    proof {
        shard_for_is(all, tensor@);
    }
    None
}

/// What a header's entry adds to the tensors seen: nothing for the metadata,
/// else the tensor in this shard, where it is described by an object, was not
/// seen before and is assigned here.
pub open spec fn entry_seen(
    seen: Seq<(Seq<char>, Seq<char>)>,
    index: Seq<(Seq<char>, Seq<char>)>,
    shard: Seq<char>,
    entry: (Seq<char>, JsonV),
) -> Result<Seq<(Seq<char>, Seq<char>)>, IndexErrorV> {
    let tensor = entry.0;
    if tensor == "__metadata__"@ {
        Ok(seen)
    } else if entry.1 !is Object {
        Err(IndexErrorV::Descriptor(tensor, shard))
    } else {
        match shard_for(seen, tensor) {
            Some(previous) => Err(IndexErrorV::Duplicate(tensor, previous, shard)),
            None => match shard_for(index, tensor) {
                Some(expected) => if expected == shard {
                    Ok(seen.push((tensor, shard)))
                } else {
                    Err(IndexErrorV::Misassigned(tensor, shard, expected))
                },
                None => Err(IndexErrorV::Unindexed(tensor, shard)),
            },
        }
    }
}

/// What a header's entries add to the tensors seen, or the error of the first
/// that is refused.
pub open spec fn header_seen(
    seen: Seq<(Seq<char>, Seq<char>)>,
    index: Seq<(Seq<char>, Seq<char>)>,
    shard: Seq<char>,
    entries: Seq<(Seq<char>, JsonV)>,
) -> Result<Seq<(Seq<char>, Seq<char>)>, IndexErrorV>
    decreases entries.len(),
{
    if entries.len() == 0 {
        Ok(seen)
    } else {
        match header_seen(seen, index, shard, entries.drop_last()) {
            Err(e) => Err(e),
            Ok(now) => entry_seen(now, index, shard, entries.last()),
        }
    }
}

proof fn header_error_stands(
    seen: Seq<(Seq<char>, Seq<char>)>,
    index: Seq<(Seq<char>, Seq<char>)>,
    shard: Seq<char>,
    entries: Seq<(Seq<char>, JsonV)>,
    k: int,
)
    requires
        0 <= k <= entries.len(),
        header_seen(seen, index, shard, entries.subrange(0, k)) is Err,
    ensures
        header_seen(seen, index, shard, entries) == header_seen(
            seen,
            index,
            shard,
            entries.subrange(0, k),
        ),
    decreases entries.len(),
{
    if k == entries.len() {
        assert(entries.subrange(0, k) =~= entries);
    } else {
        assert(entries.drop_last().subrange(0, k) =~= entries.subrange(0, k));
        header_error_stands(seen, index, shard, entries.drop_last(), k);
    }
}

fn see_entry(
    seen: &mut Vec<(String, String)>,
    index: &ShardIndex,
    shard: &str,
    tensor: &str,
    descriptor: &serde_json::Value,
) -> (r: Result<(), IndexError>)
    ensures
        match entry_seen(
            pairs_view(old(seen)@),
            pairs_view(index.tensors@),
            shard@,
            (tensor@, json_of(*descriptor)),
        ) {
            Ok(now) => r is Ok && pairs_view(final(seen)@) == now,
            Err(e) => r is Err && r->Err_0@ == e,
        },
{
    if text::same(tensor, "__metadata__") {
        return Ok(());
    }
    if json::members(descriptor).is_none() {
        return Err(IndexError::Descriptor { tensor: tensor.to_owned(), shard: shard.to_owned() });
    }
    match find_shard(seen, tensor) {
        Some(previous) => {
            return Err(
                IndexError::Duplicate {
                    tensor: tensor.to_owned(),
                    previous: previous.clone(),
                    shard: shard.to_owned(),
                },
            );
        },
        None => {},
    }
    match find_shard(&index.tensors, tensor) {
        Some(expected) => {
            if !text::same(expected.as_str(), shard) {
                return Err(
                    IndexError::Misassigned {
                        tensor: tensor.to_owned(),
                        shard: shard.to_owned(),
                        expected: expected.clone(),
                    },
                );
            }
        },
        None => {
            return Err(
                IndexError::Unindexed { tensor: tensor.to_owned(), shard: shard.to_owned() },
            );
        },
    }
    let ghost had = pairs_view(seen@);
    seen.push((tensor.to_owned(), shard.to_owned()));
    assert(pairs_view(seen@) =~= had.push((tensor@, shard@)));
    Ok(())
}

/// What a shard's header adds to the tensors seen. A header that is no object
/// adds nothing; the reader refuses it before.
pub open spec fn shard_seen(
    seen: Seq<(Seq<char>, Seq<char>)>,
    index: Seq<(Seq<char>, Seq<char>)>,
    shard: Seq<char>,
    header: JsonV,
) -> Result<Seq<(Seq<char>, Seq<char>)>, IndexErrorV> {
    match header {
        JsonV::Object(m) => header_seen(seen, index, shard, listing_of(m)),
        _ => Ok(seen),
    }
}

/// Takes in a shard's header.
pub fn scan_shard(
    seen: &mut Vec<(String, String)>,
    index: &ShardIndex,
    shard: &str,
    header: &serde_json::Value,
) -> (r: Result<(), IndexError>)
    ensures
        match shard_seen(
            pairs_view(old(seen)@),
            pairs_view(index.tensors@),
            shard@,
            json_of(*header),
        ) {
            Ok(now) => r is Ok && pairs_view(final(seen)@) == now,
            Err(e) => r is Err && r->Err_0@ == e,
        },
{
    let entries = match json::members(header) {
        Some(e) => e,
        None => {
            return Ok(());
        },
    };
    let ghost listing = members_view(entries@);
    let ghost start = pairs_view(seen@);
    let ghost assigned = pairs_view(index.tensors@);
    proof {
        match json_of(*header) {
            JsonV::Object(m) => {
                listing_is_unique(m, listing);
            },
            _ => {},
        }
    }
    let mut i: usize = 0;
    assert(listing.subrange(0, 0) =~= Seq::<(Seq<char>, JsonV)>::empty());
    while i < entries.len()
        invariant
            i <= entries.len(),
            listing == members_view(entries@),
            assigned == pairs_view(index.tensors@),
            start == pairs_view(old(seen)@),
            shard_seen(start, assigned, shard@, json_of(*header)) == header_seen(
                start,
                assigned,
                shard@,
                listing,
            ),
            header_seen(start, assigned, shard@, listing.subrange(0, i as int)) == Ok::<
                Seq<(Seq<char>, Seq<char>)>,
                IndexErrorV,
            >(pairs_view(seen@)),
        decreases entries.len() - i,
    {
        let ghost pre = listing.subrange(0, i + 1);
        assert(pre.drop_last() =~= listing.subrange(0, i as int));
        assert(pre.last() == (entries@[i as int].0@, json_of(entries@[i as int].1)));
        let entry = &entries[i];
        match see_entry(seen, index, shard, entry.0.as_str(), &entry.1) {
            Ok(()) => {},
            Err(e) => {
                proof {
                    header_error_stands(start, assigned, shard@, listing, i + 1);
                }
                return Err(e);
            },
        }
        i = i + 1;
    }
    assert(listing.subrange(0, listing.len() as int) =~= listing);
    Ok(())
}

/// The names of tensors.
pub open spec fn tensors_of(pairs: Seq<(Seq<char>, Seq<char>)>) -> Seq<Seq<char>> {
    pairs.map_values(|p: (Seq<char>, Seq<char>)| p.0)
}

fn first_names(pairs: &Vec<(String, String)>) -> (out: Vec<String>)
    ensures
        parts_view(out@) == tensors_of(pairs_view(pairs@)),
{
    let mut out: Vec<String> = Vec::new();
    let mut i: usize = 0;
    while i < pairs.len()
        invariant
            i <= pairs.len(),
            out@.len() == i,
            forall|j: int| 0 <= j < i ==> (#[trigger] out@[j])@ == pairs@[j].0@,
        decreases pairs.len() - i,
    {
        out.push(pairs[i].0.clone());
        i = i + 1;
    }
    assert(parts_view(out@) =~= tensors_of(pairs_view(pairs@)));
    out
}

/// Holds the tensors seen against those of the index: all must be there.
pub fn finish_scan(
    seen: &Vec<(String, String)>,
    index: &ShardIndex,
) -> (r: Result<IndexedSafetensors, IndexError>)
    ensures
        ({
            let absent = left_over(
                tensors_of(pairs_view(index.tensors@)),
                tensors_of(pairs_view(seen@)),
            );
            if absent.len() > 0 {
                r is Err && r->Err_0@ == IndexErrorV::Absent(absent)
            } else {
                r is Ok && r->Ok_0.shard_count == index.shards@.len() && r->Ok_0.tensor_count
                    == index.tensors@.len()
            }
        }),
{
    let absent = names_left_over(&first_names(&index.tensors), &first_names(seen));
    assert(parts_view(absent@).len() == absent@.len());
    if absent.len() > 0 {
        return Err(IndexError::Absent(absent));
    }
    Ok(
        IndexedSafetensors {
            shard_count: index.shards.len(),
            tensor_count: index.tensors.len(),
        },
    )
}

/// What the first `n` shards' headers show, or the error of the first that is refused.
pub open spec fn shards_seen(
    index: Seq<(Seq<char>, Seq<char>)>,
    shards: Seq<Seq<char>>,
    headers: Seq<JsonV>,
    n: nat,
) -> Result<Seq<(Seq<char>, Seq<char>)>, IndexErrorV>
    decreases n,
{
    if n == 0 {
        Ok(Seq::empty())
    } else {
        match shards_seen(index, shards, headers, (n - 1) as nat) {
            Err(e) => Err(e),
            Ok(now) => shard_seen(now, index, shards[n - 1], headers[n - 1]),
        }
    }
}

/// What a directory comes to: its counts, or why it is refused.
pub open spec fn directory_of(
    index: Seq<(Seq<char>, Seq<char>)>,
    shards: Seq<Seq<char>>,
    discovered: Seq<Seq<char>>,
    headers: Seq<JsonV>,
) -> Result<(nat, nat), IndexErrorV> {
    match shard_set_fault(shards, discovered) {
        Some(e) => Err(e),
        None => match shards_seen(index, shards, headers, shards.len()) {
            Err(e) => Err(e),
            Ok(seen) => {
                let absent = left_over(tensors_of(index), tensors_of(seen));
                if absent.len() > 0 {
                    Err(IndexErrorV::Absent(absent))
                } else {
                    Ok((shards.len(), index.len()))
                }
            },
        },
    }
}

proof fn shards_error_stands(
    index: Seq<(Seq<char>, Seq<char>)>,
    shards: Seq<Seq<char>>,
    headers: Seq<JsonV>,
    k: nat,
    n: nat,
)
    requires
        k <= n,
        shards_seen(index, shards, headers, k) is Err,
    ensures
        shards_seen(index, shards, headers, n) == shards_seen(index, shards, headers, k),
    decreases n,
{
    if k < n {
        shards_error_stands(index, shards, headers, k, (n - 1) as nat);
    }
}

/// Validates a directory: its shards, then the headers of the index's shards
/// in their order, then that no tensor of the index is absent.
pub fn validate_indexed_safetensors_dir(
    index: &ShardIndex,
    discovered: &Vec<String>,
    headers: &Vec<serde_json::Value>,
) -> (r: Result<IndexedSafetensors, IndexError>)
    requires
        headers@.len() == index.shards@.len(),
    ensures
        match directory_of(
            pairs_view(index.tensors@),
            parts_view(index.shards@),
            parts_view(discovered@),
            crate::json::json_seq(headers@),
        ) {
            Ok(counts) => r is Ok && r->Ok_0.shard_count == counts.0 && r->Ok_0.tensor_count
                == counts.1,
            Err(e) => r is Err && r->Err_0@ == e,
        },
{
    match check_shards(index, discovered) {
        Ok(()) => {},
        Err(e) => {
            return Err(e);
        },
    }
    let ghost assigned = pairs_view(index.tensors@);
    let ghost shards = parts_view(index.shards@);
    let ghost js = crate::json::json_seq(headers@);
    let mut seen: Vec<(String, String)> = Vec::new();
    let mut i: usize = 0;
    assert(pairs_view(seen@) =~= Seq::<(Seq<char>, Seq<char>)>::empty());
    while i < index.shards.len()
        invariant
            i <= index.shards.len(),
            headers@.len() == index.shards@.len(),
            assigned == pairs_view(index.tensors@),
            shards == parts_view(index.shards@),
            js == crate::json::json_seq(headers@),
            shard_set_fault(shards, parts_view(discovered@)) is None,
            shards_seen(assigned, shards, js, i as nat) == Ok::<
                Seq<(Seq<char>, Seq<char>)>,
                IndexErrorV,
            >(pairs_view(seen@)),
        decreases index.shards.len() - i,
    {
        assert(shards[i as int] == index.shards@[i as int]@);
        assert(js[i as int] == json_of(headers@[i as int]));
        match scan_shard(&mut seen, index, index.shards[i].as_str(), &headers[i]) {
            Ok(()) => {},
            Err(e) => {
                proof {
                    shards_error_stands(assigned, shards, js, (i + 1) as nat, shards.len());
                }
                return Err(e);
            },
        }
        i = i + 1;
    }
    finish_scan(&seen, index)
}

/// Whether a row of members has one under a tensor's name.
pub open spec fn lists(entries: Seq<(Seq<char>, JsonV)>, tensor: Seq<char>) -> bool {
    exists|i: int| 0 <= i < entries.len() && (#[trigger] entries[i]).0 == tensor
}

proof fn header_shows(
    seen: Seq<(Seq<char>, Seq<char>)>,
    index: Seq<(Seq<char>, Seq<char>)>,
    shard: Seq<char>,
    entries: Seq<(Seq<char>, JsonV)>,
)
    requires
        header_seen(seen, index, shard, entries) is Ok,
    ensures
        forall|i: int|
            0 <= i < entries.len() && (#[trigger] entries[i]).0 != "__metadata__"@ ==> shard_for(
                index,
                entries[i].0,
            ) == Some(shard),
        forall|i: int|
            0 <= i < header_seen(seen, index, shard, entries)->Ok_0.len() ==> {
                let p = #[trigger] header_seen(seen, index, shard, entries)->Ok_0[i];
                seen.contains(p) || (p.1 == shard && lists(entries, p.0) && p.0
                    != "__metadata__"@)
            },
    decreases entries.len(),
{
    if entries.len() > 0 {
        let init = entries.drop_last();
        header_shows(seen, index, shard, init);
        let before = header_seen(seen, index, shard, init)->Ok_0;
        let now = header_seen(seen, index, shard, entries)->Ok_0;
        let last = entries.len() - 1;
        assert(entries[last] == entries.last());
        assert(forall|i: int| 0 <= i < init.len() ==> init[i] == entries[i]);
        assert forall|i: int|
            0 <= i < entries.len() && (#[trigger] entries[i]).0
                != "__metadata__"@ implies shard_for(index, entries[i].0) == Some(shard) by {
            if i < last {
                assert(init[i] == entries[i]);
            }
        }
        assert forall|i: int| 0 <= i < now.len() implies {
            let p = #[trigger] now[i];
            seen.contains(p) || (p.1 == shard && lists(entries, p.0) && p.0 != "__metadata__"@)
        } by {
            if i < before.len() {
                assert(now[i] == before[i]);
                let p = before[i];
                if !seen.contains(p) {
                    let k = choose|k: int| 0 <= k < init.len() && (#[trigger] init[k]).0 == p.0;
                    assert(entries[k].0 == p.0);
                }
            } else {
                assert(entries[last].0 == now[i].0);
            }
        }
    }
}

proof fn shards_show(
    index: Seq<(Seq<char>, Seq<char>)>,
    shards: Seq<Seq<char>>,
    headers: Seq<JsonV>,
    n: nat,
)
    requires
        n <= shards.len(),
        n <= headers.len(),
        forall|k: int| 0 <= k < headers.len() ==> (#[trigger] headers[k]) is Object,
        forall|k: int|
            0 <= k < headers.len() ==> is_listing(
                (#[trigger] headers[k])->Object_0,
                listing_of(headers[k]->Object_0),
            ),
        shards_seen(index, shards, headers, n) is Ok,
    ensures
        forall|k: int, t: Seq<char>|
            0 <= k < n && t != "__metadata__"@ && (#[trigger] headers[k].member(t)) is Some
                ==> shard_for(index, t) == Some(shards[k]),
        forall|i: int|
            0 <= i < shards_seen(index, shards, headers, n)->Ok_0.len() ==> {
                let p = #[trigger] shards_seen(index, shards, headers, n)->Ok_0[i];
                exists|k: int|
                    0 <= k < n && p.1 == #[trigger] shards[k] && headers[k].member(p.0) is Some
                        && shard_for(index, p.0) == Some(p.1)
            },
    decreases n,
{
    if n > 0 {
        let m = (n - 1) as nat;
        shards_show(index, shards, headers, m);
        let before = shards_seen(index, shards, headers, m)->Ok_0;
        let now = shards_seen(index, shards, headers, n)->Ok_0;
        let object = headers[m as int]->Object_0;
        let entries = listing_of(object);
        assert(headers[m as int] is Object);
        assert(is_listing(object, entries));
        header_shows(before, index, shards[m as int], entries);
        assert forall|k: int, t: Seq<char>|
            0 <= k < n && t != "__metadata__"@ && (#[trigger] headers[k].member(
                t,
            )) is Some implies shard_for(index, t) == Some(shards[k]) by {
            if k == m {
                assert(object.dom().contains(t));
                let keys = crate::json::keys_of(entries);
                assert(keys.contains(t));
                let i = choose|i: int| 0 <= i < keys.len() && keys[i] == t;
                assert(entries[i].0 == t);
            }
        }
        assert forall|i: int| 0 <= i < now.len() implies {
            let p = #[trigger] now[i];
            exists|k: int|
                0 <= k < n && p.1 == #[trigger] shards[k] && headers[k].member(p.0) is Some
                    && shard_for(index, p.0) == Some(p.1)
        } by {
            let p = now[i];
            if before.contains(p) {
                let j = choose|j: int| 0 <= j < before.len() && before[j] == p;
                let k = choose|k: int|
                    0 <= k < m && before[j].1 == #[trigger] shards[k] && headers[k].member(
                        before[j].0,
                    ) is Some && shard_for(index, before[j].0) == Some(before[j].1);
                assert(p.1 == shards[k]);
            } else {
                let j = choose|j: int| 0 <= j < entries.len() && (#[trigger] entries[j]).0 == p.0;
                let keys = crate::json::keys_of(entries);
                assert(keys[j] == p.0);
                assert(keys.contains(p.0));
                assert(headers[m as int].member(p.0) is Some);
                assert(p.1 == shards[m as int]);
            }
        }
    }
}

/// A directory that is accepted is exactly what its index says: the shards
/// that are there are those of the index, and a tensor stands in a shard just
/// where the index assigns it to that shard.
pub proof fn accepted_directory_matches_index(
    index: Seq<(Seq<char>, Seq<char>)>,
    shards: Seq<Seq<char>>,
    discovered: Seq<Seq<char>>,
    headers: Seq<JsonV>,
)
    requires
        ascending(shards),
        headers.len() == shards.len(),
        forall|k: int|
            0 <= k < headers.len() ==> (#[trigger] headers[k]) is Object
                && headers[k]->Object_0.dom().finite(),
        directory_of(index, shards, discovered, headers) is Ok,
    ensures
        forall|x: Seq<char>| #[trigger] discovered.contains(x) <==> shards.contains(x),
        forall|k: int, t: Seq<char>|
            0 <= k < shards.len() && t != "__metadata__"@ ==> ((#[trigger] headers[k].member(
                t,
            )) is Some <==> shard_for(index, t) == Some(shards[k])),
{
    assert forall|k: int| 0 <= k < headers.len() implies is_listing(
        (#[trigger] headers[k])->Object_0,
        listing_of(headers[k]->Object_0),
    ) by {
        crate::json::listing_exists(headers[k]->Object_0);
    }
    let there = text::ascending_exists(discovered);
    let sorted = sorted_of(discovered);
    assert(ascending(there) && forall|x: Seq<char>| #[trigger]
        there.contains(x) <==> discovered.contains(x));
    assert(ascending(sorted) && forall|x: Seq<char>| #[trigger]
        sorted.contains(x) <==> discovered.contains(x));
    left_over_is_empty(shards, sorted);
    left_over_is_empty(sorted, shards);
    assert forall|x: Seq<char>| #[trigger] discovered.contains(x) <==> shards.contains(x) by {
        if discovered.contains(x) {
            assert(sorted.contains(x));
            let i = choose|i: int| 0 <= i < sorted.len() && sorted[i] == x;
            assert(shards.contains(sorted[i]));
        }
        if shards.contains(x) {
            let i = choose|i: int| 0 <= i < shards.len() && shards[i] == x;
            assert(sorted.contains(shards[i]));
        }
    }
    let n = shards.len();
    shards_show(index, shards, headers, n);
    let seen = shards_seen(index, shards, headers, n)->Ok_0;
    left_over_is_empty(tensors_of(index), tensors_of(seen));
    assert forall|k: int, t: Seq<char>|
        0 <= k < shards.len() && t != "__metadata__"@ implies ((#[trigger] headers[k].member(
        t,
    )) is Some <==> shard_for(index, t) == Some(shards[k])) by {
        if shard_for(index, t) == Some(shards[k]) {
            shard_for_is(index, t);
            let i = choose|i: int|
                0 <= i < index.len() && (#[trigger] index[i]).0 == t && index[i].1 == shards[k];
            assert(tensors_of(index)[i] == t);
            assert(tensors_of(seen).contains(t));
            let j = choose|j: int| 0 <= j < tensors_of(seen).len() && tensors_of(seen)[j] == t;
            let p = seen[j];
            let h = choose|h: int|
                0 <= h < n && p.1 == #[trigger] shards[h] && headers[h].member(p.0) is Some
                    && shard_for(index, p.0) == Some(p.1);
            assert(shards[h] == shards[k]);
            if h != k {
                text::order_is_irreflexive(shards[k]);
                if h < k {
                    assert(text::comes_before(shards[h], shards[k]));
                } else {
                    assert(text::comes_before(shards[k], shards[h]));
                }
            }
        }
    }
}

/// The number that eight bytes write, the low byte first.
pub open spec fn little_endian(bytes: Seq<u8>) -> int
    decreases bytes.len(),
{
    if bytes.len() == 0 {
        0
    } else {
        bytes[0] + 256 * little_endian(bytes.subrange(1, bytes.len() as int))
    }
}

/// Whether a header of so many bytes is refused in a file of so many.
pub open spec fn header_refused(header_len: int, file_len: int) -> bool {
    header_len == 0 || header_len > MAX_HEADER_BYTES || header_len + 8 > file_len
}

/// Reads a header's length from the first eight bytes of a file of `file_len`
/// bytes; nothing where such a header is refused.
pub fn header_length(bytes: [u8; 8], file_len: u64) -> (r: Option<u64>)
    ensures
        match r {
            Some(n) => n == little_endian(bytes@) && !header_refused(n as int, file_len as int),
            None => header_refused(little_endian(bytes@), file_len as int),
        },
{
    let n: u64 = bytes[0] as u64 + 256 * (bytes[1] as u64 + 256 * (bytes[2] as u64 + 256 * (
    bytes[3] as u64 + 256 * (bytes[4] as u64 + 256 * (bytes[5] as u64 + 256 * (bytes[6] as u64
        + 256 * (bytes[7] as u64)))))));
    proof {
        let b = bytes@;
        let b1 = b.subrange(1, 8);
        let b2 = b1.subrange(1, 7);
        let b3 = b2.subrange(1, 6);
        let b4 = b3.subrange(1, 5);
        let b5 = b4.subrange(1, 4);
        let b6 = b5.subrange(1, 3);
        let b7 = b6.subrange(1, 2);
        let b8 = b7.subrange(1, 1);
        assert(little_endian(b8) == 0);
        assert(little_endian(b7) == b[7]);
        assert(little_endian(b6) == b[6] + 256 * little_endian(b7));
        assert(little_endian(b5) == b[5] + 256 * little_endian(b6));
        assert(little_endian(b4) == b[4] + 256 * little_endian(b5));
        assert(little_endian(b3) == b[3] + 256 * little_endian(b4));
        assert(little_endian(b2) == b[2] + 256 * little_endian(b3));
        assert(little_endian(b1) == b[1] + 256 * little_endian(b2));
        assert(little_endian(b) == b[0] + 256 * little_endian(b1));
    }
    let room: u64 = if file_len >= 8 {
        file_len - 8
    } else {
        0
    };
    if n == 0 || n > MAX_HEADER_BYTES || n > room {
        None
    } else {
        Some(n)
    }
}

/// Why a header could not be read.
#[derive(Debug)]
pub enum HeaderError {
    /// The bytes write no document.
    Parse(serde_json::Error),
    /// The document is no object.
    NotAnObject,
}

/// Reads a header's bytes.
pub fn read_safetensors_header(bytes: &[u8]) -> (r: Result<serde_json::Value, HeaderError>)
    ensures
        match crate::json::json_of_bytes(bytes@) {
            None => r is Err && r->Err_0 is Parse,
            Some(h) => if h is Object {
                r is Ok && json_of(r->Ok_0) == h
            } else {
                r is Err && r->Err_0 is NotAnObject
            },
        },
{
    match json::parse_bytes(bytes) {
        Ok(h) => {
            if json::members(&h).is_some() {
                Ok(h)
            } else {
                Err(HeaderError::NotAnObject)
            }
        },
        Err(e) => Err(HeaderError::Parse(e)),
    }
}

/// Eight bytes write a number with the low byte first.
pub proof fn lengths_are_little_endian(b: Seq<u8>)
    requires
        b.len() == 8,
    ensures
        little_endian(b) == b[0] + b[1] * 0x100 + b[2] * 0x1_0000 + b[3] * 0x100_0000 + b[4]
            * 0x1_0000_0000 + b[5] * 0x100_0000_0000 + b[6] * 0x1_0000_0000_0000 + b[7]
            * 0x100_0000_0000_0000,
{
    let b1 = b.subrange(1, 8);
    let b2 = b1.subrange(1, 7);
    let b3 = b2.subrange(1, 6);
    let b4 = b3.subrange(1, 5);
    let b5 = b4.subrange(1, 4);
    let b6 = b5.subrange(1, 3);
    let b7 = b6.subrange(1, 2);
    let b8 = b7.subrange(1, 1);
    assert(little_endian(b8) == 0);
    assert(little_endian(b7) == b[7]);
    assert(little_endian(b6) == b[6] + 256 * little_endian(b7));
    assert(little_endian(b5) == b[5] + 256 * little_endian(b6));
    assert(little_endian(b4) == b[4] + 256 * little_endian(b5));
    assert(little_endian(b3) == b[3] + 256 * little_endian(b4));
    assert(little_endian(b2) == b[2] + 256 * little_endian(b3));
    assert(little_endian(b1) == b[1] + 256 * little_endian(b2));
    assert(little_endian(b) == b[0] + 256 * little_endian(b1));
}

/// A header that is read has bytes, no more than the largest, and lies in its file
/// behind its length; and a longer file refuses no header that a shorter one holds.
pub proof fn headers_lie_in_their_files(header_len: int, file_len: int, longer: int)
    requires
        0 <= header_len,
        file_len <= longer,
    ensures
        !header_refused(header_len, file_len) <==> 1 <= header_len <= MAX_HEADER_BYTES && 8
            + header_len <= file_len,
        !header_refused(header_len, file_len) ==> !header_refused(header_len, longer),
        !header_refused(header_len, file_len) && header_len > 1 ==> !header_refused(
            header_len - 1,
            file_len,
        ),
{
}

/// An index assigns what its entries say, one after the other, exactly where every
/// entry names a tensor and a plain shard.
pub proof fn entries_are_assigned_in_order(entries: Seq<(Seq<char>, JsonV)>)
    ensures
        assignments_of(entries) is Ok <==> forall|i: int|
            0 <= i < entries.len() ==> {
                &&& (#[trigger] entries[i]).0.len() > 0
                &&& entries[i].0 != "__metadata__"@
                &&& entries[i].1.text() matches Some(s) && is_plain_shard(s)
            },
        assignments_of(entries) matches Ok(pairs) ==> {
            &&& pairs.len() == entries.len()
            &&& forall|i: int|
                0 <= i < pairs.len() ==> {
                    &&& (#[trigger] pairs[i]).0 == entries[i].0
                    &&& Some(pairs[i].1) == entries[i].1.text()
                }
        },
    decreases entries.len(),
{
    if entries.len() > 0 {
        let init = entries.drop_last();
        entries_are_assigned_in_order(init);
        let last = entries.len() - 1;
        assert(entries.last() == entries[last]);
        if assignments_of(init) is Err {
            let i = choose|i: int|
                0 <= i < init.len() && !({
                    &&& (#[trigger] init[i]).0.len() > 0
                    &&& init[i].0 != "__metadata__"@
                    &&& init[i].1.text() matches Some(s) && is_plain_shard(s)
                });
            assert(entries[i] == init[i]);
        } else {
            assert forall|i: int| 0 <= i < init.len() implies {
                &&& (#[trigger] entries[i]).0.len() > 0
                &&& entries[i].0 != "__metadata__"@
                &&& entries[i].1.text() matches Some(s) && is_plain_shard(s)
            } by {
                assert(init[i] == entries[i]);
            }
        }
    }
}

/// A plain shard is a shard, and one that lies in no directory; put behind a
/// directory it is none.
pub proof fn plain_shards_are_shards(name: Seq<char>, dir: Seq<char>)
    ensures
        is_plain_shard(name) <==> is_shard(name) && !name.contains('/'),
        !is_plain_shard(dir.push('/') + name),
{
    reveal_strlit(".safetensors");
    if is_plain_shard(name) {
        assert(is_shard(name));
    }
    if is_shard(name) && !name.contains('/') {
        if name.len() == ".safetensors"@.len() {
            assert(name =~= name.subrange(0, name.len() as int));
        }
        assert forall|i: int| 0 <= i < name.len() implies #[trigger] name[i] != '/' by {
            assert(name.contains(name[i]));
        }
    }
    let whole = dir.push('/') + name;
    assert(whole[dir.len() as int] == '/');
}

proof fn left_over_holds(list: Seq<Seq<char>>, other: Seq<Seq<char>>, x: Seq<char>)
    ensures
        left_over(list, other).contains(x) <==> list.contains(x) && !other.contains(x),
    decreases list.len(),
{
    if list.len() > 0 {
        let init = list.drop_last();
        let (had, now) = (left_over(init, other), left_over(list, other));
        left_over_holds(init, other, x);
        assert(list[list.len() - 1] == list.last());
        if init.contains(x) {
            let k = choose|k: int| 0 <= k < init.len() && init[k] == x;
            assert(list[k] == x);
        }
        if list.contains(x) && x != list.last() {
            let k = choose|k: int| 0 <= k < list.len() && list[k] == x;
            assert(init[k] == x);
        }
        if !other.contains(list.last()) {
            assert(now[had.len() as int] == list.last());
            if had.contains(x) {
                let k = choose|k: int| 0 <= k < had.len() && had[k] == x;
                assert(now[k] == x);
            }
            if now.contains(x) && x != list.last() {
                let k = choose|k: int| 0 <= k < now.len() && now[k] == x;
                assert(had[k] == x);
            }
        }
    }
}

/// Shards are refused exactly where those that are there are not those of the
/// index, and the refusal tells which are missing and which are extra.
pub proof fn differences_are_told(
    indexed: Seq<Seq<char>>,
    discovered: Seq<Seq<char>>,
    x: Seq<char>,
)
    ensures
        shard_set_fault(indexed, discovered) matches Some(e) ==> {
            &&& e is ShardSet
            &&& e->ShardSet_0.contains(x) <==> indexed.contains(x) && !discovered.contains(x)
            &&& e->ShardSet_1.contains(x) <==> discovered.contains(x) && !indexed.contains(x)
        },
        indexed.contains(x) != discovered.contains(x) ==> shard_set_fault(indexed, discovered)
            is Some,
        (forall|y: Seq<char>| #[trigger] indexed.contains(y) <==> discovered.contains(y))
            ==> shard_set_fault(indexed, discovered) is None,
{
    let there = text::ascending_exists(discovered);
    let sorted = sorted_of(discovered);
    assert(ascending(there) && forall|y: Seq<char>| #[trigger]
        there.contains(y) <==> discovered.contains(y));
    assert(ascending(sorted) && forall|y: Seq<char>| #[trigger]
        sorted.contains(y) <==> discovered.contains(y));
    let (missing, extra) = (left_over(indexed, sorted), left_over(sorted, indexed));
    left_over_holds(indexed, sorted, x);
    left_over_holds(sorted, indexed, x);
    assert(sorted.contains(x) <==> discovered.contains(x));
    if missing.len() > 0 {
        left_over_holds(indexed, sorted, missing[0]);
        assert(missing.contains(missing[0]));
        assert(sorted.contains(missing[0]) <==> discovered.contains(missing[0]));
    }
    if extra.len() > 0 {
        left_over_holds(sorted, indexed, extra[0]);
        assert(extra.contains(extra[0]));
        assert(sorted.contains(extra[0]) <==> discovered.contains(extra[0]));
    }
}

/// An entry is taken exactly where it is metadata, or an object under a name that
/// was not seen and that the index assigns to this shard; and then it is seen
/// here, behind all that was seen before.
pub proof fn tensors_are_seen_in_their_shards(
    seen: Seq<(Seq<char>, Seq<char>)>,
    index: Seq<(Seq<char>, Seq<char>)>,
    shard: Seq<char>,
    entry: (Seq<char>, JsonV),
)
    ensures
        entry.0 == "__metadata__"@ ==> entry_seen(seen, index, shard, entry) == Ok::<
            Seq<(Seq<char>, Seq<char>)>,
            IndexErrorV,
        >(seen),
        entry.0 != "__metadata__"@ ==> {
            &&& entry_seen(seen, index, shard, entry) is Ok <==> entry.1 is Object && shard_for(
                seen,
                entry.0,
            ) is None && shard_for(index, entry.0) == Some(shard)
            &&& entry_seen(seen, index, shard, entry) matches Ok(now) ==> now.drop_last() == seen
                && now.last() == (entry.0, shard)
        },
        entry_seen(seen, index, shard, entry) matches Err(IndexErrorV::Duplicate(t, a, b)) ==> t
            == entry.0 && shard_for(seen, t) == Some(a) && b == shard,
        entry_seen(seen, index, shard, entry) matches Err(IndexErrorV::Misassigned(t, s, at)) ==> t
            == entry.0 && s == shard && shard_for(index, t) == Some(at) && at != s,
        entry_seen(seen, index, shard, entry) matches Err(IndexErrorV::Unindexed(t, s)) ==> t
            == entry.0 && s == shard && shard_for(index, t) is None,
{
    match entry_seen(seen, index, shard, entry) {
        Ok(now) => {
            if entry.0 != "__metadata__"@ {
                assert(now.drop_last() =~= seen);
            }
        },
        Err(_) => {},
    }
}

/// The counts of a directory that is accepted are those of its index.
pub proof fn counts_are_the_indexs(
    index: Seq<(Seq<char>, Seq<char>)>,
    shards: Seq<Seq<char>>,
    discovered: Seq<Seq<char>>,
    headers: Seq<JsonV>,
)
    ensures
        directory_of(index, shards, discovered, headers) matches Ok(counts) ==> counts.0
            == shards.len() && counts.1 == index.len(),
{
}

/// A refusal's text names what is missing as missing and what is extra as extra, a
/// tensor's two shards in the order in which they were read, and where it stands
/// before where it belongs.
pub proof fn refusals_name_their_parts(
    missing: Seq<Seq<char>>,
    extra: Seq<Seq<char>>,
    t: Seq<char>,
    a: Seq<char>,
    b: Seq<char>,
    index: Seq<char>,
    shard: Seq<char>,
)
    ensures
        text::occurs(
            error_text(IndexErrorV::ShardSet(missing, extra), index, shard),
            "(missing=["@ + quoted_each(missing) + "], extra=["@ + quoted_each(extra) + "])"@,
        ),
        text::occurs(
            error_text(IndexErrorV::Duplicate(t, a, b), index, shard),
            quoted(t) + " in shards "@ + quoted(a) + " and "@ + quoted(b),
        ),
        text::occurs(
            error_text(IndexErrorV::Misassigned(t, a, b), index, shard),
            quoted(t) + " is physically in "@ + quoted(a),
        ),
        ends(
            error_text(IndexErrorV::Misassigned(t, a, b), index, shard),
            " assigns it to "@ + quoted(b),
        ),
{
    reveal_strlit(" (missing=[");
    reveal_strlit("(missing=[");
    reveal_strlit("])");
    reveal_strlit("]); refusing mixed/incomplete directory");
    let set = error_text(IndexErrorV::ShardSet(missing, extra), index, shard);
    let told = "(missing=["@ + quoted_each(missing) + "], extra=["@ + quoted_each(extra) + "])"@;
    let at = "safetensors shard set does not match "@.len() as int + index.len() + 1;
    assert(set.subrange(at, at + told.len()) =~= told);
    assert(text::occurs_at(set, told, at));
    let twice = error_text(IndexErrorV::Duplicate(t, a, b), index, shard);
    let both = quoted(t) + " in shards "@ + quoted(a) + " and "@ + quoted(b);
    let from = "duplicate safetensors tensor "@.len() as int;
    assert(twice.subrange(from, from + both.len()) =~= both);
    assert(text::occurs_at(twice, both, from));
    let astray = error_text(IndexErrorV::Misassigned(t, a, b), index, shard);
    let stands = quoted(t) + " is physically in "@ + quoted(a);
    let off = "tensor "@.len() as int;
    assert(astray.subrange(off, off + stands.len()) =~= stands);
    assert(text::occurs_at(astray, stands, off));
    let belongs = " assigns it to "@ + quoted(b);
    assert(astray.subrange(astray.len() - belongs.len(), astray.len() as int) =~= belongs);
}

} // verus!
