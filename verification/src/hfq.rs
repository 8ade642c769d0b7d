//! The tensors of a model file.

use crate::text;
use vstd::prelude::*;

verus! {

/// A tensor of a model file: its name, quantisation tier and bytes.
#[derive(Debug, PartialEq, Eq)]
pub struct RawTensor {
    pub name: String,
    pub quant_type: u8,
    pub data: Vec<u8>,
}

/// Whether the first tensor under `name` is at `i`.
pub open spec fn first_named(table: Seq<RawTensor>, name: Seq<char>, i: int) -> bool {
    &&& 0 <= i < table.len()
    &&& table[i].name@ == name
    &&& forall|j: int| 0 <= j < i ==> (#[trigger] table[j]).name@ != name
}

/// The tier and the bytes of the tensor under `name`.
pub open spec fn lookup(table: Seq<RawTensor>, name: Seq<char>) -> Option<(u8, Seq<u8>)> {
    if exists|i: int| #[trigger] first_named(table, name, i) {
        let i = choose|i: int| #[trigger] first_named(table, name, i);
        Some((table[i].quant_type, table[i].data@))
    } else {
        None
    }
}

/// The tier and the bytes of a tensor that was read.
pub open spec fn raw_view(o: Option<(u8, Vec<u8>)>) -> Option<(u8, Seq<u8>)> {
    match o {
        Some(p) => Some((p.0, p.1@)),
        None => None,
    }
}

/// The tier and the bytes of the tensor under `name`.
pub fn read_tensor(table: &Vec<RawTensor>, name: &str) -> (r: Option<(u8, Vec<u8>)>)
    ensures
        raw_view(r) == lookup(table@, name@),
{
    let mut i: usize = 0;
    while i < table.len()
        invariant
            i <= table.len(),
            forall|j: int| 0 <= j < i ==> (#[trigger] table@[j]).name@ != name@,
        decreases table.len() - i,
    {
        if text::same(table[i].name.as_str(), name) {
            proof {
                assert(first_named(table@, name@, i as int));
                let k = choose|k: int| #[trigger] first_named(table@, name@, k);
                assert(k == i);
            }
            let mut data: Vec<u8> = Vec::new();
            data.extend_from_slice(table[i].data.as_slice());
            assert(data@ =~= table@[i as int].data@);
            return Some((table[i].quant_type, data));
        }
        i = i + 1;
    }
    assert forall|k: int| !#[trigger] first_named(table@, name@, k) by {}
    None
}

/// A model file's tensors with those of an overlay in front of them.
#[derive(Debug, PartialEq, Eq)]
pub struct TensorSource<'a> {
    pub base: &'a Vec<RawTensor>,
    pub overlay: Option<&'a Vec<RawTensor>>,
}

impl<'a> TensorSource<'a> {
    /// The tensors of a model file alone.
    pub fn new(base: &'a Vec<RawTensor>) -> (r: TensorSource<'a>)
        ensures
            r.base == base,
            r.overlay is None,
    {
        TensorSource { base, overlay: None }
    }

    /// The tensor under `name`: the overlay's where it holds one, else the file's.
    pub open spec fn resolved(&self, name: Seq<char>) -> Option<(u8, Seq<u8>)> {
        match self.overlay {
            Some(o) => match lookup(o@, name) {
                Some(t) => Some(t),
                None => lookup(self.base@, name),
            },
            None => lookup(self.base@, name),
        }
    }

    /// The tensor under `name`.
    pub fn tensor(&self, name: &str) -> (r: Option<(u8, Vec<u8>)>)
        ensures
            raw_view(r) == self.resolved(name@),
    {
        match self.overlay {
            Some(o) => {
                let hit = read_tensor(o, name);
                if hit.is_some() {
                    return hit;
                }
            },
            None => {},
        }
        read_tensor(self.base, name)
    }
}

/// A tensor that the overlay does not hold is the file's own.
pub proof fn overlay_leaves_other_tensors(
    base: &Vec<RawTensor>,
    overlay: &Vec<RawTensor>,
    name: Seq<char>,
)
    requires
        lookup(overlay@, name) is None,
    ensures
        (TensorSource { base, overlay: Some(overlay) }).resolved(name) == (TensorSource {
            base,
            overlay: None,
        }).resolved(name),
{
}

/// Of several tensors under one name the first is read, and none where there is
/// none.
pub proof fn the_first_tensor_is_read(table: Seq<RawTensor>, name: Seq<char>, i: int)
    requires
        0 <= i < table.len(),
        table[i].name@ == name,
        forall|j: int| 0 <= j < i ==> (#[trigger] table[j]).name@ != name,
    ensures
        lookup(table, name) == Some((table[i].quant_type, table[i].data@)),
        lookup(table.subrange(0, i), name) is None,
{
    assert(first_named(table, name, i));
    let k = choose|k: int| #[trigger] first_named(table, name, k);
    assert(k == i);
    let before = table.subrange(0, i);
    assert forall|j: int| !#[trigger] first_named(before, name, j) by {
        if 0 <= j < before.len() {
            assert(before[j] == table[j]);
        }
    }
}

/// The overlay goes first: what it holds is read from it, whatever the file holds.
pub proof fn the_overlay_goes_first(
    base: &Vec<RawTensor>,
    other: &Vec<RawTensor>,
    overlay: &Vec<RawTensor>,
    name: Seq<char>,
)
    requires
        lookup(overlay@, name) is Some,
    ensures
        (TensorSource { base, overlay: Some(overlay) }).resolved(name) == lookup(overlay@, name),
        (TensorSource { base, overlay: Some(overlay) }).resolved(name) == (TensorSource {
            base: other,
            overlay: Some(overlay),
        }).resolved(name),
{
}

} // verus!
