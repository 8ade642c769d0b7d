//! Tensor element types as the kernels know them.

use vstd::prelude::*;

verus! {

/// The element type of a tensor on the device.
#[derive(Debug, Clone, Copy, PartialEq, Eq, Structural)]
pub enum DType {
    F16,
    F32,
    BF16,
    Q8_0,
    MQ4G256,
    MQ6G256,
    HFQ4G256,
    HFQ6G256,
    MQ2G256Lloyd,
    /// The unrotated sibling of `MQ2G256Lloyd`: it carries ternary weights
    /// without loss.
    MQ2G256LloydU,
}

impl DType {
    /// The type's name.
    pub open spec fn text(self) -> Seq<char> {
        match self {
            DType::F16 => "F16"@,
            DType::F32 => "F32"@,
            DType::BF16 => "BF16"@,
            DType::Q8_0 => "Q8_0"@,
            DType::MQ4G256 => "MQ4G256"@,
            DType::MQ6G256 => "MQ6G256"@,
            DType::HFQ4G256 => "HFQ4G256"@,
            DType::HFQ6G256 => "HFQ6G256"@,
            DType::MQ2G256Lloyd => "MQ2G256Lloyd"@,
            DType::MQ2G256LloydU => "MQ2G256LloydU"@,
        }
    }

    /// The type's name.
    pub fn name(self) -> (r: &'static str)
        ensures
            r@ == self.text(),
    {
        match self {
            DType::F16 => "F16",
            DType::F32 => "F32",
            DType::BF16 => "BF16",
            DType::Q8_0 => "Q8_0",
            DType::MQ4G256 => "MQ4G256",
            DType::MQ6G256 => "MQ6G256",
            DType::HFQ4G256 => "HFQ4G256",
            DType::HFQ6G256 => "HFQ6G256",
            DType::MQ2G256Lloyd => "MQ2G256Lloyd",
            DType::MQ2G256LloydU => "MQ2G256LloydU",
        }
    }
}

/// The bits of the 32-bit float that a 16-bit brain float widens to: its bits
/// are the upper half.
pub fn bf16_to_f32(bits: u16) -> (r: u32)
    ensures
        r == bits * 0x1_0000,
{
    let b: u32 = bits as u32;
    assert(b << 16 == b * 0x1_0000) by (bit_vector)
        requires
            b <= 0xffff,
    ;
    b << 16
}

/// The bits of the 32-bit floats that little-endian brain floats widen to; an
/// odd byte at the end is left out.
pub open spec fn widened(data: Seq<u8>) -> Seq<u32> {
    Seq::new(
        data.len() / 2,
        |i: int| ((data[2 * i] + data[2 * i + 1] * 256) * 0x1_0000) as u32,
    )
}

/// The bits of the 32-bit floats that little-endian brain floats widen to.
pub(crate) fn widen(data: &Vec<u8>) -> (out: Vec<u32>)
    ensures
        out@ == widened(data@),
{
    let n: usize = data.len() / 2;
    let mut out: Vec<u32> = Vec::new();
    let mut i: usize = 0;
    while i < n
        invariant
            i <= n,
            n == data.len() / 2,
            out@.len() == i,
            forall|j: int| 0 <= j < i ==> #[trigger] out@[j] == widened(data@)[j],
        decreases n - i,
    {
        let lo: u16 = data[2 * i] as u16;
        let hi: u16 = data[2 * i + 1] as u16;
        let bits: u16 = lo + hi * 256;
        out.push(bf16_to_f32(bits));
        i = i + 1;
    }
    assert(out@ =~= widened(data@));
    out
}

/// No two types have one name.
pub proof fn names_tell_types_apart(a: DType, b: DType)
    ensures
        a.text() == b.text() ==> a == b,
{
    reveal_strlit("F16");
    reveal_strlit("F32");
    reveal_strlit("BF16");
    reveal_strlit("Q8_0");
    reveal_strlit("MQ4G256");
    reveal_strlit("MQ6G256");
    reveal_strlit("HFQ4G256");
    reveal_strlit("HFQ6G256");
    reveal_strlit("MQ2G256Lloyd");
    reveal_strlit("MQ2G256LloydU");
    assert("F16"@.len() == 3 && "F32"@.len() == 3 && "F16"@[1] == '1' && "F32"@[1] == '3');
    assert("BF16"@.len() == 4 && "Q8_0"@.len() == 4 && "BF16"@[0] == 'B' && "Q8_0"@[0] == 'Q');
    assert("MQ4G256"@.len() == 7 && "MQ6G256"@.len() == 7 && "MQ4G256"@[2] == '4'
        && "MQ6G256"@[2] == '6');
    assert("HFQ4G256"@.len() == 8 && "HFQ6G256"@.len() == 8 && "HFQ4G256"@[3] == '4'
        && "HFQ6G256"@[3] == '6');
    assert("MQ2G256Lloyd"@.len() == 12 && "MQ2G256LloydU"@.len() == 13);
}

/// A widened float's upper half is the brain float, low byte first, and its lower
/// half is zero; each float is widened on its own.
pub proof fn floats_are_widened_in_place(data: Seq<u8>, i: int)
    requires
        0 <= i < data.len() / 2,
    ensures
        widened(data).len() == data.len() / 2,
        widened(data)[i] % 0x1_0000 == 0,
        widened(data)[i] / 0x1_0000 % 256 == data[2 * i],
        widened(data)[i] / 0x100_0000 == data[2 * i + 1],
{
}

} // verus!
