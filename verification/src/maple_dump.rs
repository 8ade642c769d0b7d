//! Records of a layer's residual, as they are written to a file for inspection:
//! the layer, the width, and the residual's numbers, four bytes each, the low
//! one first.

use crate::spec_ngram::prefix;
use vstd::prelude::*;

verus! {

/// The four bytes of a number, the low one first.
pub open spec fn four_bytes(n: u32) -> Seq<u8> {
    seq![
        (n % 256) as u8,
        ((n / 256) % 256) as u8,
        ((n / 65536) % 256) as u8,
        (n / 16777216) as u8,
    ]
}

/// The bytes of several numbers, one behind the other.
pub open spec fn all_bytes(numbers: Seq<u32>) -> Seq<u8>
    decreases numbers.len(),
{
    if numbers.len() == 0 {
        Seq::empty()
    } else {
        all_bytes(numbers.drop_last()) + four_bytes(numbers.last())
    }
}

fn push_number(out: &mut Vec<u8>, n: u32)
    ensures
        final(out)@ == old(out)@ + four_bytes(n),
{
    let ghost before = out@;
    out.push((n % 256) as u8);
    out.push(((n / 256) % 256) as u8);
    out.push(((n / 65536) % 256) as u8);
    out.push((n / 16777216) as u8);
    assert(out@ =~= before + four_bytes(n));
}

/// The numbers of a record: the layer's and the width's low 32 bits, and at most
/// as many of the residual's numbers as the width says.
pub open spec fn record_numbers(layer: usize, hidden: usize, residual: Seq<u32>) -> Seq<u32> {
    seq![layer as u32, hidden as u32] + (if residual.len() <= hidden {
        residual
    } else {
        residual.subrange(0, hidden as int)
    })
}

fn bytes_of(numbers: &Vec<u32>) -> (out: Vec<u8>)
    ensures
        out@ == all_bytes(numbers@),
{
    let mut out: Vec<u8> = Vec::new();
    let mut i: usize = 0;
    assert(out@ =~= all_bytes(numbers@.subrange(0, 0)));
    while i < numbers.len()
        invariant
            i <= numbers@.len(),
            out@ == all_bytes(numbers@.subrange(0, i as int)),
        decreases numbers@.len() - i,
    {
        push_number(&mut out, numbers[i]);
        proof {
            let next = numbers@.subrange(0, i + 1);
            assert(next.drop_last() =~= numbers@.subrange(0, i as int));
            assert(next.last() == numbers@[i as int]);
        }
        i = i + 1;
    }
    assert(numbers@.subrange(0, i as int) =~= numbers@);
    out
}

/// The record of a layer's residual, whose numbers are given by their bits.
pub fn layer_record(layer: usize, hidden: usize, residual: &Vec<u32>) -> (out: Vec<u8>)
    ensures
        out@ == all_bytes(record_numbers(layer, hidden, residual@)),
{
    let n: usize = if residual.len() <= hidden {
        residual.len()
    } else {
        hidden
    };
    let mut numbers: Vec<u32> = Vec::new();
    numbers.push(
        #[verifier::truncate]
        (layer as u32),
    );
    numbers.push(
        #[verifier::truncate]
        (hidden as u32),
    );
    let mut head = prefix(residual, n);
    numbers.append(&mut head);
    assert(numbers@ =~= record_numbers(layer, hidden, residual@));
    bytes_of(&numbers)
}

/// The number that four bytes from `i` on write, the low one first.
pub open spec fn number_at(bytes: Seq<u8>, i: int) -> int {
    bytes[i] + 256 * bytes[i + 1] + 65536 * bytes[i + 2] + 16777216 * bytes[i + 3]
}

/// A record can be read back: it has four bytes for each of its numbers, and
/// they write those numbers.
pub proof fn records_read_back(numbers: Seq<u32>)
    ensures
        all_bytes(numbers).len() == 4 * numbers.len(),
        forall|i: int|
            0 <= i < numbers.len() ==> number_at(all_bytes(numbers), 4 * i) == #[trigger] numbers[i],
    decreases numbers.len(),
{
    if numbers.len() > 0 {
        let init = numbers.drop_last();
        let last = numbers.last();
        records_read_back(init);
        let head = all_bytes(init);
        let all = all_bytes(numbers);
        assert(all =~= head + four_bytes(last));
        assert forall|i: int| 0 <= i < numbers.len() implies number_at(all, 4 * i)
            == #[trigger] numbers[i] by {
            if i < init.len() {
                assert(init[i] == numbers[i]);
                assert(number_at(head, 4 * i) == init[i]);
                assert(forall|j: int| 0 <= j < head.len() ==> all[j] == head[j]);
            } else {
                assert(forall|j: int| 0 <= j < 4 ==> all[head.len() + j] == four_bytes(last)[j]);
                assert(all[4 * i] == four_bytes(last)[0]);
                assert(all[4 * i + 1] == four_bytes(last)[1]);
                assert(all[4 * i + 2] == four_bytes(last)[2]);
                assert(all[4 * i + 3] == four_bytes(last)[3]);
            }
        }
    }
}

/// A record begins with the layer and the width, and the residual's numbers follow
/// in their places, as many as there are but no more than the width.
pub proof fn records_hold_the_residual(layer: usize, hidden: usize, residual: Seq<u32>)
    requires
        layer <= u32::MAX,
        hidden <= u32::MAX,
    ensures
        ({
            let bytes = all_bytes(record_numbers(layer, hidden, residual));
            let n = if residual.len() < hidden {
                residual.len() as int
            } else {
                hidden as int
            };
            &&& bytes.len() == 8 + 4 * n
            &&& number_at(bytes, 0) == layer
            &&& number_at(bytes, 4) == hidden
            &&& forall|i: int|
                0 <= i < n ==> number_at(bytes, 8 + 4 * i) == #[trigger] residual[i]
        }),
{
    let numbers = record_numbers(layer, hidden, residual);
    records_read_back(numbers);
    let bytes = all_bytes(numbers);
    assert(numbers[0] == layer && numbers[1] == hidden);
    assert(number_at(bytes, 4 * 0int) == numbers[0] && number_at(bytes, 4 * 1int) == numbers[1]);
    assert forall|i: int|
        0 <= i < residual.len() && i < hidden implies number_at(bytes, 8 + 4 * i)
        == #[trigger] residual[i] by {
        assert(numbers[2 + i] == residual[i]);
        assert(number_at(bytes, 4 * (2 + i)) == numbers[2 + i]);
    }
}

} // verus!
