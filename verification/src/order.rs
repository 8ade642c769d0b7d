//! Order in a row of operations.

use vstd::prelude::*;

verus! {

/// Whether `op` stands at place `i` of a row and nowhere else.
pub open spec fn only_at<T>(ops: Seq<T>, op: T, i: int) -> bool {
    &&& 0 <= i < ops.len()
    &&& ops[i] == op
    &&& forall|j: int| 0 <= j < ops.len() && j != i ==> #[trigger] ops[j] != op
}

/// Whether two operations each stand in a row once, `first` before `second`.
pub open spec fn follows<T>(ops: Seq<T>, first: T, second: T) -> bool {
    exists|i: int, j: int|
        i < j && #[trigger] only_at(ops, first, i) && #[trigger] only_at(ops, second, j)
}

/// Whether a row holds another without a gap.
pub open spec fn holds<T>(ops: Seq<T>, part: Seq<T>) -> bool {
    exists|k: int| #[trigger] stands_at(ops, part, k)
}

/// Whether a row holds another without a gap, from place `k` on.
pub open spec fn stands_at<T>(ops: Seq<T>, part: Seq<T>, k: int) -> bool {
    0 <= k <= ops.len() - part.len() && ops.subrange(k, k + part.len()) == part
}

/// What stands in a row stands in a longer one.
pub proof fn held_in_longer<T>(before: Seq<T>, ops: Seq<T>, behind: Seq<T>, part: Seq<T>)
    requires
        holds(ops, part),
    ensures
        holds(before + ops + behind, part),
{
    let k = choose|k: int| #[trigger] stands_at(ops, part, k);
    let all = before + ops + behind;
    let at = before.len() + k;
    assert(all.subrange(at, at + part.len()) =~= ops.subrange(k, k + part.len()));
    assert(stands_at(all, part, at));
}

/// A row holds itself.
pub proof fn held_in_itself<T>(ops: Seq<T>)
    ensures
        holds(ops, ops),
{
    assert(ops.subrange(0, ops.len() as int) =~= ops);
    assert(stands_at(ops, ops, 0));
}

} // verus!
