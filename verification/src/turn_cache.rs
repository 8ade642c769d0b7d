//! The per-turn token cache: the tokens of the assistant's last turns, with
//! the least recently used giving way.

use crate::text;
use std::collections::HashMap;
use std::collections::VecDeque;
use vstd::prelude::*;

verus! {

broadcast use vstd::std_specs::hash::group_hash_axioms;

/// The turns that are kept unless another bound is set.
pub const DEFAULT_CAP: usize = 32;

/// Tokens of past turns under their fingerprints.
#[derive(Debug, PartialEq, Eq)]
pub struct AsstTurnCache {
    cap: Option<usize>,
    map: HashMap<u64, Vec<u32>>,
    order: VecDeque<u64>,
}

/// A row of fingerprints without `fp`'s first place.
pub open spec fn without(order: Seq<u64>, fp: u64) -> Seq<u64>
    decreases order.len(),
{
    if order.len() == 0 {
        order
    } else if order[0] == fp {
        order.subrange(1, order.len() as int)
    } else {
        seq![order[0]] + without(order.subrange(1, order.len() as int), fp)
    }
}

/// How many of `n` turns give way before one more comes under a bound.
pub open spec fn giving_way(n: nat, cap: Option<usize>) -> nat {
    match cap {
        None => 0,
        Some(c) => if n < c {
            0
        } else if c == 0 {
            n
        } else {
            (n - (c - 1)) as nat
        },
    }
}

/// The bound that settings ask for: none where unbounded is `1`, else the
/// number of the bound's setting, else the default.
pub open spec fn cap_of(unbounded: Option<Seq<char>>, cap: Option<Seq<char>>) -> Option<usize> {
    if unbounded == Some("1"@) {
        None
    } else {
        match cap {
            Some(s) => match text::parsed_number(s, usize::MAX as nat) {
                Some(n) => Some(n as usize),
                None => Some(DEFAULT_CAP),
            },
            None => Some(DEFAULT_CAP),
        }
    }
}

/// The characters of an optional text.
pub open spec fn opt_str(o: Option<&str>) -> Option<Seq<char>> {
    match o {
        Some(s) => Some(s@),
        None => None,
    }
}

impl AsstTurnCache {
    /// The bound on the number of turns.
    pub closed spec fn cap(&self) -> Option<usize> {
        self.cap
    }

    /// The tokens under each fingerprint.
    pub closed spec fn tokens(&self) -> Map<u64, Vec<u32>> {
        self.map@
    }

    /// The fingerprints, least recently used first.
    pub closed spec fn order(&self) -> Seq<u64> {
        self.order@
    }

    /// Every cached turn has exactly one place in the order, and the bound holds.
    pub open spec fn wf(&self) -> bool {
        &&& self.order().no_duplicates()
        &&& forall|fp: u64| #[trigger]
            self.order().contains(fp) <==> self.tokens().dom().contains(fp)
        &&& match self.cap() {
            Some(c) => self.order().len() <= (if c == 0 {
                1
            } else {
                c
            }),
            None => true,
        }
    }

    /// An empty cache with the bound that the settings ask for.
    pub fn new_from_env(unbounded: Option<&str>, cap: Option<&str>) -> (r: AsstTurnCache)
        ensures
            r.cap() == cap_of(opt_str(unbounded), opt_str(cap)),
            r.tokens() == Map::<u64, Vec<u32>>::empty(),
            r.order() == Seq::<u64>::empty(),
            r.wf(),
    {
        let no_bound = match unbounded {
            Some(s) => text::same(s, "1"),
            None => false,
        };
        let bound: Option<usize> = if no_bound {
            None
        } else {
            match cap {
                Some(s) => match text::parse_number(s, usize::MAX as u64) {
                    Some(n) => Some(n as usize),
                    None => Some(DEFAULT_CAP),
                },
                None => Some(DEFAULT_CAP),
            }
        };
        AsstTurnCache { cap: bound, map: HashMap::new(), order: VecDeque::new() }
    }

    /// Moves a fingerprint to the end of the order.
    pub fn touch_mru(&mut self, fp: u64)
        ensures
            final(self).cap() == old(self).cap(),
            final(self).tokens() == old(self).tokens(),
            final(self).order() == without(old(self).order(), fp).push(fp),
    {
        let ghost before = self.order@;
        let n: usize = self.order.len();
        let mut pos: usize = 0;
        while pos < n && self.order[pos] != fp
            invariant
                pos <= n,
                n == self.order@.len(),
                forall|j: int| 0 <= j < pos ==> self.order@[j] != fp,
            decreases n - pos,
        {
            pos = pos + 1;
        }
        proof {
            without_at(before, fp, pos as int);
        }
        if pos < n {
            self.order.remove(pos);
        }
        self.order.push_back(fp);
    }

    /// Whether a turn is cached.
    pub fn contains_key(&self, fp: &u64) -> (r: bool)
        ensures
            r == self.tokens().dom().contains(*fp),
    {
        self.map.contains_key(fp)
    }

    /// The tokens of a turn; it becomes the most recently used.
    pub fn get(&mut self, fp: &u64) -> (r: Option<&Vec<u32>>)
        ensures
            match r {
                Some(v) => old(self).tokens().dom().contains(*fp) && *v == old(self).tokens()[*fp],
                None => !old(self).tokens().dom().contains(*fp),
            },
            final(self).cap() == old(self).cap(),
            final(self).tokens() == old(self).tokens(),
            final(self).order() == (if old(self).tokens().dom().contains(*fp) {
                without(old(self).order(), *fp).push(*fp)
            } else {
                old(self).order()
            }),
    {
        if self.map.contains_key(fp) {
            self.touch_mru(*fp);
            self.map.get(fp)
        } else {
            None
        }
    }
}

/// The order after a turn was put in.
pub open spec fn order_with(
    order: Seq<u64>,
    tokens: Map<u64, Vec<u32>>,
    cap: Option<usize>,
    fp: u64,
) -> Seq<u64> {
    if tokens.dom().contains(fp) {
        without(order, fp).push(fp)
    } else {
        order.subrange(giving_way(order.len(), cap) as int, order.len() as int).push(fp)
    }
}

/// The tokens after a turn was put in: the turns that gave way are gone.
pub open spec fn tokens_with(
    order: Seq<u64>,
    tokens: Map<u64, Vec<u32>>,
    cap: Option<usize>,
    fp: u64,
    turn: Vec<u32>,
) -> Map<u64, Vec<u32>> {
    if tokens.dom().contains(fp) {
        tokens.insert(fp, turn)
    } else {
        tokens.remove_keys(
            order.subrange(0, giving_way(order.len(), cap) as int).to_set(),
        ).insert(fp, turn)
    }
}

impl AsstTurnCache {
    /// Puts a turn in as the most recently used. A new turn makes the least
    /// recently used ones give way until the bound leaves room for it.
    pub fn insert(&mut self, fp: u64, tokens: Vec<u32>)
        ensures
            final(self).cap() == old(self).cap(),
            final(self).order() == order_with(
                old(self).order(),
                old(self).tokens(),
                old(self).cap(),
                fp,
            ),
            final(self).tokens() == tokens_with(
                old(self).order(),
                old(self).tokens(),
                old(self).cap(),
                fp,
                tokens,
            ),
    {
        if self.map.contains_key(&fp) {
            self.map.insert(fp, tokens);
            self.touch_mru(fp);
            return;
        }
        let ghost order = self.order@;
        let ghost before = self.map@;
        let ghost mut gone: int = 0;
        assert(order.subrange(0, order.len() as int) =~= order);
        assert(before.remove_keys(order.subrange(0, 0).to_set()) =~= before);
        match self.cap {
            Some(c) => {
                while self.order.len() >= c && self.order.len() > 0
                    invariant
                        0 <= gone <= order.len(),
                        self.cap == Some(c),
                        old(self).cap == Some(c),
                        gone <= giving_way(order.len(), Some(c)),
                        self.order@ == order.subrange(gone, order.len() as int),
                        self.map@ == before.remove_keys(order.subrange(0, gone).to_set()),
                    decreases self.order@.len(),
                {
                    let oldest = self.order.pop_front();
                    match oldest {
                        Some(old_fp) => {
                            self.map.remove(&old_fp);
                            proof {
                                assert(old_fp == order[gone]);
                                let a = order.subrange(0, gone);
                                let b = order.subrange(0, gone + 1);
                                assert(b =~= a.push(order[gone]));
                                assert forall|x: u64| #[trigger] b.to_set().contains(x) <==> (
                                a.to_set().contains(x) || x == order[gone]) by {
                                    if a.contains(x) {
                                        let i = choose|i: int| 0 <= i < a.len() && a[i] == x;
                                        assert(b[i] == x);
                                    }
                                    if b.contains(x) {
                                        let i = choose|i: int| 0 <= i < b.len() && b[i] == x;
                                        if i < gone {
                                            assert(a[i] == x);
                                        }
                                    }
                                    assert(b[gone] == order[gone]);
                                }
                                gone = gone + 1;
                                assert(self.order@ =~= order.subrange(gone, order.len() as int));
                                assert(self.map@ =~= before.remove_keys(b.to_set()));
                            }
                        },
                        None => {},
                    }
                }
            },
            None => {},
        }
        assert(gone == giving_way(order.len(), self.cap));
        self.map.insert(fp, tokens);
        self.order.push_back(fp);
    }
}

/// Putting a turn in keeps the cache well formed: one place per turn, none
/// without a turn, and the bound holds.
pub proof fn insert_keeps_cache(before: &AsstTurnCache, after: &AsstTurnCache, fp: u64, turn: Vec<u32>)
    requires
        before.wf(),
        after.cap() == before.cap(),
        after.order() == order_with(before.order(), before.tokens(), before.cap(), fp),
        after.tokens() == tokens_with(before.order(), before.tokens(), before.cap(), fp, turn),
    ensures
        after.wf(),
{
    let o = before.order();
    if before.tokens().dom().contains(fp) {
        assert(o.contains(fp));
        touch_keeps_order(o, fp);
    } else {
        let k = giving_way(o.len(), before.cap()) as int;
        let kept = o.subrange(k, o.len() as int);
        let gone = o.subrange(0, k);
        assert(!o.contains(fp));
        assert forall|x: u64| #[trigger] kept.contains(x) implies o.contains(x) by {
            let i = choose|i: int| 0 <= i < kept.len() && kept[i] == x;
            assert(o[k + i] == x);
        }
        let a = after.order();
        assert forall|i: int, j: int| 0 <= i < a.len() && 0 <= j < a.len() && i != j implies a[i]
            != a[j] by {
            if i < kept.len() {
                assert(kept.contains(kept[i]));
            }
            if j < kept.len() {
                assert(kept.contains(kept[j]));
            }
        }
        assert forall|x: u64| #[trigger] a.contains(x) <==> after.tokens().dom().contains(x) by {
            if a.contains(x) {
                let i = choose|i: int| 0 <= i < a.len() && a[i] == x;
                if i < kept.len() {
                    assert(kept[i] == x);
                    assert(kept.contains(x));
                    assert(o.contains(x));
                    if gone.to_set().contains(x) {
                        let j = choose|j: int| 0 <= j < gone.len() && gone[j] == x;
                        assert(o[j] == o[k + i]);
                    }
                }
            }
            if after.tokens().dom().contains(x) {
                if x == fp {
                    assert(a[a.len() - 1] == fp);
                } else {
                    assert(before.tokens().dom().contains(x));
                    assert(o.contains(x));
                    let j = choose|j: int| 0 <= j < o.len() && o[j] == x;
                    if j < k {
                        assert(gone[j] == x);
                        assert(gone.to_set().contains(x));
                    } else {
                        assert(a[j - k] == x);
                    }
                }
            }
        }
    }
}

/// Moving a turn to the end of the order keeps one place per turn.
pub proof fn touch_keeps_order(order: Seq<u64>, fp: u64)
    requires
        order.no_duplicates(),
        order.contains(fp),
    ensures
        without(order, fp).push(fp).no_duplicates(),
        without(order, fp).push(fp).len() == order.len(),
        forall|x: u64| #[trigger] without(order, fp).push(fp).contains(x) <==> order.contains(x),
{
    let p = choose|p: int| 0 <= p < order.len() && order[p] == fp;
    without_at(order, fp, p);
    let w = order.remove(p);
    let a = w.push(fp);
    assert forall|x: u64| #[trigger] a.contains(x) <==> order.contains(x) by {
        if a.contains(x) {
            let i = choose|i: int| 0 <= i < a.len() && a[i] == x;
            if i < p {
                assert(order[i] == x);
            } else if i < w.len() {
                assert(order[i + 1] == x);
            }
        }
        if order.contains(x) {
            let i = choose|i: int| 0 <= i < order.len() && order[i] == x;
            if i < p {
                assert(a[i] == x);
            } else if i > p {
                assert(a[i - 1] == x);
            } else {
                assert(a[a.len() - 1] == x);
            }
        }
    }
}

/// What was put in is found again, and is the last to give way.
pub proof fn inserted_turn_is_found(
    before: &AsstTurnCache,
    after: &AsstTurnCache,
    fp: u64,
    turn: Vec<u32>,
)
    requires
        after.order() == order_with(before.order(), before.tokens(), before.cap(), fp),
        after.tokens() == tokens_with(before.order(), before.tokens(), before.cap(), fp, turn),
    ensures
        after.tokens().dom().contains(fp),
        after.tokens()[fp] == turn,
        after.order().last() == fp,
{
}

/// The turns that stay are the most recently used, with their tokens: where a
/// new turn makes others give way, it is those that were used longest ago.
pub proof fn least_recently_used_give_way(
    before: &AsstTurnCache,
    after: &AsstTurnCache,
    fp: u64,
    turn: Vec<u32>,
    i: int,
)
    requires
        before.wf(),
        !before.tokens().dom().contains(fp),
        after.order() == order_with(before.order(), before.tokens(), before.cap(), fp),
        after.tokens() == tokens_with(before.order(), before.tokens(), before.cap(), fp, turn),
        0 <= i < before.order().len(),
    ensures
        after.tokens().dom().contains(before.order()[i]) <==> giving_way(
            before.order().len(),
            before.cap(),
        ) <= i,
        after.tokens().dom().contains(before.order()[i]) ==> after.tokens()[before.order()[i]]
            == before.tokens()[before.order()[i]],
{
    let o = before.order();
    let k = giving_way(o.len(), before.cap()) as int;
    let gone = o.subrange(0, k);
    let x = o[i];
    assert(o.contains(x));
    if i < k {
        assert(gone[i] == x);
        assert(gone.to_set().contains(x));
    } else if gone.to_set().contains(x) {
        let j = choose|j: int| 0 <= j < gone.len() && gone[j] == x;
        assert(o[j] == o[i]);
    }
}

/// Taking the first place away, where all before it hold something else.
proof fn without_at(order: Seq<u64>, fp: u64, pos: int)
    requires
        0 <= pos <= order.len(),
        forall|j: int| 0 <= j < pos ==> order[j] != fp,
        pos < order.len() ==> order[pos] == fp,
    ensures
        without(order, fp) == (if pos < order.len() {
            order.remove(pos)
        } else {
            order
        }),
    decreases order.len(),
{
    if order.len() > 0 {
        if pos == 0 {
            assert(order.remove(0) =~= order.subrange(1, order.len() as int));
        } else {
            let rest = order.subrange(1, order.len() as int);
            without_at(rest, fp, pos - 1);
            if pos < order.len() {
                assert(order.remove(pos) =~= seq![order[0]] + rest.remove(pos - 1));
            } else {
                assert(order =~= seq![order[0]] + rest);
            }
        }
    }
}

/// A cache is unbounded exactly where that is asked for with a one; else it has
/// the bound that was asked for, and the usual one where what was asked for is no
/// number.
pub proof fn bounds_are_asked_for(unbounded: Option<Seq<char>>, cap: Seq<char>, n: nat)
    ensures
        cap_of(unbounded, Some(cap)) is None <==> unbounded == Some("1"@),
        unbounded != Some("1"@) && text::parsed_number(cap, usize::MAX as nat) == Some(n)
            ==> cap_of(unbounded, Some(cap)) == Some(n as usize),
        unbounded != Some("1"@) && text::parsed_number(cap, usize::MAX as nat) is None ==> cap_of(
            unbounded,
            Some(cap),
        ) == cap_of(unbounded, None),
        cap_of(None, None) == Some(DEFAULT_CAP),
{
}

} // verus!
