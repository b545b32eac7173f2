//! Putting things in order without disturbing those that are level.
use vstd::prelude::*;

use crate::order::Rank;

verus! {

/// What a thing is put in order by.
pub trait Ranked: Sized {
    /// Where this key stands relative to another.
    spec fn rank(self, other: Self) -> Rank;

    /// Exchanging two keys turns their rank around.
    proof fn rank_flips(a: Self, b: Self)
        ensures
            b.rank(a) == a.rank(b).flipped(),
    ;

    /// The order is transitive.
    proof fn rank_transitive(a: Self, b: Self, c: Self)
        requires
            a.rank(b) != Rank::After,
            b.rank(c) != Rank::After,
        ensures
            a.rank(c) != Rank::After,
            a.rank(c) == Rank::Same ==> a.rank(b) == Rank::Same && b.rank(c) == Rank::Same,
    ;

    /// Where this key stands relative to another.
    fn rank_with(&self, other: &Self) -> (r: Rank)
        ensures
            r == self.rank(*other),
    ;
}

/// Whether the thing at `i` is to stand before the thing at `j`: its key ranks
/// before the other, or level with it and stood before it already.
pub open spec fn goes_first<K: Ranked>(keys: Seq<K>, i: int, j: int) -> bool {
    match keys[i].rank(keys[j]) {
        Rank::Before => true,
        Rank::Same => i < j,
        Rank::After => false,
    }
}

/// Which of two things goes first carries over a third one between them.
proof fn lemma_goes_first_transitive<K: Ranked>(keys: Seq<K>, i: int, j: int, k: int)
    requires
        goes_first(keys, i, j),
        goes_first(keys, j, k),
    ensures
        goes_first(keys, i, k),
{
    K::rank_transitive(keys[i], keys[j], keys[k]);
}

/// Of two things, exactly one goes first.
proof fn lemma_goes_first_one_way<K: Ranked>(keys: Seq<K>, i: int, j: int)
    requires
        i != j,
    ensures
        goes_first(keys, i, j) == !goes_first(keys, j, i),
{
    K::rank_flips(keys[i], keys[j]);
}

/// Whether `p` lists positions, each before those it goes first of.
pub open spec fn in_order<K: Ranked>(keys: Seq<K>, p: Seq<usize>) -> bool {
    forall|i: int, j: int|
        0 <= i < j < p.len() ==> goes_first(keys, #[trigger] p[i] as int, #[trigger] p[j] as int)
}

/// Whether `p` lists the positions `from..to` and no others.
pub open spec fn lists_range(p: Seq<usize>, from: int, to: int) -> bool {
    &&& p.len() == to - from
    &&& forall|i: int| 0 <= i < p.len() ==> from <= #[trigger] p[i] < to
    &&& forall|k: usize| from <= k < to ==> #[trigger] p.contains(k)
}

/// Merges two ordered lists of positions, the first before the second.
fn merge<K: Ranked>(
    keys: &Vec<K>,
    a: &Vec<usize>,
    b: &Vec<usize>,
    Ghost(from): Ghost<int>,
    Ghost(mid): Ghost<int>,
    Ghost(to): Ghost<int>,
) -> (r: Vec<usize>)
    requires
        0 <= from <= mid <= to <= keys@.len(),
        lists_range(a@, from, mid),
        lists_range(b@, mid, to),
        in_order(keys@, a@),
        in_order(keys@, b@),
    ensures
        lists_range(r@, from, to),
        in_order(keys@, r@),
{
    let mut out: Vec<usize> = Vec::new();
    let mut i: usize = 0;
    let mut j: usize = 0;
    while i < a.len() || j < b.len()
        invariant
            0 <= from <= mid <= to <= keys@.len(),
            lists_range(a@, from, mid),
            lists_range(b@, mid, to),
            in_order(keys@, a@),
            in_order(keys@, b@),
            i <= a@.len(),
            j <= b@.len(),
            out@.len() == i + j,
            in_order(keys@, out@),
            forall|x: int| 0 <= x < out@.len() ==> from <= #[trigger] out@[x] < to,
            forall|x: int, y: int|
                0 <= x < out@.len() && i <= y < a@.len() ==> goes_first(
                    keys@,
                    #[trigger] out@[x] as int,
                    #[trigger] a@[y] as int,
                ),
            forall|x: int, y: int|
                0 <= x < out@.len() && j <= y < b@.len() ==> goes_first(
                    keys@,
                    #[trigger] out@[x] as int,
                    #[trigger] b@[y] as int,
                ),
            forall|y: int| 0 <= y < i ==> out@.contains(#[trigger] a@[y]),
            forall|y: int| 0 <= y < j ==> out@.contains(#[trigger] b@[y]),
        decreases a@.len() - i + b@.len() - j,
    {
        let take_a: bool = if i >= a.len() {
            false
        } else if j >= b.len() {
            true
        } else {
            let x: usize = a[i];
            let y: usize = b[j];
            proof {
                lemma_goes_first_one_way(keys@, x as int, y as int);
            }
            keys[x].rank_with(&keys[y]) != Rank::After
        };
        let ghost before = out@;
        if take_a {
            let x: usize = a[i];
            out.push(x);
            proof {
                assert forall|y: int| j <= y < b@.len() implies goes_first(
                    keys@,
                    x as int,
                    #[trigger] b@[y] as int,
                ) by {
                    if y > j {
                        lemma_goes_first_transitive(
                            keys@,
                            x as int,
                            b@[j as int] as int,
                            b@[y] as int,
                        );
                    }
                }
                assert(out@[out@.len() - 1] == x);
                assert forall|y: int| 0 <= y < i implies out@.contains(#[trigger] a@[y]) by {
                    let z = choose|z: int| 0 <= z < before.len() && before[z] == a@[y];
                    assert(out@[z] == a@[y]);
                }
                assert forall|y: int| 0 <= y < j implies out@.contains(#[trigger] b@[y]) by {
                    let z = choose|z: int| 0 <= z < before.len() && before[z] == b@[y];
                    assert(out@[z] == b@[y]);
                }
            }
            i += 1;
        } else {
            let y: usize = b[j];
            out.push(y);
            proof {
                assert forall|x: int| i <= x < a@.len() implies goes_first(
                    keys@,
                    y as int,
                    #[trigger] a@[x] as int,
                ) by {
                    if x > i {
                        lemma_goes_first_transitive(
                            keys@,
                            y as int,
                            a@[i as int] as int,
                            a@[x] as int,
                        );
                    }
                }
                assert(out@[out@.len() - 1] == y);
                assert forall|x: int| 0 <= x < i implies out@.contains(#[trigger] a@[x]) by {
                    let z = choose|z: int| 0 <= z < before.len() && before[z] == a@[x];
                    assert(out@[z] == a@[x]);
                }
                assert forall|x: int| 0 <= x < j implies out@.contains(#[trigger] b@[x]) by {
                    let z = choose|z: int| 0 <= z < before.len() && before[z] == b@[x];
                    assert(out@[z] == b@[x]);
                }
            }
            j += 1;
        }
    }
    assert forall|k: usize| from <= k < to implies #[trigger] out@.contains(k) by {
        if k < mid {
            assert(a@.contains(k));
            let y = choose|y: int| 0 <= y < a@.len() && a@[y] == k;
            assert(out@.contains(a@[y]));
        } else {
            assert(b@.contains(k));
            let y = choose|y: int| 0 <= y < b@.len() && b@[y] == k;
            assert(out@.contains(b@[y]));
        }
    }
    out
}

/// The positions `from..to` in the order in which the things are to stand.
fn arrange_range<K: Ranked>(keys: &Vec<K>, from: usize, to: usize) -> (r: Vec<usize>)
    requires
        from <= to <= keys@.len(),
    ensures
        lists_range(r@, from as int, to as int),
        in_order(keys@, r@),
    decreases to - from,
{
    if to - from <= 1 {
        let mut out: Vec<usize> = Vec::new();
        if from < to {
            out.push(from);
            assert(out@[0] == from);
        }
        return out;
    }
    let mid: usize = from + (to - from) / 2;
    let a = arrange_range(keys, from, mid);
    let b = arrange_range(keys, mid, to);
    merge(keys, &a, &b, Ghost(from as int), Ghost(mid as int), Ghost(to as int))
}

/// The positions of the keys in the order in which their things are to stand.
pub fn arrange<K: Ranked>(keys: &Vec<K>) -> (r: Vec<usize>)
    ensures
        lists_range(r@, 0, keys@.len() as int),
        in_order(keys@, r@),
{
    arrange_range(keys, 0, keys.len())
}

/// An ordered list of positions names none of them twice.
pub proof fn lemma_in_order_no_duplicates<K: Ranked>(keys: Seq<K>, p: Seq<usize>)
    requires
        in_order(keys, p),
    ensures
        p.no_duplicates(),
{
    assert forall|i: int, j: int| 0 <= i < j < p.len() implies p[i] != p[j] by {
        assert(goes_first(keys, p[i] as int, p[j] as int));
        if p[i] == p[j] {
            K::rank_flips(keys[p[i] as int], keys[p[i] as int]);
        }
    }
}

} // verus!
