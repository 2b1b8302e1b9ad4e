//! Ordering positions by a key.

use vstd::prelude::*;
use vstd::seq_lib::{to_multiset_build, to_multiset_contains, to_multiset_len, to_multiset_remove};

verus! {

/// The positions `0, 1, .., n - 1`.
pub open spec fn positions(n: nat) -> Seq<usize> {
    Seq::new(n, |i: int| i as usize)
}

/// `order` lists the positions of `keys` by ascending key.
pub open spec fn is_order_by_key(order: Seq<usize>, keys: Seq<u16>) -> bool {
    &&& order.len() == keys.len()
    &&& order.to_multiset() == positions(keys.len()).to_multiset()
    &&& forall|j: int| 0 <= j < order.len() ==> #[trigger] order[j] < keys.len()
    &&& forall|i: int, j: int|
        0 <= i < j < order.len() ==> keys[order[i] as int] <= keys[order[j] as int]
}

/// The positions of `keys`, ordered by ascending key. Which of two
/// positions with the same key comes first is left open.
pub fn order_by_key(keys: &Vec<u16>) -> (order: Vec<usize>)
    ensures
        is_order_by_key(order@, keys@),
{
    let mut pairs: Vec<(u16, usize)> = Vec::new();
    let mut k: usize = 0;
    while k < keys.len()
        invariant
            k <= keys@.len(),
            pairs@.len() == k,
            forall|i: int| 0 <= i < k ==> #[trigger] pairs@[i] == (keys@[i], i as usize),
        decreases keys@.len() - k,
    {
        pairs.push((keys[k], k));
        k = k + 1;
    }
    let ghost unsorted = pairs@;
    sort_unstable_by_key(&mut pairs);
    let ghost sorted = pairs@;
    proof {
        to_multiset_len(unsorted);
        to_multiset_len(sorted);
        assert forall|j: int| 0 <= j < sorted.len() implies (#[trigger] sorted[j]).1 < keys@.len()
            && sorted[j].0 == keys@[sorted[j].1 as int] by {
            to_multiset_contains(sorted, sorted[j]);
            to_multiset_contains(unsorted, sorted[j]);
            assert(sorted.contains(sorted[j]));
            let i = choose|i: int| 0 <= i < unsorted.len() && unsorted[i] == sorted[j];
            assert(unsorted[i] == (keys@[i], i as usize));
        }
    }
    let mut order: Vec<usize> = Vec::new();
    let mut j: usize = 0;
    while j < pairs.len()
        invariant
            j <= pairs@.len(),
            pairs@ == sorted,
            order@.len() == j,
            forall|i: int| 0 <= i < j ==> #[trigger] order@[i] == sorted[i].1,
        decreases pairs@.len() - j,
    {
        order.push(pairs[j].1);
        j = j + 1;
    }
    proof {
        let second = |pair: (u16, usize)| pair.1;
        assert(order@ =~= sorted.map_values(second));
        assert(positions(keys@.len()) =~= unsorted.map_values(second));
        lemma_map_to_multiset(sorted, unsorted, second);
        assert forall|i: int, j: int| 0 <= i < j < order@.len() implies keys@[order@[i] as int]
            <= keys@[order@[j] as int] by {
            assert(sorted[i].0 <= sorted[j].0);
        }
    }
    order
}

/// `slice::sort_unstable_by_key` of std, with the first component of each
/// pair as its key: the pairs are rearranged, none is added, dropped or
/// changed, and afterwards their keys ascend. The order of pairs with the
/// same key is left open.
#[verifier::external_body]
fn sort_unstable_by_key(pairs: &mut Vec<(u16, usize)>)
    ensures
        final(pairs)@.to_multiset() == old(pairs)@.to_multiset(),
        forall|i: int, j: int|
            0 <= i < j < final(pairs)@.len() ==> final(pairs)@[i].0 <= final(pairs)@[j].0,
{
    pairs.sort_unstable_by_key(|pair| pair.0);
}

/// Lists that hold the same items as often hold the same images as often.
pub proof fn lemma_map_to_multiset<A, B>(a: Seq<A>, b: Seq<A>, f: spec_fn(A) -> B)
    requires
        a.to_multiset() == b.to_multiset(),
    ensures
        a.map_values(f).to_multiset() == b.map_values(f).to_multiset(),
    decreases a.len(),
{
    to_multiset_len(a);
    to_multiset_len(b);
    if a.len() == 0 {
        assert(a.map_values(f) =~= b.map_values(f));
    } else {
        let x = a.last();
        let shorter = a.drop_last();
        assert(a =~= shorter.push(x));
        to_multiset_build(shorter, x);
        to_multiset_contains(b, x);
        assert(a.to_multiset().count(x) > 0);
        let j = choose|j: int| 0 <= j < b.len() && b[j] == x;
        let rest = b.remove(j);
        to_multiset_remove(b, j);
        assert(rest.to_multiset() =~= shorter.to_multiset());
        lemma_map_to_multiset(shorter, rest, f);
        assert(a.map_values(f) =~= shorter.map_values(f).push(f(x)));
        to_multiset_build(shorter.map_values(f), f(x));
        assert(rest.map_values(f) =~= b.map_values(f).remove(j));
        to_multiset_remove(b.map_values(f), j);
        to_multiset_contains(b.map_values(f), f(x));
        assert(b.map_values(f)[j] == f(x));
        assert(b.map_values(f).contains(f(x)));
        assert(b.map_values(f).to_multiset() =~= rest.map_values(f).to_multiset().insert(f(x)));
    }
}

/// The items of `s`, taken in the order that a rearrangement `order` of its
/// positions gives, are the items of `s`, each as often as before.
pub proof fn lemma_reordered_to_multiset<A>(s: Seq<A>, order: Seq<usize>)
    requires
        s.len() <= usize::MAX,
        order.to_multiset() == positions(s.len()).to_multiset(),
    ensures
        order.map_values(|i: usize| s[i as int]).to_multiset() == s.to_multiset(),
{
    let at = |i: usize| s[i as int];
    lemma_map_to_multiset(order, positions(s.len()), at);
    assert(positions(s.len()).map_values(at) =~= s);
}

} // verus!
