//! Facts about sequences that the laws of the other modules rest on.

use vstd::prelude::*;

verus! {

/// Filtering keeps a sequence whole where every item passes.
pub proof fn lemma_filter_keeps_all<T>(items: Seq<T>, pred: spec_fn(T) -> bool)
    requires
        forall|i: int| 0 <= i < items.len() ==> pred(#[trigger] items[i]),
    ensures
        items.filter(pred) == items,
    decreases items.len(),
{
    reveal(Seq::filter);
    if items.len() > 0 {
        lemma_filter_keeps_all(items.drop_last(), pred);
        assert(items.drop_last().push(items.last()) =~= items);
    }
}

/// Filtering leaves nothing where no item passes.
pub proof fn lemma_filter_drops_all<T>(items: Seq<T>, pred: spec_fn(T) -> bool)
    requires
        forall|i: int| 0 <= i < items.len() ==> !pred(#[trigger] items[i]),
    ensures
        items.filter(pred) == Seq::<T>::empty(),
    decreases items.len(),
{
    reveal(Seq::filter);
    if items.len() > 0 {
        lemma_filter_drops_all(items.drop_last(), pred);
    }
}

/// Two sequences that hold the same items equally often still do so once a
/// function has been applied to every item.
pub proof fn lemma_map_keeps_multiset<A, B>(one: Seq<A>, other: Seq<A>, f: spec_fn(A) -> B)
    requires
        one.to_multiset() == other.to_multiset(),
    ensures
        one.map_values(f).to_multiset() == other.map_values(f).to_multiset(),
    decreases one.len(),
{
    broadcast use vstd::multiset::group_multiset_axioms;

    one.to_multiset_ensures();
    other.to_multiset_ensures();
    if one.len() == 0 {
        assert(one.map_values(f) =~= other.map_values(f));
    } else {
        let last = one.last();
        let rest = one.drop_last();
        assert(one[one.len() - 1] == last);
        assert(one.contains(last));
        assert(one.to_multiset().count(last) > 0);
        assert(other.to_multiset().count(last) > 0);
        assert(other.contains(last));
        let at: int = choose|at: int| 0 <= at < other.len() && other[at] == last;
        let others = other.remove(at);
        assert(rest =~= one.remove(one.len() - 1));
        assert(rest.to_multiset() =~= others.to_multiset());
        lemma_map_keeps_multiset(rest, others, f);

        let mapped_one = one.map_values(f);
        let mapped_other = other.map_values(f);
        mapped_one.to_multiset_ensures();
        mapped_other.to_multiset_ensures();
        assert(rest.map_values(f) =~= mapped_one.remove(mapped_one.len() - 1));
        assert(others.map_values(f) =~= mapped_other.remove(at));
        assert(mapped_one[mapped_one.len() - 1] == f(last));
        assert(mapped_other[at] == f(last));
        assert(mapped_one.contains(f(last)));
        assert(mapped_other.contains(f(last)));
        assert(mapped_one.to_multiset().count(f(last)) > 0);
        assert(mapped_other.to_multiset().count(f(last)) > 0);
        assert(mapped_one.to_multiset() =~= mapped_one.to_multiset().remove(f(last)).insert(
            f(last),
        ));
        assert(mapped_other.to_multiset() =~= mapped_other.to_multiset().remove(f(last)).insert(
            f(last),
        ));
    }
}

/// Taking one sequence out of a sequence of sequences takes its items, and
/// no others, out of the concatenation of them all.
pub proof fn lemma_flatten_without<A>(parts: Seq<Seq<A>>, at: int)
    requires
        0 <= at < parts.len(),
    ensures
        parts.flatten().to_multiset() == parts.remove(at).flatten().to_multiset().add(
            parts[at].to_multiset(),
        ),
    decreases parts.len(),
{
    broadcast use vstd::multiset::group_multiset_axioms;

    let earlier = parts.drop_last();
    let last = parts.last();
    assert(parts =~= earlier.push(last));
    earlier.lemma_flatten_push(last);
    vstd::seq_lib::lemma_multiset_commutative(earlier.flatten(), last);
    if at == parts.len() - 1 {
        assert(parts.remove(at) =~= earlier);
    } else {
        lemma_flatten_without(earlier, at);
        assert(parts.remove(at) =~= earlier.remove(at).push(last));
        earlier.remove(at).lemma_flatten_push(last);
        vstd::seq_lib::lemma_multiset_commutative(earlier.remove(at).flatten(), last);
        assert(parts.flatten().to_multiset() =~= parts.remove(at).flatten().to_multiset().add(
            parts[at].to_multiset(),
        ));
    }
}

/// Two sequences of sequences that hold the same sequences equally often
/// hold, all told, the same items equally often.
pub proof fn lemma_flatten_keeps_multiset<A>(one: Seq<Seq<A>>, other: Seq<Seq<A>>)
    requires
        one.to_multiset() == other.to_multiset(),
    ensures
        one.flatten().to_multiset() == other.flatten().to_multiset(),
    decreases one.len(),
{
    broadcast use vstd::multiset::group_multiset_axioms;

    one.to_multiset_ensures();
    other.to_multiset_ensures();
    if one.len() == 0 {
        assert(one =~= other);
    } else {
        let last = one.last();
        let rest = one.drop_last();
        assert(one[one.len() - 1] == last);
        assert(one.contains(last));
        assert(one.to_multiset().count(last) > 0);
        assert(other.to_multiset().count(last) > 0);
        assert(other.contains(last));
        let at: int = choose|at: int| 0 <= at < other.len() && other[at] == last;
        let others = other.remove(at);
        assert(rest =~= one.remove(one.len() - 1));
        assert(rest.to_multiset() =~= others.to_multiset());
        lemma_flatten_keeps_multiset(rest, others);
        lemma_flatten_without(one, one.len() - 1);
        lemma_flatten_without(other, at);
    }
}

} // verus!
