//! Lists that grow by an element, and what is made of their elements.

use vstd::prelude::*;

verus! {

/// What is kept of a list that grows by an element.
pub proof fn lemma_filter_map_push<A, B>(items: Seq<A>, x: A, f: spec_fn(A) -> Option<B>)
    ensures
        Seq::<A>::empty().filter_map(f) == Seq::<B>::empty(),
        items.push(x).filter_map(f) == if f(x) is Some {
            items.filter_map(f).push(f(x)->0)
        } else {
            items.filter_map(f)
        },
{
    let all = items.push(x);
    let n = items.len() as int;
    all.lemma_filter_map_take_succ(f, n);
    assert(all.take(n) =~= items);
    assert(all.take(n + 1) =~= all);
    assert(all[n] == x);
    reveal(Seq::filter_map);
    assert(Seq::<A>::empty().filter_map(f) =~= Seq::<B>::empty());
    if f(x) is Some {
        assert(all.filter_map(f) =~= items.filter_map(f).push(f(x)->0));
    } else {
        assert(all.filter_map(f) =~= items.filter_map(f));
    }
}

/// The parts of a list that grows by an element.
pub proof fn lemma_flat_map_push<A, B>(items: Seq<A>, x: A, f: spec_fn(A) -> Seq<B>)
    ensures
        Seq::<A>::empty().flat_map(f) == Seq::<B>::empty(),
        items.push(x).flat_map(f) == items.flat_map(f) + f(x),
{
    let all = items.push(x);
    let n = items.len() as int;
    all.lemma_flat_map_take_append(f, n);
    assert(all.take(n) =~= items);
    assert(all.take(n + 1) =~= all);
    assert(all[n] == x);
    assert(Seq::<A>::empty().map_values(f) =~= Seq::<Seq<B>>::empty());
    assert(Seq::<A>::empty().flat_map(f) =~= Seq::<B>::empty());
}

/// What is kept of a list holds an element exactly where it was made of one of
/// the list.
pub proof fn lemma_filter_map_holds<A, B>(items: Seq<A>, f: spec_fn(A) -> Option<B>, y: B)
    ensures
        items.filter_map(f).contains(y) <==> exists|i: int|
            0 <= i < items.len() && f(#[trigger] items[i]) == Some(y),
    decreases items.len(),
{
    if items.len() > 0 {
        let earlier = items.drop_last();
        let n = items.len() - 1;
        let last = items.last();
        lemma_filter_map_holds(earlier, f, y);
        lemma_filter_map_push(earlier, last, f);
        assert(earlier.push(last) =~= items);
        assert forall|i: int| 0 <= i < n implies #[trigger] items[i] == earlier[i] by {}
        if items.filter_map(f).contains(y) {
            if f(last) is Some && f(last)->0 == y {
                assert(f(items[n]) == Some(y));
            } else {
                let kept = items.filter_map(f);
                let k = choose|k: int| 0 <= k < kept.len() && kept[k] == y;
                assert(earlier.filter_map(f)[k] == y);
                let i = choose|i: int| 0 <= i < earlier.len() && f(#[trigger] earlier[i]) == Some(y);
                assert(items[i] == earlier[i]);
            }
        }
        if exists|i: int| 0 <= i < items.len() && f(#[trigger] items[i]) == Some(y) {
            let i = choose|i: int| 0 <= i < items.len() && f(#[trigger] items[i]) == Some(y);
            if i < n {
                assert(f(earlier[i]) == Some(y));
                let kept = earlier.filter_map(f);
                let k = choose|k: int| 0 <= k < kept.len() && kept[k] == y;
                assert(items.filter_map(f)[k] == y);
            } else {
                assert(items.filter_map(f).last() == y);
            }
        }
    } else {
        reveal(Seq::filter_map);
    }
}

/// Parts put together hold an element exactly where one of them does.
pub proof fn lemma_flat_map_holds<A, B>(items: Seq<A>, f: spec_fn(A) -> Seq<B>, y: B)
    ensures
        items.flat_map(f).contains(y) <==> exists|i: int|
            0 <= i < items.len() && f(#[trigger] items[i]).contains(y),
{
    if items.flat_map(f).contains(y) {
        crate::config_laws::lemma_flat_map_from(items, f, y);
    }
    if exists|i: int| 0 <= i < items.len() && f(#[trigger] items[i]).contains(y) {
        let i = choose|i: int| 0 <= i < items.len() && f(#[trigger] items[i]).contains(y);
        crate::config_laws::lemma_flat_map_to(items, f, i, y);
    }
}

} // verus!
