//! Choosing from a sequence.
use vstd::prelude::*;

verus! {

/// What is made of an item stands where the items before it leave it.
pub proof fn lemma_rank<A, B>(s: Seq<A>, f: spec_fn(A) -> Option<B>, i: int)
    requires
        0 <= i < s.len(),
        f(s[i]) is Some,
    ensures
        s.take(i).filter_map(f).len() < s.filter_map(f).len(),
        s.filter_map(f)[s.take(i).filter_map(f).len() as int] == f(s[i])->0,
    decreases s.len(),
{
    if i == s.len() - 1 {
        assert(s.take(i) =~= s.drop_last());
    } else {
        let before = s.drop_last();
        lemma_rank(before, f, i);
        assert(before.take(i) =~= s.take(i));
        assert(before[i] == s[i]);
    }
}

/// As many things are made as there are items of which something is made.
pub proof fn lemma_count<A, B>(s: Seq<A>, f: spec_fn(A) -> Option<B>, p: spec_fn(A) -> bool)
    requires
        forall|a: A| #[trigger] p(a) <==> f(a) is Some,
    ensures
        s.filter_map(f).len() == s.filter(p).len(),
    decreases s.len(),
{
    reveal(Seq::filter);
    if s.len() > 0 {
        lemma_count(s.drop_last(), f, p);
        assert(p(s.last()) <==> f(s.last()) is Some);
    }
}

/// Something is made of a sequence if and only if it is made of one of its items.
pub proof fn lemma_none<A, B>(s: Seq<A>, f: spec_fn(A) -> Option<B>)
    ensures
        s.filter_map(f).len() == 0 <==> forall|i: int|
            0 <= i < s.len() ==> f(#[trigger] s[i]) is None,
    decreases s.len(),
{
    if s.len() > 0 {
        let before = s.drop_last();
        lemma_none(before, f);
        if s.filter_map(f).len() == 0 {
            assert forall|i: int| 0 <= i < s.len() implies f(#[trigger] s[i]) is None by {
                if i < before.len() {
                    assert(before[i] == s[i]);
                }
            }
        } else if f(s.last()) is Some {
            assert(f(s[s.len() - 1]) is Some);
        } else {
            let i = choose|i: int| 0 <= i < before.len() && f(#[trigger] before[i]) is Some;
            assert(f(s[i]) is Some);
        }
    }
}

/// What is made of two sequences one behind the other.
pub proof fn lemma_made_add<A, B>(a: Seq<A>, b: Seq<A>, f: spec_fn(A) -> Option<B>)
    ensures
        (a + b).filter_map(f) == a.filter_map(f) + b.filter_map(f),
    decreases b.len(),
{
    if b.len() == 0 {
        assert(a + b =~= a);
        assert(a.filter_map(f) + b.filter_map(f) =~= a.filter_map(f));
    } else {
        lemma_made_add(a, b.drop_last(), f);
        assert((a + b).drop_last() =~= a + b.drop_last());
        assert((a + b).last() == b.last());
        assert((a + b).filter_map(f) =~= a.filter_map(f) + b.filter_map(f));
    }
}

/// A sequence with one more sequence behind it, made flat.
pub proof fn lemma_flat_push<A>(s: Seq<Seq<A>>, last: Seq<A>)
    ensures
        s.push(last).flatten() == s.flatten() + last,
    decreases s.len(),
{
    let all = s.push(last);
    if s.len() == 0 {
        assert(all.drop_first() =~= Seq::empty());
        assert(all.drop_first().flatten() =~= Seq::empty());
        assert(all.flatten() =~= s.flatten() + last);
    } else {
        assert(all.drop_first() =~= s.drop_first().push(last));
        lemma_flat_push(s.drop_first(), last);
        assert(all.flatten() =~= s.flatten() + last);
    }
}

} // verus!
