//! What appending to a sequence does to what it contains.
use vstd::prelude::*;

verus! {

/// Appending adds one element, and repeats none if it was not there.
pub(crate) proof fn lemma_push_to_set<A>(s: Seq<A>, a: A)
    ensures
        s.push(a).to_set() == s.to_set().insert(a),
        s.no_duplicates() && !s.to_set().contains(a) ==> s.push(a).no_duplicates(),
        forall|x: A| #[trigger] s.push(a).contains(x) <==> s.contains(x) || x == a,
{
    assert forall|x: A| #[trigger] s.push(a).contains(x) <==> s.contains(x) || x == a by {
        if s.contains(x) {
            let j = s.index_of(x);
            assert(s.push(a)[j] == x);
        }
        assert(s.push(a)[s.len() as int] == a);
    }
    assert forall|x: A| s.push(a).to_set().contains(x) <==> s.to_set().insert(a).contains(x) by {
        assert(s.push(a).contains(x) <==> s.contains(x) || x == a);
    }
    assert(s.push(a).to_set() =~= s.to_set().insert(a));
}

/// What the first `i + 1` elements contain.
pub(crate) proof fn lemma_take_contains<A>(s: Seq<A>, i: int, x: A)
    requires
        0 <= i < s.len(),
    ensures
        s.take(i + 1).contains(x) <==> s.take(i).contains(x) || s[i] == x,
{
    assert(s.take(i + 1) =~= s.take(i).push(s[i]));
    lemma_push_to_set(s.take(i), s[i]);
}

} // verus!
