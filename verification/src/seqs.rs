//! What a sequence contains once it grows or shrinks at its end.

use vstd::prelude::*;

verus! {

pub(crate) proof fn lemma_push<T>(s: Seq<T>, x: T)
    ensures
        s.push(x).drop_last() == s,
        s.push(x).last() == x,
        forall|y: T| #[trigger] s.push(x).contains(y) <==> s.contains(y) || y == x,
{
    assert(s.push(x).drop_last() =~= s);
    assert forall|y: T| #[trigger] s.push(x).contains(y) <==> s.contains(y) || y == x by {
        assert(s.push(x)[s.len() as int] == x);
        if s.contains(y) {
            let i = choose|i: int| 0 <= i < s.len() && s[i] == y;
            assert(s.push(x)[i] == y);
        }
    }
}

pub(crate) proof fn lemma_drop_last<T>(s: Seq<T>)
    requires
        s.len() > 0,
    ensures
        forall|y: T| #[trigger] s.contains(y) <==> s.drop_last().contains(y) || y == s.last(),
{
    lemma_push(s.drop_last(), s.last());
    assert(s.drop_last().push(s.last()) =~= s);
}

} // verus!
