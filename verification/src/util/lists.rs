use vstd::prelude::*;

verus! {

/// The elements of `s` that satisfy `p`, in their order.
pub open spec fn select<A>(s: Seq<A>, p: spec_fn(A) -> bool) -> Seq<A>
    decreases s.len(),
{
    if s.len() == 0 {
        Seq::<A>::empty()
    } else if p(s.last()) {
        select(s.drop_last(), p).push(s.last())
    } else {
        select(s.drop_last(), p)
    }
}

/// One step of a loop that selects from `s`: selecting from the first
/// `i + 1` elements extends the selection from the first `i` by `s[i]`
/// exactly when `s[i]` satisfies `p`.
pub proof fn lemma_select_step<A>(s: Seq<A>, p: spec_fn(A) -> bool, i: int)
    requires
        0 <= i < s.len(),
    ensures
        select(s.take(i + 1), p) == if p(s[i]) {
            select(s.take(i), p).push(s[i])
        } else {
            select(s.take(i), p)
        },
{
    assert(s.take(i + 1).drop_last() =~= s.take(i));
    assert(s.take(i + 1).last() == s[i]);
}

/// Every element of `s` that satisfies `p` is selected.
pub proof fn lemma_select_complete<A>(s: Seq<A>, p: spec_fn(A) -> bool, k: int)
    requires
        0 <= k < s.len(),
        p(s[k]),
    ensures
        select(s, p).contains(s[k]),
    decreases s.len(),
{
    let rest = select(s.drop_last(), p);
    if k == s.len() - 1 {
        assert(rest.push(s.last())[rest.len() as int] == s[k]);
    } else {
        assert(s.drop_last()[k] == s[k]);
        lemma_select_complete(s.drop_last(), p, k);
        if p(s.last()) {
            let i = choose|i: int| 0 <= i < rest.len() && rest[i] == s[k];
            assert(rest.push(s.last())[i] == s[k]);
        }
    }
}

} // verus!
