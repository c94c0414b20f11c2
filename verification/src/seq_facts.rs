//! Facts about sequences that the proofs of several modules share.

use vstd::prelude::*;

verus! {

/// A filtered sequence holds exactly the elements that pass the test, and
/// repeats none if the sequence repeats none.
pub proof fn lemma_filter_members<A>(s: Seq<A>, p: spec_fn(A) -> bool)
    ensures
        forall|x: A| #[trigger] s.filter(p).contains(x) <==> s.contains(x) && p(x),
        s.no_duplicates() ==> s.filter(p).no_duplicates(),
    decreases s.len(),
{
    reveal(Seq::filter);
    if s.len() > 0 {
        let front = s.drop_last();
        let last = s.last();
        let f = front.filter(p);
        let sf = s.filter(p);
        lemma_filter_members(front, p);
        assert(sf == if p(last) { f.push(last) } else { f });
        assert forall|x: A| #[trigger] sf.contains(x) <==> s.contains(x) && p(x) by {
            if sf.contains(x) {
                let i = choose|i: int| 0 <= i < sf.len() && sf[i] == x;
                if i < f.len() {
                    assert(f[i] == x);
                    assert(f.contains(x));
                    let j = choose|j: int| 0 <= j < front.len() && front[j] == x;
                    assert(s[j] == x);
                } else {
                    assert(s[s.len() - 1] == x);
                }
            }
            if s.contains(x) && p(x) {
                let j = choose|j: int| 0 <= j < s.len() && s[j] == x;
                if j < s.len() - 1 {
                    assert(front[j] == x);
                    assert(front.contains(x));
                    assert(f.contains(x));
                    let i = choose|i: int| 0 <= i < f.len() && f[i] == x;
                    assert(sf[i] == x);
                } else {
                    assert(sf[sf.len() - 1] == x);
                }
            }
        }
        if s.no_duplicates() {
            assert(front.no_duplicates());
            if p(last) {
                if f.contains(last) {
                    let j = choose|j: int| 0 <= j < front.len() && front[j] == last;
                    assert(s[j] == s[s.len() - 1]);
                }
                assert(!f.contains(last));
                assert forall|i: int, j: int| 0 <= i < sf.len() && 0 <= j < sf.len() && i != j implies sf[i]
                    != sf[j] by {
                    if i == sf.len() - 1 {
                        assert(f[j] == sf[j]);
                    } else if j == sf.len() - 1 {
                        assert(f[i] == sf[i]);
                    } else {
                        assert(f[i] == sf[i] && f[j] == sf[j]);
                    }
                }
            }
        }
    } else {
        assert(s.filter(p).len() == 0);
    }
}

/// Filtering a sequence of which no element passes the test leaves nothing.
pub proof fn lemma_filter_none<A>(s: Seq<A>, p: spec_fn(A) -> bool)
    requires
        forall|i: int| 0 <= i < s.len() ==> !p(#[trigger] s[i]),
    ensures
        s.filter(p) == Seq::<A>::empty(),
{
    lemma_filter_members(s, p);
    let f = s.filter(p);
    if f.len() > 0 {
        assert(f.contains(f[0]));
        let i = choose|i: int| 0 <= i < s.len() && s[i] == f[0];
        assert(!p(s[i]));
    }
    assert(f =~= Seq::<A>::empty());
}

} // verus!
