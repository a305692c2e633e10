//! First-match lookup over a sequence, shared by the nexus table and the
//! subsystem table.

use vstd::prelude::*;

verus! {

/// Index of the first element of `s` satisfying `p`, or `-1`.
pub open spec fn find_first<T>(s: Seq<T>, p: spec_fn(T) -> bool) -> int
    decreases s.len(),
{
    if s.len() == 0 {
        -1
    } else if p(s[0]) {
        0
    } else {
        let r = find_first(s.drop_first(), p);
        if r == -1 {
            -1
        } else {
            r + 1
        }
    }
}

/// What `find_first` returns: the first match, or `-1` when nothing matches.
pub proof fn lemma_find_first<T>(s: Seq<T>, p: spec_fn(T) -> bool)
    ensures
        find_first(s, p) == -1 ==> forall|j: int| 0 <= j < s.len() ==> !p(#[trigger] s[j]),
        find_first(s, p) != -1 ==> {
            let r = find_first(s, p);
            &&& 0 <= r < s.len()
            &&& p(s[r])
            &&& forall|j: int| 0 <= j < r ==> !p(#[trigger] s[j])
        },
    decreases s.len(),
{
    if s.len() > 0 && !p(s[0]) {
        lemma_find_first(s.drop_first(), p);
        assert forall|j: int| 1 <= j < s.len() implies s.drop_first()[j - 1] == #[trigger] s[j] by {}
    }
}

} // verus!
