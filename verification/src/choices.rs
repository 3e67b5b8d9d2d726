//! Choosing some of a list: which positions are chosen, in order.

use vstd::prelude::*;

verus! {

/// Whether `at` holds, in ascending order, the positions below `n` that are
/// chosen.
pub open spec fn is_choice(at: Seq<int>, n: int, chosen: spec_fn(int) -> bool) -> bool {
    &&& forall|i: int, j: int| 0 <= i < j < at.len() ==> #[trigger] at[i] < #[trigger] at[j]
    &&& forall|j: int| 0 <= j < at.len() ==> 0 <= #[trigger] at[j] < n && chosen(at[j])
    &&& forall|i: int| 0 <= i < n && #[trigger] chosen(i) ==> at.contains(i)
}

/// Of nothing, nothing is chosen.
pub proof fn lemma_no_choice(chosen: spec_fn(int) -> bool)
    ensures
        is_choice(Seq::empty(), 0, chosen),
{
}

/// The next position is chosen or not.
pub proof fn lemma_choice_step(at: Seq<int>, n: int, chosen: spec_fn(int) -> bool)
    requires
        is_choice(at, n, chosen),
        n >= 0,
    ensures
        chosen(n) ==> is_choice(at.push(n), n + 1, chosen),
        !chosen(n) ==> is_choice(at, n + 1, chosen),
{
    if chosen(n) {
        let more = at.push(n);
        assert forall|i: int| 0 <= i < n + 1 && #[trigger] chosen(i) implies more.contains(i) by {
            if i < n {
                let k = choose|k: int| 0 <= k < at.len() && at[k] == i;
                assert(more[k] == i);
            } else {
                assert(more[at.len() as int] == n);
            }
        }
        assert forall|i: int, j: int| 0 <= i < j < more.len() implies #[trigger] more[i]
            < #[trigger] more[j] by {
            assert(more[i] == at[i]);
            if j < at.len() {
                assert(more[j] == at[j]);
            }
        }
    }
}

/// A choice goes by what is chosen below its end alone.
pub proof fn lemma_same_choice(
    at: Seq<int>,
    n: int,
    a: spec_fn(int) -> bool,
    b: spec_fn(int) -> bool,
)
    requires
        is_choice(at, n, a),
        forall|i: int| 0 <= i < n ==> #[trigger] a(i) == b(i),
    ensures
        is_choice(at, n, b),
{
    assert forall|j: int| 0 <= j < at.len() implies 0 <= #[trigger] at[j] < n && b(at[j]) by {
        assert(a(at[j]) == b(at[j]));
    }
    assert forall|i: int| 0 <= i < n && #[trigger] b(i) implies at.contains(i) by {
        assert(a(i) == b(i));
    }
}

} // verus!
