//! What is said of a sequence of steps: which were taken, and what came of them.

use vstd::prelude::*;

verus! {

/// Among the first `n` steps there is this one, with this outcome.
pub open spec fn did<A, R>(t: Seq<(A, R)>, n: int, step: A, outcome: R) -> bool {
    exists|j: int| 0 <= j < n && #[trigger] t[j] == (step, outcome)
}

/// Among the first `n` steps there is this one, whatever came of it.
pub open spec fn asked<A, R>(t: Seq<(A, R)>, n: int, step: A) -> bool {
    exists|j: int| 0 <= j < n && (#[trigger] t[j]).0 == step
}

/// The first `n` steps all had this outcome.
pub open spec fn always<A, R>(t: Seq<(A, R)>, n: int, outcome: R) -> bool {
    forall|j: int| 0 <= j < n ==> (#[trigger] t[j]).1 == outcome
}

} // verus!
