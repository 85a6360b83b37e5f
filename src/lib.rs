//! Two foundational containers with verified contracts: a contiguous
//! growable array (`Vector`) and a doubly linked list (`LinkedList`).
use vstd::prelude::*;

pub mod linked_list;
pub mod vector;

pub use linked_list::LinkedList;
pub use vector::Vector;

verus! {

/// A clone of either container holds, position by position, a clone of
/// each original element; where cloning an element always gives back an
/// equal value, the copy holds exactly the original's elements.
pub proof fn lemma_clone_equal<T: Clone>(original: Seq<T>, copy: Seq<T>)
    requires
        copy.len() == original.len(),
        forall|i: int| 0 <= i < original.len() ==> cloned::<T>(original[i], #[trigger] copy[i]),
        forall|x: T, y: T| #[trigger] cloned::<T>(x, y) ==> x == y,
    ensures
        copy == original,
{
    assert(copy =~= original);
}

/// Library version information.
pub fn version() -> (r: &'static str)
    ensures
        r@ == "0.1.0"@,
        r@.len() > 0,
{
    proof {
        reveal_strlit("0.1.0");
    }
    "0.1.0"
}

} // verus!
