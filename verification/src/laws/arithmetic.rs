//! Levels that add up and multiply like functions.
//!
//! The contracts leave open what a level type's operators come to. The laws of single operations
//! are said for a type whose operators have one result each, given as functions.
use core::ops::{Add, Mul};
use vstd::prelude::*;

#[allow(unused_imports)]
use crate::level::{adds, silent, sums_from, sums_to};

verus! {

/// The level type's default is `zero`, and its addition is `plus`.
pub open spec fn adds_like<T: Default + Add<Output = T>>(
    zero: T,
    plus: spec_fn(T, T) -> T,
) -> bool {
    &&& forall|r: T| #[trigger] call_ensures(T::default, (), r) ==> r == zero
    &&& forall|a: T, b: T, r: T| #[trigger]
        call_ensures(<T as Add>::add, (a, b), r) ==> r == plus(a, b)
}

/// The level type's multiplication is `times`.
pub open spec fn multiplies_like<T: Mul<Output = T>>(times: spec_fn(T, T) -> T) -> bool {
    forall|a: T, b: T, r: T| #[trigger]
        call_ensures(<T as Mul>::mul, (a, b), r) ==> r == times(a, b)
}

/// A sum takes in every level, from the first to the last.
pub proof fn a_sum_takes_in_every_level<T: Default + Add<Output = T>>(
    zero: T,
    plus: spec_fn(T, T) -> T,
    levels: Seq<T>,
    r: T,
)
    requires
        adds_like(zero, plus),
        sums_to(levels, r),
    ensures
        r == levels.fold_left(zero, plus),
    decreases levels.len(),
{
    if levels.len() == 0 {
        assert(silent(r));
    } else {
        let before = choose|before: T|
            sums_to(levels.drop_last(), before) && #[trigger] adds(before, levels.last(), r);
        a_sum_takes_in_every_level(zero, plus, levels.drop_last(), before);
        assert(call_ensures(<T as Add>::add, (before, levels.last()), r));
    }
}

/// So does one that is taken from elsewhere than silence.
pub proof fn a_sum_from_elsewhere_takes_in_every_level<T: Default + Add<Output = T>>(
    zero: T,
    plus: spec_fn(T, T) -> T,
    start: T,
    levels: Seq<T>,
    r: T,
)
    requires
        adds_like(zero, plus),
        sums_from(start, levels, r),
    ensures
        r == levels.fold_left(start, plus),
    decreases levels.len(),
{
    if levels.len() > 0 {
        let before = choose|before: T|
            sums_from(start, levels.drop_last(), before) && #[trigger] adds(
                before,
                levels.last(),
                r,
            );
        a_sum_from_elsewhere_takes_in_every_level(zero, plus, start, levels.drop_last(), before);
        assert(call_ensures(<T as Add>::add, (before, levels.last()), r));
    }
}

} // verus!
