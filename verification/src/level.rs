//! Arithmetic on sample levels, left open in the level type.
//!
//! The engine sums, weighs and copies levels without ever looking inside one, so everything
//! here is generic: a host picks the concrete type. What `+`, `*` and the default value mean is
//! whatever that type's own implementations return, and the contracts say exactly which calls
//! produced a result, in which order. Order matters: the usual level type is a float, whose
//! addition is not associative.
use core::ops::{Add, Mul};
use vstd::prelude::*;

verus! {

/// `r` is a value the level type hands out as its default: silence.
pub open spec fn silent<T: Default>(r: T) -> bool {
    call_ensures(T::default, (), r)
}

/// `r` is a result of `a + b`.
pub open spec fn adds<T: Add<Output = T>>(a: T, b: T, r: T) -> bool {
    call_ensures(<T as Add>::add, (a, b), r)
}

/// `r` is a result of `a * b`.
pub open spec fn multiplies<T: Mul<Output = T>>(a: T, b: T, r: T) -> bool {
    call_ensures(<T as Mul>::mul, (a, b), r)
}

/// Any two levels may be added.
pub open spec fn add_is_total<T: Add<Output = T>>() -> bool {
    forall|a: T, b: T| call_requires(<T as Add>::add, (a, b))
}

/// Any two levels may be multiplied.
pub open spec fn mul_is_total<T: Mul<Output = T>>() -> bool {
    forall|a: T, b: T| call_requires(<T as Mul>::mul, (a, b))
}

/// The level type has one default, and any two levels have one sum.
pub open spec fn is_deterministic<T: Default + Add<Output = T>>() -> bool {
    &&& forall|r: T, s: T| #[trigger] silent(r) && #[trigger] silent(s) ==> r == s
    &&& forall|a: T, b: T, r: T, s: T|
        #[trigger] adds(a, b, r) && #[trigger] adds(a, b, s) ==> r == s
}

/// Any two levels have one product.
pub open spec fn mul_is_deterministic<T: Mul<Output = T>>() -> bool {
    forall|a: T, b: T, r: T, s: T|
        #[trigger] multiplies(a, b, r) && #[trigger] multiplies(a, b, s) ==> r == s
}

/// `r` is the sum of `levels`, taken from silence and from left to right.
pub open spec fn sums_to<T: Default + Add<Output = T>>(levels: Seq<T>, r: T) -> bool
    decreases levels.len(),
{
    if levels.len() == 0 {
        silent(r)
    } else {
        exists|before: T|
            sums_to(levels.drop_last(), before) && #[trigger] adds(before, levels.last(), r)
    }
}

/// `r` is the sum of `levels`, taken from `start` and from left to right.
pub open spec fn sums_from<T: Add<Output = T>>(start: T, levels: Seq<T>, r: T) -> bool
    decreases levels.len(),
{
    if levels.len() == 0 {
        r == start
    } else {
        exists|before: T|
            sums_from(start, levels.drop_last(), before) && #[trigger] adds(
                before,
                levels.last(),
                r,
            )
    }
}

/// `r` is what lies at index `j` of `src`, which is silent outside its own range.
pub open spec fn reads_as<T: Default>(src: Seq<T>, j: int, r: T) -> bool {
    if 0 <= j < src.len() {
        r == src[j]
    } else {
        silent(r)
    }
}

/// Adding one more level to a sum extends the sum by that level.
pub(crate) proof fn lemma_sum_extends<T: Default + Add<Output = T>>(
    levels: Seq<T>,
    before: T,
    level: T,
    after: T,
)
    requires
        sums_to(levels, before),
        adds(before, level, after),
    ensures
        sums_to(levels.push(level), after),
{
    let extended = levels.push(level);
    assert(extended.drop_last() =~= levels);
    assert(adds(before, extended.last(), after));
}

/// Adding one more level to a sum extends the sum by that level, wherever it was taken from.
pub(crate) proof fn lemma_sum_from_extends<T: Add<Output = T>>(
    start: T,
    levels: Seq<T>,
    before: T,
    level: T,
    after: T,
)
    requires
        sums_from(start, levels, before),
        adds(before, level, after),
    ensures
        sums_from(start, levels.push(level), after),
{
    let extended = levels.push(level);
    assert(extended.drop_last() =~= levels);
    assert(adds(before, extended.last(), after));
}

/// Read a possibly out-of-range frame index as silence.
pub fn at<T: Copy + Default>(src: &[T], j: isize) -> (r: T)
    ensures
        reads_as(src@, j as int, r),
{
    if j >= 0 && (j as usize) < src.len() {
        src[j as usize]
    } else {
        T::default()
    }
}

} // verus!
