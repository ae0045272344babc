//! The numbers that loads and fitness are counted in.

use vstd::prelude::*;

verus! {

/// A type of numbers. Nothing is assumed of its operations: what the tracker computes
/// is stated as the operations that it is the result of.
pub trait Scalar: Copy {
    /// The whole number `n`.
    fn whole(n: u32) -> Self;

    fn plus(self, other: Self) -> Self;

    fn minus(self, other: Self) -> Self;

    fn times(self, other: Self) -> Self;

    fn over(self, other: Self) -> Self;

    fn negated(self) -> Self;

    /// The exponential function.
    fn exponential(self) -> Self;

    /// The larger of the two.
    fn larger(self, other: Self) -> Self;

    /// Whether this is larger than the other.
    fn exceeds(self, other: Self) -> bool;

    /// This number as text with one decimal place.
    fn tenths(self) -> String;
}

/// `r` is what `S` gives for the whole number `n`.
pub open spec fn is_whole<S: Scalar>(n: u32, r: S) -> bool {
    call_ensures(S::whole, (n,), r)
}

pub open spec fn is_sum<S: Scalar>(a: S, b: S, r: S) -> bool {
    call_ensures(S::plus, (a, b), r)
}

pub open spec fn is_difference<S: Scalar>(a: S, b: S, r: S) -> bool {
    call_ensures(S::minus, (a, b), r)
}

pub open spec fn is_product<S: Scalar>(a: S, b: S, r: S) -> bool {
    call_ensures(S::times, (a, b), r)
}

pub open spec fn is_quotient<S: Scalar>(a: S, b: S, r: S) -> bool {
    call_ensures(S::over, (a, b), r)
}

pub open spec fn is_negation<S: Scalar>(a: S, r: S) -> bool {
    call_ensures(S::negated, (a,), r)
}

pub open spec fn is_exponential<S: Scalar>(a: S, r: S) -> bool {
    call_ensures(S::exponential, (a,), r)
}

pub open spec fn is_larger<S: Scalar>(a: S, b: S, r: S) -> bool {
    call_ensures(S::larger, (a, b), r)
}

/// `r` is what `S` says of whether `a` is larger than `b`.
pub open spec fn is_excess<S: Scalar>(a: S, b: S, r: bool) -> bool {
    call_ensures(S::exceeds, (a, b), r)
}

/// `r` is what `S` writes for `a` with one decimal place.
pub open spec fn is_tenths<S: Scalar>(a: S, r: String) -> bool {
    call_ensures(S::tenths, (a,), r)
}

// --- What numbers may be like ---

/// Each operation gives one result for one set of operands.
pub open spec fn is_functional<S: Scalar>() -> bool {
    &&& forall|n: u32, r: S, s: S|
        #![trigger is_whole(n, r), is_whole(n, s)]
        is_whole(n, r) && is_whole(n, s) ==> r == s
    &&& forall|a: S, b: S, r: S, s: S|
        #![trigger is_sum(a, b, r), is_sum(a, b, s)]
        is_sum(a, b, r) && is_sum(a, b, s) ==> r == s
    &&& forall|a: S, b: S, r: S, s: S|
        #![trigger is_difference(a, b, r), is_difference(a, b, s)]
        is_difference(a, b, r) && is_difference(a, b, s) ==> r == s
    &&& forall|a: S, b: S, r: S, s: S|
        #![trigger is_product(a, b, r), is_product(a, b, s)]
        is_product(a, b, r) && is_product(a, b, s) ==> r == s
    &&& forall|a: S, b: S, r: S, s: S|
        #![trigger is_quotient(a, b, r), is_quotient(a, b, s)]
        is_quotient(a, b, r) && is_quotient(a, b, s) ==> r == s
    &&& forall|a: S, r: S, s: S|
        #![trigger is_negation(a, r), is_negation(a, s)]
        is_negation(a, r) && is_negation(a, s) ==> r == s
    &&& forall|a: S, r: S, s: S|
        #![trigger is_exponential(a, r), is_exponential(a, s)]
        is_exponential(a, r) && is_exponential(a, s) ==> r == s
    &&& forall|a: S, b: S, r: S, s: S|
        #![trigger is_larger(a, b, r), is_larger(a, b, s)]
        is_larger(a, b, r) && is_larger(a, b, s) ==> r == s
    &&& forall|a: S, b: S, r: bool, s: bool|
        #![trigger is_excess(a, b, r), is_excess(a, b, s)]
        is_excess(a, b, r) && is_excess(a, b, s) ==> r == s
}

/// An order of numbers, with the numbers that loads, rates of decay and floors are
/// among. Of floating-point numbers these are, in this order: those from zero to
/// infinity, those above zero and up to one, and the finite ones.
#[verifier::reject_recursive_types(S)]
pub struct Scale<S> {
    pub at_most: spec_fn(S, S) -> bool,
    pub load: spec_fn(S) -> bool,
    pub rate: spec_fn(S) -> bool,
    pub level: spec_fn(S) -> bool,
}

/// The operations keep the order: a sum of loads is a load and at least each of its
/// first terms, sums and products by a rate grow with their operands, what is left of a
/// level shrinks with what is taken from it, and the larger of a number and zero grows
/// with the number.
pub open spec fn keeps_order<S: Scalar>(scale: Scale<S>) -> bool {
    let le = scale.at_most;
    let load = scale.load;
    let rate = scale.rate;
    let level = scale.level;
    &&& forall|a: S| #[trigger] le(a, a)
    &&& forall|a: S, b: S, c: S|
        #![trigger le(a, b), le(b, c)]
        le(a, b) && le(b, c) ==> le(a, c)
    &&& forall|zero: S| #[trigger] is_whole(0, zero) ==> load(zero)
    &&& forall|a: S, x: S, r: S| #[trigger]
        is_sum(a, x, r) && load(a) && load(x) ==> load(r) && le(a, r)
    &&& forall|a: S, b: S, x: S, y: S, r: S, s: S|
        #![trigger is_sum(a, x, r), is_sum(b, y, s)]
        is_sum(a, x, r) && is_sum(b, y, s) && load(a) && load(b) && load(x) && load(y) && le(a, b)
            && le(x, y) ==> le(r, s)
    &&& forall|a: S, d: S, r: S| #[trigger]
        is_product(a, d, r) && load(a) && rate(d) ==> load(r)
    &&& forall|a: S, b: S, d: S, r: S, s: S|
        #![trigger is_product(a, d, r), is_product(b, d, s)]
        is_product(a, d, r) && is_product(b, d, s) && load(a) && load(b) && rate(d) && le(a, b)
            ==> le(r, s)
    &&& forall|f: S, a: S, b: S, r: S, s: S|
        #![trigger is_difference(f, a, r), is_difference(f, b, s)]
        is_difference(f, a, r) && is_difference(f, b, s) && level(f) && load(a) && load(b) && le(
            a,
            b,
        ) ==> le(s, r)
    &&& forall|zero: S, a: S, b: S, r: S, s: S|
        #![trigger is_whole(0, zero), is_larger(a, zero, r), is_larger(b, zero, s)]
        is_whole(0, zero) && is_larger(a, zero, r) && is_larger(b, zero, s) && le(a, b) ==> le(r, s)
}

}
