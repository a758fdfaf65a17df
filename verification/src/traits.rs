//! The uniform arithmetic capability shared by every tower member.

use vstd::prelude::*;

verus! {

use crate::number::Number;

/// The polymorphism seam of the tower: three shared primitives that every
/// member provides, each returning the closed result type rather than
/// `Self`, so that mixed-kind expressions compose through one result
/// channel. Each implementation fixes the exact meaning of its results by
/// defining the `_ens` spec functions its method contracts mention.
pub trait NumberBase: Sized {
    /// What `abs` returns for this member.
    spec fn abs_ens(self, r: Number) -> bool;

    /// What `div_floor` returns for this member.
    spec fn div_floor_ens(self, other: Self, r: Number) -> bool;

    /// What `gcd` returns for this member.
    spec fn gcd_ens(self, other: Self, r: Number) -> bool;

    /// Absolute value, as a tower result.
    fn abs(self) -> (r: Number)
        ensures
            self.abs_ens(r),
    ;

    /// Floor division, as a tower result.
    fn div_floor(self, other: Self) -> (r: Number)
        ensures
            self.div_floor_ens(other, r),
    ;

    /// Greatest common divisor, as a tower result.
    fn gcd(self, other: Self) -> (r: Number)
        ensures
            self.gcd_ens(other, r),
    ;
}

} // verus!
