//! The capability traits shared by the three extended-number domains:
//! sign queries, the strict ordering that distinguishes signed zeros, and
//! bounded-denominator approximation.

use vstd::prelude::*;

use crate::bignum::{closer_frac, int_sign, nat_from_u64, nat_of, no_closer_frac, rat_sign};
use crate::ext::{cmp_strict_ext, ext_from_int, sign_ext, sign_strict_ext, ExtVal};
use crate::int_ext::MpzExt;
use crate::nat_ext::MpnExt;
use crate::rat_ext::MpqExt;
use malachite::Natural;

verus! {

/// The strict sign of an extended number: unlike the lax `sign`, signed
/// zeros report their sign bit rather than comparing level.
pub trait SignStrict: View<V = ExtVal> {
    /// The representation invariant of the implementing type.
    spec fn inv(&self) -> bool;

    /// The invariant subsumes well-formedness of the modelled value.
    proof fn inv_wf(&self)
        requires
            self.inv(),
        ensures
            self@.wf(),
    ;

    fn sign_strict(&self) -> (r: core::cmp::Ordering)
        requires
            self.inv(),
        ensures
            r == sign_strict_ext(self@),
    ;
}

/// The strict ordering of two extended numbers: negative zero sits below
/// positive zero; NaN is incomparable with everything.
pub trait PartialOrdStrict: SignStrict {
    fn partial_cmp_strict(&self, other: &Self) -> (r: Option<core::cmp::Ordering>)
        requires
            self.inv(),
            other.inv(),
        ensures
            r == cmp_strict_ext(self@, other@),
    ;
}

/// The classification queries every extended-number domain offers.
pub trait ExtendedNumber: SignStrict {
    fn is_nan(&self) -> (r: bool)
        requires
            self.inv(),
        ensures
            r == (self@ is Nan),
    ;

    fn is_infinite(&self) -> (r: bool)
        requires
            self.inv(),
        ensures
            r == (self@ is Inf),
    ;

    /// The lax sign: zero and NaN are level, everything else reports its
    /// sign.
    fn sign(&self) -> (r: core::cmp::Ordering)
        requires
            self.inv(),
        ensures
            r == sign_ext(self@),
    ;

    /// Whether the value is a `Zero` variant; in particular NaN, whose
    /// lax sign is also level, is not a zero.
    fn is_zero(&self) -> (r: bool)
        requires
            self.inv(),
        ensures
            r == (self@ is Zero),
    {
        proof {
            self.inv_wf();
        }
        !self.is_nan() && matches!(self.sign(), core::cmp::Ordering::Equal)
    }

    /// Whether the value is neither NaN nor infinite.
    fn is_finite(&self) -> (r: bool)
        requires
            self.inv(),
        ensures
            r == !(self@ is Nan || self@ is Inf),
    {
        !self.is_nan() && !self.is_infinite()
    }

    /// Whether the value carries a positive sign; NaN carries none.
    fn is_sign_positive(&self) -> (r: bool)
        requires
            self.inv(),
        ensures
            r == (!(self@ is Nan) && sign_strict_ext(self@) is Greater),
    {
        !self.is_nan() && matches!(self.sign_strict(), core::cmp::Ordering::Greater)
    }

    /// Whether the value carries a negative sign; NaN carries none.
    fn is_sign_negative(&self) -> (r: bool)
        requires
            self.inv(),
        ensures
            r == (!(self@ is Nan) && sign_strict_ext(self@) is Less),
    {
        proof {
            self.inv_wf();
        }
        !self.is_sign_positive() && !self.is_nan()
    }
}

/// Reduction to the best rational approximation whose denominator stays
/// within a bound, without changing the receiver.
pub trait Approx<N> {
    type Output;

    /// What the implementation demands of its inputs.
    spec fn approx_req(&self, max_den: &N) -> bool;

    fn approx(self, max_den: &N) -> Self::Output
        requires
            self.approx_req(max_den),
    ;
}

/// In-place form of `Approx`.
pub trait ApproxAssign<N> {
    /// What the implementation demands of its inputs.
    spec fn approx_assign_req(&self, max_den: &N) -> bool;

    fn approx_assign(&mut self, max_den: &N)
        requires
            old(self).approx_assign_req(max_den),
    ;
}

/// The constant ten, which decimal parsing scales by.
pub trait Ten: Sized {
    fn ten() -> Self;
}

impl SignStrict for MpnExt {
    open spec fn inv(&self) -> bool {
        self.wf()
    }

    proof fn inv_wf(&self) {
    }

    fn sign_strict(&self) -> (r: core::cmp::Ordering) {
        match self {
            MpnExt::NaN => core::cmp::Ordering::Equal,
            _ => core::cmp::Ordering::Greater,
        }
    }
}

impl ExtendedNumber for MpnExt {
    fn is_nan(&self) -> (r: bool) {
        matches!(self, MpnExt::NaN)
    }

    fn is_infinite(&self) -> (r: bool) {
        matches!(self, MpnExt::Inf)
    }

    fn sign(&self) -> (r: core::cmp::Ordering) {
        MpnExt::sign(self)
    }
}

impl SignStrict for MpzExt {
    open spec fn inv(&self) -> bool {
        self.wf()
    }

    proof fn inv_wf(&self) {
    }

    fn sign_strict(&self) -> (r: core::cmp::Ordering) {
        match self {
            MpzExt::NaN => core::cmp::Ordering::Equal,
            MpzExt::Zero(s) => if *s {
                core::cmp::Ordering::Greater
            } else {
                core::cmp::Ordering::Less
            },
            MpzExt::Inf(s) => if *s {
                core::cmp::Ordering::Greater
            } else {
                core::cmp::Ordering::Less
            },
            MpzExt::Integer(z) => int_sign(z),
        }
    }
}

impl PartialOrdStrict for MpzExt {
    fn partial_cmp_strict(&self, other: &Self) -> (r: Option<core::cmp::Ordering>) {
        match (self, other) {
            (MpzExt::Zero(s1), MpzExt::Zero(s2)) => if s1 == s2 {
                Some(core::cmp::Ordering::Equal)
            } else if *s1 {
                Some(core::cmp::Ordering::Greater)
            } else {
                Some(core::cmp::Ordering::Less)
            },
            _ => self.partial_cmp(other),
        }
    }
}

impl ExtendedNumber for MpzExt {
    fn is_nan(&self) -> (r: bool) {
        matches!(self, MpzExt::NaN)
    }

    fn is_infinite(&self) -> (r: bool) {
        matches!(self, MpzExt::Inf(_))
    }

    fn sign(&self) -> (r: core::cmp::Ordering) {
        MpzExt::sign(self)
    }
}

impl SignStrict for MpqExt {
    open spec fn inv(&self) -> bool {
        self.wf()
    }

    proof fn inv_wf(&self) {
    }

    fn sign_strict(&self) -> (r: core::cmp::Ordering) {
        match self {
            MpqExt::NaN => core::cmp::Ordering::Equal,
            MpqExt::Zero(s) => if *s {
                core::cmp::Ordering::Greater
            } else {
                core::cmp::Ordering::Less
            },
            MpqExt::Inf(s) => if *s {
                core::cmp::Ordering::Greater
            } else {
                core::cmp::Ordering::Less
            },
            MpqExt::Rational(q) => rat_sign(q),
        }
    }
}

impl PartialOrdStrict for MpqExt {
    fn partial_cmp_strict(&self, other: &Self) -> (r: Option<core::cmp::Ordering>) {
        match (self, other) {
            (MpqExt::Zero(s1), MpqExt::Zero(s2)) => if s1 == s2 {
                Some(core::cmp::Ordering::Equal)
            } else if *s1 {
                Some(core::cmp::Ordering::Greater)
            } else {
                Some(core::cmp::Ordering::Less)
            },
            _ => self.partial_cmp(other),
        }
    }
}

impl ExtendedNumber for MpqExt {
    fn is_nan(&self) -> (r: bool) {
        matches!(self, MpqExt::NaN)
    }

    fn is_infinite(&self) -> (r: bool) {
        matches!(self, MpqExt::Inf(_))
    }

    fn sign(&self) -> (r: core::cmp::Ordering) {
        MpqExt::sign(self)
    }

    /// Tests the variant directly rather than going through the sign.
    fn is_zero(&self) -> (r: bool)
        ensures
            r == (self@ is Zero),
    {
        matches!(self, MpqExt::Zero(_))
    }
}

impl Approx<Natural> for MpqExt {
    type Output = MpqExt;

    open spec fn approx_req(&self, max_den: &Natural) -> bool {
        self.wf() && nat_of(*max_den) >= 1
    }

    /// Delegates to the inherent `MpqExt::approx` and carries its full
    /// contract.
    fn approx(self, max_den: &Natural) -> (r: MpqExt)
        ensures
            r.wf(),
            !(self@ is Fin) ==> r@ == self@,
            self@ matches ExtVal::Fin { num, den } ==> match r@ {
                ExtVal::Fin { num: rn, den: rd } => {
                    &&& 1 <= rd <= nat_of(*max_den)
                    &&& (den <= nat_of(*max_den) ==> rn == num && rd == den)
                    &&& forall|cn: int, cd: int|
                        1 <= cd <= nat_of(*max_den) ==> no_closer_frac(num, den, rn, rd, cn, cd)
                    &&& forall|cn: int, cd: int|
                        1 <= cd < rd ==> closer_frac(num, den, rn, rd, cn, cd)
                },
                ExtVal::Zero { sign } => {
                    &&& sign == (num > 0)
                    &&& forall|cn: int, cd: int|
                        1 <= cd <= nat_of(*max_den) ==> no_closer_frac(num, den, 0, 1, cn, cd)
                },
                _ => false,
            },
    {
        MpqExt::approx(self, max_den)
    }
}

impl ApproxAssign<Natural> for MpqExt {
    open spec fn approx_assign_req(&self, max_den: &Natural) -> bool {
        self.wf() && nat_of(*max_den) >= 1
    }

    /// In-place form of the inherent `MpqExt::approx`.
    fn approx_assign(&mut self, max_den: &Natural)
        ensures
            final (self).wf(),
            !(old(self)@ is Fin) ==> final (self)@ == old(self)@,
    {
        let mut tmp = MpqExt::NaN;
        core::mem::swap(&mut tmp, self);
        *self = tmp.approx(max_den);
    }
}

impl Ten for MpnExt {
    fn ten() -> (r: Self)
        ensures
            r.wf(),
            r@ == ext_from_int(10),
    {
        MpnExt::from_u64(10)
    }
}

impl Ten for MpzExt {
    fn ten() -> (r: Self)
        ensures
            r.wf(),
            r@ == ext_from_int(10),
    {
        MpzExt::from_i64(10)
    }
}

impl Ten for MpqExt {
    fn ten() -> (r: Self)
        ensures
            r.wf(),
            r@ == ext_from_int(10),
    {
        MpqExt::from_i64(10)
    }
}

/// The constant ten of the plain `Natural`, for parser use.
impl Ten for Natural {
    fn ten() -> (r: Self)
        ensures
            nat_of(r) == 10,
    {
        nat_from_u64(10)
    }
}

} // verus!
