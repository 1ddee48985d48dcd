//! Caller identities.
//!
//! An identity is a `candid::Principal`. Its inside is not visible to the
//! verifier: the contracts of this crate speak of a principal through the
//! byte string that it stands for.

use candid::Principal;
use vstd::prelude::*;

verus! {

/// `candid::Principal`, made known to the verifier so that it can stand in
/// signatures and fields. Nothing is claimed of what is inside.
#[verifier::external_type_specification]
#[verifier::external_body]
pub struct ExPrincipal(Principal);

/// The significant bytes of a principal, as `Principal::as_slice` gives them.
pub uninterp spec fn principal_bytes(p: Principal) -> Seq<u8>;

/// The bytes of the anonymous principal, which stands for an owner that has
/// not been set.
pub open spec fn anonymous_bytes() -> Seq<u8> {
    seq![4u8]
}

/// `Principal::anonymous`. Trusted: the principal it builds has length 1 and
/// the single byte 4.
#[verifier::external_body]
pub(crate) fn anonymous() -> (p: Principal)
    ensures
        principal_bytes(p) == anonymous_bytes(),
{
    Principal::anonymous()
}

/// `==` on `Principal`. Trusted: the derived comparison looks at the length
/// and at the whole backing array, whose bytes past the length are always
/// zero, so two principals are equal exactly when their significant bytes are.
#[verifier::external_body]
pub(crate) fn same_principal(a: &Principal, b: &Principal) -> (same: bool)
    ensures
        same == (principal_bytes(*a) == principal_bytes(*b)),
{
    a == b
}

} // verus!
