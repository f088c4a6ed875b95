//! The hint that accompanies a lookup.

use vstd::prelude::*;
use crate::address::AddressFamily;

verus! {

/// What the resolver is told about the addresses wanted.  Only the family is
/// ever chosen; the other selectors stay at zero, which the resolver reads as
/// "any socket type, any protocol, no special behaviour".
#[derive(Clone, Copy, Debug, PartialEq, Eq, Structural)]
pub struct ResolutionHint {
    pub flags: i32,
    pub family: AddressFamily,
    pub socktype: i32,
    pub protocol: i32,
}

/// The hint for a family, as a value.
pub open spec fn hint_for(family: AddressFamily) -> ResolutionHint {
    ResolutionHint { flags: 0, family, socktype: 0, protocol: 0 }
}

/// Builds the hint for a family: the family is set, every other selector is
/// zero.
pub fn build_hints(family: AddressFamily) -> (hint: ResolutionHint)
    ensures
        hint == hint_for(family),
{
    ResolutionHint { flags: 0, family, socktype: 0, protocol: 0 }
}

} // verus!
