//! Language identifiers of string descriptors.
use vstd::prelude::*;

verus! {

/// A 16-bit language identifier, as string descriptor zero lists them and as
/// a request for a string names one.
#[derive(Debug, Clone, Copy, PartialEq, Eq, Structural)]
pub struct LanguageId(pub u16);

impl LanguageId {
    pub fn from(code: u16) -> (r: Self)
        ensures
            r == LanguageId(code),
    {
        LanguageId(code)
    }
}

} // verus!
