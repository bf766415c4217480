//! Declaration of the outside rasterization engine type, so that it can be
//! held in a field and carried through signatures.

use vstd::prelude::*;

verus! {

#[verifier::external_type_specification]
#[verifier::external_body]
pub struct ExFontdueFont(fontdue::Font);

} // verus!
