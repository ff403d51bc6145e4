//! Declarations of the outside types that the DWARF reader carries.

use vstd::prelude::*;

verus! {

#[verifier::external_type_specification]
#[verifier::external_body]
pub struct ExObjectError(object::read::Error);

#[verifier::external_type_specification]
#[verifier::external_body]
pub struct ExGimliError(gimli::read::Error);

#[verifier::external_type_specification]
#[verifier::external_body]
#[verifier::reject_recursive_types(T)]
pub struct ExDwarfSections<T>(gimli::DwarfSections<T>);

#[verifier::external_type_specification]
#[verifier::external_body]
pub struct ExPathBuf(std::path::PathBuf);

} // verus!
