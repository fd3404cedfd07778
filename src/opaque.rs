//! The save codec's types that the tree model carries without reading them.
use vstd::prelude::*;

verus! {

/// Declares `uesave::Property`: a property of a kind the edit never reads,
/// carried through unchanged.
#[verifier::external_type_specification]
#[verifier::external_body]
pub struct ExProperty(uesave::Property);

/// Declares `uesave::PropertyType`: an array's element type tag other than
/// `StructProperty`, carried through unchanged.
#[verifier::external_type_specification]
#[verifier::external_body]
pub struct ExPropertyType(uesave::PropertyType);

/// Declares `uesave::StructType`: a struct type tag other than a named user
/// struct, carried through unchanged.
#[verifier::external_type_specification]
#[verifier::external_body]
pub struct ExStructType(uesave::StructType);

/// Declares `uesave::ValueArray`: an array body that is not a struct array,
/// carried through unchanged.
#[verifier::external_type_specification]
#[verifier::external_body]
pub struct ExValueArray(uesave::ValueArray);

/// Declares `uesave::StructValue`: a struct value that is not a list of
/// properties, carried through unchanged.
#[verifier::external_type_specification]
#[verifier::external_body]
pub struct ExStructValue(uesave::StructValue);

} // verus!
