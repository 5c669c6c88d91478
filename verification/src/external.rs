//! Outside types carried through the library's data.
use vstd::prelude::*;

verus! {

/// `std::path::PathBuf`, carried opaquely in request types.
#[verifier::external_type_specification]
#[verifier::external_body]
pub struct ExPathBuf(std::path::PathBuf);

/// `serde_json::Value`, carried opaquely in report types.
#[verifier::external_type_specification]
#[verifier::external_body]
pub struct ExJsonValue(serde_json::Value);

} // verus!

verus! {

/// `Clone::clone` of `serde_json::Value`; nothing is stated of the copy, so
/// only derived `Clone` impls of types that carry a value call it.
pub assume_specification[ <serde_json::Value as Clone>::clone ](value: &serde_json::Value) -> serde_json::Value;

/// `Clone::clone` of `std::path::PathBuf`; nothing is stated of the copy, so
/// only derived `Clone` impls of request types that carry a path call it.
pub assume_specification[ <std::path::PathBuf as Clone>::clone ](path: &std::path::PathBuf) -> std::path::PathBuf;

} // verus!
