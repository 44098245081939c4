//! Trusted boundary to the metadata deserializer.
//!
//! Front matter is deserialized by serde_yaml; the resulting structured value
//! is carried opaquely.  Whether a byte string deserializes is a fixed
//! function of the bytes, named [`yaml_parses`].

use vstd::prelude::*;

verus! {

#[verifier::external_type_specification]
#[verifier::external_body]
pub struct ExYamlValue(serde_yaml::Value);

/// Whether the metadata deserializer accepts this byte string.
pub uninterp spec fn yaml_parses(b: Seq<u8>) -> bool;

/// Relies on serde_yaml::from_slice: deserializes a structured value from
/// bytes; success and result depend on the bytes alone.
#[verifier::external_body]
pub(crate) fn parse_yaml(bytes: &Vec<u8>) -> (r: Option<serde_yaml::Value>)
    ensures
        r is Some <==> yaml_parses(bytes@),
{
    serde_yaml::from_slice(bytes).ok()
}

} // verus!
