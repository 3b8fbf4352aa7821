use vstd::prelude::*;

verus! {

// The JSON tree type of the serde_json crate, declared so that values of
// it can pass through signatures; nothing of its inside is visible here.
#[verifier::external_type_specification]
#[verifier::external_body]
pub struct ExJsonValue(serde_json::Value);

} // verus!
