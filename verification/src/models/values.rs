//! Plain values that records are built from, and the calls that fetch them
//! from outside the library.

use serde_json::Value;
use vstd::prelude::*;

verus! {

/// Costs and averages are fixed-point numbers: this many units stand for one.
/// Two costs that differ by less than one unit are the same cost.
pub const FIXED_POINT_UNIT: u64 = 10_000;

/// A point in time: whole seconds since the Unix epoch and the nanoseconds
/// into that second.
#[derive(Debug, Clone, Copy, PartialEq, Eq, Structural)]
pub struct Timestamp {
    pub seconds: i64,
    pub nanoseconds: u32,
}

/// `serde_json::Value`, as a value that the verifier cannot look into:
/// records carry their metadata along and never read it.
#[verifier::external_type_specification]
#[verifier::external_body]
pub struct ExValue(Value);

/// `Uuid::new_v4`, as its 128 bits: a random identifier. Nothing is claimed
/// of the outcome. The outside function panics where the system yields no
/// random bytes.
#[verifier::external_body]
pub(crate) fn random_id() -> (id: u128) {
    uuid::Uuid::new_v4().as_u128()
}

/// `Utc::now`, as seconds and nanoseconds: the current time. Nothing is
/// claimed of the outcome. The outside function panics where the system
/// clock stands before 1970.
#[verifier::external_body]
pub(crate) fn current_time() -> (now: Timestamp) {
    let now = chrono::Utc::now();
    Timestamp { seconds: now.timestamp(), nanoseconds: now.timestamp_subsec_nanos() }
}

/// What a metadata value holds where it is a JSON object: the names of its
/// members. `None` for a value that is no object.
pub uninterp spec fn metadata_members(metadata: Value) -> Option<Set<Seq<char>>>;

/// Whether a metadata value is the JSON object without members.
pub open spec fn is_empty_object(metadata: Value) -> bool {
    metadata_members(metadata) == Some(Set::<Seq<char>>::empty())
}

/// `serde_json::Map::new` inside `Value::Object`: an object without members,
/// the metadata of a record that was given none.
#[verifier::external_body]
pub(crate) fn empty_metadata() -> (metadata: Value)
    ensures
        metadata_members(metadata) == Some(Set::<Seq<char>>::empty()),
{
    Value::Object(serde_json::Map::new())
}

/// `Value::clone`: a copy that equals the value copied.
#[verifier::external_body]
pub(crate) fn copy_metadata(metadata: &Value) -> (copy: Value)
    ensures
        copy == *metadata,
{
    metadata.clone()
}

} // verus!
