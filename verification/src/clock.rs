//! The one clock access of the service: the current UTC time as RFC 3339
//! text, for the health payload. The time depends on the moment of the
//! call, so nothing is promised of the returned bytes; the payload around
//! them is built and proved in `emit`.

use vstd::prelude::*;

use crate::emit::health_json;
use crate::emit::health_json_spec;

verus! {

/// Relies on chrono's `Utc::now` and `DateTime::to_rfc3339` for the
/// current wall-clock time, rendered as RFC 3339 text. The result depends
/// on the moment of the call, so no clause constrains it.
#[verifier::external_body]
fn utc_now_rfc3339() -> Vec<u8> {
    chrono::Utc::now().to_rfc3339().into_bytes()
}

/// The health payload for the moment of the call: the fixed status and
/// service fields around some timestamp text.
pub fn health_now() -> (r: Vec<u8>)
    ensures
        exists|t: Seq<u8>| r@ == health_json_spec(t),
{
    let time = utc_now_rfc3339();
    let r = health_json(&time);
    proof {
        assert(r@ == health_json_spec(time@));
    }
    r
}

} // verus!
