//! The wall clock, as `web_time` offers it in the browser and natively.
use vstd::prelude::*;
use web_time::SystemTime;

verus! {

/// `web_time::SystemTime`, carried through the library unopened.
#[verifier::external_type_specification]
#[verifier::external_body]
pub struct ExSystemTime(web_time::SystemTime);

/// Reads the clock with `SystemTime::now()`; nothing is stated of the reading, which
/// depends on when it is taken.
#[verifier::external_body]
pub(crate) fn now() -> SystemTime {
    SystemTime::now()
}

} // verus!
