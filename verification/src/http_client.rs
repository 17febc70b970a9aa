//! User agent for the HTTP clients the callers build.

use vstd::prelude::*;

verus! {

/// The user agent the datasource tool identifies itself with.
pub fn get_user_agent() -> (r: &'static str)
    ensures
        r@ == "fantoir-datasource/0.1.0 (https://databases.nasqueron.org/)"@,
{
    "fantoir-datasource/0.1.0 (https://databases.nasqueron.org/)"
}

} // verus!
