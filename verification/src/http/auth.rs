//! The parameters of the sign-in requests.

use vstd::prelude::*;

verus! {

/// The parameters of the request that begins a sign-in.
pub struct InitParams {
    pub redirect_target: Option<String>,
}

/// The parameters with which the identity provider calls back.
pub struct CallbackParams {
    pub state: String,
    pub code: String,
}

} // verus!
