//! The error that a refused request carries.
use vstd::prelude::*;

verus! {

/// A request that the service does not serve: a bad request.
#[derive(Clone, Copy, Debug, PartialEq, Eq, Structural)]
pub struct UserError;

impl UserError {
    /// The short description of the error.
    pub fn description(&self) -> (d: &'static str)
        ensures
            d@ == "bad request"@,
    {
        "bad request"
    }

    /// The error as it is shown to a reader.
    pub fn to_string(&self) -> (s: String)
        ensures
            s@ == "ERROR: bad request"@,
    {
        "ERROR: bad request".to_owned()
    }
}

} // verus!
