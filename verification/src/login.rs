use vstd::prelude::*;

use crate::startup::HmacSecret;

verus! {

/// The submitted login form.
pub struct FormData {
    pub username: String,
    pub password: String,
}

/// Query parameters of the login page: an error message and its tag.
pub struct QueryParams {
    pub error: String,
    pub tag: String,
}

impl QueryParams {
    /// Releases the error message for rendering on the login page.
    pub fn verify(self, _secret: &HmacSecret) -> (r: Result<String, String>)
        ensures
            r matches Ok(s) && s@ == self.error@,
    {
        Ok(self.error)
    }
}

} // verus!
