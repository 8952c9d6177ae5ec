use vstd::prelude::*;

use crate::secret::SecretString;

verus! {

/// The public base URL the application links back to itself with.
pub struct ApplicationBaseUrl(pub String);

/// The signing secret for cookie and query-tag authentication.
pub struct HmacSecret(pub SecretString);

} // verus!
