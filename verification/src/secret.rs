use vstd::prelude::*;

verus! {

/// A wrapper for sensitive strings (passwords, signing keys).
///
/// The wrapped value is reachable only through `expose_secret`, so a secret
/// cannot leak through ordinary conversions of the structures that carry it;
/// every place that reads the plaintext names the exposure explicitly.
pub struct SecretString {
    inner: String,
}

impl View for SecretString {
    type V = Seq<char>;

    closed spec fn view(&self) -> Seq<char> {
        self.inner@
    }
}

impl SecretString {
    pub fn new(inner: String) -> (r: SecretString)
        ensures
            r@ == inner@,
    {
        SecretString { inner }
    }

    pub fn expose_secret(&self) -> (r: &String)
        ensures
            r@ == self@,
    {
        &self.inner
    }
}

} // verus!
