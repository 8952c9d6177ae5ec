use vstd::prelude::*;
use vstd::string::StringExecFns;

use crate::domain::email_ok;
use crate::domain::name_ok;
use crate::domain::NewSubscriber;
use crate::domain::SubscriberEmail;
use crate::domain::SubscriberName;

verus! {

/// The submitted subscription form.
pub struct FormData {
    pub email: String,
    pub name: String,
}

impl FormData {
    /// Validates both fields; a subscriber exists exactly when both pass.
    pub fn parse(self) -> (r: Result<NewSubscriber, String>)
        ensures
            r matches Ok(ns) ==> email_ok(self.email@) && name_ok(self.name@) && ns.email@
                == self.email@ && ns.name@ == self.name@,
            r is Err ==> !(email_ok(self.email@) && name_ok(self.name@)),
    {
        let email = match SubscriberEmail::parse(self.email) {
            Result::Ok(e) => e,
            Result::Err(_) => {
                return Err(String::from_str("invalid subscriber email"));
            },
        };
        let name = match SubscriberName::parse(self.name) {
            Result::Ok(n) => n,
            Result::Err(_) => {
                return Err(String::from_str("invalid subscriber name"));
            },
        };
        Ok(NewSubscriber { email, name })
    }
}

} // verus!
