//! What the commands answer, and the error wrapper they answer failures with.
use vstd::prelude::*;
use crate::listing::{decimal, decimal_text};

verus! {

/// An error shown to the operator in its alternate, fully detailed form.
pub struct DisplayAsAlt<T>(pub T);

impl<T> DisplayAsAlt<T> {
    /// The wrapped error.
    pub fn into_inner(self) -> (r: T)
        ensures
            r == self.0,
    {
        self.0
    }
}

impl<T> From<T> for DisplayAsAlt<T> {
    fn from(value: T) -> (r: Self) {
        DisplayAsAlt(value)
    }
}

impl<T> vstd::std_specs::convert::FromSpecImpl<T> for DisplayAsAlt<T> {
    open spec fn obeys_from_spec() -> bool {
        true
    }

    open spec fn from_spec(v: T) -> Self {
        DisplayAsAlt(v)
    }
}

/// The reply once `handle` is followed in `channel`.
pub fn follow_reply(handle: &str, channel: u64) -> (r: String)
    ensures
        r@ == "Followed "@ + handle@ + " in <#"@ + decimal(channel as nat) + ">"@,
{
    let mut s = String::from_str("Followed ");
    s.append(handle);
    s.append(" in <#");
    let digits = decimal_text(channel);
    s.append(digits.as_str());
    s.append(">");
    s
}

/// The reply to an unfollow request for `did`, by whether a subscription was removed.
pub fn unfollow_reply(did: &str, removed: bool) -> (r: String)
    ensures
        removed ==> r@ == "Successfully unfollowed "@ + did@,
        !removed ==> r@ == did@ + " was not followed to begin with"@,
{
    if removed {
        let mut s = String::from_str("Successfully unfollowed ");
        s.append(did);
        s
    } else {
        let mut s = String::from_str(did);
        s.append(" was not followed to begin with");
        s
    }
}

} // verus!
