use vstd::prelude::*;

verus! {

/// The failure taxonomy shared by every fallible operation of the library.
#[derive(Clone, Copy, Debug, PartialEq, Eq, Structural)]
pub enum Error {
    /// A user, group, project, member or canister is absent.
    NotFound,
    /// An insert hit an id that is already taken.
    AlreadyExists,
    /// The sender's authority rank is insufficient, an owner-only operation
    /// was attempted by a non-owner, or visibility rules exclude the sender.
    PermissionDenied,
    /// The sender's member record carries an expiration time that has passed.
    IdentityExpired,
    /// A call to an external canister failed; the library never produces this
    /// itself, the surrounding host code uses it when a forwarded call fails.
    ExternalFailure,
}

impl Error {
    /// The text form of each variant.
    pub open spec fn spec_message(self) -> Seq<char> {
        match self {
            Error::NotFound => "not found"@,
            Error::AlreadyExists => "already exists"@,
            Error::PermissionDenied => "no permission"@,
            Error::IdentityExpired => "identity expiration"@,
            Error::ExternalFailure => "external call failed"@,
        }
    }

    /// A short description, for callers that surface errors as text.
    pub fn message(&self) -> (r: &'static str)
        ensures
            r@ == self.spec_message(),
    {
        match self {
            Error::NotFound => "not found",
            Error::AlreadyExists => "already exists",
            Error::PermissionDenied => "no permission",
            Error::IdentityExpired => "identity expiration",
            Error::ExternalFailure => "external call failed",
        }
    }
}

} // verus!
