//! A challenge-response check: the server keeps a salt, the expected
//! response is the salted digest of the user's password.

use vstd::prelude::*;
use vstd::string::StringExecFns;

verus! {

/// A registered user: a name and a secret.
pub struct User {
    pub username: String,
    pub password: String,
}

/// The verifying side of the exchange; the salt is the challenge it hands
/// out.
pub struct Server {
    pub salt: String,
}

/// The text the demonstration digest produces for an input and a salt.
pub open spec fn hash_spec(input: Seq<char>, salt: Seq<char>) -> Seq<char> {
    "Hash("@ + input + " + "@ + salt + ")"@
}

/// Tag an input with a salt: the demonstration digest used by the
/// challenge-response check, a plain tagged concatenation.
pub fn hash(input: String, salt: &str) -> (r: String)
    ensures
        r@ == hash_spec(input@, salt@),
{
    let mut out: String = "Hash(".to_owned();
    out.append(input.as_str());
    out.append(" + ");
    out.append(salt);
    out.append(")");
    out
}

impl Server {
    /// True exactly when the response equals the digest of the user's
    /// password under this server's salt.
    pub fn authenticate(&self, user: &User, response: &str) -> (ok: bool)
        ensures
            ok == (response@ == hash_spec(user.password@, self.salt@)),
    {
        let expected: String = hash(user.password.clone(), self.salt.as_str());
        let given: String = response.to_owned();
        given == expected
    }
}

} // verus!
