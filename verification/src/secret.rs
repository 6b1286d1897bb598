//! Secret text that stays out of logs and debug output.
use secrecy::ExposeSecret;
use vstd::prelude::*;

verus! {

/// A `secrecy::SecretString`, whose text is wiped from memory when the value is dropped. It has no
/// debug output at all. `secrecy::Secret` bounds its parameter by a trait that cannot be named here,
/// so the value is held in a struct that hides it.
#[verifier::external_body]
pub struct SecretString {
    inner: secrecy::SecretString,
}

/// The text that a secret holds.
pub uninterp spec fn secret_text(secret: SecretString) -> Seq<char>;

impl View for SecretString {
    type V = Seq<char>;

    open spec fn view(&self) -> Seq<char> {
        secret_text(*self)
    }
}

/// Calls `secrecy::Secret::new`. Trusted: the new secret holds the text that it was given.
#[verifier::external_body]
fn seal(text: String) -> (secret: SecretString)
    ensures
        secret_text(secret) == text@,
{
    SecretString { inner: secrecy::SecretString::new(text) }
}

/// Calls `secrecy::ExposeSecret::expose_secret`. Trusted: it gives the text that the secret holds.
#[verifier::external_body]
fn expose(secret: &SecretString) -> (text: &String)
    ensures
        text@ == secret_text(*secret),
{
    secret.inner.expose_secret()
}

/// Calls `secrecy::Secret::clone`. Trusted: the copy holds the same text.
#[verifier::external_body]
fn duplicate(secret: &SecretString) -> (copy: SecretString)
    ensures
        secret_text(copy) == secret_text(*secret),
{
    SecretString { inner: secret.inner.clone() }
}

impl Clone for SecretString {
    fn clone(&self) -> (copy: Self)
        ensures
            copy@ == self@,
    {
        duplicate(self)
    }
}

impl SecretString {
    /// Takes ownership of a secret text.
    pub fn new(text: String) -> (secret: Self)
        ensures
            secret@ == text@,
    {
        seal(text)
    }

    /// The secret text.
    pub fn expose_secret(&self) -> (text: &String)
        ensures
            text@ == self@,
    {
        expose(self)
    }
}

/// Two secrets with the same text look the same, and only such two.
pub proof fn law_secrets_are_their_text(a: SecretString, b: SecretString)
    ensures
        a@ == secret_text(a),
        a@ == b@ <==> secret_text(a) == secret_text(b),
{
}

} // verus!
