//! Text that is wiped from memory when it is dropped.
use secrecy::{ExposeSecret, SecretString};
use vstd::prelude::*;

verus! {

/// A `secrecy::SecretString`: a box around one text. It gives the text out only on request, leaves
/// it out of its debug output and overwrites it on drop.
#[verifier::external_body]
#[derive(Debug)]
pub struct Secret {
    inner: SecretString,
}

/// The text that a secret holds.
pub uninterp spec fn secret_text(secret: Secret) -> Seq<char>;

impl Secret {
    /// A secret that holds `text`.
    pub fn new(text: String) -> (secret: Secret)
        ensures
            secret_text(secret) == text@,
    {
        Secret::conceal(text)
    }

    /// `secrecy::SecretString::new`. Claimed: the box holds the text that it was made from.
    #[verifier::external_body]
    pub(crate) fn conceal(text: String) -> (secret: Secret)
        ensures
            secret_text(secret) == text@,
    {
        Secret { inner: SecretString::new(text.into()) }
    }

    /// `secrecy::ExposeSecret::expose_secret`. Claimed: the call lends out the text that the box
    /// holds.
    #[verifier::external_body]
    pub(crate) fn expose(&self) -> (text: &str)
        ensures
            text@ == secret_text(*self),
    {
        self.inner.expose_secret()
    }
}

} // verus!
