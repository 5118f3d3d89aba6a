//! Keys and secrets in memory: they are wiped when they are let go, and print as nothing.

use vstd::prelude::*;
use zeroize::Zeroizing;

verus! {

/// Bytes in a `zeroize::Zeroizing`, which overwrites them when it is dropped.
#[verifier::external_body]
pub struct SecretBytes {
    held: Zeroizing<Vec<u8>>,
}

/// A text in a `zeroize::Zeroizing`, which overwrites it when it is dropped.
#[verifier::external_body]
pub struct SecretText {
    held: Zeroizing<String>,
}

/// The bytes that are held.
pub uninterp spec fn held_bytes(s: SecretBytes) -> Seq<u8>;

/// The text that is held.
pub uninterp spec fn held_text(s: SecretText) -> Seq<char>;

impl View for SecretBytes {
    type V = Seq<u8>;

    open spec fn view(&self) -> Seq<u8> {
        held_bytes(*self)
    }
}

impl View for SecretText {
    type V = Seq<char>;

    open spec fn view(&self) -> Seq<char> {
        held_text(*self)
    }
}

/// `zeroize::Zeroizing::new` on bytes: it holds them as they are.
#[verifier::external_body]
fn hold_bytes(bytes: Vec<u8>) -> (r: SecretBytes)
    ensures
        held_bytes(r) == bytes@,
{
    SecretBytes { held: Zeroizing::new(bytes) }
}

/// `<zeroize::Zeroizing as Deref>::deref` on bytes: those that it holds.
#[verifier::external_body]
fn look_at_bytes(s: &SecretBytes) -> (r: &[u8])
    ensures
        r@ == held_bytes(*s),
{
    s.held.as_slice()
}

/// `zeroize::Zeroizing::new` on a text: it holds it as it is.
#[verifier::external_body]
fn hold_text(text: String) -> (r: SecretText)
    ensures
        held_text(r) == text@,
{
    SecretText { held: Zeroizing::new(text) }
}

/// `<zeroize::Zeroizing as Deref>::deref` on a text: the one that it holds.
#[verifier::external_body]
fn look_at_text(s: &SecretText) -> (r: &str)
    ensures
        r@ == held_text(*s),
{
    s.held.as_str()
}

impl SecretBytes {
    /// Takes bytes over.
    pub fn new(bytes: Vec<u8>) -> (r: Self)
        ensures
            r@ == bytes@,
    {
        hold_bytes(bytes)
    }

    /// The bytes, for as long as they are looked at.
    pub fn as_slice(&self) -> (r: &[u8])
        ensures
            r@ == self@,
    {
        look_at_bytes(self)
    }
}

impl SecretText {
    /// Takes a text over.
    pub fn new(text: String) -> (r: Self)
        ensures
            r@ == text@,
    {
        hold_text(text)
    }

    /// The text, for as long as it is looked at.
    pub fn as_str(&self) -> (r: &str)
        ensures
            r@ == self@,
    {
        look_at_text(self)
    }
}

} // verus!
