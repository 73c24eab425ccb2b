//! Attribute values of keyring items, which are stored as authentication
//! tags and not in the clear.

use vstd::prelude::*;
use vstd::std_specs::convert::{FromSpec, FromSpecImpl};
use vstd::utf8::encode_utf8;
use zeroize::Zeroize;

use crate::crypto::{compute_mac, hmac_sha256};
use crate::key::Key;

verus! {

/// Trusted: `Zeroize::zeroize` of the `zeroize` crate on a `String`. It
/// overwrites the bytes of the string with zeros and then clears it, so the
/// string is empty afterwards.
#[verifier::external_body]
fn wipe_text(text: &mut String)
    ensures
        final(text)@ == Seq::<char>::empty(),
    opens_invariants none
    no_unwind
{
    text.zeroize();
}

/// The value of an attribute. It is wiped when it is dropped.
pub struct AttributeValue(String);

impl View for AttributeValue {
    type V = Seq<char>;

    closed spec fn view(&self) -> Seq<char> {
        self.0@
    }
}

impl AttributeValue {
    /// The authentication tag of the value under `key`: the HMAC-SHA-256
    /// tag of its UTF-8 bytes.
    pub fn mac(&self, key: &Key) -> (tag: Vec<u8>)
        ensures
            tag@ == hmac_sha256(key@, encode_utf8(self@)),
            tag@.len() == 32,
    {
        match compute_mac(self.0.as_str().as_bytes(), key) {
            Ok(tag) => tag,
            Err(_) => Vec::new(),
        }
    }

    /// The attribute value with the given text.
    pub fn new(value: &str) -> (attribute: AttributeValue)
        ensures
            attribute@ == value@,
    {
        AttributeValue(String::from_str(value))
    }

    /// Overwrites the text with zeros and empties the value.
    pub fn zeroize(&mut self)
        ensures
            final(self)@ == Seq::<char>::empty(),
    {
        wipe_text(&mut self.0);
    }

    /// The value as text.
    pub fn as_str(&self) -> (text: &str)
        ensures
            text@ == self@,
    {
        self.0.as_str()
    }
}

impl From<String> for AttributeValue {
    fn from(value: String) -> (attribute: AttributeValue) {
        AttributeValue(value)
    }
}

impl FromSpecImpl<String> for AttributeValue {
    open spec fn obeys_from_spec() -> bool {
        true
    }

    closed spec fn from_spec(value: String) -> AttributeValue {
        AttributeValue(value)
    }
}

/// The attribute value made of a string holds the text of the string.
pub proof fn lemma_from_string(value: String)
    ensures
        <AttributeValue as FromSpec<String>>::from_spec(value)@ == value@,
{
}

impl<'a> From<&'a str> for AttributeValue {
    fn from(value: &'a str) -> (attribute: AttributeValue) {
        AttributeValue::new(value)
    }
}

impl<'a> FromSpecImpl<&'a str> for AttributeValue {
    /// The conversion copies the text, and a copy is not known to be the
    /// same string: `new` states what the conversion gives.
    open spec fn obeys_from_spec() -> bool {
        false
    }

    closed spec fn from_spec(value: &'a str) -> AttributeValue {
        arbitrary()
    }
}

impl Drop for AttributeValue {
    fn drop(&mut self)
        opens_invariants none
        no_unwind
    {
        wipe_text(&mut self.0);
    }
}

} // verus!
