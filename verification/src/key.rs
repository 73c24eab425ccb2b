//! Key material: byte buffers that are overwritten with zeros when they are
//! released.

use vstd::prelude::*;
use zeroize::Zeroize;

verus! {

/// Why a key is considered weak.
#[derive(Clone, Copy, Debug, PartialEq, Eq, Structural)]
pub enum WeakKeyReason {
    PasswordTooShort,
    PasswordLowEntropy,
}

/// Strength tag carried by every key. A weak key may decrypt legacy items
/// but must not protect new ones.
#[derive(Clone, Copy, Debug, PartialEq, Eq, Structural)]
pub enum KeyStrength {
    Strong,
    Weak(WeakKeyReason),
}

/// Trusted: `Zeroize::zeroize` of the `zeroize` crate on a `Vec<u8>`. It
/// overwrites the elements and the spare capacity with zeros and then clears
/// the vector, so the vector is empty afterwards.
#[verifier::external_body]
pub(crate) fn wipe(buffer: &mut Vec<u8>)
    ensures
        final(buffer)@ == Seq::<u8>::empty(),
    opens_invariants none
    no_unwind
{
    buffer.zeroize();
}

/// An opaque sequence of key bytes with a strength tag. The bytes are wiped
/// when the key is dropped.
pub struct Key {
    bytes: Vec<u8>,
    strength: KeyStrength,
}

impl View for Key {
    type V = Seq<u8>;

    closed spec fn view(&self) -> Seq<u8> {
        self.bytes@
    }
}

impl Key {
    /// The strength tag of the key.
    pub closed spec fn spec_strength(&self) -> KeyStrength {
        self.strength
    }

    /// Wraps raw bytes with an explicit strength.
    pub fn new(bytes: Vec<u8>, strength: KeyStrength) -> (key: Key)
        ensures
            key@ == bytes@,
            key.spec_strength() == strength,
    {
        Key { bytes, strength }
    }

    /// The strength tag of the key.
    #[verifier::when_used_as_spec(spec_strength)]
    pub fn strength(&self) -> (strength: KeyStrength)
        ensures
            strength == self.spec_strength(),
    {
        self.strength
    }

    /// Whether the key may protect newly created items: only a strong key may.
    pub fn may_protect_new_items(&self) -> (allowed: bool)
        ensures
            allowed == (self.spec_strength() == KeyStrength::Strong),
    {
        match self.strength {
            KeyStrength::Strong => true,
            KeyStrength::Weak(_) => false,
        }
    }

    /// The number of key bytes.
    pub fn len(&self) -> (n: usize)
        ensures
            n == self@.len(),
    {
        self.bytes.len()
    }

    /// Read access to the key bytes.
    pub fn as_view(&self) -> (bytes: &[u8])
        ensures
            bytes@ == self@,
    {
        self.bytes.as_slice()
    }

    /// Write access to the key bytes, for the duration of one derivation.
    /// The strength tag is not affected.
    pub fn as_mut_view(&mut self) -> (bytes: &mut Vec<u8>)
        ensures
            bytes@ == old(self)@,
            final(self)@ == final(bytes)@,
            final(self).spec_strength() == old(self).spec_strength(),
    {
        &mut self.bytes
    }
}

impl Key {
    /// A copy of the key that shares nothing with it, for a task that needs
    /// the key of another owner. The copy is wiped on its own when it is
    /// dropped.
    pub fn deep_copy(&self) -> (copy: Key)
        ensures
            copy@ == self@,
            copy.spec_strength() == self.spec_strength(),
    {
        Key { bytes: self.bytes.clone(), strength: self.strength }
    }

    /// Overwrites the key bytes with zeros and empties the key. The
    /// strength tag stays.
    pub fn zeroize(&mut self)
        ensures
            final(self)@ == Seq::<u8>::empty(),
            final(self).spec_strength() == old(self).spec_strength(),
    {
        wipe(&mut self.bytes);
    }
}

impl Drop for Key {
    fn drop(&mut self)
        opens_invariants none
        no_unwind
    {
        wipe(&mut self.bytes);
    }
}

/// Plaintext user data. The bytes are wiped when the secret is dropped.
pub struct Secret {
    bytes: Vec<u8>,
}

impl View for Secret {
    type V = Seq<u8>;

    closed spec fn view(&self) -> Seq<u8> {
        self.bytes@
    }
}

impl Secret {
    /// The secret that holds the given bytes.
    pub fn new(bytes: Vec<u8>) -> (secret: Secret)
        ensures
            secret@ == bytes@,
    {
        Secret { bytes }
    }

    /// The number of bytes.
    pub fn len(&self) -> (n: usize)
        ensures
            n == self@.len(),
    {
        self.bytes.len()
    }

    /// Read access to the bytes.
    pub fn as_bytes(&self) -> (bytes: &[u8])
        ensures
            bytes@ == self@,
    {
        self.bytes.as_slice()
    }

    /// A copy of the bytes, which the caller then owns and must wipe itself.
    pub fn to_vec(&self) -> (bytes: Vec<u8>)
        ensures
            bytes@ == self@,
    {
        self.bytes.clone()
    }
}

impl Secret {
    /// Overwrites the bytes with zeros and empties the secret.
    pub fn zeroize(&mut self)
        ensures
            final(self)@ == Seq::<u8>::empty(),
    {
        wipe(&mut self.bytes);
    }
}

impl Drop for Secret {
    fn drop(&mut self)
        opens_invariants none
        no_unwind
    {
        wipe(&mut self.bytes);
    }
}

} // verus!
