//! The secret exchange: one Diffie-Hellman key pair bound to one
//! conversation with a prompter, in which the two sides agree on an AES key
//! and the prompter hands over a secret encrypted with it.

use vstd::prelude::*;
use vstd::slice::slice_to_vec;

use crate::crypto::{decrypt, generate_private_key, spec_decrypt};
use crate::dh::{
    generate_aes_key, generate_public_key, left_pad, left_padded, lemma_shared_key_agreement,
    lemma_shared_key_ignores_padding, public_key_of, shared_aes_key_of, SHARED_SECRET_LEN,
};
use crate::envelope::{
    clean_key, decode, encodable, encode, envelope_text, has_header, spec_decode,
    ExchangePayload, IV, PRIVATE, PUBLIC, SECRET,
};
use crate::error::Error;
use crate::key::{Key, KeyStrength, Secret};

verus! {

/// The length of the cipher text of a secret that is taken seriously.
pub const CIPHER_TEXT_LEN: usize = 16;

/// What stands for a secret whose cipher text has another length: two bytes
/// that no password is made of.
pub open spec fn false_secret() -> Seq<u8> {
    seq![0u8, 1u8]
}

/// The public value that the peer put into an envelope, if the envelope can
/// be read and has one.
pub open spec fn peer_public_key_in(exchange: Seq<char>) -> Option<Seq<u8>> {
    match spec_decode(exchange) {
        Some(fields) => if fields.contains_key(PUBLIC@) {
            Some(fields[PUBLIC@])
        } else {
            None
        },
        None => None,
    }
}

/// The secret behind a cipher text: a cipher text of another length than 16
/// is not decrypted and gives the false secret; one of 16 bytes gives what
/// decryption gives, and nothing where decryption fails.
pub open spec fn spec_open_secret(secret: Seq<u8>, iv: Seq<u8>, key: Seq<u8>) -> Option<Seq<u8>> {
    if secret.len() != 16 {
        Some(false_secret())
    } else {
        match spec_decrypt(secret, key, iv) {
            Ok(plain) => Some(plain),
            Err(_) => None,
        }
    }
}

/// The secret in the fields of a final exchange, opened with `key`: nothing
/// where the secret or the vector is missing.
pub open spec fn spec_secret_in(fields: Map<Seq<char>, Seq<u8>>, key: Seq<u8>) -> Option<Seq<u8>> {
    if fields.contains_key(SECRET@) && fields.contains_key(IV@) {
        spec_open_secret(fields[SECRET@], fields[IV@], key)
    } else {
        None
    }
}

/// What `retrieve_secret` returns on each pair of envelopes.
pub open spec fn spec_retrieve_secret(exchange: Seq<char>, aes_key: Seq<char>) -> Option<Seq<u8>> {
    match spec_decode(exchange) {
        Some(fields) => if !(fields.contains_key(SECRET@) && fields.contains_key(IV@)) {
            None
        } else if fields[SECRET@].len() != 16 {
            Some(false_secret())
        } else {
            match spec_decode(aes_key) {
                Some(key_fields) => if key_fields.contains_key(PRIVATE@) {
                    spec_open_secret(fields[SECRET@], fields[IV@], key_fields[PRIVATE@])
                } else {
                    None
                },
                None => None,
            }
        },
        None => None,
    }
}

/// The field keys hold neither `=` nor a line break.
pub proof fn lemma_field_keys_are_clean()
    ensures
        clean_key(PUBLIC@),
        clean_key(PRIVATE@),
        clean_key(SECRET@),
        clean_key(IV@),
{
    reveal_strlit("public");
    reveal_strlit("private");
    reveal_strlit("secret");
    reveal_strlit("iv");
}

/// The false secret as a value.
fn make_false_secret() -> (secret: Secret)
    ensures
        secret@ == false_secret(),
{
    let bytes: Vec<u8> = vec![0u8, 1u8];
    assert(bytes@ =~= false_secret());
    Secret::new(bytes)
}

/// One side of a secret exchange.
pub struct SecretExchange {
    private_key: Key,
    public_key: Key,
}

impl SecretExchange {
    /// The private scalar.
    pub closed spec fn private_bytes(&self) -> Seq<u8> {
        self.private_key@
    }

    /// The public value, as it is sent.
    pub closed spec fn public_bytes(&self) -> Seq<u8> {
        self.public_key@
    }

    /// What holds of every session: the public value is the one that
    /// belongs to the private scalar, padded with zero bytes on the left to
    /// 128 bytes.
    pub open spec fn wf(&self) -> bool {
        self.public_bytes() == left_padded(
            public_key_of(self.private_bytes()),
            SHARED_SECRET_LEN as nat,
        )
    }

    #[verifier::type_invariant]
    spec fn well_formed(&self) -> bool {
        self.wf()
    }

    /// The session of a given private scalar.
    pub fn from_private_key(private_key: Key) -> (result: Result<SecretExchange, Error>)
        ensures
            result matches Ok(session) && session.wf() && session.private_bytes() == private_key@,
    {
        let public_key = match generate_public_key(private_key.as_view()) {
            Ok(public_key) => public_key,
            Err(e) => {
                return Err(e);
            },
        };
        let padded = left_pad(public_key.as_slice(), SHARED_SECRET_LEN);
        Ok(SecretExchange { private_key, public_key: Key::new(padded, KeyStrength::Strong) })
    }

    /// A session with a fresh private scalar of 16 random bytes. It fails
    /// with `Error::Crypto` only where the random source fails.
    pub fn new() -> (result: Result<SecretExchange, Error>)
        ensures
            match result {
                Ok(session) => session.wf() && session.private_bytes().len() == 16,
                Err(e) => e == Error::Crypto,
            },
    {
        match generate_private_key() {
            Ok(private_key) => SecretExchange::from_private_key(private_key),
            Err(e) => Err(e),
        }
    }

    /// The envelope that opens the exchange: it holds the public value of
    /// this side and nothing else.
    pub fn begin(&self) -> (exchange: String)
        ensures
            self.wf(),
            exchange@ == envelope_text(seq![(PUBLIC@, self.public_bytes())]),
            spec_decode(exchange@) == Some(
                Map::<Seq<char>, Seq<u8>>::empty().insert(PUBLIC@, self.public_bytes()),
            ),
    {
        let mut payload = ExchangePayload::new();
        payload.insert(PUBLIC, slice_to_vec(self.public_key.as_view()));
        proof {
            lemma_field_keys_are_clean();
            let fields = payload.fields();
            use_type_invariant(self);
            assert(fields =~= seq![(PUBLIC@, self.public_bytes())]);
            assert(fields[0].1.len() > 0);
            assert(encodable(fields));
        }
        encode(&payload)
    }

    /// The AES key that this side shares with the peer whose envelope
    /// `exchange` is. It fails with `Error::BadExchange` where the envelope
    /// cannot be read or holds no public value, and not otherwise.
    pub fn shared_key(&self, exchange: &str) -> (result: Result<Key, Error>)
        ensures
            match peer_public_key_in(exchange@) {
                Some(peer) => result matches Ok(key) && key@ == shared_aes_key_of(
                    self.private_bytes(),
                    peer,
                ) && key@.len() == 16,
                None => result matches Err(e) && e == Error::BadExchange,
            },
    {
        let decoded = match decode(exchange) {
            Some(decoded) => decoded,
            None => {
                return Err(Error::BadExchange);
            },
        };
        let server_public_key = match decoded.get(PUBLIC) {
            Some(value) => value,
            None => {
                return Err(Error::BadExchange);
            },
        };
        generate_aes_key(self.private_key.as_view(), server_public_key.as_bytes())
    }

    /// The envelope that holds the AES key shared with the peer, under the
    /// key `private`. It fails with `Error::BadExchange` where the envelope
    /// of the peer cannot be read or holds no public value, and not
    /// otherwise.
    pub fn create_shared_secret(&self, exchange: &str) -> (result: Result<String, Error>)
        ensures
            match peer_public_key_in(exchange@) {
                Some(peer) => result matches Ok(text) && {
                    let key = shared_aes_key_of(self.private_bytes(), peer);
                    &&& text@ == envelope_text(seq![(PRIVATE@, key)])
                    &&& spec_decode(text@) == Some(
                        Map::<Seq<char>, Seq<u8>>::empty().insert(PRIVATE@, key),
                    )
                },
                None => result matches Err(e) && e == Error::BadExchange,
            },
    {
        let aes_key = match self.shared_key(exchange) {
            Ok(aes_key) => aes_key,
            Err(e) => {
                return Err(e);
            },
        };
        let mut payload = ExchangePayload::new();
        payload.insert(PRIVATE, slice_to_vec(aes_key.as_view()));
        proof {
            lemma_field_keys_are_clean();
            let fields = payload.fields();
            assert(fields =~= seq![(PRIVATE@, aes_key@)]);
            assert(fields[0].1.len() > 0);
            assert(encodable(fields));
        }
        Ok(encode(&payload))
    }

    /// Opens a cipher text with an AES key and a vector. A cipher text of
    /// another length than 16 bytes is not decrypted: it gives the false
    /// secret, which matches no password. One of 16 bytes gives the
    /// decrypted secret, and nothing where decryption fails.
    pub fn open_secret(secret: &[u8], iv: &[u8], aes_key: &Key) -> (result: Option<Secret>)
        ensures
            match result {
                Some(plain) => spec_open_secret(secret@, iv@, aes_key@) == Some(plain@),
                None => spec_open_secret(secret@, iv@, aes_key@) is None,
            },
    {
        if secret.len() != CIPHER_TEXT_LEN {
            return Some(make_false_secret());
        }
        match decrypt(secret, aes_key, iv) {
            Ok(decrypted) => Some(decrypted),
            Err(_) => None,
        }
    }

    /// The secret of a final exchange, opened with an AES key that is at
    /// hand: nothing where the envelope cannot be read or lacks the secret
    /// or the vector.
    pub fn retrieve_secret_with_key(exchange: &str, aes_key: &Key) -> (result: Option<Secret>)
        ensures
            match spec_decode(exchange@) {
                Some(fields) => match result {
                    Some(plain) => spec_secret_in(fields, aes_key@) == Some(plain@),
                    None => spec_secret_in(fields, aes_key@) is None,
                },
                None => result is None,
            },
    {
        let decoded = decode(exchange)?;
        let secret = decoded.get(SECRET)?;
        let iv = decoded.get(IV)?;
        SecretExchange::open_secret(secret.as_bytes(), iv.as_bytes(), aes_key)
    }

    /// The secret of a final exchange, opened with the AES key that the
    /// envelope `aes_key` holds under the key `private`.
    ///
    /// It gives nothing where the final exchange cannot be read or lacks
    /// the secret or the vector. A secret whose cipher text is not 16 bytes
    /// long then gives the false secret, whatever `aes_key` holds. Otherwise
    /// it gives nothing where `aes_key` cannot be read or lacks the key, and
    /// else what decryption gives.
    pub fn retrieve_secret(exchange: &str, aes_key: &str) -> (result: Option<Secret>)
        ensures
            match result {
                Some(plain) => spec_retrieve_secret(exchange@, aes_key@) == Some(plain@),
                None => spec_retrieve_secret(exchange@, aes_key@) is None,
            },
            !has_header(exchange@) ==> result is None,
    {
        let decoded = decode(exchange)?;
        let secret = decoded.get(SECRET)?;
        let iv = decoded.get(IV)?;
        if secret.len() != CIPHER_TEXT_LEN {
            return Some(make_false_secret());
        }
        let decoded_key = decode(aes_key)?;
        let private = decoded_key.get(PRIVATE)?;
        let aes_key = Key::new(private.to_vec(), KeyStrength::Strong);
        SecretExchange::open_secret(secret.as_bytes(), iv.as_bytes(), &aes_key)
    }
}

/// Two sides that exchange their public values derive the same AES key.
pub proof fn lemma_exchange_agreement(a: SecretExchange, b: SecretExchange)
    requires
        a.wf(),
        b.wf(),
    ensures
        shared_aes_key_of(a.private_bytes(), b.public_bytes()) == shared_aes_key_of(
            b.private_bytes(),
            a.public_bytes(),
        ),
{
    lemma_shared_key_ignores_padding(
        a.private_bytes(),
        public_key_of(b.private_bytes()),
        SHARED_SECRET_LEN as nat,
    );
    lemma_shared_key_ignores_padding(
        b.private_bytes(),
        public_key_of(a.private_bytes()),
        SHARED_SECRET_LEN as nat,
    );
    lemma_shared_key_agreement(a.private_bytes(), b.private_bytes());
}

} // verus!
