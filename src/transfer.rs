//! Session transports: how secret payloads cross the bus. Plain sessions pass
//! them through; `dh-ietf1024-sha256-aes128-cbc-pkcs7` sessions agree on a key
//! by Diffie-Hellman in the Second Oakley Group (RFC 2409, 6.2), derive an
//! AES-128 key with HKDF-SHA256, and encrypt with AES-128-CBC and PKCS#7.
use vstd::prelude::*;

use crate::bigendian::{be_value, fixed_be, to_fixed_be};
use crate::compact::pow256;
use crate::crypto::{
    aes128_cbc_decrypt, aes128_cbc_decrypt_of, aes128_cbc_encrypt, aes128_cbc_encrypt_of, hkdf_sha256,
    hkdf_sha256_of, mod_pow, random_biguint, random_bytes,
};
use crate::error::Error;
use vstd::arithmetic::power::{lemma_pow_mod_noop, lemma_pow_multiplies, pow};

verus! {

/// The Second Oakley Prime, big-endian.
pub open spec fn oakley_prime_bytes() -> Seq<u8> {
    seq![
        0xFFu8, 0xFFu8, 0xFFu8, 0xFFu8, 0xFFu8, 0xFFu8, 0xFFu8, 0xFFu8, 0xC9u8, 0x0Fu8, 0xDAu8, 0xA2u8,
        0x21u8, 0x68u8, 0xC2u8, 0x34u8, 0xC4u8, 0xC6u8, 0x62u8, 0x8Bu8, 0x80u8, 0xDCu8, 0x1Cu8, 0xD1u8,
        0x29u8, 0x02u8, 0x4Eu8, 0x08u8, 0x8Au8, 0x67u8, 0xCCu8, 0x74u8, 0x02u8, 0x0Bu8, 0xBEu8, 0xA6u8,
        0x3Bu8, 0x13u8, 0x9Bu8, 0x22u8, 0x51u8, 0x4Au8, 0x08u8, 0x79u8, 0x8Eu8, 0x34u8, 0x04u8, 0xDDu8,
        0xEFu8, 0x95u8, 0x19u8, 0xB3u8, 0xCDu8, 0x3Au8, 0x43u8, 0x1Bu8, 0x30u8, 0x2Bu8, 0x0Au8, 0x6Du8,
        0xF2u8, 0x5Fu8, 0x14u8, 0x37u8, 0x4Fu8, 0xE1u8, 0x35u8, 0x6Du8, 0x6Du8, 0x51u8, 0xC2u8, 0x45u8,
        0xE4u8, 0x85u8, 0xB5u8, 0x76u8, 0x62u8, 0x5Eu8, 0x7Eu8, 0xC6u8, 0xF4u8, 0x4Cu8, 0x42u8, 0xE9u8,
        0xA6u8, 0x37u8, 0xEDu8, 0x6Bu8, 0x0Bu8, 0xFFu8, 0x5Cu8, 0xB6u8, 0xF4u8, 0x06u8, 0xB7u8, 0xEDu8,
        0xEEu8, 0x38u8, 0x6Bu8, 0xFBu8, 0x5Au8, 0x89u8, 0x9Fu8, 0xA5u8, 0xAEu8, 0x9Fu8, 0x24u8, 0x11u8,
        0x7Cu8, 0x4Bu8, 0x1Fu8, 0xE6u8, 0x49u8, 0x28u8, 0x66u8, 0x51u8, 0xECu8, 0xE6u8, 0x53u8, 0x81u8,
        0xFFu8, 0xFFu8, 0xFFu8, 0xFFu8, 0xFFu8, 0xFFu8, 0xFFu8, 0xFFu8,
    ]
}

/// The Second Oakley Prime.
pub open spec fn oakley_prime() -> nat {
    be_value(oakley_prime_bytes())
}

/// `base ^ exponent mod p`, for the Second Oakley Prime `p`.
pub open spec fn dh_power(base: nat, exponent: nat) -> nat {
    (vstd::arithmetic::power::pow(base as int, exponent) % (oakley_prime() as int)) as nat
}

/// The public value of private exponent `x`: `2 ^ x mod p`, as 128 bytes.
pub open spec fn dh_public(x: Seq<u8>) -> Seq<u8> {
    fixed_be(dh_power(2, be_value(x)), 128)
}

/// The shared secret of private exponent `x` and the peer's public value
/// `y`: `y ^ x mod p`, as 128 bytes.
pub open spec fn dh_shared(y: Seq<u8>, x: Seq<u8>) -> Seq<u8> {
    fixed_be(dh_power(be_value(y), be_value(x)), 128)
}

/// The AES key derived from a shared secret: HKDF-SHA256 with no salt and an
/// empty info, 16 bytes.
pub open spec fn session_key(shared: Seq<u8>) -> Seq<u8> {
    hkdf_sha256_of(None, shared, Seq::empty(), 16)
}

/// The content type of every payload the daemon sends.
pub open spec fn text_plain() -> Seq<char> {
    "text/plain"@
}

/// Both sides of a Diffie-Hellman exchange compute the same secret: the
/// server's `Y ^ x` equals the client's `X ^ y`, where `X = 2 ^ x` and
/// `Y = 2 ^ y` modulo the prime.
pub proof fn lemma_dh_agreement(x: nat, y: nat)
    ensures
        dh_power(dh_power(2, y), x) == dh_power(dh_power(2, x), y),
{
    let p = oakley_prime() as int;
    lemma_oakley_prime_positive();
    lemma_pow_mod_noop(2, y, p);
    lemma_pow_mod_noop(2, x, p);
    lemma_pow_mod_noop(pow(2, y), x, p);
    lemma_pow_mod_noop(pow(2, x), y, p);
    lemma_pow_multiplies(2, y, x);
    lemma_pow_multiplies(2, x, y);
    vstd::arithmetic::power::lemma_pow_positive(2, y);
    vstd::arithmetic::power::lemma_pow_positive(2, x);
    assert(y * x == x * y) by (nonlinear_arith);
    vstd::arithmetic::div_mod::lemma_mod_bound(pow(2, y), p);
    vstd::arithmetic::div_mod::lemma_mod_bound(pow(2, x), p);
}

/// The prime is positive: its last byte is not zero.
pub proof fn lemma_oakley_prime_positive()
    ensures
        oakley_prime() > 0,
{
    let b = oakley_prime_bytes();
    assert(b.last() == 0xFFu8);
    assert(be_value(b) == be_value(b.drop_last()) * 256 + b.last() as nat);
}

/// The Second Oakley Prime, big-endian.
pub fn oakley_prime_vec() -> (r: Vec<u8>)
    ensures
        r@ == oakley_prime_bytes(),
{
    let r = vec![
        0xFFu8, 0xFFu8, 0xFFu8, 0xFFu8, 0xFFu8, 0xFFu8, 0xFFu8, 0xFFu8, 0xC9u8, 0x0Fu8, 0xDAu8, 0xA2u8,
        0x21u8, 0x68u8, 0xC2u8, 0x34u8, 0xC4u8, 0xC6u8, 0x62u8, 0x8Bu8, 0x80u8, 0xDCu8, 0x1Cu8, 0xD1u8,
        0x29u8, 0x02u8, 0x4Eu8, 0x08u8, 0x8Au8, 0x67u8, 0xCCu8, 0x74u8, 0x02u8, 0x0Bu8, 0xBEu8, 0xA6u8,
        0x3Bu8, 0x13u8, 0x9Bu8, 0x22u8, 0x51u8, 0x4Au8, 0x08u8, 0x79u8, 0x8Eu8, 0x34u8, 0x04u8, 0xDDu8,
        0xEFu8, 0x95u8, 0x19u8, 0xB3u8, 0xCDu8, 0x3Au8, 0x43u8, 0x1Bu8, 0x30u8, 0x2Bu8, 0x0Au8, 0x6Du8,
        0xF2u8, 0x5Fu8, 0x14u8, 0x37u8, 0x4Fu8, 0xE1u8, 0x35u8, 0x6Du8, 0x6Du8, 0x51u8, 0xC2u8, 0x45u8,
        0xE4u8, 0x85u8, 0xB5u8, 0x76u8, 0x62u8, 0x5Eu8, 0x7Eu8, 0xC6u8, 0xF4u8, 0x4Cu8, 0x42u8, 0xE9u8,
        0xA6u8, 0x37u8, 0xEDu8, 0x6Bu8, 0x0Bu8, 0xFFu8, 0x5Cu8, 0xB6u8, 0xF4u8, 0x06u8, 0xB7u8, 0xEDu8,
        0xEEu8, 0x38u8, 0x6Bu8, 0xFBu8, 0x5Au8, 0x89u8, 0x9Fu8, 0xA5u8, 0xAEu8, 0x9Fu8, 0x24u8, 0x11u8,
        0x7Cu8, 0x4Bu8, 0x1Fu8, 0xE6u8, 0x49u8, 0x28u8, 0x66u8, 0x51u8, 0xECu8, 0xE6u8, 0x53u8, 0x81u8,
        0xFFu8, 0xFFu8, 0xFFu8, 0xFFu8, 0xFFu8, 0xFFu8, 0xFFu8, 0xFFu8,
    ];
    proof {
        assert(r@ =~= oakley_prime_bytes());
    }
    r
}

/// An encrypted (or, for plain sessions, bare) secret as it crosses the bus.
pub struct Secret {
    /// The path of the session it belongs to.
    pub session: String,
    /// The IV for encrypted sessions; empty for plain ones.
    pub parameters: Vec<u8>,
    pub value: Vec<u8>,
    pub content_type: String,
}

/// The plain transport: payloads pass unchanged.
pub struct PlainTextTransfer;

/// The Diffie-Hellman, HKDF-SHA256, AES-128-CBC transport.
pub struct DhIetf1024Sha256Aes128CbcPkcs7Transfer {
    server_priv: Vec<u8>,
    shared_key: Vec<u8>,
}

impl DhIetf1024Sha256Aes128CbcPkcs7Transfer {
    /// The server's private exponent, big-endian.
    pub closed spec fn private_key(&self) -> Seq<u8> {
        self.server_priv@
    }

    /// The AES key of the session.
    pub closed spec fn key(&self) -> Seq<u8> {
        self.shared_key@
    }

    pub closed spec fn wf(&self) -> bool {
        self.shared_key@.len() == 16
    }

    /// Opens the server side for a client public value (big-endian): draws a
    /// 1024-bit private exponent and derives the session key from the shared
    /// secret.
    pub fn new(client_pub_key: &[u8]) -> (r: Result<Self, Error>)
        ensures
            r is Ok,
            r matches Ok(t) ==> t.wf() && t.key() == session_key(dh_shared(client_pub_key@, t.private_key())),
    {
        let priv_key = random_biguint(1024);
        let prime = oakley_prime_vec();
        proof {
            lemma_oakley_prime_positive();
        }
        let shared = mod_pow(client_pub_key, &priv_key, &prime);
        let shared_secret = to_fixed_be(&shared, 128);
        let info: Vec<u8> = Vec::new();
        match hkdf_sha256(None, &shared_secret, &info, 16) {
            Some(k) => {
                proof {
                    assert(info@ =~= Seq::<u8>::empty());
                }
                Ok(DhIetf1024Sha256Aes128CbcPkcs7Transfer { server_priv: priv_key, shared_key: k })
            },
            None => Err(Error::EncryptionError(String::from_str("Invalid length"))),
        }
    }

    /// The server's public value `2 ^ x mod p`, big-endian, left-padded to 128 bytes.
    pub fn get_pub_key(&self) -> (r: Vec<u8>)
        ensures
            r@ == dh_public(self.private_key()),
    {
        let prime = oakley_prime_vec();
        proof {
            lemma_oakley_prime_positive();
        }
        let two: Vec<u8> = vec![2u8];
        proof {
            assert(two@.drop_last() =~= Seq::<u8>::empty());
            assert(be_value(two@.drop_last()) == 0);
            assert(two@.last() == 2);
            assert(be_value(two@) == 2);
        }
        let public = mod_pow(&two, &self.server_priv, &prime);
        to_fixed_be(&public, 128)
    }
}

/// The transport of a session.
pub enum SessionAlgorithm {
    Plain(PlainTextTransfer),
    Dh(DhIetf1024Sha256Aes128CbcPkcs7Transfer),
}

/// The name of the plain algorithm.
pub open spec fn plain_algorithm() -> Seq<char> {
    "plain"@
}

/// The name of the encrypted algorithm.
pub open spec fn dh_algorithm() -> Seq<char> {
    "dh-ietf1024-sha256-aes128-cbc-pkcs7"@
}

impl SessionAlgorithm {
    pub open spec fn wf(&self) -> bool {
        match self {
            SessionAlgorithm::Plain(_) => true,
            SessionAlgorithm::Dh(t) => t.wf(),
        }
    }

    /// What decrypting `(parameters, value)` gives; `None` is an encryption error.
    pub open spec fn decrypts(&self, parameters: Seq<u8>, value: Seq<u8>) -> Option<Seq<u8>> {
        match self {
            SessionAlgorithm::Plain(_) => Some(value),
            SessionAlgorithm::Dh(t) => if parameters.len() == 16 {
                aes128_cbc_decrypt_of(t.key(), parameters, value)
            } else {
                None
            },
        }
    }

    /// Opens the transport that `algorithm` names, with the client's input.
    /// An unknown algorithm is not supported.
    pub fn open(algorithm: &str, input: &[u8]) -> (r: Result<SessionAlgorithm, Error>)
        ensures
            algorithm@ == plain_algorithm() ==> r matches Ok(SessionAlgorithm::Plain(_)),
            algorithm@ == dh_algorithm() ==> match r {
                Ok(SessionAlgorithm::Dh(t)) => t.wf() && t.key() == session_key(dh_shared(input@, t.private_key())),
                _ => false,
            },
            algorithm@ != plain_algorithm() && algorithm@ != dh_algorithm() ==> r matches Err(Error::NotSupported),
    {
        let name = String::from_str(algorithm);
        let plain = String::from_str("plain");
        let dh = String::from_str("dh-ietf1024-sha256-aes128-cbc-pkcs7");
        proof {
            reveal_strlit("plain");
            reveal_strlit("dh-ietf1024-sha256-aes128-cbc-pkcs7");
            assert(plain_algorithm() != dh_algorithm()) by {
                assert(plain_algorithm().len() == 5);
                assert(dh_algorithm().len() == 35);
            }
        }
        if name == plain {
            Ok(SessionAlgorithm::Plain(PlainTextTransfer))
        } else if name == dh {
            match DhIetf1024Sha256Aes128CbcPkcs7Transfer::new(input) {
                Ok(t) => Ok(SessionAlgorithm::Dh(t)),
                Err(e) => Err(e),
            }
        } else {
            Err(Error::NotSupported)
        }
    }

    /// What the client gets back when the session opens: the server's public
    /// value for an encrypted session, nothing for a plain one.
    pub fn output(&self) -> (r: Vec<u8>)
        ensures
            match self {
                SessionAlgorithm::Plain(_) => r@.len() == 0,
                SessionAlgorithm::Dh(t) => r@ == dh_public(t.private_key()),
            },
    {
        match self {
            SessionAlgorithm::Plain(_) => Vec::new(),
            SessionAlgorithm::Dh(t) => t.get_pub_key(),
        }
    }

    /// Decrypts the payload of `secret`. For an encrypted session the
    /// parameters are the IV; a wrong IV length or padding is an encryption error.
    pub fn decrypt(&self, secret: &Secret) -> (r: Result<Vec<u8>, Error>)
        requires
            self.wf(),
        ensures
            match self.decrypts(secret.parameters@, secret.value@) {
                Some(p) => r matches Ok(v) && v@ == p,
                None => r matches Err(e) && e is EncryptionError,
            },
    {
        match self {
            SessionAlgorithm::Plain(_) => Ok(secret.value.clone()),
            SessionAlgorithm::Dh(t) => {
                if secret.parameters.len() != 16 {
                    return Err(Error::EncryptionError(String::from_str("Invalid IV length")));
                }
                match aes128_cbc_decrypt(&t.shared_key, &secret.parameters, &secret.value) {
                    Some(p) => Ok(p),
                    None => Err(Error::EncryptionError(String::from_str("AES Unpad Error"))),
                }
            },
        }
    }

    /// Encrypts `value` for the client, as a secret of session `session`: a
    /// fresh random IV for an encrypted session. Decrypting the result gives
    /// `value` back.
    pub fn encrypt(&self, value: Vec<u8>, session: String) -> (r: Secret)
        requires
            self.wf(),
        ensures
            self.decrypts(r.parameters@, r.value@) == Some(value@),
            r.session@ == session@,
            r.content_type@ == text_plain(),
            self is Plain ==> r.parameters@.len() == 0 && r.value@ == value@,
            self matches SessionAlgorithm::Dh(t) ==> r.parameters@.len() == 16 && r.value@
                == aes128_cbc_encrypt_of(t.key(), r.parameters@, value@),
    {
        let content_type = String::from_str("text/plain");
        proof {
            reveal_strlit("text/plain");
        }
        match self {
            SessionAlgorithm::Plain(_) => Secret { session, parameters: Vec::new(), value, content_type },
            SessionAlgorithm::Dh(t) => {
                let iv = random_bytes(16);
                let encrypted = aes128_cbc_encrypt(&t.shared_key, &iv, &value);
                Secret { session, parameters: iv, value: encrypted, content_type }
            },
        }
    }
}

/// A session: its transport, the bus name of the client that opened it, and
/// its object path. Only that client may use or close it.
pub struct Session {
    pub transfer: SessionAlgorithm,
    pub client_name: String,
    pub path: String,
}

/// Whether a request from `sender` comes from the client named `client`.
pub open spec fn sent_by(sender: Option<&String>, client: Seq<char>) -> bool {
    match sender {
        Some(s) => s@ == client,
        None => false,
    }
}

impl Session {
    pub open spec fn wf(&self) -> bool {
        self.transfer.wf()
    }

    /// A session of client `client_name` at `path`.
    pub fn new(transfer: SessionAlgorithm, client_name: String, path: String) -> (r: Session)
        ensures
            r.transfer == transfer,
            r.client_name@ == client_name@,
            r.path@ == path@,
    {
        Session { transfer, client_name, path }
    }

    /// Whether `sender` is the client that opened the session; only that
    /// client may close it.
    pub fn is_owner(&self, sender: Option<&String>) -> (r: bool)
        ensures
            r == sent_by(sender, self.client_name@),
    {
        match sender {
            Some(s) => *s == self.client_name,
            None => false,
        }
    }

    /// Decrypts a secret that `sender` sent through this session.
    pub fn decrypt(&self, secret: &Secret, sender: Option<&String>) -> (r: Result<Vec<u8>, Error>)
        requires
            self.wf(),
        ensures
            !sent_by(sender, self.client_name@) ==> r matches Err(Error::PermissionDenied),
            sent_by(sender, self.client_name@) ==> match self.transfer.decrypts(secret.parameters@, secret.value@) {
                Some(p) => r matches Ok(v) && v@ == p,
                None => r matches Err(e) && e is EncryptionError,
            },
    {
        if !self.is_owner(sender) {
            return Err(Error::PermissionDenied);
        }
        self.transfer.decrypt(secret)
    }

    /// Encrypts `value` for `sender`, who must be the client of this session.
    /// Decrypting the result through the session gives `value` back.
    pub fn encrypt(&self, value: Vec<u8>, sender: Option<&String>) -> (r: Result<Secret, Error>)
        requires
            self.wf(),
        ensures
            !sent_by(sender, self.client_name@) ==> r matches Err(Error::PermissionDenied),
            sent_by(sender, self.client_name@) ==> (r matches Ok(s) && s.session@ == self.path@
                && s.content_type@ == text_plain()
                && self.transfer.decrypts(s.parameters@, s.value@) == Some(value@)),
            sent_by(sender, self.client_name@) && self.transfer is Plain ==> (r matches Ok(s) && s.parameters@.len()
                == 0 && s.value@ == value@),
            sent_by(sender, self.client_name@) ==> (self.transfer matches SessionAlgorithm::Dh(t) ==> (r matches Ok(s)
                && s.parameters@.len() == 16 && s.value@ == aes128_cbc_encrypt_of(t.key(), s.parameters@, value@))),
    {
        if !self.is_owner(sender) {
            return Err(Error::PermissionDenied);
        }
        Ok(self.transfer.encrypt(value, self.path.clone()))
    }
}

} // verus!
