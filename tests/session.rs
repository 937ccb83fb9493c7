use aes::cipher::{block_padding::Pkcs7, BlockDecryptMut, BlockEncryptMut, KeyIvInit};
use num::BigUint;
use pass_secret_service::error::Error;
use pass_secret_service::transfer::{oakley_prime_vec, Secret, Session, SessionAlgorithm};

fn session(alg: &str, input: &[u8]) -> Session {
    Session::new(
        SessionAlgorithm::open(alg, input).ok().unwrap(),
        ":1.42".to_string(),
        "/org/freedesktop/secrets/session/abc".to_string(),
    )
}

#[test]
fn plain_session_round_trip() {
    let s = session("plain", &[]);
    let owner = ":1.42".to_string();
    let secret = Secret {
        session: s.path.clone(),
        parameters: vec![],
        value: b"hunter2".to_vec(),
        content_type: "text/plain".to_string(),
    };
    let plain = s.decrypt(&secret, Some(&owner)).ok().unwrap();
    assert_eq!(plain, b"hunter2");
    let out = s.encrypt(plain, Some(&owner)).ok().unwrap();
    assert_eq!(out.value, b"hunter2");
    assert!(out.parameters.is_empty());
    assert_eq!(out.content_type, "text/plain");
    assert_eq!(out.session, s.path);
}

#[test]
fn other_client_is_denied() {
    let s = session("plain", &[]);
    let stranger = ":1.99".to_string();
    assert!(matches!(s.encrypt(b"x".to_vec(), Some(&stranger)), Err(Error::PermissionDenied)));
    let secret = Secret { session: s.path.clone(), parameters: vec![], value: vec![1], content_type: String::new() };
    assert!(matches!(s.decrypt(&secret, None), Err(Error::PermissionDenied)));
    assert!(!s.is_owner(Some(&stranger)));
    assert!(s.is_owner(Some(&":1.42".to_string())));
}

#[test]
fn unknown_algorithm_is_not_supported() {
    assert!(matches!(SessionAlgorithm::open("rot13", &[]), Err(Error::NotSupported)));
    assert_eq!(Error::NotSupported.name(), "org.freedesktop.DBus.Error.NotSupported");
}

fn client_key(server_public: &[u8], client_private: &BigUint) -> [u8; 16] {
    let p = BigUint::from_bytes_be(&oakley_prime_vec());
    let z = BigUint::from_bytes_be(server_public).modpow(client_private, &p).to_bytes_be();
    let mut shared = vec![0u8; 128 - z.len()];
    shared.extend_from_slice(&z);
    let hk = hkdf::Hkdf::<sha2::Sha256>::new(None, &shared);
    let mut okm = [0u8; 16];
    hk.expand(&[], &mut okm).unwrap();
    okm
}

#[test]
fn dh_session_agrees_with_client() {
    let p = BigUint::from_bytes_be(&oakley_prime_vec());
    let y = BigUint::from(0x1234_5678_9abc_def1u64);
    let client_public = BigUint::from(2u8).modpow(&y, &p).to_bytes_be();
    let s = session("dh-ietf1024-sha256-aes128-cbc-pkcs7", &client_public);
    let server_public = s.transfer.output();
    assert_eq!(server_public.len(), 128);
    let key = client_key(&server_public, &y);

    let iv = [7u8; 16];
    let sent = cbc::Encryptor::<aes::Aes128>::new(&key.into(), &iv.into()).encrypt_padded_vec_mut::<Pkcs7>(b"hunter2");
    let secret = Secret { session: s.path.clone(), parameters: iv.to_vec(), value: sent, content_type: "text/plain".to_string() };
    let owner = ":1.42".to_string();
    let plain = s.decrypt(&secret, Some(&owner)).ok().unwrap();
    assert_eq!(plain, b"hunter2");

    let back = s.encrypt(plain, Some(&owner)).ok().unwrap();
    assert_eq!(back.parameters.len(), 16);
    assert_ne!(back.value, b"hunter2");
    let iv2: [u8; 16] = back.parameters.clone().try_into().unwrap();
    let got = cbc::Decryptor::<aes::Aes128>::new(&key.into(), &iv2.into())
        .decrypt_padded_vec_mut::<Pkcs7>(&back.value)
        .unwrap();
    assert_eq!(got, b"hunter2");
    assert_eq!(s.decrypt(&back, Some(&owner)).ok().unwrap(), b"hunter2");
}

#[test]
fn dh_bad_iv_length_is_an_encryption_error() {
    let s = session("dh-ietf1024-sha256-aes128-cbc-pkcs7", &[5]);
    let owner = ":1.42".to_string();
    let secret = Secret { session: s.path.clone(), parameters: vec![1, 2, 3], value: vec![0; 16], content_type: String::new() };
    let err = s.decrypt(&secret, Some(&owner)).unwrap_err();
    assert!(matches!(err, Error::EncryptionError(_)));
    assert_eq!(err.name(), "me.grimsteel.PassSecretService.EncryptionError");
}

#[test]
fn dh_bad_padding_is_an_encryption_error() {
    let s = session("dh-ietf1024-sha256-aes128-cbc-pkcs7", &[5]);
    let owner = ":1.42".to_string();
    let secret = Secret { session: s.path.clone(), parameters: vec![0; 16], value: vec![1, 2, 3], content_type: String::new() };
    assert!(matches!(s.decrypt(&secret, Some(&owner)), Err(Error::EncryptionError(_))));
}

#[test]
fn dh_public_value_is_padded_power_of_two() {
    let s = session("dh-ietf1024-sha256-aes128-cbc-pkcs7", &[2]);
    let public = s.transfer.output();
    assert_eq!(public.len(), 128);
    let p = BigUint::from_bytes_be(&oakley_prime_vec());
    assert!(BigUint::from_bytes_be(&public) < p);
    assert!(BigUint::from_bytes_be(&public) > BigUint::from(1u8));
}
