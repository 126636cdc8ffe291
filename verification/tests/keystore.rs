use naboscale::cli::error::Error;
use naboscale::cli::identity::{
    identity_exists, load_identity, load_wg_key, save_identity, save_wg_key,
};
use argon2::{Algorithm, Argon2, Params, Version};
use naboscale::cli::keystore::{
    decrypt, derive_key, encrypt, encrypt_with, is_v2, load_key, read_passphrase_file, save_key, KeyKind, OpenedKeys,
    PassphraseSource, FILE_LEN, KEY_LEN,
};
use naboscale::crypto::{Identity, Keypair};

#[test]
fn roundtrip_encrypted() {
    let pass = b"correct horse battery staple";
    let secret = [42u8; KEY_LEN];
    let file = save_key(&secret, pass).unwrap();
    let got = load_key("round", KeyKind::Identity, Some(&file), Some(pass)).unwrap();
    assert_eq!(got, secret);
    assert_eq!(file.len(), FILE_LEN);
    assert_eq!(&file[..8], b"NAB1\x02\x00\x00\x00");
    assert!(is_v2(&file));
}

#[test]
fn wrong_passphrase_fails() {
    let file = save_key(&[7u8; KEY_LEN], b"right").unwrap();
    let err = load_key("wrong", KeyKind::Wg, Some(&file), Some(b"wrong")).unwrap_err();
    let msg = err.message();
    assert!(msg.contains("decryption failed"), "got: {msg}");
}

#[test]
fn missing_passphrase_on_v2_errors() {
    let file = save_key(&[1u8; KEY_LEN], b"x").unwrap();
    let err = load_key("nopass", KeyKind::Identity, Some(&file), None).unwrap_err();
    let msg = err.message();
    assert!(msg.contains("encrypted"), "got: {msg}");
}

#[test]
fn tamper_detection() {
    let pass = b"p";
    let mut bytes = save_key(&[9u8; KEY_LEN], pass).unwrap();
    let last = bytes.len() - 1;
    bytes[last] ^= 0x01;
    let err = load_key("tamper", KeyKind::Identity, Some(&bytes), Some(pass)).unwrap_err();
    let msg = err.message();
    assert!(msg.contains("decryption failed"), "got: {msg}");
}

#[test]
fn legacy_v1_still_loads() {
    let secret = [3u8; KEY_LEN];
    let got = load_key("v1", KeyKind::Wg, Some(&secret), None).unwrap();
    assert_eq!(got, secret);
}

#[test]
fn opened_keys_loads_both() {
    let pass = b"hello";
    let id_file = save_key(&[11u8; KEY_LEN], pass).unwrap();
    let wg_file = save_key(&[22u8; KEY_LEN], pass).unwrap();
    let ks = OpenedKeys::open("opened", Some(&id_file), Some(&wg_file), Some(pass)).unwrap();
    assert_eq!(ks.identity.private_bytes(), [11u8; KEY_LEN]);
    assert_eq!(ks.wg.secret_bytes(), [22u8; KEY_LEN]);
}

#[test]
fn passphrase_source_env_and_required() {
    let env_src = PassphraseSource::Env;
    assert_eq!(env_src.resolve(Some("from-env")).unwrap().unwrap(), b"from-env");
    assert!(env_src.resolve(None).unwrap().is_none());

    let req_src = PassphraseSource::Required;
    let err = req_src.resolve(None).unwrap_err();
    let msg = err.message();
    assert!(msg.contains("passphrase required"), "got: {msg}");

    assert_eq!(req_src.resolve(Some("ok")).unwrap().unwrap(), b"ok");
    let given = PassphraseSource::Bytes(b"given".to_vec());
    assert_eq!(given.resolve(Some("other")).unwrap().unwrap(), b"given");
}

#[test]
fn sealing_is_deterministic_in_salt_and_nonce() {
    let a = encrypt_with(&[5u8; 32], b"pw", &[1u8; 16], &[2u8; 24]).unwrap();
    let b = encrypt_with(&[5u8; 32], b"pw", &[1u8; 16], &[2u8; 24]).unwrap();
    assert_eq!(a, b);
    assert_eq!(&a[8..24], &[1u8; 16]);
    assert_eq!(&a[24..48], &[2u8; 24]);
    assert_ne!(&a[48..80], &[5u8; 32]);
    assert_eq!(decrypt(&a, b"pw").unwrap(), [5u8; 32]);
    let c = encrypt_with(&[5u8; 32], b"pw", &[3u8; 16], &[2u8; 24]).unwrap();
    assert_ne!(a, c);
}

#[test]
fn bad_files_are_refused_in_words() {
    let good = encrypt_with(&[5u8; 32], b"pw", &[1u8; 16], &[2u8; 24]).unwrap();
    assert_eq!(
        decrypt(&good[..95], b"pw").unwrap_err().message(),
        "config file malformed: envelope length 95 != expected 96"
    );
    let mut magic = good.clone();
    magic[0] = b'X';
    assert_eq!(
        decrypt(&magic, b"pw").unwrap_err().message(),
        "config file malformed: bad magic"
    );
    let mut version = good.clone();
    version[4] = 3;
    assert_eq!(
        decrypt(&version, b"pw").unwrap_err().message(),
        "config file malformed: unsupported keystore version 3"
    );
    assert_eq!(
        load_key("/d", KeyKind::Wg, Some(&[1u8; 31]), None).unwrap_err().message(),
        "config file malformed: wg.key has wrong length 31 (expected 32)"
    );
    assert!(matches!(
        load_key("/d", KeyKind::Identity, None, None),
        Err(Error::NotInitialized(_))
    ));
    assert_eq!(
        load_key("/d", KeyKind::Identity, None, None).unwrap_err().message(),
        "identity not initialized in /d: run `naboscale --config-dir /d init` first"
    );
    assert_eq!(
        save_key(&[0u8; 33], b"pw").unwrap_err().message(),
        "config file malformed: key has wrong length 33 (expected 32)"
    );
    assert!(!is_v2(b"NAB"));
    assert!(!is_v2(&[3u8; 32]));
}

#[test]
fn passphrase_files_lose_their_line_end() {
    assert_eq!(read_passphrase_file("secret\n"), b"secret");
    assert_eq!(read_passphrase_file("secret\r\n"), b"secret");
    assert_eq!(read_passphrase_file("secret\r\r\n\n"), b"secret");
    assert_eq!(read_passphrase_file("se cret \nmore\n"), b"se cret ");
    assert_eq!(read_passphrase_file("no end"), b"no end");
    assert_eq!(read_passphrase_file("\nx"), b"");
    assert_eq!(read_passphrase_file(""), b"");
}

#[test]
fn plain_key_files() {
    let id = Identity::from_bytes([9u8; 32]);
    let wg = Keypair::from_bytes([8u8; 32]);
    assert_eq!(save_identity(&id), [9u8; 32]);
    assert_eq!(save_wg_key(&wg), [8u8; 32]);
    assert_eq!(load_identity("d", Some(&[9u8; 32])).unwrap().public(), id.public());
    assert_eq!(load_wg_key("d", Some(&[8u8; 32])).unwrap().public(), wg.public());
    assert!(matches!(load_identity("d", None), Err(Error::NotInitialized(_))));
    assert!(matches!(load_wg_key("d", Some(&[1u8; 3])), Err(Error::BadConfig(_))));
    assert!(identity_exists(true, true));
    assert!(!identity_exists(true, false));
    assert!(!identity_exists(false, true));
    assert_eq!(KeyKind::Identity.file_name(), "identity.key");
    assert_eq!(KeyKind::Wg.file_name(), "wg.key");
}

#[test]
fn the_sealing_key_is_the_argon2id_hash() {
    let params = Params::new(64 * 1024, 3, 1, Some(32)).unwrap();
    let mut expected = [0u8; 32];
    Argon2::new(Algorithm::Argon2id, Version::V0x13, params)
        .hash_password_into(b"pw", &[7u8; 16], &mut expected)
        .unwrap();
    assert_eq!(derive_key(b"pw", &[7u8; 16]).unwrap(), expected);
}

#[test]
fn sealed_files_are_fresh_and_open() {
    let a = encrypt(&[5u8; 32], b"pw").unwrap();
    let b = encrypt(&[5u8; 32], b"pw").unwrap();
    assert_eq!(a.len(), 96);
    assert_ne!(a[8..48], b[8..48]);
    assert_eq!(decrypt(&a, b"pw").unwrap(), [5u8; 32]);
    assert_eq!(decrypt(&b, b"pw").unwrap(), [5u8; 32]);
    let source = PassphraseSource::Bytes(vec![1]).clone();
    assert_eq!(source.resolve(None).unwrap().unwrap(), vec![1]);
}
