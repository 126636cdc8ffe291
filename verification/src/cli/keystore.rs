//! Encrypted key files.
//!
//! An encrypted file holds, in this order: the four characters `NAB1`, the
//! version byte 2, three zero bytes, a 16-byte salt, a 24-byte nonce, and the
//! sealed key with its 16-byte tag. The sealing key is the Argon2id hash of a
//! passphrase and the salt. A file that does not start with `NAB1` is an old one
//! that holds the 32 key bytes as they are.

use crate::bytes;
use crate::cli::error::{Error, Failure};
use crate::crypto::identity::Identity;
use crate::crypto::keys;
use crate::crypto::keys::Keypair;
use crate::text;
use argon2::{Algorithm, Argon2, Params, Version};
use chacha20poly1305::aead::{Aead, KeyInit, Payload};
use chacha20poly1305::{Key, XChaCha20Poly1305, XNonce};
use vstd::prelude::*;
use vstd::utf8::*;

verus! {

/// What an encrypted file starts with.
pub const MAGIC: &'static str = "NAB1";

/// The version of the format.
pub const VERSION: u8 = 0x02;

/// The length of the salt.
pub const SALT_LEN: usize = 16;

/// The length of the nonce.
pub const NONCE_LEN: usize = 24;

/// The length of everything in front of the sealed key.
pub const HEADER_LEN: usize = 48;

/// The length of a key.
pub const KEY_LEN: usize = 32;

/// The length of an encrypted file.
pub const FILE_LEN: usize = 96;

/// The environment variable with the passphrase.
pub const PASSPHRASE_ENV: &'static str = "NABOSCALE_PASSPHRASE";

/// The memory that the key derivation uses, in KiB.
pub const ARGON2_MEMORY: u32 = 65536;

/// How often the key derivation passes over its memory.
pub const ARGON2_PASSES: u32 = 3;

/// How many lanes the key derivation has.
pub const ARGON2_LANES: u32 = 1;

/// The longest passphrase.
pub const MAX_PASSPHRASE: u64 = 0xFFFF_FFFF;

/// What a key is for.
#[derive(Debug, Clone, Copy, PartialEq, Eq, Structural)]
pub enum KeyKind {
    /// Signing requests.
    Identity,
    /// The tunnels.
    Wg,
}

/// Where a passphrase comes from.
#[derive(Debug, Clone)]
pub enum PassphraseSource {
    /// It was read already.
    Bytes(Vec<u8>),
    /// The environment, if it is set there.
    Env,
    /// The environment, where it must be set.
    Required,
}

/// The Argon2id hash, version 0x13, of a password and a salt: 32 bytes.
pub uninterp spec fn argon2id(
    memory: u32,
    passes: u32,
    lanes: u32,
    password: Seq<u8>,
    salt: Seq<u8>,
) -> Seq<u8>;

/// The XChaCha20-Poly1305 sealing of a message, without associated data.
pub uninterp spec fn xchacha_seal(key: Seq<u8>, nonce: Seq<u8>, msg: Seq<u8>) -> Seq<u8>;

/// The message in an XChaCha20-Poly1305 sealing, where it authenticates.
pub uninterp spec fn xchacha_open(key: Seq<u8>, nonce: Seq<u8>, sealed: Seq<u8>) -> Option<Seq<u8>>;

/// Calls `Argon2::hash_password_into` for Argon2id, version 0x13, with an output
/// of 32 bytes. With admissible costs and a salt of 8 bytes or more it fails only
/// for a password of more than 2^32 - 1 bytes. The hash depends on the costs, the
/// password and the salt alone.
#[verifier::external_body]
fn argon2id_hash(memory: u32, passes: u32, lanes: u32, password: &[u8], salt: &[u8]) -> (r: Result<
    [u8; 32],
    String,
>)
    requires
        1 <= lanes <= 0xFF_FFFF,
        8 * lanes <= memory,
        1 <= passes,
        8 <= salt@.len() <= 0xFFFF_FFFF,
    ensures
        match r {
            Ok(k) => password@.len() <= MAX_PASSPHRASE && k@ == argon2id(
                memory,
                passes,
                lanes,
                password@,
                salt@,
            ),
            Err(t) => password@.len() > MAX_PASSPHRASE && t@ == "password is too long"@,
        },
{
    let params = Params::new(memory, passes, lanes, Some(32)).map_err(|e| e.to_string())?;
    let mut out = [0u8; 32];
    Argon2::new(Algorithm::Argon2id, Version::V0x13, params)
        .hash_password_into(password, salt, &mut out)
        .map_err(|e| e.to_string())?;
    Ok(out)
}

/// Calls `XChaCha20Poly1305::encrypt` without associated data. A message of less
/// than 4 GiB is always sealed; the sealing depends on the arguments alone, is 16
/// bytes longer than the message, and opens to the message.
#[verifier::external_body]
fn xchacha_encrypt(key: &[u8; 32], nonce: &[u8; 24], msg: &[u8]) -> (r: Vec<u8>)
    requires
        msg@.len() <= 0xFFFF_FFFF,
    ensures
        r@ == xchacha_seal(key@, nonce@, msg@),
        r@.len() == msg@.len() + 16,
        xchacha_open(key@, nonce@, r@) == Some(msg@),
{
    XChaCha20Poly1305::new(Key::from_slice(key))
        .encrypt(XNonce::from_slice(nonce), Payload { msg, aad: &[] })
        .expect("the message is short enough")
}

/// Calls `XChaCha20Poly1305::decrypt` without associated data. It succeeds exactly
/// where the sealing authenticates, and the message is 16 bytes shorter.
#[verifier::external_body]
fn xchacha_decrypt(key: &[u8; 32], nonce: &[u8; 24], sealed: &[u8]) -> (r: Option<Vec<u8>>)
    requires
        sealed@.len() <= 0xFFFF_FFFF,
    ensures
        match r {
            Some(msg) => xchacha_open(key@, nonce@, sealed@) == Some(msg@) && msg@.len() + 16
                == sealed@.len(),
            None => xchacha_open(key@, nonce@, sealed@) is None,
        },
{
    XChaCha20Poly1305::new(Key::from_slice(key))
        .decrypt(XNonce::from_slice(nonce), Payload { msg: sealed, aad: &[] })
        .ok()
}

impl KeyKind {
    /// The name of the file that holds the key.
    pub open spec fn name(self) -> Seq<char> {
        match self {
            KeyKind::Identity => "identity.key"@,
            KeyKind::Wg => "wg.key"@,
        }
    }

    /// The name of the file that holds the key.
    pub fn file_name(self) -> (r: &'static str)
        ensures
            r@ == self.name(),
    {
        match self {
            KeyKind::Identity => "identity.key",
            KeyKind::Wg => "wg.key",
        }
    }
}

/// The first line of a text, without the newline that ends it.
pub open spec fn first_line(s: Seq<char>) -> Seq<char> {
    match s.index_of_first('\n') {
        Some(i) => s.take(i),
        None => s,
    }
}

/// The passphrase in the text of a file: its first line, without the carriage
/// returns at the end.
pub open spec fn passphrase_in(s: Seq<char>) -> Seq<u8> {
    encode_utf8(text::trimmed(first_line(s), '\r'))
}

/// Takes the passphrase out of the text of a file.
pub fn read_passphrase_file(content: &str) -> (r: Vec<u8>)
    ensures
        r@ == passphrase_in(content@),
{
    let cs = text::characters(content);
    let mut end: usize = 0;
    while end < cs.len() && cs[end] != '\n'
        invariant
            end <= cs@.len(),
            forall|k: int| 0 <= k < end ==> cs@[k] != '\n',
        decreases cs@.len() - end,
    {
        end = end + 1;
    }
    proof {
        content@.index_of_first_ensures('\n');
        if end < cs@.len() {
            assert(content@[end as int] == '\n');
        }
        assert(content@.take(end as int) =~= first_line(content@));
    }
    let kept_len: usize = text::trimmed_len(&cs, end, '\r');
    let kept = content.substring_char(0, kept_len);
    assert(kept@ =~= content@.take(kept_len as int));
    vstd::slice::slice_to_vec(kept.as_bytes())
}

impl PassphraseSource {
    /// The passphrase, or why there is none where there must be one.
    pub open spec fn resolved(self, env: Option<Seq<char>>) -> Result<Option<Seq<u8>>, Failure> {
        match (self, env) {
            (PassphraseSource::Bytes(b), _) => Ok(Some(b@)),
            (_, Some(s)) => Ok(Some(encode_utf8(s))),
            (PassphraseSource::Env, None) => Ok(None),
            (PassphraseSource::Required, None) => Err(
                Failure::BadConfig(
                    "passphrase required: set "@ + PASSPHRASE_ENV@
                        + " env var or use --passphrase-file"@,
                ),
            ),
        }
    }

    /// The passphrase, given what the environment holds. Only a source that must
    /// be set fails where it is not.
    pub fn resolve(&self, env: Option<&str>) -> (r: Result<Option<Vec<u8>>, Error>)
        ensures
            match r {
                Ok(Some(p)) => self.resolved(crate::coord::auth::text_of(env)) == Ok::<
                    Option<Seq<u8>>,
                    Failure,
                >(Some(p@)),
                Ok(None) => self.resolved(crate::coord::auth::text_of(env)) == Ok::<
                    Option<Seq<u8>>,
                    Failure,
                >(None),
                Err(e) => self.resolved(crate::coord::auth::text_of(env)) == Err::<
                    Option<Seq<u8>>,
                    Failure,
                >(e@),
            },
    {
        match self {
            PassphraseSource::Bytes(b) => Ok(Some(b.clone())),
            PassphraseSource::Env => match env {
                Some(s) => Ok(Some(vstd::slice::slice_to_vec(s.as_bytes()))),
                None => Ok(None),
            },
            PassphraseSource::Required => match env {
                Some(s) => Ok(Some(vstd::slice::slice_to_vec(s.as_bytes()))),
                None => Err(
                    Error::BadConfig(
                        "passphrase required: set ".to_string().concat(PASSPHRASE_ENV).concat(
                            " env var or use --passphrase-file",
                        ),
                    ),
                ),
            },
        }
    }
}

/// The four bytes that an encrypted file starts with.
pub open spec fn magic() -> Seq<u8> {
    encode_utf8(MAGIC@)
}

/// Whether the content of a file is an encrypted key.
pub open spec fn encrypted(content: Seq<u8>) -> bool {
    content.len() >= 4 && content.take(4) == magic()
}

/// The key under which a passphrase and a salt seal.
pub open spec fn sealing_key(passphrase: Seq<u8>, salt: Seq<u8>) -> Seq<u8> {
    argon2id(ARGON2_MEMORY, ARGON2_PASSES, ARGON2_LANES, passphrase, salt)
}

/// The header of an encrypted file.
pub open spec fn file_header(salt: Seq<u8>, nonce: Seq<u8>) -> Seq<u8> {
    magic() + seq![VERSION, 0u8, 0u8, 0u8] + salt + nonce
}

/// An encrypted file.
pub open spec fn sealed_file(
    key: Seq<u8>,
    passphrase: Seq<u8>,
    salt: Seq<u8>,
    nonce: Seq<u8>,
) -> Seq<u8> {
    file_header(salt, nonce) + xchacha_seal(sealing_key(passphrase, salt), nonce, key)
}

/// Why a passphrase cannot be used.
pub open spec fn passphrase_failure() -> Failure {
    Failure::BadConfig("argon2 KDF failed: "@ + "password is too long"@)
}

/// The key in an encrypted file, or why it cannot be opened.
pub open spec fn unsealed(content: Seq<u8>, passphrase: Seq<u8>) -> Result<Seq<u8>, Failure> {
    if content.len() != FILE_LEN {
        Err(
            Failure::BadConfig(
                "envelope length "@ + text::decimal(content.len()) + " != expected "@
                    + text::decimal(FILE_LEN as nat),
            ),
        )
    } else if content.take(4) != magic() {
        Err(Failure::BadConfig("bad magic"@))
    } else if content[4] != VERSION {
        Err(
            Failure::BadConfig(
                "unsupported keystore version "@ + text::decimal(content[4] as nat),
            ),
        )
    } else if passphrase.len() > MAX_PASSPHRASE {
        Err(passphrase_failure())
    } else {
        match xchacha_open(
            sealing_key(passphrase, content.subrange(8, 24)),
            content.subrange(24, 48),
            content.skip(48),
        ) {
            Some(key) => Ok(key),
            None => Err(
                Failure::BadConfig("decryption failed (wrong passphrase or tampered file)"@),
            ),
        }
    }
}

/// The key in a file, or why there is none: a file that is not there, one that is
/// encrypted but for which there is no passphrase, one that cannot be opened, or
/// an old one of the wrong length.
pub open spec fn loaded(
    dir: Seq<char>,
    kind: KeyKind,
    content: Option<Seq<u8>>,
    passphrase: Option<Seq<u8>>,
) -> Result<Seq<u8>, Failure> {
    match content {
        None => Err(Failure::NotInitialized(dir)),
        Some(c) => if encrypted(c) {
            match passphrase {
                None => Err(
                    Failure::BadConfig(
                        kind.name()
                            + " is encrypted; set NABOSCALE_PASSPHRASE or pass --passphrase-file"@,
                    ),
                ),
                Some(p) => unsealed(c, p),
            }
        } else if c.len() != KEY_LEN {
            Err(
                Failure::BadConfig(
                    kind.name() + " has wrong length "@ + text::decimal(c.len()) + " (expected "@
                        + text::decimal(KEY_LEN as nat) + ")"@,
                ),
            )
        } else {
            Ok(c)
        },
    }
}

/// The bytes of an optional slice.
pub open spec fn bytes_of(s: Option<&[u8]>) -> Option<Seq<u8>> {
    match s {
        Some(b) => Some(b@),
        None => None,
    }
}

/// The four bytes with which an encrypted file starts.
pub proof fn lemma_magic()
    ensures
        magic().len() == 4,
        magic() == seq![78u8, 65u8, 66u8, 49u8],
{
    reveal_strlit("NAB1");
    assert(MAGIC@ =~= seq!['N', 'A', 'B', '1']);
    assert(is_ascii_chars(MAGIC@));
    is_ascii_chars_encode_utf8(MAGIC@);
    assert(magic() =~= seq![78u8, 65u8, 66u8, 49u8]);
}

/// Whether the content of a file is an encrypted key.
pub fn is_v2(content: &[u8]) -> (r: bool)
    ensures
        r == encrypted(content@),
{
    if content.len() < 4 {
        return false;
    }
    let head = &content[0..4];
    assert(head@ =~= content@.take(4));
    bytes::same_bytes(head, MAGIC.as_bytes())
}

/// The key under which a passphrase and a salt seal: their Argon2id hash.
pub fn derive_key(passphrase: &[u8], salt: &[u8; 16]) -> (r: Result<[u8; 32], Error>)
    ensures
        match r {
            Ok(k) => passphrase@.len() <= MAX_PASSPHRASE && k@ == sealing_key(passphrase@, salt@),
            Err(e) => passphrase@.len() > MAX_PASSPHRASE && e@ == passphrase_failure(),
        },
{
    match argon2id_hash(ARGON2_MEMORY, ARGON2_PASSES, ARGON2_LANES, passphrase, salt) {
        Ok(hash) => Ok(hash),
        Err(t) => Err(Error::BadConfig("argon2 KDF failed: ".to_string().concat(t.as_str()))),
    }
}

/// Seals a key under a passphrase, with a given salt and nonce. The file opens
/// under the same passphrase to the same key.
pub fn encrypt_with(plaintext: &[u8], passphrase: &[u8], salt: &[u8; 16], nonce: &[u8; 24]) -> (r:
    Result<Vec<u8>, Error>)
    requires
        plaintext@.len() == KEY_LEN,
    ensures
        match r {
            Ok(file) => {
                &&& passphrase@.len() <= MAX_PASSPHRASE
                &&& file@ == sealed_file(plaintext@, passphrase@, salt@, nonce@)
                &&& file@.len() == FILE_LEN
                &&& encrypted(file@)
                &&& unsealed(file@, passphrase@) == Ok::<Seq<u8>, Failure>(plaintext@)
            },
            Err(e) => passphrase@.len() > MAX_PASSPHRASE && e@ == passphrase_failure(),
        },
{
    let key = match derive_key(passphrase, salt) {
        Ok(k) => k,
        Err(e) => return Err(e),
    };
    let sealed = xchacha_encrypt(&key, nonce, plaintext);
    let mut out: Vec<u8> = Vec::new();
    out.extend_from_slice(MAGIC.as_bytes());
    out.push(VERSION);
    out.push(0);
    out.push(0);
    out.push(0);
    out.extend_from_slice(salt);
    out.extend_from_slice(nonce);
    out.extend_from_slice(sealed.as_slice());
    proof {
        lemma_magic();
        let file = sealed_file(plaintext@, passphrase@, salt@, nonce@);
        assert(out@ =~= file);
        assert(file.take(4) =~= magic());
        assert(file[4] == VERSION);
        assert(file.subrange(8, 24) =~= salt@);
        assert(file.subrange(24, 48) =~= nonce@);
        assert(file.skip(48) =~= sealed@);
    }
    Ok(out)
}

/// Opens an encrypted file.
pub fn decrypt(envelope: &[u8], passphrase: &[u8]) -> (r: Result<Vec<u8>, Error>)
    ensures
        match r {
            Ok(key) => unsealed(envelope@, passphrase@) == Ok::<Seq<u8>, Failure>(key@)
                && key@.len() == KEY_LEN,
            Err(e) => unsealed(envelope@, passphrase@) == Err::<Seq<u8>, Failure>(e@),
        },
{
    if envelope.len() != FILE_LEN {
        return Err(
            Error::BadConfig(
                "envelope length ".to_string().concat(
                    text::decimal_text(envelope.len() as u64).as_str(),
                ).concat(" != expected ").concat(text::decimal_text(FILE_LEN as u64).as_str()),
            ),
        );
    }
    let head = &envelope[0..4];
    assert(head@ =~= envelope@.take(4));
    if !bytes::same_bytes(head, MAGIC.as_bytes()) {
        return Err(Error::BadConfig("bad magic".to_string()));
    }
    if envelope[4] != VERSION {
        return Err(
            Error::BadConfig(
                "unsupported keystore version ".to_string().concat(
                    text::decimal_text(envelope[4] as u64).as_str(),
                ),
            ),
        );
    }
    let salt: [u8; 16] = bytes::take_array(envelope, 8);
    let nonce: [u8; 24] = bytes::take_array(envelope, 24);
    let sealed = &envelope[48..96];
    assert(sealed@ =~= envelope@.skip(48));
    let key = match derive_key(passphrase, &salt) {
        Ok(k) => k,
        Err(e) => return Err(e),
    };
    match xchacha_decrypt(&key, &nonce, sealed) {
        Some(msg) => Ok(msg),
        None => Err(
            Error::BadConfig(
                "decryption failed (wrong passphrase or tampered file)".to_string(),
            ),
        ),
    }
}

/// Seals a key under a passphrase, with a random salt and nonce. The file opens
/// under the same passphrase to the same key.
pub fn encrypt(plaintext: &[u8], passphrase: &[u8]) -> (r: Result<Vec<u8>, Error>)
    requires
        plaintext@.len() == KEY_LEN,
    ensures
        match r {
            Ok(file) => {
                &&& passphrase@.len() <= MAX_PASSPHRASE
                &&& exists|salt: [u8; 16], nonce: [u8; 24]|
                    file@ == #[trigger] sealed_file(plaintext@, passphrase@, salt@, nonce@)
                &&& file@.len() == FILE_LEN
                &&& encrypted(file@)
                &&& unsealed(file@, passphrase@) == Ok::<Seq<u8>, Failure>(plaintext@)
            },
            Err(e) => passphrase@.len() > MAX_PASSPHRASE && e@ == passphrase_failure(),
        },
{
    let salt: [u8; 16] = keys::random_bytes();
    let nonce: [u8; 24] = keys::random_bytes();
    encrypt_with(plaintext, passphrase, &salt, &nonce)
}

/// Where the parts of an encrypted file stand: the magic, the version, three zero
/// bytes, the salt, the nonce and the sealed key.
pub proof fn law_file_layout(key: Seq<u8>, passphrase: Seq<u8>, salt: Seq<u8>, nonce: Seq<u8>)
    requires
        salt.len() == SALT_LEN,
        nonce.len() == NONCE_LEN,
    ensures
        ({
            let file = sealed_file(key, passphrase, salt, nonce);
            &&& file.take(8) == seq![78u8, 65u8, 66u8, 49u8, 2u8, 0u8, 0u8, 0u8]
            &&& file.subrange(8, 24) == salt
            &&& file.subrange(24, 48) == nonce
            &&& file.skip(48) == xchacha_seal(sealing_key(passphrase, salt), nonce, key)
        }),
{
    lemma_magic();
    let file = sealed_file(key, passphrase, salt, nonce);
    assert(file.take(8) =~= seq![78u8, 65u8, 66u8, 49u8, 2u8, 0u8, 0u8, 0u8]);
    assert(file.subrange(8, 24) =~= salt);
    assert(file.subrange(24, 48) =~= nonce);
    assert(file.skip(48) =~= xchacha_seal(sealing_key(passphrase, salt), nonce, key));
}

/// An encrypted file does not load without a passphrase, whatever it is for.
pub proof fn law_encrypted_file_needs_passphrase(
    key: Seq<u8>,
    passphrase: Seq<u8>,
    salt: Seq<u8>,
    nonce: Seq<u8>,
    dir: Seq<char>,
    kind: KeyKind,
)
    ensures
        loaded(dir, kind, Some(sealed_file(key, passphrase, salt, nonce)), None) == Err::<
            Seq<u8>,
            Failure,
        >(
            Failure::BadConfig(
                kind.name() + " is encrypted; set NABOSCALE_PASSPHRASE or pass --passphrase-file"@,
            ),
        ),
{
    lemma_magic();
    assert(sealed_file(key, passphrase, salt, nonce).take(4) =~= magic());
}

/// The content of the file that keeps a key under a passphrase, with a random salt
/// and nonce. It loads under the same passphrase to the same key.
pub fn save_key(plaintext: &[u8], passphrase: &[u8]) -> (r: Result<Vec<u8>, Error>)
    ensures
        match r {
            Ok(file) => {
                &&& plaintext@.len() == KEY_LEN
                &&& passphrase@.len() <= MAX_PASSPHRASE
                &&& exists|salt: [u8; 16], nonce: [u8; 24]|
                    file@ == #[trigger] sealed_file(plaintext@, passphrase@, salt@, nonce@)
                &&& file@.len() == FILE_LEN
                &&& forall|dir: Seq<char>, kind: KeyKind| #[trigger]
                    loaded(dir, kind, Some(file@), Some(passphrase@)) == Ok::<Seq<u8>, Failure>(
                        plaintext@,
                    )
            },
            Err(e) => if plaintext@.len() != KEY_LEN {
                e@ == Failure::BadConfig(
                    "key has wrong length "@ + text::decimal(plaintext@.len()) + " (expected "@
                        + text::decimal(KEY_LEN as nat) + ")"@,
                )
            } else {
                passphrase@.len() > MAX_PASSPHRASE && e@ == passphrase_failure()
            },
        },
{
    if plaintext.len() != KEY_LEN {
        return Err(
            Error::BadConfig(
                "key has wrong length ".to_string().concat(
                    text::decimal_text(plaintext.len() as u64).as_str(),
                ).concat(" (expected ").concat(text::decimal_text(KEY_LEN as u64).as_str()).concat(
                    ")",
                ),
            ),
        );
    }
    encrypt(plaintext, passphrase)
}

/// Takes a key out of the content of its file. `dir` is the directory that is
/// looked in, for the report of a file that is not there.
pub fn load_key(dir: &str, kind: KeyKind, content: Option<&[u8]>, passphrase: Option<&[u8]>) -> (r:
    Result<Vec<u8>, Error>)
    ensures
        match r {
            Ok(key) => loaded(dir@, kind, bytes_of(content), bytes_of(passphrase)) == Ok::<
                Seq<u8>,
                Failure,
            >(key@) && key@.len() == KEY_LEN,
            Err(e) => loaded(dir@, kind, bytes_of(content), bytes_of(passphrase)) == Err::<
                Seq<u8>,
                Failure,
            >(e@),
        },
{
    let file = match content {
        Some(c) => c,
        None => return Err(Error::NotInitialized(dir.to_string())),
    };
    if is_v2(file) {
        match passphrase {
            Some(p) => decrypt(file, p),
            None => Err(
                Error::BadConfig(
                    kind.file_name().to_string().concat(
                        " is encrypted; set NABOSCALE_PASSPHRASE or pass --passphrase-file",
                    ),
                ),
            ),
        }
    } else if file.len() != KEY_LEN {
        Err(
            Error::BadConfig(
                kind.file_name().to_string().concat(" has wrong length ").concat(
                    text::decimal_text(file.len() as u64).as_str(),
                ).concat(" (expected ").concat(text::decimal_text(KEY_LEN as u64).as_str()).concat(
                    ")",
                ),
            ),
        )
    } else {
        let key = vstd::slice::slice_to_vec(file);
        assert(key@ =~= file@);
        Ok(key)
    }
}

/// Both keys of a node.
pub struct OpenedKeys {
    /// The key that signs.
    pub identity: Identity,
    /// The key of the tunnels.
    pub wg: Keypair,
}

impl Clone for OpenedKeys {
    fn clone(&self) -> (r: Self)
        ensures
            r == *self,
    {
        OpenedKeys { identity: self.identity.clone(), wg: self.wg.clone() }
    }
}

impl OpenedKeys {
    /// What opening both files leads to: both keys, or what is wrong with the first file
    /// that gives none.
    pub open spec fn opened(
        dir: Seq<char>,
        identity_file: Option<Seq<u8>>,
        wg_file: Option<Seq<u8>>,
        passphrase: Option<Seq<u8>>,
        r: Result<Self, Error>,
    ) -> bool {
        let id = loaded(dir, KeyKind::Identity, identity_file, passphrase);
        let wg = loaded(dir, KeyKind::Wg, wg_file, passphrase);
        match r {
            Ok(k) => {
                &&& id == Ok::<Seq<u8>, Failure>(k.identity.secret())
                &&& wg == Ok::<Seq<u8>, Failure>(k.wg.secret())
                &&& k.identity.matched()
                &&& crate::crypto::identity::ed25519_is_point(k.identity.public_key())
                &&& k.wg.matched()
            },
            Err(e) => if id is Err {
                id == Err::<Seq<u8>, Failure>(e@)
            } else {
                wg == Err::<Seq<u8>, Failure>(e@)
            },
        }
    }

    /// Takes both keys out of the contents of their files.
    pub fn open(
        dir: &str,
        identity_file: Option<&[u8]>,
        wg_file: Option<&[u8]>,
        passphrase: Option<&[u8]>,
    ) -> (r: Result<Self, Error>)
        ensures
            Self::opened(
                dir@,
                bytes_of(identity_file),
                bytes_of(wg_file),
                bytes_of(passphrase),
                r,
            ),
    {
        let id_bytes = match load_key(dir, KeyKind::Identity, identity_file, passphrase) {
            Ok(k) => k,
            Err(e) => return Err(e),
        };
        let wg_bytes = match load_key(dir, KeyKind::Wg, wg_file, passphrase) {
            Ok(k) => k,
            Err(e) => return Err(e),
        };
        let id: [u8; 32] = bytes::take_array(id_bytes.as_slice(), 0);
        let wg: [u8; 32] = bytes::take_array(wg_bytes.as_slice(), 0);
        assert(id@ =~= id_bytes@);
        assert(wg@ =~= wg_bytes@);
        Ok(OpenedKeys { identity: Identity::from_bytes(id), wg: Keypair::from_bytes(wg) })
    }
}

} // verus!
