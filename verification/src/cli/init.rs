//! How a node starts out: with fresh keys and a configuration.

use crate::cli::config::Config;
use crate::cli::error::{Error, Failure};
use crate::cli::keystore;
use crate::cli::keystore::{KeyKind, MAX_PASSPHRASE, PASSPHRASE_ENV};
use crate::crypto::identity::Identity;
use crate::crypto::keys::Keypair;
use crate::encoding;
use vstd::prelude::*;

verus! {

/// What a node starts out with.
pub struct Initialized {
    /// The key that signs.
    pub identity: Identity,
    /// The key of the tunnels.
    pub wg: Keypair,
    /// The public key of the tunnels, in base64.
    pub wg_public: String,
    /// The content of the file with the key that signs.
    pub identity_file: Vec<u8>,
    /// The content of the file with the key of the tunnels.
    pub wg_file: Vec<u8>,
    /// The configuration.
    pub config: Config,
}

/// What drawing the keys of a node leads to: keys that are there already are replaced only
/// by force, and a passphrase is needed. Both files load to the keys that were drawn.
pub open spec fn initialized(
    server: Seq<char>,
    exists_already: bool,
    force: bool,
    passphrase: Option<Seq<u8>>,
    r: Result<Initialized, Error>,
) -> bool {
    if exists_already && !force {
        r matches Err(e) && e@ == Failure::BadConfig(
            "identity already exists; use --force to overwrite"@,
        )
    } else {
        match passphrase {
            None => r matches Err(e) && e@ == Failure::BadConfig(
                "initializing an encrypted keystore requires a passphrase. set "@
                    + PASSPHRASE_ENV@ + " or pass --passphrase-file <path>"@,
            ),
            Some(p) => if p.len() > MAX_PASSPHRASE {
                r matches Err(e) && e@ == keystore::passphrase_failure()
            } else {
                &&& r matches Ok(i)
                &&& i.identity.matched()
                &&& i.wg.matched()
                &&& i.wg_public@ == encoding::base64_text(i.wg.public_key())
                &&& i.config.server.url@ == server
                &&& forall|dir: Seq<char>| #[trigger]
                    keystore::loaded(dir, KeyKind::Identity, Some(i.identity_file@), Some(p))
                        == Ok::<Seq<u8>, Failure>(i.identity.secret())
                &&& forall|dir: Seq<char>| #[trigger]
                    keystore::loaded(dir, KeyKind::Wg, Some(i.wg_file@), Some(p)) == Ok::<
                        Seq<u8>,
                        Failure,
                    >(i.wg.secret())
            },
        }
    }
}

/// Draws both keys of a node and seals them under a passphrase. Keys that are
/// there already are replaced only by `force`. Both files load to the keys that
/// were drawn.
pub fn init(server: &str, exists_already: bool, force: bool, passphrase: Option<&[u8]>) -> (r:
    Result<Initialized, Error>)
    ensures
        initialized(server@, exists_already, force, keystore::bytes_of(passphrase), r),
{
    if exists_already && !force {
        return Err(
            Error::BadConfig("identity already exists; use --force to overwrite".to_string()),
        );
    }
    let phrase = match passphrase {
        Some(p) => p,
        None => return Err(
            Error::BadConfig(
                "initializing an encrypted keystore requires a passphrase. set ".to_string().concat(
                    PASSPHRASE_ENV,
                ).concat(" or pass --passphrase-file <path>"),
            ),
        ),
    };
    let identity = Identity::generate();
    let wg = Keypair::generate();
    let identity_secret = identity.private_bytes();
    let wg_secret = wg.secret_bytes();
    let identity_file = match keystore::save_key(&identity_secret, phrase) {
        Ok(f) => f,
        Err(e) => return Err(e),
    };
    let wg_file = match keystore::save_key(&wg_secret, phrase) {
        Ok(f) => f,
        Err(e) => return Err(e),
    };
    let wg_public = encoding::base64_encode(wg.public());
    Ok(
        Initialized {
            identity,
            wg,
            wg_public,
            identity_file,
            wg_file,
            config: Config::default_with_server(server),
        },
    )
}

} // verus!
