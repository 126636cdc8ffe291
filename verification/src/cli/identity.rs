//! Unencrypted key files, and the names of the node's files.

use crate::bytes;
use crate::cli::error::{Error, Failure};
use crate::crypto::identity::Identity;
use crate::crypto::keys::Keypair;
use vstd::prelude::*;

verus! {

/// The file with the key that signs.
pub const IDENTITY_FILE: &'static str = "identity.key";

/// The file with the key of the tunnels.
pub const WG_KEY_FILE: &'static str = "wg.key";

/// The file with the configuration.
pub const CONFIG_FILE: &'static str = "config.toml";

/// The file with the state.
pub const STATE_FILE: &'static str = "state.json";

/// The file with the daemon's process number.
pub const DAEMON_PID_FILE: &'static str = "naboscale.pid";

/// The daemon's log.
pub const DAEMON_LOG_FILE: &'static str = "naboscale.log";

fn raw_key(dir: &str, content: Option<&[u8]>, wrong_length: &str) -> (r: Result<[u8; 32], Error>)
    ensures
        match content {
            None => r matches Err(e) && e@ == Failure::NotInitialized(dir@),
            Some(c) => if c@.len() != 32 {
                r matches Err(e) && e@ == Failure::BadConfig(wrong_length@)
            } else {
                r matches Ok(k) && k@ == c@
            },
        },
{
    match content {
        Some(c) => {
            if c.len() != 32 {
                return Err(Error::BadConfig(wrong_length.to_string()));
            }
            let k: [u8; 32] = bytes::take_array(c, 0);
            assert(k@ =~= c@);
            Ok(k)
        },
        None => Err(Error::NotInitialized(dir.to_string())),
    }
}

/// Takes the identity out of the content of an unencrypted file.
pub fn load_identity(dir: &str, content: Option<&[u8]>) -> (r: Result<Identity, Error>)
    ensures
        match content {
            None => r matches Err(e) && e@ == Failure::NotInitialized(dir@),
            Some(c) => if c@.len() != 32 {
                r matches Err(e) && e@ == Failure::BadConfig("identity.key has wrong length"@)
            } else {
                r matches Ok(k) && k.secret() == c@ && k.matched()
            },
        },
{
    match raw_key(dir, content, "identity.key has wrong length") {
        Ok(k) => Ok(Identity::from_bytes(k)),
        Err(e) => Err(e),
    }
}

/// The content of the unencrypted file of an identity.
pub fn save_identity(identity: &Identity) -> (r: [u8; 32])
    ensures
        r@ == identity.secret(),
{
    identity.private_bytes()
}

/// Takes the tunnel keypair out of the content of an unencrypted file.
pub fn load_wg_key(dir: &str, content: Option<&[u8]>) -> (r: Result<Keypair, Error>)
    ensures
        match content {
            None => r matches Err(e) && e@ == Failure::NotInitialized(dir@),
            Some(c) => if c@.len() != 32 {
                r matches Err(e) && e@ == Failure::BadConfig("wg.key has wrong length"@)
            } else {
                r matches Ok(k) && k.secret() == c@ && k.matched()
            },
        },
{
    match raw_key(dir, content, "wg.key has wrong length") {
        Ok(k) => Ok(Keypair::from_bytes(k)),
        Err(e) => Err(e),
    }
}

/// The content of the unencrypted file of a tunnel keypair.
pub fn save_wg_key(keypair: &Keypair) -> (r: [u8; 32])
    ensures
        r@ == keypair.secret(),
{
    keypair.secret_bytes()
}

/// Whether a node has its keys: both files must be there.
pub fn identity_exists(identity_file: bool, wg_file: bool) -> (r: bool)
    ensures
        r == (identity_file && wg_file),
{
    identity_file && wg_file
}

} // verus!
