//! Auth tokens: the human-readable, checksummed encoding of a consumer's
//! 16-byte key, and the derivation of fresh keys for new ports.
//!
//! The encoding itself is the bech32 crate's work and the key derivation is
//! argon2's; both calls stand behind trusted wrappers whose results are
//! named, since their values are functions of the arguments alone.

use vstd::prelude::*;
use vstd::string::StringSliceAdditionalSpecFns;

use crate::util::append_bytes;

verus! {

/// The payload a checksummed token string decodes to, for any
/// human-readable part; `None` when the string is malformed or its
/// checksum does not verify.
pub uninterp spec fn token_key(token: Seq<char>) -> Option<Seq<u8>>;

/// The checksummed token string that encodes `data` under the
/// human-readable part `dmtr_cnode`.
pub uninterp spec fn token_encoded(data: Seq<u8>) -> Seq<char>;

/// The 16-byte digest argon2 derives from a password and a salt.
pub uninterp spec fn argon2_key16(password: Seq<u8>, salt: Seq<u8>) -> Seq<u8>;

/// Relies on `bech32::decode`: the human-readable part, separator and
/// checksum are validated and the payload bytes returned; the result is a
/// function of the characters alone, and the human-readable part is not
/// inspected further (matching how consumers are derived).
#[verifier::external_body]
pub(crate) fn decode_auth_token(token: &str) -> (r: Option<Vec<u8>>)
    ensures
        match r {
            Some(k) => token_key(token@) == Some(k@),
            None => token_key(token@) is None,
        },
{
    match bech32::decode(token) {
        Ok((_hrp, key)) => Some(key),
        Err(_) => None,
    }
}

/// Relies on `bech32::encode::<Bech32m>` with the human-readable part
/// `dmtr_cnode`: deterministic in `data`; succeeds whenever the encoded
/// length (11 + ceil(8·len/5) + 6 characters) stays within the code length
/// of 1023; and `bech32::decode` recovers exactly the payload from it.
#[verifier::external_body]
fn bech32_encode_cnode(data: &[u8]) -> (r: Option<String>)
    ensures
        match r {
            Some(s) => s@ == token_encoded(data@) && token_key(token_encoded(data@)) == Some(
                data@,
            ),
            None => true,
        },
        data@.len() <= 600 ==> r is Some,
{
    let hrp = match bech32::Hrp::parse("dmtr_cnode") {
        Ok(hrp) => hrp,
        Err(_) => return None,
    };
    match bech32::encode::<bech32::Bech32m>(hrp, data) {
        Ok(s) => Some(s),
        Err(_) => None,
    }
}

/// Relies on `Argon2::hash_password_into` with the crate's default
/// parameters and a 16-byte output buffer: the digest is a function of the
/// password and the salt alone; the call may fail (bad input lengths, no
/// memory), so success is not promised here.
#[verifier::external_body]
fn argon2_hash16(password: &[u8], salt: &[u8]) -> (r: Option<Vec<u8>>)
    ensures
        match r {
            Some(v) => v@ == argon2_key16(password@, salt@) && v@.len() == 16,
            None => true,
        },
{
    let mut out = vec![0u8; 16];
    match argon2::Argon2::default().hash_password_into(password, salt, &mut out) {
        Ok(()) => Some(out),
        Err(_) => None,
    }
}

/// Encodes a consumer key as an auth-token string.
pub fn encode_auth_key(key: &[u8]) -> (r: Option<String>)
    ensures
        match r {
            Some(s) => s@ == token_encoded(key@) && token_key(token_encoded(key@)) == Some(key@),
            None => true,
        },
        key@.len() <= 600 ==> r is Some,
{
    bech32_encode_cnode(key)
}

/// The password bytes a port's api key is derived from.
pub open spec fn api_key_password(port_name: Seq<u8>, namespace: Seq<u8>) -> Seq<u8> {
    "cardano-node-auth-".spec_bytes() + port_name + namespace
}

/// Derives the auth token for a port: an argon2 digest of the port's name
/// and namespace under the given salt, encoded as a checksummed token
/// string.  `None` only when the digest itself fails (argon2 refuses salts
/// shorter than 8 bytes, for one).
pub fn build_api_key(port_name: &str, namespace: &str, salt: &str) -> (r: Option<String>)
    ensures
        match r {
            Some(tok) => ({
                let key = argon2_key16(
                    api_key_password(port_name.spec_bytes(), namespace.spec_bytes()),
                    salt.spec_bytes(),
                );
                &&& tok@ == token_encoded(key)
                &&& token_key(tok@) == Some(key)
                &&& key.len() == 16
            }),
            None => true,
        },
{
    let mut password: Vec<u8> = Vec::new();
    append_bytes(&mut password, "cardano-node-auth-".as_bytes());
    append_bytes(&mut password, port_name.as_bytes());
    append_bytes(&mut password, namespace.as_bytes());
    let key = match argon2_hash16(password.as_slice(), salt.as_bytes()) {
        Some(key) => key,
        None => {
            return None;
        },
    };
    bech32_encode_cnode(key.as_slice())
}

} // verus!
