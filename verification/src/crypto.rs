//! Candidate verification.
//!
//! A passphrase is checked against the vault in three steps: the raw salt
//! bytes are re-encoded with unpadded standard base64 (the exact salt value
//! the vault's key derivation consumes), an Argon2id key is derived from the
//! passphrase and that encoded salt, and authenticated decryption of the
//! vault's ciphertext is attempted with the derived key and fixed nonce. A
//! candidate succeeds only when the authentication tag verifies and the
//! plaintext contains the expected structural marker.

use vstd::prelude::*;
use vstd::utf8::encode_utf8;

use aes_gcm::aead::Aead;
use aes_gcm::KeyInit;

verus! {

/// The base64 digit for a 6-bit value, in the RFC 4648 standard alphabet.
pub open spec fn b64_digit(v: int) -> u8 {
    if 0 <= v < 26 {
        (65 + v) as u8  // 'A'..='Z'
    } else if 26 <= v < 52 {
        (97 + (v - 26)) as u8  // 'a'..='z'
    } else if 52 <= v < 62 {
        (48 + (v - 52)) as u8  // '0'..='9'
    } else if v == 62 {
        43u8  // '+'
    } else {
        47u8  // '/'
    }
}

/// Unpadded standard base64: each group of three input bytes becomes four
/// digits; a final group of one or two bytes becomes two or three digits,
/// with no padding characters.
pub open spec fn spec_b64_nopad(bytes: Seq<u8>) -> Seq<u8>
    decreases bytes.len(),
{
    if bytes.len() == 0 {
        seq![]
    } else if bytes.len() == 1 {
        let b0 = bytes[0] as int;
        seq![b64_digit(b0 / 4), b64_digit((b0 % 4) * 16)]
    } else if bytes.len() == 2 {
        let b0 = bytes[0] as int;
        let b1 = bytes[1] as int;
        seq![
            b64_digit(b0 / 4),
            b64_digit((b0 % 4) * 16 + b1 / 16),
            b64_digit((b1 % 16) * 4),
        ]
    } else {
        let b0 = bytes[0] as int;
        let b1 = bytes[1] as int;
        let b2 = bytes[2] as int;
        seq![
            b64_digit(b0 / 4),
            b64_digit((b0 % 4) * 16 + b1 / 16),
            b64_digit((b1 % 16) * 4 + b2 / 64),
            b64_digit(b2 % 64),
        ] + spec_b64_nopad(bytes.skip(3))
    }
}

/// The length of the unpadded base64 encoding of `n` input bytes.
pub open spec fn spec_b64_len(n: int) -> int {
    4 * (n / 3) + if n % 3 == 0 {
        0int
    } else {
        n % 3 + 1
    }
}

pub proof fn lemma_b64_nopad_len(bytes: Seq<u8>)
    ensures
        spec_b64_nopad(bytes).len() == spec_b64_len(bytes.len() as int),
    decreases bytes.len(),
{
    if bytes.len() >= 3 {
        lemma_b64_nopad_len(bytes.skip(3));
    }
}

/// Relies on base64's `STANDARD_NO_PAD` engine: deterministic unpadded
/// encoding with the RFC 4648 standard alphabet. The length cap keeps the
/// engine's output-size calculation far from machine-word overflow.
#[verifier::external_body]
pub(crate) fn b64_nopad_encode(bytes: &[u8]) -> (r: Vec<u8>)
    requires
        bytes@.len() <= 0x0FFF_FFFF,
    ensures
        r@ == spec_b64_nopad(bytes@),
{
    base64::Engine::encode(&base64::engine::general_purpose::STANDARD_NO_PAD, bytes)
        .into_bytes()
}

/// The Argon2id (version 0x13) key of the given length derived from a
/// password, a salt and the cost parameters. Depends on its arguments alone.
pub uninterp spec fn argon2id_of(
    password: Seq<u8>,
    salt: Seq<u8>,
    t_cost: u32,
    m_cost: u32,
    p_cost: u32,
    out_len: u32,
) -> Seq<u8>;

/// The Argon2 cost-parameter ranges under which key derivation is accepted:
/// at least one pass, memory of at least eight blocks per lane, a supported
/// degree of parallelism, and an output of at least four bytes.
pub open spec fn spec_kdf_costs_ok(t_cost: u32, m_cost: u32, p_cost: u32, out_len: u32) -> bool {
    &&& t_cost >= 1
    &&& m_cost >= 8
    &&& m_cost as int >= 8 * (p_cost as int)
    &&& 1 <= p_cost <= 0xFF_FFFF
    &&& out_len >= 4
}

/// Relies on argon2's `Params::new` and `Argon2::hash_password_into` with
/// `Algorithm::Argon2id` and `Version::V0x13`: the derived key depends only
/// on the password, the salt and the cost parameters; `Params::new` accepts
/// exactly the costs `spec_kdf_costs_ok` describes, and the hash rejects
/// only a salt outside 8 to 2^32 - 1 bytes, a password over 2^32 - 1 bytes,
/// or an output length outside the accepted range.
#[verifier::external_body]
pub(crate) fn argon2id_derive(
    password: &[u8],
    salt: &[u8],
    t_cost: u32,
    m_cost: u32,
    p_cost: u32,
    out_len: u32,
) -> (r: Option<Vec<u8>>)
    requires
        8 * (p_cost as int) <= u32::MAX as int,
    ensures
        r matches Some(k) ==> k@ == argon2id_of(password@, salt@, t_cost, m_cost, p_cost, out_len)
            && k@.len() == out_len as int,
        (spec_kdf_costs_ok(t_cost, m_cost, p_cost, out_len) && password@.len() <= 0xFFFF_FFFF
            && 8 <= salt@.len() <= 0xFFFF_FFFF) ==> r is Some,
{
    let params = match argon2::Params::new(m_cost, t_cost, p_cost, Some(out_len as usize)) {
        Ok(p) => p,
        Err(_) => return None,
    };
    let ctx = argon2::Argon2::new(argon2::Algorithm::Argon2id, argon2::Version::V0x13, params);
    let mut out = vec![0u8; out_len as usize];
    match ctx.hash_password_into(password, salt, &mut out) {
        Ok(()) => Some(out),
        Err(_) => None,
    }
}

/// What AES-256-GCM decryption of `ciphertext` under `key` and `nonce`
/// yields: the plaintext when the authentication tag verifies, nothing
/// otherwise. Depends on its arguments alone.
pub uninterp spec fn aesgcm_open(key: Seq<u8>, nonce: Seq<u8>, ciphertext: Seq<u8>) -> Option<
    Seq<u8>,
>;

/// Relies on aes_gcm's `Aes256Gcm` `decrypt` (AEAD with no associated data):
/// deterministic in key, nonce and ciphertext; yields a plaintext only when
/// the authentication tag verifies.
#[verifier::external_body]
pub(crate) fn aes256gcm_decrypt(key: &[u8], nonce: &[u8], ciphertext: &[u8]) -> (r: Option<
    Vec<u8>,
>)
    requires
        key@.len() == 32,
        nonce@.len() == 12,
    ensures
        r matches Some(p) ==> aesgcm_open(key@, nonce@, ciphertext@) == Some(p@),
        r is None ==> aesgcm_open(key@, nonce@, ciphertext@) is None,
{
    let cipher = aes_gcm::Aes256Gcm::new(aes_gcm::Key::<aes_gcm::Aes256Gcm>::from_slice(key));
    cipher.decrypt(aes_gcm::Nonce::from_slice(nonce), ciphertext).ok()
}

/// The fixed Argon2id cost parameters of the target vault build.
#[derive(Clone, Copy, PartialEq, Eq, Structural, Debug)]
pub struct KdfParams {
    /// Number of passes.
    pub time_cost: u32,
    /// Memory cost in KiB.
    pub mem_kib: u32,
    /// Degree of parallelism.
    pub parallelism: u32,
    /// Derived key length in bytes.
    pub hash_len: u32,
}

/// Parameters the run accepts: Argon2 costs in range, and a key length of
/// exactly 32 bytes, as AES-256-GCM requires.
pub open spec fn spec_params_ok(p: KdfParams) -> bool {
    spec_kdf_costs_ok(p.time_cost, p.mem_kib, p.parallelism, p.hash_len) && p.hash_len == 32
}

/// Checks the KDF parameters once, before any candidate is tried.
pub fn params_ok(p: &KdfParams) -> (r: bool)
    ensures
        r == spec_params_ok(*p),
{
    p.time_cost >= 1 && p.mem_kib >= 8 && p.parallelism >= 1 && p.parallelism <= 0xFF_FFFF
        && p.mem_kib / 8 >= p.parallelism && p.hash_len == 32
}

/// The vault's encrypted material: raw salt bytes, the fixed 12-byte nonce,
/// and the ciphertext-plus-authentication-tag blob. Immutable for the run.
pub struct VaultMaterial {
    pub salt: Vec<u8>,
    pub nonce: Vec<u8>,
    pub ciphertext: Vec<u8>,
}

impl VaultMaterial {
    /// The nonce is exactly 12 bytes; the salt is small enough for its
    /// base64 re-encoding to be addressable.
    pub open spec fn wf(&self) -> bool {
        self.nonce@.len() == 12 && self.salt@.len() <= 0x0FFF_FFFF
    }

    /// Accepts the material only when the nonce has the required length.
    pub fn new(salt: Vec<u8>, nonce: Vec<u8>, ciphertext: Vec<u8>) -> (r: Option<VaultMaterial>)
        ensures
            match r {
                Some(v) => v.wf() && v.salt@ == salt@ && v.nonce@ == nonce@ && v.ciphertext@
                    == ciphertext@,
                None => nonce@.len() != 12 || salt@.len() > 0x0FFF_FFFF,
            },
    {
        if nonce.len() == 12 && salt.len() <= 0x0FFF_FFFF {
            Some(VaultMaterial { salt, nonce, ciphertext })
        } else {
            None
        }
    }
}

/// The structural marker every correctly decrypted vault payload contains:
/// the bytes of the quoted word `files`.
pub open spec fn spec_marker() -> Seq<u8> {
    seq![34u8, 102u8, 105u8, 108u8, 101u8, 115u8, 34u8]
}

/// Whether `data` contains the structural marker as a contiguous run.
pub open spec fn spec_contains_marker(data: Seq<u8>) -> bool {
    exists|i: int|
        0 <= i && i + 7 <= data.len() && #[trigger] data.subrange(i, i + 7) == spec_marker()
}

/// Scans a decrypted payload for the structural marker.
pub fn contains_marker(data: &Vec<u8>) -> (r: bool)
    ensures
        r == spec_contains_marker(data@),
{
    // the marker bytes: a double quote, the letters of `files`, a double quote
    let marker: [u8; 7] = [34u8, 102u8, 105u8, 108u8, 101u8, 115u8, 34u8];
    proof {
        assert(marker@ =~= spec_marker());
    }
    if data.len() < 7 {
        return false;
    }
    let mut i: usize = 0;
    while i <= data.len() - 7
        invariant
            data@.len() >= 7,
            marker@ =~= spec_marker(),
            i <= data@.len() - 7 + 1,
            forall|j: int| 0 <= j < i ==> #[trigger] data@.subrange(j, j + 7) != spec_marker(),
        decreases data@.len() - i,
    {
        let mut k: usize = 0;
        let mut all_eq = true;
        while k < 7
            invariant
                data@.len() >= 7,
                data@.len() <= usize::MAX,
                marker@ =~= spec_marker(),
                i + 7 <= data@.len(),
                k <= 7,
                all_eq <==> forall|t: int| 0 <= t < k ==> data@[i + t] == spec_marker()[t],
            decreases 7 - k,
        {
            if data[i + k] != marker[k] {
                all_eq = false;
                proof {
                    assert(data@[i + k as int] != spec_marker()[k as int]);
                }
                k = 7;
            } else {
                proof {
                    assert(data@[i + k as int] == spec_marker()[k as int]);
                }
                k += 1;
            }
        }
        if all_eq {
            proof {
                assert(data@.subrange(i as int, i + 7) =~= spec_marker());
            }
            return true;
        }
        proof {
            assert(data@.subrange(i as int, i + 7) != spec_marker()) by {
                let t = choose|t: int| 0 <= t < 7 && data@[i + t] != spec_marker()[t];
                assert(data@.subrange(i as int, i + 7)[t] != spec_marker()[t]);
            }
        }
        i += 1;
    }
    false
}

/// The key the vault derives for a passphrase: Argon2id over the passphrase
/// bytes and the base64 re-encoding of the raw salt.
pub open spec fn spec_derive_key(password: Seq<u8>, salt: Seq<u8>, p: KdfParams) -> Seq<u8> {
    argon2id_of(password, spec_b64_nopad(salt), p.time_cost, p.mem_kib, p.parallelism, p.hash_len)
}

/// Derives the vault key for a passphrase: re-encodes the raw salt with
/// unpadded base64, then runs Argon2id with the configured costs. Succeeds
/// whenever the parameters are in range, the raw salt is at least 6 bytes
/// (so its encoding meets the KDF's 8-byte minimum), and the password is at
/// most 2^32 - 1 bytes.
pub fn derive_key(password: &[u8], salt: &Vec<u8>, params: &KdfParams) -> (r: Option<Vec<u8>>)
    requires
        salt@.len() <= 0x0FFF_FFFF,
    ensures
        r matches Some(k) ==> k@ == spec_derive_key(password@, salt@, *params) && k@.len()
            == params.hash_len as int,
        (spec_params_ok(*params) && password@.len() <= 0xFFFF_FFFF && salt@.len() >= 6)
            ==> r is Some,
{
    if params.parallelism > 0xFF_FFFF {
        return None;
    }
    let salt_b64 = b64_nopad_encode(salt.as_slice());
    proof {
        lemma_b64_nopad_len(salt@);
        assert(salt@.len() >= 6 ==> salt_b64@.len() >= 8);
        assert(salt_b64@.len() <= 0xFFFF_FFFF) by {
            assert(salt@.len() as int / 3 <= 0x0555_5555);
        }
    }
    argon2id_derive(
        password,
        salt_b64.as_slice(),
        params.time_cost,
        params.mem_kib,
        params.parallelism,
        params.hash_len,
    )
}

/// Attempts authenticated decryption of the vault blob with a derived key.
pub fn decrypt(key: &Vec<u8>, nonce: &Vec<u8>, ciphertext: &Vec<u8>) -> (r: Option<Vec<u8>>)
    requires
        key@.len() == 32,
        nonce@.len() == 12,
    ensures
        r matches Some(p) ==> aesgcm_open(key@, nonce@, ciphertext@) == Some(p@),
        r is None ==> aesgcm_open(key@, nonce@, ciphertext@) is None,
{
    aes256gcm_decrypt(key.as_slice(), nonce.as_slice(), ciphertext.as_slice())
}

/// What verifying a passphrase against the vault yields: the decrypted
/// payload when the derived key opens the blob and the payload carries the
/// structural marker, nothing otherwise.
pub open spec fn spec_passphrase_verify(pass: Seq<char>, vault: VaultMaterial, params: KdfParams) -> Option<
    Seq<u8>,
> {
    let key = spec_derive_key(encode_utf8(pass), vault.salt@, params);
    match aesgcm_open(key, vault.nonce@, vault.ciphertext@) {
        Some(pt) => if spec_contains_marker(pt) {
            Some(pt)
        } else {
            None
        },
        None => None,
    }
}

/// Verifies one passphrase against the vault: derives the key, attempts
/// authenticated decryption, and checks the structural marker. Never fails
/// on a wrong guess; a rejection is the ordinary outcome.
pub fn verify_passphrase(pass: &str, vault: &VaultMaterial, params: &KdfParams) -> (r: Option<
    Vec<u8>,
>)
    requires
        vault.wf(),
    ensures
        r matches Some(pt) ==> encode_utf8(pass@).len() <= 0xFFFF_FFFF && spec_passphrase_verify(
            pass@,
            *vault,
            *params,
        ) == Some(pt@),
        (r is None && spec_params_ok(*params) && vault.salt@.len() >= 6 && encode_utf8(
            pass@,
        ).len() <= 0xFFFF_FFFF) ==> spec_passphrase_verify(pass@, *vault, *params) is None,
{
    if !params_ok(params) {
        return None;
    }
    let pbytes = pass.as_bytes();
    if pbytes.len() as u64 > 0xFFFF_FFFFu64 {
        return None;
    }
    let key = match derive_key(pbytes, &vault.salt, params) {
        Some(k) => k,
        None => {
            return None;
        },
    };
    let pt = match decrypt(&key, &vault.nonce, &vault.ciphertext) {
        Some(p) => p,
        None => {
            return None;
        },
    };
    if contains_marker(&pt) {
        Some(pt)
    } else {
        None
    }
}

} // verus!
