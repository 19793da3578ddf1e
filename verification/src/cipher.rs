//! Post-quantum hybrid encryption: ML-KEM-1024 with AES-256-GCM, and what goes with it.
//!
//! The encrypted package:
//!
//! ```text
//! [2 bytes: ML-KEM ciphertext length (u16 LE)]
//! [N bytes: ML-KEM ciphertext (encapsulated AES key)]
//! [12 bytes: AES-GCM nonce]
//! [M bytes: AES-GCM encrypted payload + 16-byte authentication tag]
//! ```

use crate::bytes::{concat, less, push_le16, read_le16, slice_of, to_array12, to_array32};
use crate::crypto::{
    aes_gcm_decrypt, aes_gcm_encrypt, kem_decaps, kem_encaps, kem_generate, pbkdf2, random_fill, sha256, GCM_MAX,
};
use crate::ratchet::{kdf, KEM_CT_LEN, KEM_PK_LEN, KEM_SK_LEN};
use crate::text::with_number;
use crate::{bytes, crypto, text};
use vstd::prelude::*;

verus! {

broadcast use vstd::array::group_array_axioms;

/// PBKDF2 rounds on native targets.
pub const NATIVE_ROUNDS: u32 = 600_000;

/// PBKDF2 rounds in a browser.
pub const BROWSER_ROUNDS: u32 = 100_000;

/// Cryptographic engine: key generation, encryption and decryption.
pub struct VurnCipher;

/// The parts of an encrypted package.
pub struct EncryptedPackage {
    pub kem_ct: Vec<u8>,
    pub nonce: [u8; 12],
    pub payload: Vec<u8>,
}

// ── Package format ──────────────────────────────────────────────────

/// The bytes of a package.
pub open spec fn package_bytes(kem_ct: Seq<u8>, nonce: Seq<u8>, payload: Seq<u8>) -> Seq<u8> {
    bytes::le16(kem_ct.len() as int) + kem_ct + nonce + payload
}

/// The parts of a package (KEM ciphertext, nonce, payload), or why it has none.
pub open spec fn package_of(d: Seq<u8>) -> Result<(Seq<u8>, Seq<u8>, Seq<u8>), Seq<char>> {
    if d.len() < 2 {
        Err("Package too short: missing KEM ciphertext length"@)
    } else {
        let end = 2 + bytes::le16_at(d, 0);
        if d.len() < end + 12 {
            Err("Package too short: missing nonce"@)
        } else if d.len() < end + 12 + 16 {
            Err("Package too short: payload missing authentication tag"@)
        } else {
            Ok((d.subrange(2, end), d.subrange(end, end + 12), d.subrange(end + 12, d.len() as int)))
        }
    }
}

/// A package holds the length of the KEM ciphertext in two bytes, the low one first, then the KEM
/// ciphertext, the nonce and the payload, and nothing else.
pub proof fn package_layout(kem_ct: Seq<u8>, nonce: Seq<u8>, payload: Seq<u8>)
    requires
        nonce.len() == 12,
    ensures
        ({
            let d = package_bytes(kem_ct, nonce, payload);
            let end = 2 + kem_ct.len() as int;
            &&& d.len() == end + 12 + payload.len()
            &&& d[0] as int + 256 * (d[1] as int) == kem_ct.len() % 65536
            &&& d.subrange(2, end) == kem_ct
            &&& d.subrange(end, end + 12) == nonce
            &&& d.skip(end + 12) == payload
        }),
{
    bytes::le16_is_little_endian(kem_ct.len() as int);
    let d = package_bytes(kem_ct, nonce, payload);
    let end = 2 + kem_ct.len() as int;
    assert(d.subrange(2, end) =~= kem_ct);
    assert(d.subrange(end, end + 12) =~= nonce);
    assert(d.skip(end + 12) =~= payload);
}

/// Bytes are a package exactly where a nonce and at least a tag follow the KEM ciphertext whose length
/// the first two bytes give; its parts are then all of it.
pub proof fn package_is_all_of_it(d: Seq<u8>)
    ensures
        package_of(d) is Ok <==> d.len() >= 2 && d.len() >= 2 + d[0] as int + 256 * (d[1] as int) + 28,
        package_of(d) matches Ok((kem_ct, nonce, payload)) ==> {
            &&& kem_ct.len() == d[0] as int + 256 * (d[1] as int)
            &&& nonce.len() == 12
            &&& d.take(2) + kem_ct + nonce + payload == d
        },
        d.len() < 2 ==> package_of(d) == Err::<(Seq<u8>, Seq<u8>, Seq<u8>), Seq<char>>(
            "Package too short: missing KEM ciphertext length"@,
        ),
        2 <= d.len() < 2 + d[0] as int + 256 * (d[1] as int) + 12 ==> package_of(d) == Err::<
            (Seq<u8>, Seq<u8>, Seq<u8>),
            Seq<char>,
        >("Package too short: missing nonce"@),
        2 <= d.len() && 2 + d[0] as int + 256 * (d[1] as int) + 12 <= d.len() < 2 + d[0] as int + 256 * (d[1] as int) + 28
            ==> package_of(d) == Err::<(Seq<u8>, Seq<u8>, Seq<u8>), Seq<char>>(
            "Package too short: payload missing authentication tag"@,
        ),
{
    if let Ok((kem_ct, nonce, payload)) = package_of(d) {
        assert(d.take(2) + kem_ct + nonce + payload =~= d);
    }
}

/// A package is taken apart into what it was made of.
pub proof fn package_reads_back(kem_ct: Seq<u8>, nonce: Seq<u8>, payload: Seq<u8>)
    requires
        kem_ct.len() < 65536,
        nonce.len() == 12,
        payload.len() >= 16,
    ensures
        package_of(package_bytes(kem_ct, nonce, payload)) == Ok::<(Seq<u8>, Seq<u8>, Seq<u8>), Seq<char>>(
            (kem_ct, nonce, payload),
        ),
{
    let d = package_bytes(kem_ct, nonce, payload);
    let end = 2 + kem_ct.len() as int;
    assert(d.subrange(0, 2) =~= bytes::le16(kem_ct.len() as int));
    bytes::le16_reads_back(d, 0, kem_ct.len() as int);
    assert(d.subrange(2, end) =~= kem_ct);
    assert(d.subrange(end, end + 12) =~= nonce);
    assert(d.subrange(end + 12, d.len() as int) =~= payload);
}

/// Writes a package.
pub fn serialize_package(kem_ct: &[u8], nonce: &[u8; 12], payload: &[u8]) -> (r: Vec<u8>)
    ensures
        r@ == package_bytes(kem_ct@, nonce@, payload@),
{
    let mut r: Vec<u8> = Vec::new();
    push_le16(&mut r, kem_ct.len());
    r.extend_from_slice(kem_ct);
    r.extend_from_slice(nonce);
    r.extend_from_slice(payload);
    assert(r@ =~= package_bytes(kem_ct@, nonce@, payload@));
    r
}

/// Takes a package apart.
pub fn deserialize_package(data: &[u8]) -> (r: Result<EncryptedPackage, String>)
    ensures
        match r {
            Ok(p) => package_of(data@) == Ok::<(Seq<u8>, Seq<u8>, Seq<u8>), Seq<char>>(
                (p.kem_ct@, p.nonce@, p.payload@),
            ),
            Err(e) => package_of(data@) == Err::<(Seq<u8>, Seq<u8>, Seq<u8>), Seq<char>>(e@),
        },
{
    if data.len() < 2 {
        return Err("Package too short: missing KEM ciphertext length".to_owned());
    }
    let end: usize = 2 + read_le16(data, 0);
    if data.len() < end + 12 {
        return Err("Package too short: missing nonce".to_owned());
    }
    if data.len() < end + 12 + 16 {
        return Err("Package too short: payload missing authentication tag".to_owned());
    }
    Ok(
        EncryptedPackage {
            kem_ct: slice_of(data, 2, end),
            nonce: to_array12(vstd::slice::slice_subrange(data, end, end + 12)),
            payload: slice_of(data, end + 12, data.len()),
        },
    )
}

// ── Public-key encryption ───────────────────────────────────────────

/// What a package decrypts to under a secret key, or why it does not.
pub open spec fn decrypted(secret_key: Seq<u8>, pkg: Seq<u8>) -> Result<Seq<u8>, Seq<char>> {
    match package_of(pkg) {
        Err(e) => Err(e),
        Ok((kem_ct, nonce, payload)) => if secret_key.len() != KEM_SK_LEN {
            Err("Invalid secret key: expected 3168 bytes, got "@ + text::decimal(secret_key.len()))
        } else if kem_ct.len() != KEM_CT_LEN {
            Err("Invalid KEM ciphertext length"@)
        } else {
            match crypto::aes_gcm_open(
                crypto::ml_kem_decaps(secret_key, kem_ct),
                nonce,
                Seq::empty(),
                payload,
            ) {
                Some(m) => Ok(m),
                None => Err("Decryption failed (wrong key or tampered data): aead::Error"@),
            }
        },
    }
}

/// A message sealed under a KEM secret, packed with the KEM ciphertext and the nonce.
pub open spec fn sealed_package(kem_ct: Seq<u8>, secret: Seq<u8>, nonce: Seq<u8>, plaintext: Seq<u8>) -> Seq<u8> {
    package_bytes(kem_ct, nonce, crypto::aes_gcm_seal(secret, nonce, Seq::empty(), plaintext))
}

/// Whether every secret key that decapsulates `kem_ct` to `secret` decrypts a package to
/// `plaintext`.
pub open spec fn decrypts_to(kem_ct: Seq<u8>, secret: Seq<u8>, pkg: Seq<u8>, plaintext: Seq<u8>) -> bool {
    forall|sk: Seq<u8>|
        sk.len() == KEM_SK_LEN && #[trigger] crypto::ml_kem_decaps(sk, kem_ct) == secret ==> decrypted(sk, pkg) == Ok::<
            Seq<u8>,
            Seq<char>,
        >(plaintext)
}

/// A package decrypts by its parts alone: to what AES-256-GCM opens the payload to, with the nonce and
/// under the secret that ML-KEM-1024 decapsulates the KEM ciphertext to.
pub proof fn package_decrypts_by_its_parts(secret_key: Seq<u8>, kem_ct: Seq<u8>, nonce: Seq<u8>, payload: Seq<u8>)
    requires
        secret_key.len() == 3168,
        kem_ct.len() == 1568,
        nonce.len() == 12,
        payload.len() >= 16,
    ensures
        decrypted(secret_key, package_bytes(kem_ct, nonce, payload)) == (match crypto::aes_gcm_open(
            crypto::ml_kem_decaps(secret_key, kem_ct),
            nonce,
            Seq::empty(),
            payload,
        ) {
            Some(m) => Ok::<Seq<u8>, Seq<char>>(m),
            None => Err("Decryption failed (wrong key or tampered data): aead::Error"@),
        }),
{
    package_reads_back(kem_ct, nonce, payload);
}

/// A package is refused where it is none, where the secret key has not 3168 bytes, and where the KEM
/// ciphertext has not 1568, in this order.
pub proof fn unfit_parts_are_refused(secret_key: Seq<u8>, pkg: Seq<u8>)
    ensures
        package_of(pkg) matches Err(e) ==> decrypted(secret_key, pkg) == Err::<Seq<u8>, Seq<char>>(e),
        package_of(pkg) is Ok && secret_key.len() != 3168 ==> decrypted(secret_key, pkg) == Err::<Seq<u8>, Seq<char>>(
            "Invalid secret key: expected 3168 bytes, got "@ + text::decimal(secret_key.len()),
        ),
        package_of(pkg) is Ok && secret_key.len() == 3168 && package_of(pkg)->Ok_0.0.len() != 1568 ==> decrypted(
            secret_key,
            pkg,
        ) == Err::<Seq<u8>, Seq<char>>("Invalid KEM ciphertext length"@),
{
}

/// What is packed is the message itself, whole: the payload of a sealed package is what AES-256-GCM
/// seals the message to, with the nonce in front of it and no associated data.
pub proof fn sealed_package_holds_message(kem_ct: Seq<u8>, secret: Seq<u8>, nonce: Seq<u8>, plaintext: Seq<u8>)
    requires
        nonce.len() == 12,
    ensures
        ({
            let d = sealed_package(kem_ct, secret, nonce, plaintext);
            let end = 2 + kem_ct.len() as int;
            &&& d.len() >= end + 12
            &&& d.subrange(2, end) == kem_ct
            &&& d.subrange(end, end + 12) == nonce
            &&& d.skip(end + 12) == crypto::aes_gcm_seal(secret, nonce, Seq::empty(), plaintext)
        }),
{
    package_layout(kem_ct, nonce, crypto::aes_gcm_seal(secret, nonce, Seq::empty(), plaintext));
}

/// Who decapsulates the secret that a message was sealed under decrypts the package to the message.
pub proof fn holder_of_the_secret_decrypts(
    secret_key: Seq<u8>,
    kem_ct: Seq<u8>,
    secret: Seq<u8>,
    pkg: Seq<u8>,
    plaintext: Seq<u8>,
)
    requires
        decrypts_to(kem_ct, secret, pkg, plaintext),
        secret_key.len() == 3168,
        crypto::ml_kem_decaps(secret_key, kem_ct) == secret,
    ensures
        decrypted(secret_key, pkg) == Ok::<Seq<u8>, Seq<char>>(plaintext),
{
}

/// Two encryptions to one public key are different packages with different KEM ciphertexts, unless
/// ML-KEM-1024 gave one ciphertext for both.
pub proof fn encryptions_differ(
    public_key: Seq<u8>,
    kem: (Seq<u8>, Seq<u8>),
    nonce: Seq<u8>,
    plaintext: Seq<u8>,
    kem2: (Seq<u8>, Seq<u8>),
    nonce2: Seq<u8>,
    plaintext2: Seq<u8>,
)
    requires
        kdf::is_encapsulation(public_key, kem.0, kem.1),
        kdf::is_encapsulation(public_key, kem2.0, kem2.1),
        nonce.len() == 12,
        nonce2.len() == 12,
        sealed_package(kem.0, kem.1, nonce, plaintext).len() == 2 + KEM_CT_LEN + 12 + plaintext.len() + 16,
        sealed_package(kem2.0, kem2.1, nonce2, plaintext2).len() == 2 + KEM_CT_LEN + 12 + plaintext2.len() + 16,
        kem.0 != kem2.0,
    ensures
        ({
            let p = sealed_package(kem.0, kem.1, nonce, plaintext);
            let q = sealed_package(kem2.0, kem2.1, nonce2, plaintext2);
            &&& package_of(p) is Ok
            &&& package_of(q) is Ok
            &&& package_of(p)->Ok_0.0 != package_of(q)->Ok_0.0
            &&& p != q
        }),
{
    package_reads_back(kem.0, nonce, crypto::aes_gcm_seal(kem.1, nonce, Seq::empty(), plaintext));
    package_reads_back(kem2.0, nonce2, crypto::aes_gcm_seal(kem2.1, nonce2, Seq::empty(), plaintext2));
}

/// A package does not decrypt with a key whose decapsulated secret is not one under which
/// AES-256-GCM opens it.
pub proof fn wrong_key_is_refused(
    secret_key: Seq<u8>,
    kem_ct: Seq<u8>,
    secret: Seq<u8>,
    nonce: Seq<u8>,
    plaintext: Seq<u8>,
)
    requires
        secret_key.len() == KEM_SK_LEN,
        kem_ct.len() == KEM_CT_LEN,
        nonce.len() == 12,
        sealed_package(kem_ct, secret, nonce, plaintext).len() == 2 + KEM_CT_LEN + 12 + plaintext.len() + 16,
        crypto::aes_gcm_open(
            crypto::ml_kem_decaps(secret_key, kem_ct),
            nonce,
            Seq::empty(),
            crypto::aes_gcm_seal(secret, nonce, Seq::empty(), plaintext),
        ) is None,
    ensures
        decrypted(secret_key, sealed_package(kem_ct, secret, nonce, plaintext)) == Err::<Seq<u8>, Seq<char>>(
            "Decryption failed (wrong key or tampered data): aead::Error"@,
        ),
{
    package_reads_back(kem_ct, nonce, crypto::aes_gcm_seal(secret, nonce, Seq::empty(), plaintext));
}

/// A package with one byte changed does not decrypt: in any case where the byte is one of the
/// length, and else where AES-256-GCM does not open what the package holds then.
pub proof fn changed_package_is_refused(secret_key: Seq<u8>, pkg: Seq<u8>, i: int, byte: u8)
    requires
        secret_key.len() == KEM_SK_LEN,
        package_of(pkg) is Ok,
        package_of(pkg)->Ok_0.0.len() == KEM_CT_LEN,
        0 <= i < pkg.len(),
        byte != pkg[i],
        i >= 2 ==> ({
            let d = pkg.update(i, byte);
            let end = 2 + KEM_CT_LEN as int;
            crypto::aes_gcm_open(
                crypto::ml_kem_decaps(secret_key, d.subrange(2, end)),
                d.subrange(end, end + 12),
                Seq::empty(),
                d.subrange(end + 12, d.len() as int),
            ) is None
        }),
    ensures
        decrypted(secret_key, pkg.update(i, byte)) is Err,
        i >= 2 ==> decrypted(secret_key, pkg.update(i, byte)) == Err::<Seq<u8>, Seq<char>>(
            "Decryption failed (wrong key or tampered data): aead::Error"@,
        ),
{
    let d = pkg.update(i, byte);
    assert(bytes::le16_at(pkg, 0) == KEM_CT_LEN);
    if i >= 2 {
        assert(bytes::le16_at(d, 0) == KEM_CT_LEN);
    } else {
        assert(bytes::le16_at(d, 0) != KEM_CT_LEN);
    }
}

/// A text that ends in the length of an argument.
fn bad_length(text: &str, n: usize) -> (r: String)
    ensures
        r@ == text@ + text::decimal(n as nat),
{
    with_number(text, n as u64)
}

impl VurnCipher {
    /// A new ML-KEM-1024 key pair `(public_key, secret_key)` as raw bytes.
    pub fn generate_keypair() -> (r: (Vec<u8>, Vec<u8>))
        ensures
            kdf::is_kem_pair(r.0@, r.1@),
    {
        kem_generate()
    }

    /// Seals a message under a KEM secret and packs it.
    pub fn encrypt_with(kem_ct: &[u8], secret: &[u8; 32], nonce: &[u8; 12], plaintext: &[u8]) -> (r: Result<
        Vec<u8>,
        String,
    >)
        ensures
            match r {
                Ok(p) => {
                    &&& plaintext@.len() <= GCM_MAX
                    &&& p@ == sealed_package(kem_ct@, secret@, nonce@, plaintext@)
                    &&& p@.len() == 2 + kem_ct@.len() + 12 + plaintext@.len() + 16
                    &&& kem_ct@.len() == KEM_CT_LEN ==> decrypts_to(kem_ct@, secret@, p@, plaintext@)
                },
                Err(e) => plaintext@.len() > GCM_MAX && e@ == "Encryption failed: aead::Error"@,
            },
    {
        let empty: Vec<u8> = Vec::new();
        assert(empty@ =~= Seq::<u8>::empty());
        match aes_gcm_encrypt(secret, nonce, &empty, plaintext) {
            None => Err("Encryption failed: aead::Error".to_owned()),
            Some(payload) => {
                proof {
                    if kem_ct@.len() == KEM_CT_LEN {
                        package_reads_back(kem_ct@, nonce@, payload@);
                    }
                }
                Ok(serialize_package(kem_ct, nonce, &payload))
            },
        }
    }

    /// Encrypts a message for the holder of a public key's secret half. A fresh KEM secret seals
    /// it; whoever decapsulates that secret decrypts the package to the message.
    pub fn encrypt(public_key: &[u8], plaintext: &[u8]) -> (r: Result<Vec<u8>, String>)
        ensures
            match r {
                Ok(p) => {
                    &&& public_key@.len() == KEM_PK_LEN
                    &&& plaintext@.len() <= GCM_MAX
                    &&& p@.len() == 2 + KEM_CT_LEN + 12 + plaintext@.len() + 16
                    &&& exists|kem_ct: Seq<u8>, secret: Seq<u8>, nonce: Seq<u8>|
                        {
                            &&& kdf::is_encapsulation(public_key@, kem_ct, secret)
                            &&& nonce.len() == 12
                            &&& p@ == #[trigger] sealed_package(kem_ct, secret, nonce, plaintext@)
                            &&& decrypts_to(kem_ct, secret, p@, plaintext@)
                        }
                },
                Err(e) => if public_key@.len() != KEM_PK_LEN {
                    e@ == "Invalid public key: expected 1568 bytes, got "@ + text::decimal(public_key@.len())
                } else {
                    plaintext@.len() > GCM_MAX && e@ == "Encryption failed: aead::Error"@
                },
            },
    {
        if public_key.len() != KEM_PK_LEN {
            return Err(bad_length("Invalid public key: expected 1568 bytes, got ", public_key.len()));
        }
        let (kem_ct, shared_key) = kem_encaps(public_key);
        let mut nonce = [0u8; 12];
        random_fill(&mut nonce);
        let secret = to_array32(&shared_key);
        assert(kdf::is_encapsulation(public_key@, kem_ct@, secret@));
        Self::encrypt_with(&kem_ct, &secret, &nonce, plaintext)
    }

    /// Decrypts a package with the recipient's secret key.
    pub fn decrypt(secret_key: &[u8], encrypted_package: &[u8]) -> (r: Result<Vec<u8>, String>)
        ensures
            match r {
                Ok(m) => decrypted(secret_key@, encrypted_package@) == Ok::<Seq<u8>, Seq<char>>(m@),
                Err(e) => decrypted(secret_key@, encrypted_package@) == Err::<Seq<u8>, Seq<char>>(e@),
            },
    {
        let package = deserialize_package(encrypted_package)?;
        if secret_key.len() != KEM_SK_LEN {
            return Err(bad_length("Invalid secret key: expected 3168 bytes, got ", secret_key.len()));
        }
        if package.kem_ct.len() != KEM_CT_LEN {
            return Err("Invalid KEM ciphertext length".to_owned());
        }
        let shared_key = to_array32(&kem_decaps(secret_key, &package.kem_ct));
        let empty: Vec<u8> = Vec::new();
        assert(empty@ =~= Seq::<u8>::empty());
        match aes_gcm_decrypt(&shared_key, &package.nonce, &empty, &package.payload) {
            Some(m) => Ok(m),
            None => Err("Decryption failed (wrong key or tampered data): aead::Error".to_owned()),
        }
    }

    /// SHA-256 of a public key: the user's short identifier.
    pub fn hash_public_key(public_key: &[u8]) -> (r: Vec<u8>)
        ensures
            r@ == crypto::sha256_of(public_key@),
            r@.len() == 32,
    {
        let h = sha256(public_key);
        vstd::slice::slice_to_vec(&h)
    }

    /// A 256-bit AES key from a password and a salt, with the rounds of a native target.
    pub fn derive_key(password: &str, salt: &[u8]) -> (r: [u8; 32])
        ensures
            r@ == crypto::pbkdf2_of(vstd::utf8::encode_utf8(password@), salt@, 600_000u32),
    {
        pbkdf2(password.as_bytes(), salt, NATIVE_ROUNDS)
    }

    /// A 256-bit AES key from a password and a salt, with the rounds of a browser.
    pub fn derive_key_browser(password: &str, salt: &[u8]) -> (r: [u8; 32])
        ensures
            r@ == crypto::pbkdf2_of(vstd::utf8::encode_utf8(password@), salt@, 100_000u32),
    {
        pbkdf2(password.as_bytes(), salt, BROWSER_ROUNDS)
    }

    /// Encrypts data under a raw key and a given nonce: the nonce, then the ciphertext.
    pub fn encrypt_symmetric_with(key: &[u8; 32], nonce: &[u8; 12], plaintext: &[u8]) -> (r: Vec<u8>)
        requires
            plaintext@.len() <= GCM_MAX,
        ensures
            r@ == sealed_data(key@, nonce@, plaintext@),
            r@.len() == 12 + plaintext@.len() + 16,
            opened_data(key@, r@) == Ok::<Seq<u8>, Seq<char>>(plaintext@),
    {
        let empty: Vec<u8> = Vec::new();
        assert(empty@ =~= Seq::<u8>::empty());
        let sealed = aes_gcm_encrypt(key, nonce, &empty, plaintext).unwrap();
        let r = concat(nonce, &sealed);
        assert(r@.subrange(0, 12) =~= nonce@);
        assert(r@.subrange(12, r@.len() as int) =~= sealed@);
        r
    }

    /// Encrypts data with AES-256-GCM under a raw key and a random nonce. Decrypting under the same
    /// key gives the data back.
    pub fn encrypt_symmetric(key: &[u8; 32], plaintext: &[u8]) -> (r: Vec<u8>)
        requires
            plaintext@.len() <= GCM_MAX,
        ensures
            exists|nonce: Seq<u8>| nonce.len() == 12 && r@ == #[trigger] sealed_data(key@, nonce, plaintext@),
            r@.len() == 12 + plaintext@.len() + 16,
            opened_data(key@, r@) == Ok::<Seq<u8>, Seq<char>>(plaintext@),
    {
        let mut nonce = [0u8; 12];
        random_fill(&mut nonce);
        Self::encrypt_symmetric_with(key, &nonce, plaintext)
    }

    /// Decrypts data that [`VurnCipher::encrypt_symmetric`] encrypted.
    pub fn decrypt_symmetric(key: &[u8; 32], ciphertext: &[u8]) -> (r: Result<Vec<u8>, String>)
        ensures
            match r {
                Ok(m) => opened_data(key@, ciphertext@) == Ok::<Seq<u8>, Seq<char>>(m@),
                Err(e) => opened_data(key@, ciphertext@) == Err::<Seq<u8>, Seq<char>>(e@),
            },
    {
        if ciphertext.len() < 12 + 16 {
            return Err("Ciphertext too short".to_owned());
        }
        let nonce = to_array12(vstd::slice::slice_subrange(ciphertext, 0, 12));
        let payload = vstd::slice::slice_subrange(ciphertext, 12, ciphertext.len());
        let empty: Vec<u8> = Vec::new();
        assert(empty@ =~= Seq::<u8>::empty());
        match aes_gcm_decrypt(key, &nonce, &empty, payload) {
            Some(m) => Ok(m),
            None => Err("Decryption failed: aead::Error".to_owned()),
        }
    }

    /// The digits of a safety fingerprint's hash: twelve groups of five.
    pub fn fingerprint_digits(hash: &[u8; 32]) -> (r: String)
        ensures
            r@ == digit_groups(hash@, 12),
    {
        let mut r = String::new();
        let mut i: usize = 0;
        assert(r@ =~= digit_groups(hash@, 0));
        while i < 12
            invariant
                i <= 12,
                r@ == digit_groups(hash@, i as nat),
            decreases 12 - i,
        {
            let ghost before = r@;
            if i > 0 {
                r.push(' ');
            }
            let v: u32 = 256 * (hash[2 * i] as u32) + hash[2 * i + 1] as u32;
            push_five(&mut r, v);
            assert(r@ =~= digit_groups(hash@, (i + 1) as nat));
            i = i + 1;
        }
        r
    }

    /// The safety fingerprint of two public keys, the same for both parties: the keys in ascending
    /// order are hashed, and the hash is written in twelve groups of five digits.
    pub fn compute_fingerprint(my_pk: &[u8], their_pk: &[u8]) -> (r: String)
        ensures
            r@ == fingerprint(my_pk@, their_pk@),
    {
        let both = if less(my_pk, their_pk) {
            concat(my_pk, their_pk)
        } else {
            concat(their_pk, my_pk)
        };
        Self::fingerprint_digits(&sha256(&both))
    }
}

// ── Symmetric encryption ────────────────────────────────────────────

/// Data sealed under a raw key: the nonce, then the ciphertext.
pub open spec fn sealed_data(key: Seq<u8>, nonce: Seq<u8>, plaintext: Seq<u8>) -> Seq<u8> {
    nonce + crypto::aes_gcm_seal(key, nonce, Seq::empty(), plaintext)
}

/// What sealed data opens to under a raw key, or why it does not.
pub open spec fn opened_data(key: Seq<u8>, d: Seq<u8>) -> Result<Seq<u8>, Seq<char>> {
    if d.len() < 28 {
        Err("Ciphertext too short"@)
    } else {
        match crypto::aes_gcm_open(key, d.subrange(0, 12), Seq::empty(), d.subrange(12, d.len() as int)) {
            Some(m) => Ok(m),
            None => Err("Decryption failed: aead::Error"@),
        }
    }
}

/// Sealed data is the nonce of 12 bytes and, behind it, what AES-256-GCM seals the data to.
pub proof fn sealed_data_layout(key: Seq<u8>, nonce: Seq<u8>, plaintext: Seq<u8>)
    requires
        nonce.len() == 12,
    ensures
        sealed_data(key, nonce, plaintext).take(12) == nonce,
        sealed_data(key, nonce, plaintext).skip(12) == crypto::aes_gcm_seal(key, nonce, Seq::empty(), plaintext),
{
    assert(sealed_data(key, nonce, plaintext).take(12) =~= nonce);
    assert(sealed_data(key, nonce, plaintext).skip(12) =~= crypto::aes_gcm_seal(key, nonce, Seq::empty(), plaintext));
}

/// A nonce of 12 bytes and a ciphertext with a tag open to what AES-256-GCM opens the ciphertext to;
/// fewer bytes open to nothing.
pub proof fn data_opens_by_its_parts(key: Seq<u8>, nonce: Seq<u8>, ct: Seq<u8>, short: Seq<u8>)
    requires
        nonce.len() == 12,
        ct.len() >= 16,
        short.len() < 28,
    ensures
        opened_data(key, nonce + ct) == (match crypto::aes_gcm_open(key, nonce, Seq::empty(), ct) {
            Some(m) => Ok::<Seq<u8>, Seq<char>>(m),
            None => Err("Decryption failed: aead::Error"@),
        }),
        opened_data(key, short) == Err::<Seq<u8>, Seq<char>>("Ciphertext too short"@),
{
    let d = nonce + ct;
    assert(d.subrange(0, 12) =~= nonce);
    assert(d.subrange(12, d.len() as int) =~= ct);
}

// ── Fingerprint ─────────────────────────────────────────────────────

/// A number below 100000 in five digits.
pub open spec fn five_digits(v: nat) -> Seq<char> {
    seq![
        text::digit(v / 10000 % 10),
        text::digit(v / 1000 % 10),
        text::digit(v / 100 % 10),
        text::digit(v / 10 % 10),
        text::digit(v % 10),
    ]
}

/// The first `k` groups of five digits of a hash, two bytes each, most significant byte first, with
/// a space between groups.
pub open spec fn digit_groups(hash: Seq<u8>, k: nat) -> Seq<char>
    decreases k,
{
    if k == 0 {
        Seq::empty()
    } else {
        digit_groups(hash, (k - 1) as nat) + (if k > 1 {
            seq![' ']
        } else {
            Seq::empty()
        }) + five_digits((256 * hash[2 * (k - 1)] + hash[2 * (k - 1) + 1]) as nat)
    }
}

/// Two byte strings in ascending order, one after the other.
pub open spec fn in_order(a: Seq<u8>, b: Seq<u8>) -> Seq<u8> {
    if bytes::precedes(a, b) {
        a + b
    } else {
        b + a
    }
}

/// The safety fingerprint of two public keys.
pub open spec fn fingerprint(a: Seq<u8>, b: Seq<u8>) -> Seq<char> {
    digit_groups(crypto::sha256_of(in_order(a, b)), 12)
}

/// The keys are hashed in ascending order, one behind the other and each whole.
pub proof fn fingerprint_hashes_both_keys(a: Seq<u8>, b: Seq<u8>)
    ensures
        bytes::precedes(a, b) ==> fingerprint(a, b) == digit_groups(crypto::sha256_of(a + b), 12),
        bytes::precedes(b, a) ==> fingerprint(a, b) == digit_groups(crypto::sha256_of(b + a), 12),
        a == b ==> fingerprint(a, b) == digit_groups(crypto::sha256_of(a + a), 12),
{
    bytes::precedes_total(a, b);
}

/// The five digits of a group are the decimal number that two bytes of the hash stand for, the high
/// one first.
pub proof fn groups_spell_the_hash(hash: Seq<u8>, g: int)
    requires
        hash.len() == 32,
        0 <= g < 12,
    ensures
        ({
            let t = digit_groups(hash, 12);
            let at = 6 * g;
            10000 * (t[at] as int - '0' as int) + 1000 * (t[at + 1] as int - '0' as int) + 100 * (t[at + 2] as int - '0' as int)
                + 10 * (t[at + 3] as int - '0' as int) + (t[at + 4] as int - '0' as int) == 256 * (hash[2 * g] as int)
                + hash[2 * g + 1] as int
        }),
{
    group_stays(hash, (g + 1) as nat, 12);
    digit_groups_shape(hash, g as nat);
    let v = (256 * hash[2 * g] + hash[2 * g + 1]) as nat;
    let t = digit_groups(hash, (g + 1) as nat);
    let w = t.subrange(6 * g, 6 * g + 5);
    assert(w =~= five_digits(v));
    assert(t[6 * g] == w[0] && t[6 * g + 1] == w[1] && t[6 * g + 2] == w[2]);
    assert(t[6 * g + 3] == w[3] && t[6 * g + 4] == w[4]);
    five_digits_value(v);
}

proof fn five_digits_value(v: nat)
    requires
        v < 100000,
    ensures
        ({
            let w = five_digits(v);
            10000 * (w[0] as int - '0' as int) + 1000 * (w[1] as int - '0' as int) + 100 * (w[2] as int - '0' as int) + 10 * (
            w[3] as int - '0' as int) + (w[4] as int - '0' as int) == v
        }),
{
    let (a, b, c, d) = (v / 10, v / 100, v / 1000, v / 10000);
    assert(v == 10 * a + v % 10);
    assert(a == 10 * b + a % 10);
    assert(b == 10 * c + b % 10);
    assert(c == 10 * d + c % 10);
    assert(d % 10 == d);
}

proof fn group_stays(hash: Seq<u8>, k: nat, n: nat)
    requires
        0 < k <= n,
    ensures
        digit_groups(hash, k).len() == 6 * k - 1,
        digit_groups(hash, n).len() == 6 * n - 1,
        forall|i: int| 0 <= i < 6 * k - 1 ==> #[trigger] digit_groups(hash, n)[i] == digit_groups(hash, k)[i],
    decreases n,
{
    digit_groups_shape(hash, k);
    digit_groups_shape(hash, n);
    if k < n {
        group_stays(hash, k, (n - 1) as nat);
        digit_groups_shape(hash, (n - 1) as nat);
        assert forall|i: int| 0 <= i < 6 * k - 1 implies #[trigger] digit_groups(hash, n)[i] == digit_groups(hash, k)[i] by {
            assert(digit_groups(hash, n)[i] == digit_groups(hash, (n - 1) as nat)[i]);
        }
    }
}

/// Both parties compute the same fingerprint.
pub proof fn fingerprint_is_symmetric(a: Seq<u8>, b: Seq<u8>)
    ensures
        fingerprint(a, b) == fingerprint(b, a),
{
    bytes::precedes_total(a, b);
    assert(in_order(a, b) == in_order(b, a));
}

/// A fingerprint has twelve groups of five digits with a space between: a space at every sixth
/// place, a digit at every other.
pub proof fn fingerprint_shape(a: Seq<u8>, b: Seq<u8>)
    ensures
        fingerprint(a, b).len() == 71,
        forall|i: int|
            0 <= i < 71 ==> if i % 6 == 5 {
                #[trigger] fingerprint(a, b)[i] == ' '
            } else {
                '0' <= fingerprint(a, b)[i] <= '9'
            },
{
    digit_groups_shape(crypto::sha256_of(in_order(a, b)), 12);
}

proof fn five_digits_shape(v: nat, j: int)
    requires
        0 <= j < 5,
    ensures
        five_digits(v).len() == 5,
        '0' <= five_digits(v)[j] <= '9',
{
    assert(v / 10000 % 10 < 10 && v / 1000 % 10 < 10 && v / 100 % 10 < 10 && v / 10 % 10 < 10 && v % 10 < 10);
}

#[verifier::spinoff_prover]
#[verifier::rlimit(40)]
proof fn digit_groups_shape(hash: Seq<u8>, k: nat)
    ensures
        digit_groups(hash, k).len() == if k == 0 {
            0
        } else {
            6 * k - 1
        },
        forall|i: int|
            0 <= i < digit_groups(hash, k).len() ==> if i % 6 == 5 {
                #[trigger] digit_groups(hash, k)[i] == ' '
            } else {
                '0' <= digit_groups(hash, k)[i] <= '9'
            },
    decreases k,
{
    if k > 0 {
        digit_groups_shape(hash, (k - 1) as nat);
        let all = digit_groups(hash, k);
        let front = digit_groups(hash, (k - 1) as nat);
        let v = (256 * hash[2 * (k - 1)] + hash[2 * (k - 1) + 1]) as nat;
        let group = five_digits(v);
        five_digits_shape(v, 0);
        assert(all.len() == 6 * k - 1);
        assert forall|i: int| 0 <= i < all.len() implies if i % 6 == 5 {
            #[trigger] all[i] == ' '
        } else {
            '0' <= all[i] <= '9'
        } by {
            if i < front.len() {
                assert(all[i] == front[i]);
            } else if i >= all.len() - 5 {
                five_digits_shape(v, i - (all.len() - 5));
                assert(all[i] == group[i - (all.len() - 5)]);
                assert(i % 6 != 5);
            } else {
                assert(i == 6 * (k - 1) - 1);
                assert(all[i] == ' ');
            }
        }
    }
}

fn push_five(out: &mut String, v: u32)
    requires
        v < 100000,
    ensures
        final(out)@ == old(out)@ + five_digits(v as nat),
{
    let ghost before = out@;
    out.push((48u8 + (v / 10000 % 10) as u8) as char);
    out.push((48u8 + (v / 1000 % 10) as u8) as char);
    out.push((48u8 + (v / 100 % 10) as u8) as char);
    out.push((48u8 + (v / 10 % 10) as u8) as char);
    out.push((48u8 + (v % 10) as u8) as char);
    assert(out@ =~= before + five_digits(v as nat));
}

} // verus!
