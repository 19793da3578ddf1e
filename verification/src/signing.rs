//! # Sender authentication with ML-DSA-87
//!
//! Every message payload carries a signature of the sender, inside the encryption:
//!
//! ```text
//! encrypted payload: [ 2B sig len ][ 4627B ML-DSA-87 sig ][ message text ]
//! ```

use crate::bytes::{push_le16, read_le16, slice_of, to_array32};
use crate::crypto::{dsa_public, dsa_sign, dsa_verify, random_fill};
use crate::text::with_number;
use crate::{bytes, crypto, text};
use vstd::prelude::*;

verus! {

broadcast use vstd::array::group_array_axioms;

/// ML-DSA-87 verifying (public) key size in bytes.
pub const PUBLIC_KEY_LEN: usize = 2592;

/// ML-DSA-87 signature size in bytes.
pub const SIGNATURE_LEN: usize = 4627;

/// ML-DSA secret keys are 32-byte seeds.
pub const SECRET_KEY_LEN: usize = 32;

/// Why a signature does not check out.
#[derive(Debug, Clone, Copy, PartialEq, Eq, Structural)]
pub enum VerifyStatus {
    /// The payload has no signature framing (an unsigned message).
    NoSignature,
    /// No verifying key was supplied.
    NoKey,
    /// The supplied verifying key has a wrong length.
    BadPublicKey,
    /// A signature is present but does not verify against the key.
    BadSignature,
}

/// A signature in front of a text, behind its length.
pub open spec fn framed(sig: Seq<u8>, text: Seq<u8>) -> Seq<u8> {
    bytes::le16(sig.len() as int) + sig + text
}

/// The signature and the text of a payload that has the framing.
pub open spec fn unframed(payload: Seq<u8>) -> Option<(Seq<u8>, Seq<u8>)> {
    if payload.len() < 2 {
        None
    } else {
        let end = 2 + bytes::le16_at(payload, 0);
        if end == 2 || end > payload.len() {
            None
        } else {
            Some((payload.subrange(2, end), payload.subrange(end, payload.len() as int)))
        }
    }
}

/// Why a raw signature does not check out, if it does not.
pub open spec fn raw_fault(public_key: Seq<u8>, data: Seq<u8>, sig: Seq<u8>) -> Option<VerifyStatus> {
    if public_key.len() == 0 {
        Some(VerifyStatus::NoKey)
    } else if public_key.len() != PUBLIC_KEY_LEN {
        Some(VerifyStatus::BadPublicKey)
    } else if sig.len() != SIGNATURE_LEN || !crypto::ml_dsa_verifies(public_key, data, sig) {
        Some(VerifyStatus::BadSignature)
    } else {
        None
    }
}

/// The authenticated text of a payload, or why there is none.
pub open spec fn authenticated(public_key: Seq<u8>, payload: Seq<u8>) -> Result<Seq<u8>, VerifyStatus> {
    match unframed(payload) {
        None => Err(VerifyStatus::NoSignature),
        Some((sig, text)) => match raw_fault(public_key, text, sig) {
            Some(e) => Err(e),
            None => Ok(text),
        },
    }
}

/// A framed signature and text are taken apart into what they were.
pub proof fn frame_reads_back(sig: Seq<u8>, text: Seq<u8>)
    requires
        0 < sig.len() < 65536,
    ensures
        unframed(framed(sig, text)) == Some((sig, text)),
{
    let d = framed(sig, text);
    let end = 2 + sig.len() as int;
    assert(d.subrange(0, 2) =~= bytes::le16(sig.len() as int));
    bytes::le16_reads_back(d, 0, sig.len() as int);
    assert(d.subrange(2, end) =~= sig);
    assert(d.subrange(end, d.len() as int) =~= text);
}

/// A payload holds the length of the signature in two bytes, the low one first, then the signature and
/// the text, and nothing else.
pub proof fn frame_layout(sig: Seq<u8>, text: Seq<u8>)
    ensures
        framed(sig, text).len() == 2 + sig.len() + text.len(),
        framed(sig, text)[0] as int + 256 * (framed(sig, text)[1] as int) == sig.len() % 65536,
        framed(sig, text).subrange(2, 2 + sig.len() as int) == sig,
        framed(sig, text).skip(2 + sig.len() as int) == text,
{
    bytes::le16_is_little_endian(sig.len() as int);
    let d = framed(sig, text);
    assert(d.subrange(2, 2 + sig.len() as int) =~= sig);
    assert(d.skip(2 + sig.len() as int) =~= text);
}

/// A payload has the framing exactly where the first two bytes give the length of a signature that is
/// not empty and stands there whole; signature and text are then all of it.
pub proof fn frame_is_all_of_it(d: Seq<u8>)
    ensures
        unframed(d) is Some <==> d.len() >= 2 && 0 < d[0] as int + 256 * (d[1] as int) <= d.len() - 2,
        unframed(d) matches Some((sig, text)) ==> {
            &&& sig.len() == d[0] as int + 256 * (d[1] as int)
            &&& d.take(2) + sig + text == d
        },
{
    if let Some((sig, text)) = unframed(d) {
        assert(d.take(2) + sig + text =~= d);
    }
}

/// A signature checks out exactly where the key has 2592 bytes, the signature 4627, and ML-DSA-87
/// accepts it for the data. Otherwise the key is looked at first.
pub proof fn signature_checks_out(public_key: Seq<u8>, data: Seq<u8>, sig: Seq<u8>)
    ensures
        raw_fault(public_key, data, sig) is None <==> public_key.len() == 2592 && sig.len() == 4627
            && crypto::ml_dsa_verifies(public_key, data, sig),
        raw_fault(public_key, data, sig) == Some(VerifyStatus::NoKey) <==> public_key.len() == 0,
        raw_fault(public_key, data, sig) == Some(VerifyStatus::BadPublicKey) <==> public_key.len() != 0
            && public_key.len() != 2592,
        raw_fault(public_key, data, sig) != Some(VerifyStatus::NoSignature),
{
}

/// Without the framing there is no signature; with it the text is authentic exactly where the
/// signature in front checks out for it, and the fault is the signature's otherwise.
pub proof fn authentic_text_is_signed(public_key: Seq<u8>, d: Seq<u8>)
    ensures
        unframed(d) is None ==> authenticated(public_key, d) == Err::<Seq<u8>, VerifyStatus>(VerifyStatus::NoSignature),
        unframed(d) matches Some((sig, text)) ==> match raw_fault(public_key, text, sig) {
            None => authenticated(public_key, d) == Ok::<Seq<u8>, VerifyStatus>(text),
            Some(e) => authenticated(public_key, d) == Err::<Seq<u8>, VerifyStatus>(e),
        },
{
}

/// A signed text authenticates under exactly the verifying keys under which ML-DSA-87 accepts its
/// signature. Under any other key, with any other text and with any other signature the payload is
/// [`VerifyStatus::BadSignature`].
pub proof fn only_signatures_authenticate(public_key: Seq<u8>, sig: Seq<u8>, text: Seq<u8>)
    requires
        public_key.len() == PUBLIC_KEY_LEN,
        0 < sig.len() < 65536,
    ensures
        authenticated(public_key, framed(sig, text)) == (if sig.len() == SIGNATURE_LEN && crypto::ml_dsa_verifies(
            public_key,
            text,
            sig,
        ) {
            Ok::<Seq<u8>, VerifyStatus>(text)
        } else {
            Err(VerifyStatus::BadSignature)
        }),
{
    frame_reads_back(sig, text);
}

/// A signed payload with one byte changed is refused: as [`VerifyStatus::BadSignature`] where the
/// byte is one of the signature or of the text and ML-DSA-87 does not accept what the payload holds
/// then, and in any case where the byte is one of the length.
pub proof fn changed_payload_is_refused(public_key: Seq<u8>, sig: Seq<u8>, text: Seq<u8>, i: int, byte: u8)
    requires
        public_key.len() == PUBLIC_KEY_LEN,
        sig.len() == SIGNATURE_LEN,
        0 <= i < framed(sig, text).len(),
        byte != framed(sig, text)[i],
        i >= 2 ==> ({
            let d = framed(sig, text).update(i, byte);
            !crypto::ml_dsa_verifies(
                public_key,
                d.subrange(2 + SIGNATURE_LEN, d.len() as int),
                d.subrange(2, 2 + SIGNATURE_LEN),
            )
        }),
    ensures
        authenticated(public_key, framed(sig, text).update(i, byte)) is Err,
        i >= 2 ==> authenticated(public_key, framed(sig, text).update(i, byte)) == Err::<Seq<u8>, VerifyStatus>(
            VerifyStatus::BadSignature,
        ),
{
    let p = framed(sig, text);
    let d = p.update(i, byte);
    assert(p.subrange(0, 2) =~= bytes::le16(sig.len() as int));
    bytes::le16_reads_back(p, 0, sig.len() as int);
    if i >= 2 {
        assert(bytes::le16_at(d, 0) == SIGNATURE_LEN);
    } else {
        assert(bytes::le16_at(d, 0) != SIGNATURE_LEN);
    }
}

/// A new ML-DSA-87 signing key pair `(public_key, secret_key)`. The secret key is the 32-byte seed.
pub fn generate_signing_keypair() -> (r: (Vec<u8>, Vec<u8>))
    ensures
        r.0@ == crypto::ml_dsa_public(r.1@),
        r.0@.len() == PUBLIC_KEY_LEN,
        r.1@.len() == SECRET_KEY_LEN,
{
    let mut seed = [0u8; 32];
    random_fill(&mut seed);
    (dsa_public(&seed), vstd::slice::slice_to_vec(&seed))
}

/// A payload from a signature and a text: `[2 bytes u16 LE signature length][signature][text]`.
pub fn frame_signature(sig: &[u8], text: &[u8]) -> (r: Vec<u8>)
    ensures
        r@ == framed(sig@, text@),
{
    let mut r: Vec<u8> = Vec::new();
    push_le16(&mut r, sig.len());
    r.extend_from_slice(sig);
    r.extend_from_slice(text);
    assert(r@ =~= framed(sig@, text@));
    r
}

/// A signed payload from a message text. The holder of the public key authenticates the text.
pub fn sign_message(secret_key: &[u8], text: &[u8]) -> (r: Result<Vec<u8>, String>)
    ensures
        match r {
            Ok(p) => {
                &&& secret_key@.len() == SECRET_KEY_LEN
                &&& crypto::ml_dsa_sign(secret_key@, text@) is Some
                &&& p@ == framed(crypto::ml_dsa_sign(secret_key@, text@)->Some_0, text@)
                &&& p@.len() == 2 + SIGNATURE_LEN + text@.len()
                &&& crypto::ml_dsa_public(secret_key@).len() == PUBLIC_KEY_LEN ==> authenticated(
                    crypto::ml_dsa_public(secret_key@),
                    p@,
                ) == Ok::<Seq<u8>, VerifyStatus>(text@)
            },
            Err(e) => if secret_key@.len() != SECRET_KEY_LEN {
                e@ == "Invalid signing secret key: expected 32 bytes, got "@ + text::decimal(secret_key@.len())
            } else {
                &&& crypto::ml_dsa_sign(secret_key@, text@) is None
                &&& e@ == "ML-DSA signing failed: signature error"@
            },
        },
{
    let sig = sign_raw(secret_key, text)?;
    proof {
        frame_reads_back(sig@, text@);
    }
    Ok(frame_signature(&sig, text))
}

/// A raw ML-DSA-87 signature over `data`, without framing. The holder of the public key verifies
/// it.
pub fn sign_raw(secret_key: &[u8], data: &[u8]) -> (r: Result<Vec<u8>, String>)
    ensures
        match r {
            Ok(s) => {
                &&& secret_key@.len() == SECRET_KEY_LEN
                &&& crypto::ml_dsa_sign(secret_key@, data@) == Some(s@)
                &&& s@.len() == SIGNATURE_LEN
                &&& crypto::ml_dsa_public(secret_key@).len() == PUBLIC_KEY_LEN ==> raw_fault(
                    crypto::ml_dsa_public(secret_key@),
                    data@,
                    s@,
                ) is None
            },
            Err(e) => if secret_key@.len() != SECRET_KEY_LEN {
                e@ == "Invalid signing secret key: expected 32 bytes, got "@ + text::decimal(secret_key@.len())
            } else {
                &&& crypto::ml_dsa_sign(secret_key@, data@) is None
                &&& e@ == "ML-DSA signing failed: signature error"@
            },
        },
{
    if secret_key.len() != SECRET_KEY_LEN {
        return Err(with_number("Invalid signing secret key: expected 32 bytes, got ", secret_key.len() as u64));
    }
    let seed = to_array32(secret_key);
    match dsa_sign(&seed, data) {
        Some(s) => Ok(s),
        None => Err("ML-DSA signing failed: signature error".to_owned()),
    }
}

/// Verifies a raw signature over `data`.
pub fn verify_raw(public_key: &[u8], data: &[u8], sig: &[u8]) -> (r: Result<(), VerifyStatus>)
    ensures
        match r {
            Ok(_) => raw_fault(public_key@, data@, sig@) is None,
            Err(e) => raw_fault(public_key@, data@, sig@) == Some(e),
        },
{
    if public_key.len() == 0 {
        return Err(VerifyStatus::NoKey);
    }
    if public_key.len() != PUBLIC_KEY_LEN {
        return Err(VerifyStatus::BadPublicKey);
    }
    if sig.len() != SIGNATURE_LEN {
        return Err(VerifyStatus::BadSignature);
    }
    if dsa_verify(public_key, data, sig) {
        Ok(())
    } else {
        Err(VerifyStatus::BadSignature)
    }
}

/// Splits a payload into `(signature, text)` if it has the framing.
pub fn split_payload(payload: &[u8]) -> (r: Option<(Vec<u8>, Vec<u8>)>)
    ensures
        match r {
            Some((sig, text)) => unframed(payload@) == Some((sig@, text@)),
            None => unframed(payload@) is None,
        },
{
    if payload.len() < 2 {
        return None;
    }
    let sig_len = read_le16(payload, 0);
    if sig_len == 0 || sig_len > payload.len() - 2 {
        return None;
    }
    Some((slice_of(payload, 2, 2 + sig_len), slice_of(payload, 2 + sig_len, payload.len())))
}

/// Verifies a signed payload against the sender's public key and returns the authenticated text.
pub fn verify_message(public_key: &[u8], payload: &[u8]) -> (r: Result<Vec<u8>, VerifyStatus>)
    ensures
        match r {
            Ok(text) => authenticated(public_key@, payload@) == Ok::<Seq<u8>, VerifyStatus>(text@),
            Err(e) => authenticated(public_key@, payload@) == Err::<Seq<u8>, VerifyStatus>(e),
        },
{
    let (sig, text) = match split_payload(payload) {
        Some(x) => x,
        None => {
            return Err(VerifyStatus::NoSignature);
        },
    };
    match verify_raw(public_key, &text, &sig) {
        Ok(_) => Ok(text),
        Err(e) => Err(e),
    }
}

} // verus!
