//! # Blind identity management
//!
//! Username registration that the server cannot read, profile lookup, and invite links.
//!
//! The server stores a blob under an index that is an HMAC of the username; the blob is encrypted
//! under a key that is another HMAC of the username. Only who knows the username finds and opens
//! the profile. Invite links carry the same identity without any server.

use crate::bytes::{concat, push_le16, read_le16, same, slice_of};
use crate::cipher::VurnCipher;
use crate::crypto::{hmac256, GCM_MAX};
use crate::encoding::{base64_encode, decode_base64url, qr_svg, to_lowercase};
use crate::ratchet::{x25519_keypair, KEM_SK_LEN};
use crate::signing::{sign_raw, verify_raw, PUBLIC_KEY_LEN, SECRET_KEY_LEN, SIGNATURE_LEN};
use crate::text::{chars_of, join, text_of, with_number};
use crate::{bytes, cipher, crypto, encoding, ratchet, signing, text};
use vstd::prelude::*;

verus! {

broadcast use vstd::array::group_array_axioms;

/// Version byte of an identity bundle.
pub const IDENTITY_V9_VERSION: u8 = 0x09;

/// X25519 public key size.
pub const X25519_PK_LEN: usize = 32;

/// ML-KEM-1024 public key size.
pub const KEM_PK_LEN: usize = 1568;

/// Length of an encoded identity bundle.
pub const BUNDLE_LEN: usize = 10420;

// ── The identity of two keys ────────────────────────────────────────

/// Two public keys, each behind its length in 16 bits.
pub open spec fn identity_bytes(public_key: Seq<u8>, signing_key: Seq<u8>) -> Seq<u8> {
    bytes::le16(public_key.len() as int) + public_key + bytes::le16(signing_key.len() as int) + signing_key
}

/// The two public keys of an identity payload, or why it has none. Bytes behind them are ignored.
pub open spec fn identity_of(d: Seq<u8>) -> Result<(Seq<u8>, Seq<u8>), Seq<char>> {
    if d.len() < 2 {
        Err("Identity payload too short"@)
    } else {
        let end = 2 + bytes::le16_at(d, 0);
        if d.len() < end + 2 {
            Err("Identity payload truncated: missing signing key header"@)
        } else if d.len() < end + 2 + bytes::le16_at(d, end) {
            Err("Identity payload truncated: signing key cut short"@)
        } else {
            Ok((d.subrange(2, end), d.subrange(end + 2, end + 2 + bytes::le16_at(d, end))))
        }
    }
}

/// An identity payload is taken apart into the keys it was made of, whatever bytes follow.
pub proof fn identity_reads_back(public_key: Seq<u8>, signing_key: Seq<u8>, rest: Seq<u8>)
    requires
        public_key.len() < 65536,
        signing_key.len() < 65536,
    ensures
        identity_of(identity_bytes(public_key, signing_key) + rest) == Ok::<(Seq<u8>, Seq<u8>), Seq<char>>(
            (public_key, signing_key),
        ),
{
    let d = identity_bytes(public_key, signing_key) + rest;
    let end = 2 + public_key.len() as int;
    assert(d.subrange(0, 2) =~= bytes::le16(public_key.len() as int));
    bytes::le16_reads_back(d, 0, public_key.len() as int);
    assert(d.subrange(end, end + 2) =~= bytes::le16(signing_key.len() as int));
    bytes::le16_reads_back(d, end, signing_key.len() as int);
    assert(d.subrange(2, end) =~= public_key);
    assert(d.subrange(end + 2, end + 2 + signing_key.len()) =~= signing_key);
}

/// An identity payload is the two keys, each behind its length in two bytes, the low one first, and
/// nothing else.
pub proof fn identity_layout(public_key: Seq<u8>, signing_key: Seq<u8>)
    ensures
        ({
            let d = identity_bytes(public_key, signing_key);
            let end = 2 + public_key.len() as int;
            &&& d.len() == end + 2 + signing_key.len()
            &&& d[0] as int + 256 * (d[1] as int) == public_key.len() % 65536
            &&& d.subrange(2, end) == public_key
            &&& d[end] as int + 256 * (d[end + 1] as int) == signing_key.len() % 65536
            &&& d.skip(end + 2) == signing_key
        }),
{
    bytes::le16_is_little_endian(public_key.len() as int);
    bytes::le16_is_little_endian(signing_key.len() as int);
    let d = identity_bytes(public_key, signing_key);
    let end = 2 + public_key.len() as int;
    assert(d.subrange(2, end) =~= public_key);
    assert(d[end] == bytes::le16(signing_key.len() as int)[0] && d[end + 1] == bytes::le16(signing_key.len() as int)[1]);
    assert(d.skip(end + 2) =~= signing_key);
}

/// Bytes start with an identity payload exactly where both keys stand there whole, by the lengths in
/// front of them; the keys are then what stands there. What is missing is said otherwise.
pub proof fn identity_stands_in_front(d: Seq<u8>)
    ensures
        identity_of(d) matches Ok((public_key, signing_key)) ==> {
            &&& public_key.len() < 65536
            &&& signing_key.len() < 65536
            &&& d.len() >= 4 + public_key.len() + signing_key.len()
            &&& d.take(4 + public_key.len() as int + signing_key.len() as int) == identity_bytes(public_key, signing_key)
        },
        d.len() < 2 ==> identity_of(d) == Err::<(Seq<u8>, Seq<u8>), Seq<char>>("Identity payload too short"@),
        2 <= d.len() < 4 + d[0] as int + 256 * (d[1] as int) ==> identity_of(d) == Err::<(Seq<u8>, Seq<u8>), Seq<char>>(
            "Identity payload truncated: missing signing key header"@,
        ),
        d.len() >= 2 && d.len() >= 4 + d[0] as int + 256 * (d[1] as int) ==> ({
            let end = 2 + d[0] as int + 256 * (d[1] as int);
            let whole = d.len() >= end + 2 + d[end] as int + 256 * (d[end + 1] as int);
            &&& whole ==> identity_of(d) is Ok
            &&& !whole ==> identity_of(d) == Err::<(Seq<u8>, Seq<u8>), Seq<char>>(
                "Identity payload truncated: signing key cut short"@,
            )
        }),
{
    if let Ok((public_key, signing_key)) = identity_of(d) {
        let end = 2 + public_key.len() as int;
        bytes::le16_writes_back(d, 0);
        bytes::le16_writes_back(d, end);
        assert(d.take(end + 2 + signing_key.len() as int) =~= d.subrange(0, 2) + public_key + d.subrange(end, end + 2)
            + signing_key);
    }
}

/// Serializes an identity as `[u16 kem_len][kem_pk][u16 sig_len][sig_pk]`.
pub fn encode_identity(public_key: &[u8], signing_public_key: &[u8]) -> (r: Vec<u8>)
    ensures
        r@ == identity_bytes(public_key@, signing_public_key@),
{
    let mut out: Vec<u8> = Vec::new();
    push_le16(&mut out, public_key.len());
    out.extend_from_slice(public_key);
    push_le16(&mut out, signing_public_key.len());
    out.extend_from_slice(signing_public_key);
    assert(out@ =~= identity_bytes(public_key@, signing_public_key@));
    out
}

/// Parses an identity payload into `(kem_public_key, signing_public_key)`.
pub fn decode_identity(data: &[u8]) -> (r: Result<(Vec<u8>, Vec<u8>), String>)
    ensures
        match r {
            Ok(p) => identity_of(data@) == Ok::<(Seq<u8>, Seq<u8>), Seq<char>>((p.0@, p.1@)),
            Err(e) => identity_of(data@) == Err::<(Seq<u8>, Seq<u8>), Seq<char>>(e@),
        },
{
    if data.len() < 2 {
        return Err("Identity payload too short".to_owned());
    }
    let end: usize = 2 + read_le16(data, 0);
    if data.len() < end + 2 {
        return Err("Identity payload truncated: missing signing key header".to_owned());
    }
    let sig_len = read_le16(data, end);
    if data.len() - end - 2 < sig_len {
        return Err("Identity payload truncated: signing key cut short".to_owned());
    }
    Ok((slice_of(data, 2, end), slice_of(data, end + 2, end + 2 + sig_len)))
}

// ── The identity bundle ─────────────────────────────────────────────

/// The full public identity of a user: everything a peer needs to start a ratchet session.
#[derive(Debug, PartialEq, Eq)]
pub struct IdentityBundle {
    /// ML-KEM-1024 static key.
    pub ik_kem: Vec<u8>,
    /// X25519 static key.
    pub ik_x: Vec<u8>,
    /// ML-DSA-87 key that authenticates the sender.
    pub sig_pk: Vec<u8>,
    /// ML-KEM-1024 signed prekey.
    pub spk_kem: Vec<u8>,
    /// X25519 signed prekey.
    pub spk_x: Vec<u8>,
    /// ML-DSA-87 signature over `spk_kem ‖ spk_x`.
    pub spk_sig: Vec<u8>,
}

impl Clone for IdentityBundle {
    fn clone(&self) -> (r: IdentityBundle)
        ensures
            r@ == self@,
    {
        IdentityBundle {
            ik_kem: vstd::slice::slice_to_vec(&self.ik_kem),
            ik_x: vstd::slice::slice_to_vec(&self.ik_x),
            sig_pk: vstd::slice::slice_to_vec(&self.sig_pk),
            spk_kem: vstd::slice::slice_to_vec(&self.spk_kem),
            spk_x: vstd::slice::slice_to_vec(&self.spk_x),
            spk_sig: vstd::slice::slice_to_vec(&self.spk_sig),
        }
    }
}

/// The plain contents of an identity bundle.
#[verifier::ext_equal]
pub struct BundleView {
    pub ik_kem: Seq<u8>,
    pub ik_x: Seq<u8>,
    pub sig_pk: Seq<u8>,
    pub spk_kem: Seq<u8>,
    pub spk_x: Seq<u8>,
    pub spk_sig: Seq<u8>,
}

impl View for IdentityBundle {
    type V = BundleView;

    open spec fn view(&self) -> BundleView {
        BundleView {
            ik_kem: self.ik_kem@,
            ik_x: self.ik_x@,
            sig_pk: self.sig_pk@,
            spk_kem: self.spk_kem@,
            spk_x: self.spk_x@,
            spk_sig: self.spk_sig@,
        }
    }
}

/// The bytes of a bundle: a version byte, then the keys without lengths.
pub open spec fn bundle_bytes(b: BundleView) -> Seq<u8> {
    seq![IDENTITY_V9_VERSION] + b.ik_kem + b.ik_x + b.sig_pk + b.spk_kem + b.spk_x + b.spk_sig
}

/// A bundle of two keys, without prekey.
pub open spec fn bare_bundle(ik_kem: Seq<u8>, sig_pk: Seq<u8>) -> BundleView {
    BundleView {
        ik_kem,
        ik_x: Seq::empty(),
        sig_pk,
        spk_kem: Seq::empty(),
        spk_x: Seq::empty(),
        spk_sig: Seq::empty(),
    }
}

/// The bundle that bytes hold, or why they hold none. Bytes without the version byte are an
/// identity of two keys.
pub open spec fn bundle_of(d: Seq<u8>) -> Result<BundleView, Seq<char>> {
    if d.len() == 0 || d[0] != IDENTITY_V9_VERSION {
        match identity_of(d) {
            Ok((ik_kem, sig_pk)) => Ok(bare_bundle(ik_kem, sig_pk)),
            Err(e) => Err(e),
        }
    } else if d.len() < BUNDLE_LEN {
        Err("v0.9 identity truncated: expected 10420 bytes, got "@ + text::decimal(d.len()))
    } else {
        Ok(
            BundleView {
                ik_kem: d.subrange(1, 1569),
                ik_x: d.subrange(1569, 1601),
                sig_pk: d.subrange(1601, 4193),
                spk_kem: d.subrange(4193, 5761),
                spk_x: d.subrange(5761, 5793),
                spk_sig: d.subrange(5793, 10420),
            },
        )
    }
}

/// A bundle whose keys have the lengths that the algorithms fix.
pub open spec fn full_bundle(b: BundleView) -> bool {
    &&& b.ik_kem.len() == KEM_PK_LEN
    &&& b.ik_x.len() == X25519_PK_LEN
    &&& b.sig_pk.len() == PUBLIC_KEY_LEN
    &&& b.spk_kem.len() == KEM_PK_LEN
    &&& b.spk_x.len() == X25519_PK_LEN
    &&& b.spk_sig.len() == SIGNATURE_LEN
}

/// Decoding undoes encoding of a full bundle, whatever bytes follow.
pub proof fn bundle_reads_back(b: BundleView, rest: Seq<u8>)
    requires
        full_bundle(b),
    ensures
        bundle_of(bundle_bytes(b) + rest) == Ok::<BundleView, Seq<char>>(b),
{
    let d = bundle_bytes(b) + rest;
    assert(d.subrange(1, 1569) =~= b.ik_kem);
    assert(d.subrange(1569, 1601) =~= b.ik_x);
    assert(d.subrange(1601, 4193) =~= b.sig_pk);
    assert(d.subrange(4193, 5761) =~= b.spk_kem);
    assert(d.subrange(5761, 5793) =~= b.spk_x);
    assert(d.subrange(5793, 10420) =~= b.spk_sig);
}

/// A full bundle is 10420 bytes: the version byte 9, then the static ML-KEM and X25519 keys, the
/// ML-DSA key, the ML-KEM and X25519 prekeys and the prekey's signature, one after the other.
pub proof fn bundle_layout(b: BundleView)
    requires
        b.ik_kem.len() == 1568,
        b.ik_x.len() == 32,
        b.sig_pk.len() == 2592,
        b.spk_kem.len() == 1568,
        b.spk_x.len() == 32,
        b.spk_sig.len() == 4627,
    ensures
        ({
            let d = bundle_bytes(b);
            &&& d.len() == 10420
            &&& d[0] == 9
            &&& d.subrange(1, 1569) == b.ik_kem
            &&& d.subrange(1569, 1601) == b.ik_x
            &&& d.subrange(1601, 4193) == b.sig_pk
            &&& d.subrange(4193, 5761) == b.spk_kem
            &&& d.subrange(5761, 5793) == b.spk_x
            &&& d.subrange(5793, 10420) == b.spk_sig
            &&& bundle_of(d) == Ok::<BundleView, Seq<char>>(b)
        }),
{
    let d = bundle_bytes(b);
    bundle_reads_back(b, Seq::empty());
    assert(d + Seq::<u8>::empty() =~= d);
    assert(d.subrange(1, 1569) =~= b.ik_kem);
    assert(d.subrange(1569, 1601) =~= b.ik_x);
    assert(d.subrange(1601, 4193) =~= b.sig_pk);
    assert(d.subrange(4193, 5761) =~= b.spk_kem);
    assert(d.subrange(5761, 5793) =~= b.spk_x);
    assert(d.subrange(5793, 10420) =~= b.spk_sig);
}

/// The bytes of any bundle are the version byte 9 and its parts one after the other, absent ones left out.
pub proof fn bundle_is_its_parts(b: BundleView)
    ensures
        ({
            let d = bundle_bytes(b);
            let p1 = 1 + b.ik_kem.len() as int;
            let p2 = p1 + b.ik_x.len();
            let p3 = p2 + b.sig_pk.len();
            let p4 = p3 + b.spk_kem.len();
            let p5 = p4 + b.spk_x.len();
            &&& d.len() == p5 + b.spk_sig.len()
            &&& d[0] == 9
            &&& d.subrange(1, p1) == b.ik_kem && d.subrange(p1, p2) == b.ik_x && d.subrange(p2, p3) == b.sig_pk
            &&& d.subrange(p3, p4) == b.spk_kem && d.subrange(p4, p5) == b.spk_x && d.skip(p5) == b.spk_sig
        }),
{
    let d = bundle_bytes(b);
    let p1 = 1 + b.ik_kem.len() as int;
    let p2 = p1 + b.ik_x.len();
    let p3 = p2 + b.sig_pk.len();
    let p4 = p3 + b.spk_kem.len();
    let p5 = p4 + b.spk_x.len();
    assert(d.subrange(1, p1) =~= b.ik_kem);
    assert(d.subrange(p1, p2) =~= b.ik_x);
    assert(d.subrange(p2, p3) =~= b.sig_pk);
    assert(d.subrange(p3, p4) =~= b.spk_kem);
    assert(d.subrange(p4, p5) =~= b.spk_x);
    assert(d.skip(p5) =~= b.spk_sig);
}

/// Bytes with the version byte 9 are a full bundle where there are 10420 of them or more, and are
/// refused otherwise. Other bytes are two keys or nothing, and a bundle of two keys is empty otherwise.
pub proof fn version_byte_decides(d: Seq<u8>)
    ensures
        d.len() >= 10420 && d[0] == 9 ==> (bundle_of(d) matches Ok(b) && full_bundle(b) && bundle_bytes(b) == d.take(10420)),
        0 < d.len() < 10420 && d[0] == 9 ==> bundle_of(d) == Err::<BundleView, Seq<char>>(
            "v0.9 identity truncated: expected 10420 bytes, got "@ + text::decimal(d.len()),
        ),
        d.len() == 0 || d[0] != 9 ==> match identity_of(d) {
            Ok((public_key, signing_key)) => bundle_of(d) matches Ok(b) && b.ik_kem == public_key && b.sig_pk == signing_key
                && b.ik_x.len() == 0 && b.spk_kem.len() == 0 && b.spk_x.len() == 0 && b.spk_sig.len() == 0,
            Err(e) => bundle_of(d) == Err::<BundleView, Seq<char>>(e),
        },
{
    if d.len() >= 10420 && d[0] == 9 {
        assert(bundle_bytes(bundle_of(d)->Ok_0) =~= d.take(10420));
    }
}

/// An identity of two keys decodes to a bundle without prekey, unless its first byte is the version
/// byte of a bundle.
#[verifier::spinoff_prover]
pub proof fn two_keys_decode_to_bare_bundle(public_key: Seq<u8>, signing_key: Seq<u8>)
    requires
        public_key.len() < 65536,
        signing_key.len() < 65536,
        public_key.len() % 256 != IDENTITY_V9_VERSION,
    ensures
        bundle_of(identity_bytes(public_key, signing_key)) == Ok::<BundleView, Seq<char>>(
            bare_bundle(public_key, signing_key),
        ),
{
    let d = identity_bytes(public_key, signing_key);
    assert(identity_of(d) == Ok::<(Seq<u8>, Seq<u8>), Seq<char>>((public_key, signing_key))) by {
        identity_reads_back(public_key, signing_key, Seq::empty());
        assert(d + Seq::<u8>::empty() =~= d);
    }
    assert(d[0] == public_key.len() % 256) by {
        assert(d[0] == bytes::le16(public_key.len() as int)[0]);
    }
}

/// Whether a bundle carries all of the prekey material.
pub open spec fn has_prekey(b: BundleView) -> bool {
    b.ik_x.len() > 0 && b.spk_kem.len() > 0 && b.spk_x.len() > 0 && b.spk_sig.len() > 0
}

/// Whether two bundles are of one identity: the static keys are the same.
pub open spec fn of_one_identity(a: BundleView, b: BundleView) -> bool {
    a.ik_kem == b.ik_kem && a.ik_x == b.ik_x && a.sig_pk == b.sig_pk
}

/// Whether the prekey of a bundle is signed by its identity.
pub open spec fn prekey_is_signed(b: BundleView) -> bool {
    has_prekey(b) && signing::raw_fault(b.sig_pk, b.spk_kem + b.spk_x, b.spk_sig) is None
}

/// A bundle has a prekey where none of its parts is missing, is of another's identity where the three
/// static keys agree, and its prekey is signed where ML-DSA-87 accepts the signature for the ML-KEM
/// prekey followed by the X25519 prekey.
pub proof fn bundle_is_judged_by_its_keys(a: BundleView, b: BundleView)
    ensures
        has_prekey(a) <==> a.ik_x.len() != 0 && a.spk_kem.len() != 0 && a.spk_x.len() != 0 && a.spk_sig.len() != 0,
        of_one_identity(a, b) <==> a.ik_kem == b.ik_kem && a.ik_x == b.ik_x && a.sig_pk == b.sig_pk,
        prekey_is_signed(a) <==> a.ik_x.len() != 0 && a.spk_kem.len() != 0 && a.spk_x.len() != 0 && a.sig_pk.len() == 2592
            && a.spk_sig.len() == 4627 && crypto::ml_dsa_verifies(a.sig_pk, a.spk_kem + a.spk_x, a.spk_sig),
{
}

/// The plain form of a bundle is its six parts.
pub proof fn bundle_is_faithful(b: IdentityBundle)
    ensures
        b@.ik_kem == b.ik_kem@,
        b@.ik_x == b.ik_x@,
        b@.sig_pk == b.sig_pk@,
        b@.spk_kem == b.spk_kem@,
        b@.spk_x == b.spk_x@,
        b@.spk_sig == b.spk_sig@,
{
}

impl IdentityBundle {
    /// Whether two bundles represent the same identity. The signed prekey may differ: it rotates.
    pub fn same_identity(&self, other: &IdentityBundle) -> (r: bool)
        ensures
            r == of_one_identity(self@, other@),
    {
        same(&self.ik_kem, &other.ik_kem) && same(&self.ik_x, &other.ik_x) && same(&self.sig_pk, &other.sig_pk)
    }

    /// Serializes the bundle. The sizes are fixed by the algorithms, so there are no lengths.
    pub fn encode(&self) -> (r: Vec<u8>)
        ensures
            r@ == bundle_bytes(self@),
    {
        let mut out: Vec<u8> = Vec::new();
        out.push(IDENTITY_V9_VERSION);
        out.extend_from_slice(&self.ik_kem);
        out.extend_from_slice(&self.ik_x);
        out.extend_from_slice(&self.sig_pk);
        out.extend_from_slice(&self.spk_kem);
        out.extend_from_slice(&self.spk_x);
        out.extend_from_slice(&self.spk_sig);
        assert(out@ =~= bundle_bytes(self@));
        out
    }

    /// Parses a bundle. An identity of two keys is accepted too; the other fields come back empty.
    pub fn decode(data: &[u8]) -> (r: Result<IdentityBundle, String>)
        ensures
            match r {
                Ok(b) => bundle_of(data@) == Ok::<BundleView, Seq<char>>(b@),
                Err(e) => bundle_of(data@) == Err::<BundleView, Seq<char>>(e@),
            },
    {
        if data.len() == 0 || data[0] != IDENTITY_V9_VERSION {
            let (ik_kem, sig_pk) = decode_identity(data)?;
            return Ok(bare(ik_kem, sig_pk));
        }
        if data.len() < BUNDLE_LEN {
            return Err(with_number("v0.9 identity truncated: expected 10420 bytes, got ", data.len() as u64));
        }
        Ok(
            IdentityBundle {
                ik_kem: slice_of(data, 1, 1569),
                ik_x: slice_of(data, 1569, 1601),
                sig_pk: slice_of(data, 1601, 4193),
                spk_kem: slice_of(data, 4193, 5761),
                spk_x: slice_of(data, 5761, 5793),
                spk_sig: slice_of(data, 5793, 10420),
            },
        )
    }

    /// Whether the bundle carries all of the prekey material.
    pub fn is_v9(&self) -> (r: bool)
        ensures
            r == has_prekey(self@),
    {
        self.ik_x.len() > 0 && self.spk_kem.len() > 0 && self.spk_x.len() > 0 && self.spk_sig.len() > 0
    }

    /// Verifies the prekey signature against the identity's signing key. A prekey that someone else
    /// put into a profile fails here.
    pub fn verify_prekey(&self) -> (r: Result<(), String>)
        ensures
            match r {
                Ok(_) => prekey_is_signed(self@),
                Err(e) => !prekey_is_signed(self@) && e@ == if has_prekey(self@) {
                    "signed prekey signature does not verify"@
                } else {
                    "identity has no signed prekey"@
                },
            },
    {
        if !self.is_v9() {
            return Err("identity has no signed prekey".to_owned());
        }
        let signed = concat(&self.spk_kem, &self.spk_x);
        match verify_raw(&self.sig_pk, &signed, &self.spk_sig) {
            Ok(_) => Ok(()),
            Err(_) => Err("signed prekey signature does not verify".to_owned()),
        }
    }
}

fn bare(ik_kem: Vec<u8>, sig_pk: Vec<u8>) -> (r: IdentityBundle)
    ensures
        r@ == bare_bundle(ik_kem@, sig_pk@),
{
    let r = IdentityBundle {
        ik_kem,
        ik_x: Vec::new(),
        sig_pk,
        spk_kem: Vec::new(),
        spk_x: Vec::new(),
        spk_sig: Vec::new(),
    };
    assert(r@ =~= bare_bundle(ik_kem@, sig_pk@));
    r
}

/// A bundle with a given prekey, signed with the identity's signing key.
pub fn bundle_with_prekey(
    ik_kem: Vec<u8>,
    ik_x: Vec<u8>,
    sig_pk: Vec<u8>,
    sig_sk: &[u8],
    spk_kem: Vec<u8>,
    spk_x: Vec<u8>,
) -> (r: Result<IdentityBundle, String>)
    ensures
        match r {
            Ok(b) => {
                &&& sig_sk@.len() == SECRET_KEY_LEN
                &&& crypto::ml_dsa_sign(sig_sk@, spk_kem@ + spk_x@) == Some(b@.spk_sig)
                &&& b@.spk_sig.len() == SIGNATURE_LEN
                &&& b@ == (BundleView {
                    ik_kem: ik_kem@,
                    ik_x: ik_x@,
                    sig_pk: sig_pk@,
                    spk_kem: spk_kem@,
                    spk_x: spk_x@,
                    spk_sig: b@.spk_sig,
                })
                &&& sig_pk@ == crypto::ml_dsa_public(sig_sk@) && sig_pk@.len() == PUBLIC_KEY_LEN && has_prekey(b@)
                    ==> prekey_is_signed(b@)
            },
            Err(e) => if sig_sk@.len() != SECRET_KEY_LEN {
                e@ == "Invalid signing secret key: expected 32 bytes, got "@ + text::decimal(sig_sk@.len())
            } else {
                &&& crypto::ml_dsa_sign(sig_sk@, spk_kem@ + spk_x@) is None
                &&& e@ == "ML-DSA signing failed: signature error"@
            },
        },
{
    let to_sign = concat(&spk_kem, &spk_x);
    let spk_sig = sign_raw(sig_sk, &to_sign)?;
    Ok(IdentityBundle { ik_kem, ik_x, sig_pk, spk_kem, spk_x, spk_sig })
}

/// Whether two byte strings are the halves of an X25519 key pair.
pub open spec fn is_x25519_pair(pk: Seq<u8>, sk: Seq<u8>) -> bool {
    pk.len() == 32 && sk.len() == 32 && pk == crypto::x25519_public(sk)
}

/// Whether `b` is the bundle of the given identity with a fresh signed prekey, whose secret halves
/// are `kem_sk` and `x_sk`.
pub open spec fn freshly_signed(
    b: BundleView,
    ik_kem: Seq<u8>,
    ik_x: Seq<u8>,
    sig_pk: Seq<u8>,
    sig_sk: Seq<u8>,
    kem_sk: Seq<u8>,
    x_sk: Seq<u8>,
) -> bool {
    &&& b.ik_kem == ik_kem
    &&& b.ik_x == ik_x
    &&& b.sig_pk == sig_pk
    &&& ratchet::kdf::is_kem_pair(b.spk_kem, kem_sk)
    &&& is_x25519_pair(b.spk_x, x_sk)
    &&& b.spk_sig.len() == SIGNATURE_LEN
    &&& crypto::ml_dsa_sign(sig_sk, b.spk_kem + b.spk_x) == Some(b.spk_sig)
    &&& sig_pk == crypto::ml_dsa_public(sig_sk) && sig_pk.len() == PUBLIC_KEY_LEN && ik_x.len() > 0
        ==> prekey_is_signed(b)
}

/// Whether `b` is the bundle of the given identity with some fresh signed prekey.
pub open spec fn is_fresh_bundle(b: BundleView, ik_kem: Seq<u8>, ik_x: Seq<u8>, sig_pk: Seq<u8>, sig_sk: Seq<u8>) -> bool {
    exists|kem_sk: Seq<u8>, x_sk: Seq<u8>| #[trigger]
        freshly_signed(b, ik_kem, ik_x, sig_pk, sig_sk, kem_sk, x_sk)
}

/// Whether two prekey pairs (public, secret) can be drawn and a signing key fails to sign them.
pub open spec fn fails_to_sign(sig_sk: Seq<u8>, kem: (Seq<u8>, Seq<u8>), x: (Seq<u8>, Seq<u8>)) -> bool {
    &&& ratchet::kdf::is_kem_pair(kem.0, kem.1)
    &&& is_x25519_pair(x.0, x.1)
    &&& crypto::ml_dsa_sign(sig_sk, kem.0 + x.0) is None
}

/// Whether there are prekey pairs that can be drawn and that a signing key fails to sign.
pub open spec fn may_fail_to_sign(sig_sk: Seq<u8>) -> bool {
    exists|kem: (Seq<u8>, Seq<u8>), x: (Seq<u8>, Seq<u8>)| #[trigger] fails_to_sign(sig_sk, kem, x)
}

/// Makes a fresh signed prekey for the given identity and returns the full bundle.
pub fn build_identity_bundle(ik_kem: Vec<u8>, ik_x: Vec<u8>, sig_pk: Vec<u8>, sig_sk: &[u8]) -> (r: Result<
    IdentityBundle,
    String,
>)
    ensures
        r is Ok ==> sig_sk@.len() == SECRET_KEY_LEN,
        r matches Ok(b) ==> is_fresh_bundle(b@, ik_kem@, ik_x@, sig_pk@, sig_sk@),
        r is Err ==> sig_sk@.len() != SECRET_KEY_LEN || may_fail_to_sign(sig_sk@),
        r matches Err(e) ==> e@ == if sig_sk@.len() != SECRET_KEY_LEN {
            "Invalid signing secret key: expected 32 bytes, got "@ + text::decimal(sig_sk@.len())
        } else {
            "ML-DSA signing failed: signature error"@
        },
{
    let ghost keys = (ik_kem@, ik_x@, sig_pk@);
    let rotated = rotate_signed_prekey(ik_kem, ik_x, sig_pk, sig_sk)?;
    assert(is_fresh_bundle(rotated.bundle@, keys.0, keys.1, keys.2, sig_sk@));
    Ok(rotated.bundle)
}

/// A bundle with a fresh signed prekey, and the prekey's secret halves.
pub struct RotatedPrekey {
    /// The bundle with the fresh signed prekey.
    pub bundle: IdentityBundle,
    /// ML-KEM-1024 signed-prekey secret key.
    pub spk_kem_sk: Vec<u8>,
    /// X25519 signed-prekey secret key.
    pub spk_x_sk: Vec<u8>,
}

/// Rotates the signed prekey of an identity: the static keys stay, a fresh prekey pair is made and
/// bound to the identity by a new signature of the same signing key.
pub fn rotate_signed_prekey(ik_kem: Vec<u8>, ik_x: Vec<u8>, sig_pk: Vec<u8>, sig_sk: &[u8]) -> (r: Result<
    RotatedPrekey,
    String,
>)
    ensures
        match r {
            Ok(p) => {
                &&& sig_sk@.len() == SECRET_KEY_LEN
                &&& freshly_signed(
                    p.bundle@,
                    ik_kem@,
                    ik_x@,
                    sig_pk@,
                    sig_sk@,
                    p.spk_kem_sk@,
                    p.spk_x_sk@,
                )
                &&& p.spk_kem_sk@.len() == KEM_SK_LEN
                &&& p.spk_x_sk@.len() == 32
            },
            Err(e) => if sig_sk@.len() != SECRET_KEY_LEN {
                e@ == "Invalid signing secret key: expected 32 bytes, got "@ + text::decimal(sig_sk@.len())
            } else {
                may_fail_to_sign(sig_sk@) && e@ == "ML-DSA signing failed: signature error"@
            },
        },
{
    let (spk_kem, spk_kem_sk) = VurnCipher::generate_keypair();
    let (spk_x, spk_x_sk) = x25519_keypair();
    let ghost (kem, x) = ((spk_kem@, spk_kem_sk@), (spk_x@, spk_x_sk@));
    let bundle = match bundle_with_prekey(ik_kem, ik_x, sig_pk, sig_sk, spk_kem, vstd::slice::slice_to_vec(&spk_x)) {
        Ok(b) => b,
        Err(e) => {
            assert(sig_sk@.len() == SECRET_KEY_LEN ==> fails_to_sign(sig_sk@, kem, x));
            return Err(e);
        },
    };
    Ok(RotatedPrekey { bundle, spk_kem_sk, spk_x_sk: vstd::slice::slice_to_vec(&spk_x_sk) })
}

/// A fresh bundle keeps the identity's keys, and its prekey is a pair of key pairs whose secret halves
/// are the given ones, signed with the identity's signing key.
pub proof fn fresh_prekey_is_bound(
    b: BundleView,
    ik_kem: Seq<u8>,
    ik_x: Seq<u8>,
    sig_pk: Seq<u8>,
    sig_sk: Seq<u8>,
    kem_sk: Seq<u8>,
    x_sk: Seq<u8>,
)
    requires
        freshly_signed(b, ik_kem, ik_x, sig_pk, sig_sk, kem_sk, x_sk),
    ensures
        b.ik_kem == ik_kem && b.ik_x == ik_x && b.sig_pk == sig_pk,
        b.spk_kem.len() == 1568 && kem_sk.len() == 3168 && b.spk_kem == kem_sk.subrange(1536, 3104),
        exists|d: [u8; 32], z: [u8; 32]| #[trigger] crypto::ml_kem_keypair(d@, z@) == (b.spk_kem, kem_sk),
        b.spk_x.len() == 32 && x_sk.len() == 32 && b.spk_x == crypto::x25519_public(x_sk),
        b.spk_sig.len() == 4627 && crypto::ml_dsa_sign(sig_sk, b.spk_kem + b.spk_x) == Some(b.spk_sig),
        sig_pk == crypto::ml_dsa_public(sig_sk) && sig_pk.len() == 2592 && ik_x.len() > 0 ==> crypto::ml_dsa_verifies(
            sig_pk,
            b.spk_kem + b.spk_x,
            b.spk_sig,
        ),
{
}

/// A bundle that was built has the secret halves of its prekey somewhere.
pub proof fn built_bundle_is_fresh(b: BundleView, ik_kem: Seq<u8>, ik_x: Seq<u8>, sig_pk: Seq<u8>, sig_sk: Seq<u8>)
    requires
        is_fresh_bundle(b, ik_kem, ik_x, sig_pk, sig_sk),
    ensures
        b.ik_kem == ik_kem && b.ik_x == ik_x && b.sig_pk == sig_pk,
        b.spk_kem.len() == 1568 && b.spk_x.len() == 32 && b.spk_sig.len() == 4627,
        exists|d: [u8; 32], z: [u8; 32]| (#[trigger] crypto::ml_kem_keypair(d@, z@)).0 == b.spk_kem,
        exists|x_sk: Seq<u8>| x_sk.len() == 32 && b.spk_x == #[trigger] crypto::x25519_public(x_sk),
        crypto::ml_dsa_sign(sig_sk, b.spk_kem + b.spk_x) == Some(b.spk_sig),
{
    let (kem_sk, x_sk) = choose|kem_sk: Seq<u8>, x_sk: Seq<u8>| #[trigger]
        freshly_signed(b, ik_kem, ik_x, sig_pk, sig_sk, kem_sk, x_sk);
    fresh_prekey_is_bound(b, ik_kem, ik_x, sig_pk, sig_sk, kem_sk, x_sk);
    let (d, z) = choose|d: [u8; 32], z: [u8; 32]| #[trigger] crypto::ml_kem_keypair(d@, z@) == (b.spk_kem, kem_sk);
    assert(crypto::ml_kem_keypair(d@, z@).0 == b.spk_kem);
    assert(b.spk_x == crypto::x25519_public(x_sk));
}

/// Making a bundle fails for want of a signature only where some prekey has none.
pub proof fn failure_to_sign_has_a_prekey(sig_sk: Seq<u8>)
    requires
        may_fail_to_sign(sig_sk),
    ensures
        exists|prekey: Seq<u8>| prekey.len() == 1600 && (#[trigger] crypto::ml_dsa_sign(sig_sk, prekey)) is None,
{
    let (kem, x) = choose|kem: (Seq<u8>, Seq<u8>), x: (Seq<u8>, Seq<u8>)| #[trigger] fails_to_sign(sig_sk, kem, x);
    assert(crypto::ml_dsa_sign(sig_sk, kem.0 + x.0) is None);
}

/// Two bundles that rotation made of one identity are of one identity, and where the signing keys
/// belong together both are full and both prekeys verify, the old one's too.
pub proof fn rotation_keeps_identity(
    a: BundleView,
    b: BundleView,
    ik_kem: Seq<u8>,
    ik_x: Seq<u8>,
    sig_pk: Seq<u8>,
    sig_sk: Seq<u8>,
    a_sks: (Seq<u8>, Seq<u8>),
    b_sks: (Seq<u8>, Seq<u8>),
)
    requires
        freshly_signed(a, ik_kem, ik_x, sig_pk, sig_sk, a_sks.0, a_sks.1),
        freshly_signed(b, ik_kem, ik_x, sig_pk, sig_sk, b_sks.0, b_sks.1),
    ensures
        of_one_identity(a, b),
        ik_x.len() > 0 ==> has_prekey(a) && has_prekey(b),
        ik_x.len() > 0 && sig_pk == crypto::ml_dsa_public(sig_sk) && sig_pk.len() == PUBLIC_KEY_LEN ==> prekey_is_signed(a)
            && prekey_is_signed(b),
{
}

// ── Blind profiles ──────────────────────────────────────────────────

/// The index under which the server stores the profile of a username.
pub open spec fn search_index(username: Seq<char>) -> Seq<u8> {
    crypto::hmac_of(
        vstd::utf8::encode_utf8("VURN_SEARCH"@),
        vstd::utf8::encode_utf8(encoding::lowercase_of(username)),
    )
}

/// The key under which the profile of a username is encrypted.
pub open spec fn profile_key(username: Seq<char>) -> Seq<u8> {
    crypto::hmac_of(
        vstd::utf8::encode_utf8("VURN_PROFILE_ENC"@),
        vstd::utf8::encode_utf8(encoding::lowercase_of(username)),
    )
}

/// What a profile blob holds for a username: the two keys, or why not.
pub open spec fn profile_of(username: Seq<char>, blob: Seq<u8>) -> Result<(Seq<u8>, Seq<u8>), Seq<char>> {
    match cipher::opened_data(profile_key(username), blob) {
        Ok(d) => identity_of(d),
        Err(e) => Err(e),
    }
}

/// What a profile blob holds for a username: the bundle, or why not.
pub open spec fn profile_bundle_of(username: Seq<char>, blob: Seq<u8>) -> Result<BundleView, Seq<char>> {
    match cipher::opened_data(profile_key(username), blob) {
        Ok(d) => bundle_of(d),
        Err(e) => Err(e),
    }
}

/// Whether every username with the same lower case opens a blob to `d`.
pub open spec fn opens_for(username: Seq<char>, blob: Seq<u8>, d: Seq<u8>) -> bool {
    forall|name: Seq<char>| #[trigger]
        encoding::lowercase_of(name) == encoding::lowercase_of(username) ==> cipher::opened_data(
            profile_key(name),
            blob,
        ) == Ok::<Seq<u8>, Seq<char>>(d)
}

/// A blob that is too short to be sealed data opens for no username.
pub proof fn short_blob_is_refused(username: Seq<char>, blob: Seq<u8>)
    requires
        blob.len() < 28,
    ensures
        profile_of(username, blob) is Err,
        profile_bundle_of(username, blob) is Err,
{
}

/// Usernames with the same lower case have the same index and open the same blobs.
pub proof fn lookup_ignores_case(a: Seq<char>, b: Seq<char>, blob: Seq<u8>)
    requires
        encoding::lowercase_of(a) == encoding::lowercase_of(b),
    ensures
        search_index(a) == search_index(b),
        profile_of(a, blob) == profile_of(b, blob),
        profile_bundle_of(a, blob) == profile_bundle_of(b, blob),
{
}

/// Usernames with different lower case have different indices, unless HMAC-SHA256 coincides on the
/// two.
pub proof fn other_name_has_other_index(a: Seq<char>, b: Seq<char>)
    requires
        encoding::lowercase_of(a) != encoding::lowercase_of(b),
        !crypto::hmac_coincides(
            vstd::utf8::encode_utf8("VURN_SEARCH"@),
            vstd::utf8::encode_utf8(encoding::lowercase_of(a)),
            vstd::utf8::encode_utf8("VURN_SEARCH"@),
            vstd::utf8::encode_utf8(encoding::lowercase_of(b)),
        ),
    ensures
        search_index(a) != search_index(b),
{
    vstd::utf8::encode_utf8_decode_utf8(encoding::lowercase_of(a));
    vstd::utf8::encode_utf8_decode_utf8(encoding::lowercase_of(b));
}

/// A username with another lower case does not resolve a profile, be it of two keys or a bundle. That
/// holds unless HMAC-SHA256 coincides on the two names, or AES-256-GCM opens under another key what
/// was sealed under the username's.
pub proof fn other_name_is_refused(username: Seq<char>, name: Seq<char>, nonce: Seq<u8>, d: Seq<u8>)
    requires
        encoding::lowercase_of(name) != encoding::lowercase_of(username),
        nonce.len() == 12,
        !crypto::hmac_coincides(
            vstd::utf8::encode_utf8("VURN_PROFILE_ENC"@),
            vstd::utf8::encode_utf8(encoding::lowercase_of(name)),
            vstd::utf8::encode_utf8("VURN_PROFILE_ENC"@),
            vstd::utf8::encode_utf8(encoding::lowercase_of(username)),
        ),
        profile_key(name) != profile_key(username) ==> crypto::aes_gcm_open(
            profile_key(name),
            nonce,
            Seq::empty(),
            crypto::aes_gcm_seal(profile_key(username), nonce, Seq::empty(), d),
        ) is None,
    ensures
        profile_of(name, cipher::sealed_data(profile_key(username), nonce, d)) is Err,
        profile_bundle_of(name, cipher::sealed_data(profile_key(username), nonce, d)) is Err,
{
    vstd::utf8::encode_utf8_decode_utf8(encoding::lowercase_of(name));
    vstd::utf8::encode_utf8_decode_utf8(encoding::lowercase_of(username));
    let sealed = crypto::aes_gcm_seal(profile_key(username), nonce, Seq::empty(), d);
    let blob = cipher::sealed_data(profile_key(username), nonce, d);
    assert(blob.subrange(0, 12) =~= nonce);
    assert(blob.subrange(12, blob.len() as int) =~= sealed);
}

/// A profile resolves by what its blob opens to under the username's key, and by that alone.
pub proof fn blob_decides_profile(username: Seq<char>, blob: Seq<u8>)
    ensures
        match cipher::opened_data(profile_key(username), blob) {
            Ok(d) => profile_of(username, blob) == identity_of(d) && profile_bundle_of(username, blob) == bundle_of(d),
            Err(e) => {
                &&& profile_of(username, blob) == Err::<(Seq<u8>, Seq<u8>), Seq<char>>(e)
                &&& profile_bundle_of(username, blob) == Err::<BundleView, Seq<char>>(e)
            },
        },
{
}

/// The search index and the key of a profile are HMACs of the name in lower case, each under its own label.
pub proof fn index_and_key_are_of_the_name(username: Seq<char>)
    ensures
        search_index(username) == crypto::hmac_of(
            vstd::utf8::encode_utf8("VURN_SEARCH"@),
            vstd::utf8::encode_utf8(encoding::lowercase_of(username)),
        ),
        profile_key(username) == crypto::hmac_of(
            vstd::utf8::encode_utf8("VURN_PROFILE_ENC"@),
            vstd::utf8::encode_utf8(encoding::lowercase_of(username)),
        ),
{
}

/// The index and the key of a username are different, unless HMAC-SHA256 coincides on them: who knows
/// the index does not have the key.
pub proof fn index_is_not_the_key(username: Seq<char>)
    requires
        !crypto::hmac_coincides(
            vstd::utf8::encode_utf8("VURN_SEARCH"@),
            vstd::utf8::encode_utf8(encoding::lowercase_of(username)),
            vstd::utf8::encode_utf8("VURN_PROFILE_ENC"@),
            vstd::utf8::encode_utf8(encoding::lowercase_of(username)),
        ),
    ensures
        search_index(username) != profile_key(username),
{
    reveal_strlit("VURN_SEARCH");
    reveal_strlit("VURN_PROFILE_ENC");
    vstd::utf8::encode_utf8_decode_utf8("VURN_SEARCH"@);
    vstd::utf8::encode_utf8_decode_utf8("VURN_PROFILE_ENC"@);
    assert("VURN_SEARCH"@.len() != "VURN_PROFILE_ENC"@.len());
}

/// A registered profile resolves to the registered keys, for every username with the same lower
/// case.
pub proof fn registration_resolves(
    username: Seq<char>,
    name: Seq<char>,
    blob: Seq<u8>,
    public_key: Seq<u8>,
    signing_key: Seq<u8>,
)
    requires
        opens_for(username, blob, identity_bytes(public_key, signing_key)),
        encoding::lowercase_of(name) == encoding::lowercase_of(username),
        public_key.len() < 65536,
        signing_key.len() < 65536,
    ensures
        profile_of(name, blob) == Ok::<(Seq<u8>, Seq<u8>), Seq<char>>((public_key, signing_key)),
        public_key.len() % 256 != IDENTITY_V9_VERSION ==> profile_bundle_of(name, blob) == Ok::<
            BundleView,
            Seq<char>,
        >(bare_bundle(public_key, signing_key)),
        !has_prekey(bare_bundle(public_key, signing_key)),
{
    let d = identity_bytes(public_key, signing_key);
    identity_reads_back(public_key, signing_key, Seq::empty());
    assert(d + Seq::<u8>::empty() =~= d);
    if public_key.len() % 256 != IDENTITY_V9_VERSION {
        two_keys_decode_to_bare_bundle(public_key, signing_key);
    }
}

/// A registered bundle resolves to the bundle, for every username with the same lower case.
pub proof fn bundle_registration_resolves(username: Seq<char>, name: Seq<char>, blob: Seq<u8>, b: BundleView)
    requires
        opens_for(username, blob, bundle_bytes(b)),
        encoding::lowercase_of(name) == encoding::lowercase_of(username),
        full_bundle(b),
    ensures
        profile_bundle_of(name, blob) == Ok::<BundleView, Seq<char>>(b),
{
    bundle_reads_back(b, Seq::empty());
    assert(bundle_bytes(b) + Seq::<u8>::empty() =~= bundle_bytes(b));
}

/// HMAC-SHA256 of `data` keyed by a text.
fn hmac_sha256(data: &str, salt: &str) -> (r: [u8; 32])
    ensures
        r@ == crypto::hmac_of(vstd::utf8::encode_utf8(salt@), vstd::utf8::encode_utf8(data@)),
{
    hmac256(salt.as_bytes(), data.as_bytes())
}

/// Blind username registration, profile lookup and invite links.
pub struct BlindProfileManager;

impl BlindProfileManager {
    fn register(username: &str, payload: &[u8]) -> (r: (Vec<u8>, Vec<u8>))
        requires
            payload@.len() <= GCM_MAX,
        ensures
            r.0@ == search_index(username@),
            r.0@.len() == 32,
            exists|nonce: Seq<u8>|
                nonce.len() == 12 && r.1@ == #[trigger] cipher::sealed_data(
                    profile_key(username@),
                    nonce,
                    payload@,
                ),
            r.1@.len() == 12 + payload@.len() + 16,
            opens_for(username@, r.1@, payload@),
    {
        let name = to_lowercase(username);
        let index = hmac_sha256(&name, "VURN_SEARCH");
        let key = hmac_sha256(&name, "VURN_PROFILE_ENC");
        assert(key@ == profile_key(username@));
        let blob = VurnCipher::encrypt_symmetric(&key, payload);
        (vstd::slice::slice_to_vec(&index), blob)
    }

    fn open(search_username: &str, encrypted_blob: &[u8]) -> (r: Result<Vec<u8>, String>)
        ensures
            match r {
                Ok(d) => cipher::opened_data(profile_key(search_username@), encrypted_blob@) == Ok::<
                    Seq<u8>,
                    Seq<char>,
                >(d@),
                Err(e) => cipher::opened_data(profile_key(search_username@), encrypted_blob@) == Err::<
                    Seq<u8>,
                    Seq<char>,
                >(e@),
            },
    {
        let name = to_lowercase(search_username);
        let key = hmac_sha256(&name, "VURN_PROFILE_ENC");
        VurnCipher::decrypt_symmetric(&key, encrypted_blob)
    }

    /// Prepares the registration of a username: the search index, and the identity of two keys
    /// encrypted under the username's key. Every username with the same lower case opens it again.
    pub fn prepare_registration(username: &str, public_key: &[u8], signing_public_key: &[u8]) -> (r: Result<
        (Vec<u8>, Vec<u8>),
        String,
    >)
        requires
            4 + public_key@.len() + signing_public_key@.len() <= GCM_MAX,
        ensures
            r is Ok,
            r->Ok_0.0@ == search_index(username@),
            r->Ok_0.0@.len() == 32,
            exists|nonce: Seq<u8>|
                nonce.len() == 12 && r->Ok_0.1@ == #[trigger] cipher::sealed_data(
                    profile_key(username@),
                    nonce,
                    identity_bytes(public_key@, signing_public_key@),
                ),
            r->Ok_0.1@.len() == 12 + (4 + public_key@.len() + signing_public_key@.len()) + 16,
            opens_for(username@, r->Ok_0.1@, identity_bytes(public_key@, signing_public_key@)),
    {
        let identity = encode_identity(public_key, signing_public_key);
        Ok(Self::register(username, &identity))
    }

    /// Resolves a username against an encrypted profile blob to
    /// `(kem_public_key, signing_public_key)`. A wrong username fails to open the blob.
    pub fn resolve_profile(search_username: &str, encrypted_blob: &[u8]) -> (r: Result<(Vec<u8>, Vec<u8>), String>)
        ensures
            match r {
                Ok(p) => profile_of(search_username@, encrypted_blob@) == Ok::<(Seq<u8>, Seq<u8>), Seq<char>>(
                    (p.0@, p.1@),
                ),
                Err(e) => profile_of(search_username@, encrypted_blob@) == Err::<(Seq<u8>, Seq<u8>), Seq<char>>(e@),
            },
    {
        let identity = Self::open(search_username, encrypted_blob)?;
        decode_identity(&identity)
    }

    /// Prepares the registration of a username with a full identity bundle.
    pub fn prepare_registration_v9(username: &str, bundle: &IdentityBundle) -> (r: Result<
        (Vec<u8>, Vec<u8>),
        String,
    >)
        requires
            bundle_bytes(bundle@).len() <= GCM_MAX,
        ensures
            r is Ok,
            r->Ok_0.0@ == search_index(username@),
            r->Ok_0.0@.len() == 32,
            exists|nonce: Seq<u8>|
                nonce.len() == 12 && r->Ok_0.1@ == #[trigger] cipher::sealed_data(
                    profile_key(username@),
                    nonce,
                    bundle_bytes(bundle@),
                ),
            r->Ok_0.1@.len() == 12 + bundle_bytes(bundle@).len() + 16,
            opens_for(username@, r->Ok_0.1@, bundle_bytes(bundle@)),
    {
        let payload = bundle.encode();
        Ok(Self::register(username, &payload))
    }

    /// Resolves a username against an encrypted profile blob to a bundle. A blob with an identity of
    /// two keys resolves too, to a bundle without prekey.
    pub fn resolve_profile_v9(search_username: &str, encrypted_blob: &[u8]) -> (r: Result<IdentityBundle, String>)
        ensures
            match r {
                Ok(b) => profile_bundle_of(search_username@, encrypted_blob@) == Ok::<BundleView, Seq<char>>(b@),
                Err(e) => profile_bundle_of(search_username@, encrypted_blob@) == Err::<BundleView, Seq<char>>(e@),
            },
    {
        let identity = Self::open(search_username, encrypted_blob)?;
        IdentityBundle::decode(&identity)
    }

    /// An invite link with a session hash and an identity of two keys.
    pub fn generate_invite(session_hash: &[u8], public_key: &[u8], signing_public_key: &[u8], base_url: &str) -> (r:
        String)
        ensures
            r@ == invite_url(base_url@, invite_bytes(session_hash@, identity_bytes(public_key@, signing_public_key@))),
    {
        invite_link(session_hash, &encode_identity(public_key, signing_public_key), base_url)
    }

    /// An invite link with a session hash and a full identity bundle.
    pub fn generate_invite_v9(session_hash: &[u8], bundle: &IdentityBundle, base_url: &str) -> (r: String)
        ensures
            r@ == invite_url(base_url@, invite_bytes(session_hash@, bundle_bytes(bundle@))),
    {
        invite_link(session_hash, &bundle.encode(), base_url)
    }

    /// Parses an invite link into the session hash and a bundle. An identity of two keys, or the
    /// KEM key alone, gives a bundle in which everything else is empty.
    pub fn parse_invite_v9(invite_url: &str) -> (r: Result<(Vec<u8>, IdentityBundle), String>)
        ensures
            match r {
                Ok(p) => invite_bundle_of(invite_url@) == Ok::<(Seq<u8>, BundleView), Seq<char>>((p.0@, p.1@)),
                Err(e) => invite_bundle_of(invite_url@) == Err::<(Seq<u8>, BundleView), Seq<char>>(e@),
            },
    {
        let (session_hash, identity) = Self::parse_invite_raw(invite_url)?;
        if identity[0] != IDENTITY_V9_VERSION && identity.len() == 2 + read_le16(&identity, 0) {
            let none: Vec<u8> = Vec::new();
            assert(none@ =~= Seq::<u8>::empty());
            return Ok((session_hash, bare(slice_of(&identity, 2, identity.len()), none)));
        }
        let bundle = IdentityBundle::decode(&identity)?;
        Ok((session_hash, bundle))
    }

    /// Parses an invite link into the session hash, the KEM key and the signing key. A link from
    /// before there were signatures carries the KEM key alone; the signing key is then empty.
    pub fn parse_invite(invite_url: &str) -> (r: Result<(Vec<u8>, Vec<u8>, Vec<u8>), String>)
        ensures
            match r {
                Ok(p) => invite_of(invite_url@) == Ok::<(Seq<u8>, Seq<u8>, Seq<u8>), Seq<char>>((p.0@, p.1@, p.2@)),
                Err(e) => invite_of(invite_url@) == Err::<(Seq<u8>, Seq<u8>, Seq<u8>), Seq<char>>(e@),
            },
    {
        let (session_hash, identity) = Self::parse_invite_raw(invite_url)?;
        match decode_identity(&identity) {
            Ok((public_key, signing_public_key)) => Ok((session_hash, public_key, signing_public_key)),
            Err(_) => {
                if identity.len() == 2 + read_le16(&identity, 0) {
                    let none: Vec<u8> = Vec::new();
                    assert(none@ =~= Seq::<u8>::empty());
                    Ok((session_hash, slice_of(&identity, 2, identity.len()), none))
                } else {
                    Err("Identity payload truncated: missing signing key header".to_owned())
                }
            },
        }
    }

    /// Splits an invite link into the session hash and the identity payload.
    pub fn parse_invite_raw(invite_url: &str) -> (r: Result<(Vec<u8>, Vec<u8>), String>)
        ensures
            match r {
                Ok(p) => {
                    &&& raw_invite_of(invite_url@) == Ok::<(Seq<u8>, Seq<u8>), Seq<char>>((p.0@, p.1@))
                    &&& p.1@.len() >= 2
                },
                Err(e) => raw_invite_of(invite_url@) == Err::<(Seq<u8>, Seq<u8>), Seq<char>>(e@),
            },
    {
        let b64 = match invite_parameter(invite_url) {
            Some(s) => s,
            None => {
                return Err("Invalid invite URL: missing ?invite= parameter".to_owned());
            },
        };
        let data = match decode_base64url(&b64) {
            Ok(d) => d,
            Err(e) => {
                return Err(join("Base64 decode failed: ", &e));
            },
        };
        Self::split_invite(&data)
    }

    /// Splits the data of an invite link into the session hash and the identity payload.
    pub fn split_invite(data: &[u8]) -> (r: Result<(Vec<u8>, Vec<u8>), String>)
        ensures
            match r {
                Ok(p) => {
                    &&& invite_parts_of(data@) == Ok::<(Seq<u8>, Seq<u8>), Seq<char>>((p.0@, p.1@))
                    &&& p.1@.len() >= 2
                },
                Err(e) => invite_parts_of(data@) == Err::<(Seq<u8>, Seq<u8>), Seq<char>>(e@),
            },
    {
        if data.len() < 4 {
            return Err("Invite data too short: expected at least 4 header bytes".to_owned());
        }
        let end: usize = 2 + read_le16(data, 0);
        if data.len() < end + 2 {
            return Err("Invite data truncated: missing identity payload".to_owned());
        }
        Ok((slice_of(data, 2, end), slice_of(data, end, data.len())))
    }

    /// An SVG QR code of an invite link, in black on white and at least 200 pixels wide.
    pub fn generate_invite_qr(
        session_hash: &[u8],
        public_key: &[u8],
        signing_public_key: &[u8],
        base_url: &str,
    ) -> (r: Result<String, String>)
        ensures
            ({
                let url = invite_url(
                    base_url@,
                    invite_bytes(session_hash@, identity_bytes(public_key@, signing_public_key@)),
                );
                let code = encoding::qr_svg_of(vstd::utf8::encode_utf8(url), 200, "#000000"@, "#ffffff"@);
                match r {
                    Ok(svg) => code == Ok::<Seq<char>, Seq<char>>(svg@),
                    Err(e) => code is Err && e@ == "QR code generation failed: "@ + code->Err_0,
                }
            }),
    {
        let url = Self::generate_invite(session_hash, public_key, signing_public_key, base_url);
        match qr_svg(url.as_str().as_bytes(), 200, "#000000", "#ffffff") {
            Ok(svg) => Ok(svg),
            Err(e) => Err(join("QR code generation failed: ", &e)),
        }
    }
}

// ── Invite links ────────────────────────────────────────────────────

/// The data of an invite link: a session hash behind its length, then an identity payload.
pub open spec fn invite_bytes(session_hash: Seq<u8>, identity: Seq<u8>) -> Seq<u8> {
    bytes::le16(session_hash.len() as int) + session_hash + identity
}

/// A text without the slashes at its end.
pub open spec fn without_slashes(s: Seq<char>) -> Seq<char>
    decreases s.len(),
{
    if s.len() > 0 && s.last() == '/' {
        without_slashes(s.drop_last())
    } else {
        s
    }
}

/// An invite link: the base, and the data in base64url as a query.
pub open spec fn invite_url(base: Seq<char>, data: Seq<u8>) -> Seq<char> {
    without_slashes(base) + "/?invite="@ + encoding::base64url(data)
}

/// The first place at or behind `from` where `m` stands in `s`.
pub open spec fn first_at(s: Seq<char>, m: Seq<char>, from: int) -> Option<int>
    decreases s.len() - from,
{
    if m.len() == 0 || from + m.len() > s.len() {
        None
    } else if s.subrange(from, from + m.len()) == m {
        Some(from)
    } else {
        first_at(s, m, from + 1)
    }
}

/// What stands behind the first `?invite=` of a link, up to the next one.
pub open spec fn parameter_of(url: Seq<char>) -> Option<Seq<char>> {
    match first_at(url, "?invite="@, 0) {
        None => None,
        Some(i) => match first_at(url, "?invite="@, i + 8) {
            None => Some(url.subrange(i + 8, url.len() as int)),
            Some(j) => Some(url.subrange(i + 8, j)),
        },
    }
}

/// The session hash and the identity payload of an invite link's data, or why there are none.
pub open spec fn invite_parts_of(d: Seq<u8>) -> Result<(Seq<u8>, Seq<u8>), Seq<char>> {
    if d.len() < 4 {
        Err("Invite data too short: expected at least 4 header bytes"@)
    } else {
        let end = 2 + bytes::le16_at(d, 0);
        if d.len() < end + 2 {
            Err("Invite data truncated: missing identity payload"@)
        } else {
            Ok((d.subrange(2, end), d.subrange(end, d.len() as int)))
        }
    }
}

/// The session hash and the identity payload of an invite link, or why there are none.
pub open spec fn raw_invite_of(url: Seq<char>) -> Result<(Seq<u8>, Seq<u8>), Seq<char>> {
    match parameter_of(url) {
        None => Err("Invalid invite URL: missing ?invite= parameter"@),
        Some(b64) => match encoding::base64url_bytes(b64) {
            None => Err("Base64 decode failed: "@ + encoding::base64_fault(b64)),
            Some(d) => invite_parts_of(d),
        },
    }
}

/// The session hash, the KEM key and the signing key of an invite link, or why there are none.
pub open spec fn invite_of(url: Seq<char>) -> Result<(Seq<u8>, Seq<u8>, Seq<u8>), Seq<char>> {
    match raw_invite_of(url) {
        Err(e) => Err(e),
        Ok((hash, d)) => match identity_of(d) {
            Ok((pk, sig)) => Ok((hash, pk, sig)),
            Err(_) => if d.len() == 2 + bytes::le16_at(d, 0) {
                Ok((hash, d.subrange(2, d.len() as int), Seq::empty()))
            } else {
                Err("Identity payload truncated: missing signing key header"@)
            },
        },
    }
}

/// The session hash and the bundle of an invite link, or why there are none.
pub open spec fn invite_bundle_of(url: Seq<char>) -> Result<(Seq<u8>, BundleView), Seq<char>> {
    match raw_invite_of(url) {
        Err(e) => Err(e),
        Ok((hash, d)) => if d[0] != IDENTITY_V9_VERSION && d.len() == 2 + bytes::le16_at(d, 0) {
            Ok((hash, bare_bundle(d.subrange(2, d.len() as int), Seq::empty())))
        } else {
            match bundle_of(d) {
                Ok(b) => Ok((hash, b)),
                Err(e) => Err(e),
            }
        },
    }
}

/// Only slashes at the end of a base are dropped, and all of them: what is left is the front of the
/// base, everything behind it is slashes, and it does not end in one.
pub proof fn only_slashes_are_dropped(base: Seq<char>)
    ensures
        without_slashes(base).len() <= base.len(),
        without_slashes(base) == base.take(without_slashes(base).len() as int),
        forall|i: int| without_slashes(base).len() <= i < base.len() ==> #[trigger] base[i] == '/',
        without_slashes(base).len() > 0 ==> without_slashes(base).last() != '/',
        base.len() == 0 || base.last() != '/' ==> without_slashes(base) == base,
    decreases base.len(),
{
    if base.len() > 0 && base.last() == '/' {
        let front = base.drop_last();
        only_slashes_are_dropped(front);
        let n = without_slashes(base).len() as int;
        assert(base.take(n) =~= front.take(n));
        assert forall|i: int| n <= i < base.len() implies #[trigger] base[i] == '/' by {
            if i < front.len() {
                assert(front[i] == base[i]);
            }
        }
    } else {
        assert(base.take(base.len() as int) =~= base);
    }
}

/// A link is the base, `/?invite=` and the data in base64url; a slash more at the end of the base
/// makes no other link.
pub proof fn link_layout(base: Seq<char>, data: Seq<u8>)
    ensures
        base.len() == 0 || base.last() != '/' ==> invite_url(base, data) == base + "/?invite="@ + encoding::base64url(data),
        invite_url(base.push('/'), data) == invite_url(base, data),
{
    only_slashes_are_dropped(base);
    assert(base.push('/').drop_last() =~= base);
}

/// The data of a link is the session hash behind its length in two bytes, the low one first, and then
/// the identity payload, whole.
pub proof fn invite_layout(session_hash: Seq<u8>, identity: Seq<u8>)
    ensures
        ({
            let d = invite_bytes(session_hash, identity);
            let end = 2 + session_hash.len() as int;
            &&& d.len() == end + identity.len()
            &&& d[0] as int + 256 * (d[1] as int) == session_hash.len() % 65536
            &&& d.subrange(2, end) == session_hash
            &&& d.skip(end) == identity
        }),
{
    bytes::le16_is_little_endian(session_hash.len() as int);
    let d = invite_bytes(session_hash, identity);
    let end = 2 + session_hash.len() as int;
    assert(d.subrange(2, end) =~= session_hash);
    assert(d.skip(end) =~= identity);
}

/// A search finds the first place, if there is one at all.
pub proof fn first_place_is_found(s: Seq<char>, m: Seq<char>, from: int)
    requires
        0 <= from,
        m.len() > 0,
    ensures
        first_at(s, m, from) matches Some(k) ==> {
            &&& from <= k
            &&& k + m.len() <= s.len()
            &&& s.subrange(k, k + m.len()) == m
            &&& forall|j: int| from <= j < k ==> #[trigger] s.subrange(j, j + m.len()) != m
        },
        first_at(s, m, from) is None ==> forall|j: int|
            from <= j && j + m.len() <= s.len() ==> #[trigger] s.subrange(j, j + m.len()) != m,
    decreases s.len() - from,
{
    if from + m.len() <= s.len() && s.subrange(from, from + m.len()) != m {
        first_place_is_found(s, m, from + 1);
    }
}

/// The parameter of a link runs from behind its first `?invite=` to the next one, or to the end; a link
/// without any has none.
pub proof fn parameter_stands_behind_its_marker(url: Seq<char>)
    ensures
        parameter_of(url) is None ==> forall|j: int|
            0 <= j && j + 8 <= url.len() ==> #[trigger] url.subrange(j, j + 8) != "?invite="@,
        parameter_of(url) matches Some(x) ==> exists|i: int|
            {
                &&& 0 <= i
                &&& i + 8 + x.len() <= url.len()
                &&& #[trigger] url.subrange(i, i + 8) == "?invite="@
                &&& forall|j: int| 0 <= j < i ==> #[trigger] url.subrange(j, j + 8) != "?invite="@
                &&& x == url.subrange(i + 8, i + 8 + x.len())
                &&& forall|j: int| i + 8 <= j < i + 8 + x.len() && j + 8 <= url.len() ==> #[trigger] url.subrange(j, j + 8)
                    != "?invite="@
                &&& i + 8 + x.len() == url.len() || url.subrange(i + 8 + x.len(), i + 16 + x.len()) == "?invite="@
            },
{
    reveal_strlit("?invite=");
    let m = "?invite="@;
    assert(m.len() == 8);
    first_place_is_found(url, m, 0);
    if let Some(i) = first_at(url, m, 0) {
        first_place_is_found(url, m, i + 8);
        assert(url.subrange(i, i + 8) == m);
    }
}

/// The data of a link is a session hash and a payload exactly where two bytes or more follow the hash
/// whose length the first two bytes give; hash and payload are then all of it.
pub proof fn invite_is_all_of_it(d: Seq<u8>)
    ensures
        invite_parts_of(d) is Ok <==> d.len() >= 2 && d.len() >= 4 + d[0] as int + 256 * (d[1] as int),
        invite_parts_of(d) matches Ok((session_hash, identity)) ==> {
            &&& session_hash.len() == d[0] as int + 256 * (d[1] as int)
            &&& d.take(2) + session_hash + identity == d
        },
        d.len() < 4 ==> invite_parts_of(d) == Err::<(Seq<u8>, Seq<u8>), Seq<char>>(
            "Invite data too short: expected at least 4 header bytes"@,
        ),
        4 <= d.len() < 4 + d[0] as int + 256 * (d[1] as int) ==> invite_parts_of(d) == Err::<(Seq<u8>, Seq<u8>), Seq<char>>(
            "Invite data truncated: missing identity payload"@,
        ),
{
    if let Ok((session_hash, identity)) = invite_parts_of(d) {
        assert(d.take(2) + session_hash + identity =~= d);
    }
}

/// A link is read through its parameter: the bytes whose base64url form it is are the link's data, and
/// a link without parameter, or with one that is no base64url, is refused.
pub proof fn link_is_read_through_its_parameter(url: Seq<char>, d: Seq<u8>)
    ensures
        parameter_of(url) == Some(encoding::base64url(d)) ==> raw_invite_of(url) == invite_parts_of(d),
        parameter_of(url) is None ==> raw_invite_of(url) == Err::<(Seq<u8>, Seq<u8>), Seq<char>>(
            "Invalid invite URL: missing ?invite= parameter"@,
        ),
        parameter_of(url) matches Some(x) ==> (forall|e: Seq<u8>| #[trigger] encoding::base64url(e) != x) ==> raw_invite_of(url)
            == Err::<(Seq<u8>, Seq<u8>), Seq<char>>("Base64 decode failed: "@ + encoding::base64_fault(x)),
{
    encoding::base64url_reads_back(d);
}

/// The payload of a link decides what it gives: two keys, the first one alone, or nothing; as a bundle
/// also a full one. A link that is refused as a whole is refused for the same reason.
pub proof fn payload_decides_invite(url: Seq<char>)
    ensures
        raw_invite_of(url) matches Err(e) ==> invite_of(url) == Err::<(Seq<u8>, Seq<u8>, Seq<u8>), Seq<char>>(e)
            && invite_bundle_of(url) == Err::<(Seq<u8>, BundleView), Seq<char>>(e),
        raw_invite_of(url) matches Ok((hash, d)) ==> {
            let alone = d.len() == 2 + d[0] as int + 256 * (d[1] as int);
            &&& identity_of(d) matches Ok((pk, sig)) ==> invite_of(url) == Ok::<(Seq<u8>, Seq<u8>, Seq<u8>), Seq<char>>(
                (hash, pk, sig),
            )
            &&& identity_of(d) is Err && alone ==> invite_of(url) == Ok::<(Seq<u8>, Seq<u8>, Seq<u8>), Seq<char>>(
                (hash, d.skip(2), Seq::empty()),
            )
            &&& identity_of(d) is Err && !alone ==> invite_of(url) == Err::<(Seq<u8>, Seq<u8>, Seq<u8>), Seq<char>>(
                "Identity payload truncated: missing signing key header"@,
            )
            &&& d[0] != 9 && alone ==> (invite_bundle_of(url) matches Ok((h, b)) && h == hash && b.ik_kem == d.skip(2)
                && b.ik_x.len() == 0 && b.sig_pk.len() == 0 && b.spk_kem.len() == 0 && b.spk_x.len() == 0
                && b.spk_sig.len() == 0)
            &&& !(d[0] != 9 && alone) ==> match bundle_of(d) {
                Ok(b) => invite_bundle_of(url) == Ok::<(Seq<u8>, BundleView), Seq<char>>((hash, b)),
                Err(e) => invite_bundle_of(url) == Err::<(Seq<u8>, BundleView), Seq<char>>(e),
            }
        },
{
    if let Ok((hash, d)) = raw_invite_of(url) {
        assert(d.subrange(2, d.len() as int) =~= d.skip(2));
    }
}

/// A link that was made parses to what it was made of, where nothing in its base, slashes at the end
/// apart, is `?invite=`.
pub proof fn made_link_parses(base: Seq<char>, session_hash: Seq<u8>, identity: Seq<u8>)
    requires
        session_hash.len() < 65536,
        identity.len() >= 2,
        forall|j: int| 0 <= j && j + 8 <= base.len() ==> #[trigger] base.subrange(j, j + 8) != "?invite="@,
    ensures
        raw_invite_of(invite_url(base, invite_bytes(session_hash, identity))) == Ok::<(Seq<u8>, Seq<u8>), Seq<char>>(
            (session_hash, identity),
        ),
{
    reveal_strlit("?invite=");
    let m = "?invite="@;
    let t = without_slashes(base);
    assert(m.len() == 8);
    only_slashes_are_dropped(base);
    assert forall|i: int| 0 <= i && i + m.len() <= t.len() implies #[trigger] t.subrange(i, i + m.len()) != m by {
        assert(t.subrange(i, i + 8) =~= base.subrange(i, i + 8));
    }
    first_at_none(t, m, 0);
    invite_reads_back(base, session_hash, identity);
}

/// An invite link is taken apart into the session hash and the payload it was made of, where its
/// base has no `?invite=` of its own.
pub proof fn invite_reads_back(base: Seq<char>, session_hash: Seq<u8>, identity: Seq<u8>)
    requires
        session_hash.len() < 65536,
        identity.len() >= 2,
        first_at(without_slashes(base), "?invite="@, 0) is None,
    ensures
        raw_invite_of(invite_url(base, invite_bytes(session_hash, identity))) == Ok::<(Seq<u8>, Seq<u8>), Seq<char>>(
            (session_hash, identity),
        ),
{
    let d = invite_bytes(session_hash, identity);
    let end = 2 + session_hash.len() as int;
    assert(d.subrange(0, 2) =~= bytes::le16(session_hash.len() as int));
    bytes::le16_reads_back(d, 0, session_hash.len() as int);
    assert(d.subrange(2, end) =~= session_hash);
    assert(d.subrange(end, d.len() as int) =~= identity);
    encoding::base64url_reads_back(d);
    parameter_reads_back(base, d);
}

/// An invite link with two keys parses to the session hash and the keys; as a bundle it has no
/// prekey.
pub proof fn invite_of_two_keys_parses(base: Seq<char>, session_hash: Seq<u8>, public_key: Seq<u8>, signing_key: Seq<u8>)
    requires
        session_hash.len() < 65536,
        public_key.len() < 65536,
        signing_key.len() < 65536,
        first_at(without_slashes(base), "?invite="@, 0) is None,
    ensures
        ({
            let url = invite_url(base, invite_bytes(session_hash, identity_bytes(public_key, signing_key)));
            &&& invite_of(url) == Ok::<(Seq<u8>, Seq<u8>, Seq<u8>), Seq<char>>((session_hash, public_key, signing_key))
            &&& public_key.len() % 256 != IDENTITY_V9_VERSION ==> invite_bundle_of(url) == Ok::<
                (Seq<u8>, BundleView),
                Seq<char>,
            >((session_hash, bare_bundle(public_key, signing_key)))
        }),
{
    let d = identity_bytes(public_key, signing_key);
    two_keys_head(public_key, signing_key);
    invite_reads_back(base, session_hash, d);
    if public_key.len() % 256 != IDENTITY_V9_VERSION {
        two_keys_decode_to_bare_bundle(public_key, signing_key);
    }
}

proof fn two_keys_head(public_key: Seq<u8>, signing_key: Seq<u8>)
    requires
        public_key.len() < 65536,
        signing_key.len() < 65536,
    ensures
        ({
            let d = identity_bytes(public_key, signing_key);
            &&& identity_of(d) == Ok::<(Seq<u8>, Seq<u8>), Seq<char>>((public_key, signing_key))
            &&& d.len() == 4 + public_key.len() + signing_key.len()
            &&& bytes::le16_at(d, 0) == public_key.len()
        }),
{
    let d = identity_bytes(public_key, signing_key);
    identity_reads_back(public_key, signing_key, Seq::empty());
    assert(d + Seq::<u8>::empty() =~= d);
    assert(d.subrange(0, 2) =~= bytes::le16(public_key.len() as int));
    bytes::le16_reads_back(d, 0, public_key.len() as int);
}

/// An invite link with the KEM key alone parses with an empty signing key.
pub proof fn invite_of_one_key_parses(base: Seq<char>, session_hash: Seq<u8>, public_key: Seq<u8>)
    requires
        session_hash.len() < 65536,
        public_key.len() < 65536,
        first_at(without_slashes(base), "?invite="@, 0) is None,
    ensures
        ({
            let url = invite_url(
                base,
                invite_bytes(session_hash, bytes::le16(public_key.len() as int) + public_key),
            );
            &&& invite_of(url) == Ok::<(Seq<u8>, Seq<u8>, Seq<u8>), Seq<char>>(
                (session_hash, public_key, Seq::empty()),
            )
            &&& public_key.len() % 256 != IDENTITY_V9_VERSION ==> invite_bundle_of(url) == Ok::<
                (Seq<u8>, BundleView),
                Seq<char>,
            >((session_hash, bare_bundle(public_key, Seq::empty())))
        }),
{
    let d = bytes::le16(public_key.len() as int) + public_key;
    invite_reads_back(base, session_hash, d);
    assert(d.subrange(0, 2) =~= bytes::le16(public_key.len() as int));
    bytes::le16_reads_back(d, 0, public_key.len() as int);
    assert(d.subrange(2, d.len() as int) =~= public_key);
    assert(d[0] == bytes::le16(public_key.len() as int)[0]);
}

/// An invite link with a full bundle parses to the session hash and the bundle.
pub proof fn invite_of_bundle_parses(base: Seq<char>, session_hash: Seq<u8>, b: BundleView)
    requires
        session_hash.len() < 65536,
        full_bundle(b),
        first_at(without_slashes(base), "?invite="@, 0) is None,
    ensures
        invite_bundle_of(invite_url(base, invite_bytes(session_hash, bundle_bytes(b)))) == Ok::<
            (Seq<u8>, BundleView),
            Seq<char>,
        >((session_hash, b)),
{
    invite_reads_back(base, session_hash, bundle_bytes(b));
    bundle_reads_back(b, Seq::empty());
    assert(bundle_bytes(b) + Seq::<u8>::empty() =~= bundle_bytes(b));
    assert(bundle_bytes(b)[0] == IDENTITY_V9_VERSION);
}

proof fn first_at_skips(s: Seq<char>, m: Seq<char>, from: int, to: int)
    requires
        0 <= from <= to,
        m.len() > 0,
        to + m.len() <= s.len(),
        forall|i: int| from <= i < to ==> #[trigger] s.subrange(i, i + m.len()) != m,
        s.subrange(to, to + m.len()) == m,
    ensures
        first_at(s, m, from) == Some(to),
    decreases to - from,
{
    if from < to {
        assert(s.subrange(from, from + m.len()) != m);
        first_at_skips(s, m, from + 1, to);
    }
}

proof fn first_at_none(s: Seq<char>, m: Seq<char>, from: int)
    requires
        0 <= from,
        m.len() > 0,
        forall|i: int| from <= i && i + m.len() <= s.len() ==> #[trigger] s.subrange(i, i + m.len()) != m,
    ensures
        first_at(s, m, from) is None,
    decreases s.len() - from,
{
    if from + m.len() <= s.len() {
        assert(s.subrange(from, from + m.len()) != m);
        first_at_none(s, m, from + 1);
    }
}

proof fn none_means_nowhere(s: Seq<char>, m: Seq<char>, from: int, i: int)
    requires
        0 <= from <= i,
        m.len() > 0,
        i + m.len() <= s.len(),
        first_at(s, m, from) is None,
    ensures
        s.subrange(i, i + m.len()) != m,
    decreases i - from,
{
    if from < i {
        none_means_nowhere(s, m, from + 1, i);
    }
}

proof fn parameter_reads_back(base: Seq<char>, d: Seq<u8>)
    requires
        first_at(without_slashes(base), "?invite="@, 0) is None,
    ensures
        parameter_of(invite_url(base, d)) == Some(encoding::base64url(d)),
{
    reveal_strlit("?invite=");
    reveal_strlit("/?invite=");
    let m = "?invite="@;
    let t = without_slashes(base);
    let b64 = encoding::base64url(d);
    let url = invite_url(base, d);
    let at = t.len() as int + 1;
    assert(url.subrange(at, at + 8) =~= m);
    assert forall|i: int| 0 <= i < at implies #[trigger] url.subrange(i, i + m.len()) != m by {
        let w = url.subrange(i, i + 8);
        if i + 8 <= t.len() {
            none_means_nowhere(t, m, 0, i);
            assert(w =~= t.subrange(i, i + 8));
        } else {
            assert(w[t.len() - i] == url[t.len() as int]);
            assert(url[t.len() as int] == '/');
            assert(m[t.len() - i] != '/');
        }
    }
    first_at_skips(url, m, 0, at);
    assert forall|i: int| at + 8 <= i && i + m.len() <= url.len() implies #[trigger] url.subrange(i, i + m.len())
        != m by {
        assert(url.subrange(i, i + 8)[0] == url[i]);
        assert(url[i] == b64[i - at - 8]);
        encoding::base64url_is_plain(d, i - at - 8);
        assert(m[0] == '?');
    }
    first_at_none(url, m, at + 8);
    assert(url.subrange(at + 8, url.len() as int) =~= b64);
}

fn find(s: &Vec<char>, m: &Vec<char>, from: usize) -> (r: Option<usize>)
    requires
        from <= s@.len(),
        m@.len() > 0,
    ensures
        match r {
            Some(i) => first_at(s@, m@, from as int) == Some(i as int) && from <= i && i + m@.len() <= s@.len(),
            None => first_at(s@, m@, from as int) is None,
        },
{
    let mut i: usize = from;
    while m.len() <= s.len() - i
        invariant
            from <= i <= s@.len(),
            m@.len() > 0,
            first_at(s@, m@, from as int) == first_at(s@, m@, i as int),
        decreases s@.len() - i,
    {
        let mut k: usize = 0;
        while k < m.len() && s[i + k] == m[k]
            invariant
                k <= m@.len(),
                i + m@.len() <= s@.len(),
                s@.len() <= usize::MAX,
                forall|j: int| 0 <= j < k ==> s@[i + j] == m@[j],
            decreases m@.len() - k,
        {
            k = k + 1;
        }
        if k == m.len() {
            assert(s@.subrange(i as int, i + m@.len()) =~= m@);
            return Some(i);
        }
        assert(s@.subrange(i as int, i + m@.len())[k as int] != m@[k as int]);
        i = i + 1;
    }
    None
}

fn invite_parameter(url: &str) -> (r: Option<String>)
    ensures
        match r {
            Some(s) => parameter_of(url@) == Some(s@),
            None => parameter_of(url@) is None,
        },
{
    proof {
        reveal_strlit("?invite=");
    }
    let chars = chars_of(url);
    let marker = chars_of("?invite=");
    let total: usize = chars.len();
    let start: usize = match find(&chars, &marker, 0) {
        Some(i) => i + marker.len(),
        None => {
            return None;
        },
    };
    let end: usize = match find(&chars, &marker, start) {
        Some(j) => j,
        None => total,
    };
    Some(text_of(&chars, start, end))
}

fn trim_slashes(s: &str) -> (r: String)
    ensures
        r@ == without_slashes(s@),
{
    let chars = chars_of(s);
    let mut n: usize = chars.len();
    assert(chars@.take(n as int) =~= chars@);
    while n > 0 && chars[n - 1] == '/'
        invariant
            n <= chars@.len(),
            without_slashes(chars@) == without_slashes(chars@.take(n as int)),
        decreases n,
    {
        assert(chars@.take(n as int).drop_last() =~= chars@.take(n - 1));
        n = n - 1;
    }
    assert(chars@.subrange(0, n as int) =~= chars@.take(n as int));
    text_of(&chars, 0, n)
}

fn invite_link(session_hash: &[u8], identity: &[u8], base_url: &str) -> (r: String)
    ensures
        r@ == invite_url(base_url@, invite_bytes(session_hash@, identity@)),
{
    let mut data: Vec<u8> = Vec::new();
    push_le16(&mut data, session_hash.len());
    data.extend_from_slice(session_hash);
    data.extend_from_slice(identity);
    assert(data@ =~= invite_bytes(session_hash@, identity@));
    let encoded = base64_encode(&data);
    let mut link = trim_slashes(base_url);
    link.append("/?invite=");
    link.append(&encoded);
    link
}

} // verus!
