//! The message header.
//!
//! ```text
//! msg := header ‖ AEAD ciphertext
//! header :=
//!   1B  version (0x0A)
//!   1B  flags: 0x01 always, 0x02 KEM advertisement, 0x04 KEM ciphertext present
//!   4B  pn (u32 LE, previous sending-chain length)
//!   4B  n (u32 LE, sending-chain message number)
//!   32B dh_pub         (sender's current X25519 ratchet public key)
//!   [1568B kem_pk]     (if 0x02)
//!   [1568B kem_ct]     (if 0x04)
//! ```

use crate::bytes::{push_le32, read_le32, slice_of, to_array32};
use crate::ratchet::{DecryptError, KEM_CT_LEN, KEM_PK_LEN, PKG_VERSION};
use crate::bytes;
use crate::ratchet::kdf;
use vstd::prelude::*;

verus! {

broadcast use vstd::array::group_array_axioms;

/// Flag that every header carries.
pub const FLAG_DH: u8 = 0x01;

/// Flag of a header that advertises a KEM key.
pub const FLAG_KEM_PK: u8 = 0x02;

/// Flag of a header with a KEM ciphertext.
pub const FLAG_KEM_CT: u8 = 0x04;

/// Length of a header without KEM parts.
pub const HEADER_LEN: usize = 42;

/// What a header says.
#[verifier::ext_equal]
pub struct HeaderView {
    pub flags: u8,
    pub pn: u32,
    pub n: u32,
    pub dh_pub: Seq<u8>,
    pub kem_pk: Option<Seq<u8>>,
    pub kem_ct: Option<Seq<u8>>,
    pub len: nat,
}

/// The flags of a header with or without the two KEM parts.
pub open spec fn header_flags(kem_pk: Option<Seq<u8>>, kem_ct: Option<Seq<u8>>) -> u8 {
    (FLAG_DH + if kem_pk is Some { FLAG_KEM_PK } else { 0 } + if kem_ct is Some { FLAG_KEM_CT } else { 0 }) as u8
}

/// The bytes of a part that may be absent.
pub open spec fn part(o: Option<Seq<u8>>) -> Seq<u8> {
    match o {
        Some(s) => s,
        None => Seq::empty(),
    }
}

/// The bytes of a header.
pub open spec fn header_bytes(
    pn: u32,
    n: u32,
    dh_pub: Seq<u8>,
    kem_pk: Option<Seq<u8>>,
    kem_ct: Option<Seq<u8>>,
) -> Seq<u8> {
    seq![PKG_VERSION, header_flags(kem_pk, kem_ct)] + bytes::le32(pn as int) + bytes::le32(n as int)
        + dh_pub + part(kem_pk) + part(kem_ct)
}

/// What the header of a package says; nothing where the package is no message.
pub open spec fn header_of(pkg: Seq<u8>) -> Option<HeaderView> {
    if pkg.len() < HEADER_LEN + 16 || pkg[0] != PKG_VERSION || pkg[1] & FLAG_DH == 0 {
        None
    } else {
        let flags = pkg[1];
        let at_ct = HEADER_LEN + if flags & FLAG_KEM_PK != 0 { KEM_PK_LEN as int } else { 0 };
        let end = at_ct + if flags & FLAG_KEM_CT != 0 { KEM_CT_LEN as int } else { 0 };
        if pkg.len() < end {
            None
        } else {
            Some(
                HeaderView {
                    flags,
                    pn: bytes::le32_at(pkg, 2) as u32,
                    n: bytes::le32_at(pkg, 6) as u32,
                    dh_pub: pkg.subrange(10, 42),
                    kem_pk: if flags & FLAG_KEM_PK != 0 {
                        Some(pkg.subrange(HEADER_LEN as int, at_ct))
                    } else {
                        None
                    },
                    kem_ct: if flags & FLAG_KEM_CT != 0 {
                        Some(pkg.subrange(at_ct, end))
                    } else {
                        None
                    },
                    len: end as nat,
                },
            )
        }
    }
}

/// A header is the version byte 0x0A, the flags, the length of the previous chain and the number, four
/// bytes each and the lowest first, the ratchet key, and the KEM parts that the flags announce.
pub proof fn header_layout(pn: u32, n: u32, dh_pub: Seq<u8>, kem_pk: Option<Seq<u8>>, kem_ct: Option<Seq<u8>>)
    requires
        dh_pub.len() == 32,
    ensures
        ({
            let d = header_bytes(pn, n, dh_pub, kem_pk, kem_ct);
            let pk = match kem_pk {
                Some(k) => k,
                None => Seq::<u8>::empty(),
            };
            let ct = match kem_ct {
                Some(c) => c,
                None => Seq::<u8>::empty(),
            };
            &&& d.len() == 42 + pk.len() + ct.len()
            &&& d[0] == 0x0A
            &&& d[1] == 1 + (if kem_pk is Some {
                2int
            } else {
                0
            }) + (if kem_ct is Some {
                4int
            } else {
                0
            })
            &&& d[2] as int + 256 * (d[3] as int) + 65536 * (d[4] as int) + 16777216 * (d[5] as int) == pn
            &&& d[6] as int + 256 * (d[7] as int) + 65536 * (d[8] as int) + 16777216 * (d[9] as int) == n
            &&& d.subrange(10, 42) == dh_pub
            &&& d.subrange(42, 42 + pk.len() as int) == pk
            &&& d.skip(42 + pk.len() as int) == ct
        }),
{
    bytes::le32_is_little_endian(pn as int);
    bytes::le32_is_little_endian(n as int);
    let d = header_bytes(pn, n, dh_pub, kem_pk, kem_ct);
    let (a, b) = (bytes::le32(pn as int), bytes::le32(n as int));
    assert(d[2] == a[0] && d[3] == a[1] && d[4] == a[2] && d[5] == a[3]);
    assert(d[6] == b[0] && d[7] == b[1] && d[8] == b[2] && d[9] == b[3]);
    assert(d.subrange(10, 42) =~= dh_pub);
    assert(d.subrange(42, 42 + part(kem_pk).len() as int) =~= part(kem_pk));
    assert(d.skip(42 + part(kem_pk).len() as int) =~= part(kem_ct));
}

/// A package has a header exactly where it has the version byte 0x0A, the lowest flag, and enough bytes
/// for the parts that the flags announce and, without these, for a tag; the header says what stands
/// at its places.
pub proof fn header_stands_in_front(pkg: Seq<u8>)
    ensures
        ({
            let pk_len = if pkg[1] & 2u8 != 0 {
                1568int
            } else {
                0
            };
            let ct_len = if pkg[1] & 4u8 != 0 {
                1568int
            } else {
                0
            };
            &&& header_of(pkg) is Some <==> pkg.len() >= 58 && pkg[0] == 0x0A && pkg[1] & 1u8 != 0 && pkg.len() >= 42 + pk_len
                + ct_len
            &&& header_of(pkg) matches Some(h) ==> {
                &&& h.flags == pkg[1]
                &&& h.pn == pkg[2] as int + 256 * (pkg[3] as int) + 65536 * (pkg[4] as int) + 16777216 * (pkg[5] as int)
                &&& h.n == pkg[6] as int + 256 * (pkg[7] as int) + 65536 * (pkg[8] as int) + 16777216 * (pkg[9] as int)
                &&& h.dh_pub == pkg.subrange(10, 42)
                &&& pk_len > 0 ==> h.kem_pk == Some(pkg.subrange(42, 42 + pk_len))
                &&& pk_len == 0 ==> h.kem_pk is None
                &&& ct_len > 0 ==> h.kem_ct == Some(pkg.subrange(42 + pk_len, 42 + pk_len + ct_len))
                &&& ct_len == 0 ==> h.kem_ct is None
                &&& h.len == 42 + pk_len + ct_len
            }
        }),
{
    if header_of(pkg) is Some {
        bytes::le32_writes_back(pkg, 2);
        bytes::le32_writes_back(pkg, 6);
    }
}

/// What a package carries behind a built header is read back as it was put in.
pub proof fn header_reads_back(
    pn: u32,
    n: u32,
    dh_pub: Seq<u8>,
    kem_pk: Option<Seq<u8>>,
    kem_ct: Option<Seq<u8>>,
    rest: Seq<u8>,
)
    requires
        dh_pub.len() == 32,
        kem_pk matches Some(k) ==> k.len() == KEM_PK_LEN,
        kem_ct matches Some(c) ==> c.len() == KEM_CT_LEN,
        rest.len() >= 16,
    ensures
        header_of(header_bytes(pn, n, dh_pub, kem_pk, kem_ct) + rest) == Some(
            HeaderView {
                flags: header_flags(kem_pk, kem_ct),
                pn,
                n,
                dh_pub,
                kem_pk,
                kem_ct,
                len: header_bytes(pn, n, dh_pub, kem_pk, kem_ct).len(),
            },
        ),
{
    let h = header_bytes(pn, n, dh_pub, kem_pk, kem_ct);
    let pkg = h + rest;
    let flags = header_flags(kem_pk, kem_ct);
    assert(1u8 & 1u8 == 1u8 && 1u8 & 2u8 == 0u8 && 1u8 & 4u8 == 0u8) by (bit_vector);
    assert(3u8 & 1u8 == 1u8 && 3u8 & 2u8 == 2u8 && 3u8 & 4u8 == 0u8) by (bit_vector);
    assert(5u8 & 1u8 == 1u8 && 5u8 & 2u8 == 0u8 && 5u8 & 4u8 == 4u8) by (bit_vector);
    assert(7u8 & 1u8 == 1u8 && 7u8 & 2u8 == 2u8 && 7u8 & 4u8 == 4u8) by (bit_vector);
    assert(pkg.subrange(2, 6) =~= bytes::le32(pn as int));
    bytes::le32_reads_back(pkg, 2, pn as int);
    assert(pkg.subrange(6, 10) =~= bytes::le32(n as int));
    bytes::le32_reads_back(pkg, 6, n as int);
    assert(pkg.subrange(10, 42) =~= dh_pub);
    assert(pkg.subrange(42, 42 + part(kem_pk).len() as int) =~= part(kem_pk));
    assert(pkg.subrange(42 + part(kem_pk).len() as int, h.len() as int) =~= part(kem_ct));
}

/// A parsed header.
pub struct Header {
    pub flags: u8,
    pub pn: u32,
    pub n: u32,
    pub dh_pub: [u8; 32],
    pub kem_pk: Option<Vec<u8>>,
    pub kem_ct: Option<Vec<u8>>,
    pub len: usize,
}

impl View for Header {
    type V = HeaderView;

    open spec fn view(&self) -> HeaderView {
        HeaderView {
            flags: self.flags,
            pn: self.pn,
            n: self.n,
            dh_pub: self.dh_pub@,
            kem_pk: kdf::opt_bytes(self.kem_pk),
            kem_ct: kdf::opt_bytes(self.kem_ct),
            len: self.len as nat,
        }
    }
}

/// The plain form of a parsed header is its fields.
pub proof fn header_is_faithful(h: Header)
    ensures
        h@.flags == h.flags,
        h@.pn == h.pn,
        h@.n == h.n,
        h@.dh_pub == h.dh_pub@,
        h.kem_pk matches Some(k) ==> h@.kem_pk == Some(k@),
        h.kem_pk is None ==> h@.kem_pk is None,
        h.kem_ct matches Some(c) ==> h@.kem_ct == Some(c@),
        h.kem_ct is None ==> h@.kem_ct is None,
        h@.len == h.len,
{
}

/// Writes a header.
pub fn build_header(
    pn: u32,
    n: u32,
    dh_pub: &[u8; 32],
    kem_pk: &Option<Vec<u8>>,
    kem_ct: &Option<Vec<u8>>,
) -> (h: Vec<u8>)
    ensures
        h@ == header_bytes(
            pn,
            n,
            dh_pub@,
            kdf::opt_bytes(*kem_pk),
            kdf::opt_bytes(*kem_ct),
        ),
{
    let mut flags: u8 = FLAG_DH;
    if kem_pk.is_some() {
        flags = flags + FLAG_KEM_PK;
    }
    if kem_ct.is_some() {
        flags = flags + FLAG_KEM_CT;
    }
    let mut h: Vec<u8> = Vec::new();
    h.push(PKG_VERSION);
    h.push(flags);
    assert(h@ =~= seq![PKG_VERSION, flags]);
    push_le32(&mut h, pn);
    push_le32(&mut h, n);
    h.extend_from_slice(dh_pub);
    if let Some(pk) = kem_pk {
        h.extend_from_slice(pk);
    }
    if let Some(ct) = kem_ct {
        h.extend_from_slice(ct);
    }
    assert(h@ =~= header_bytes(
        pn,
        n,
        dh_pub@,
        kdf::opt_bytes(*kem_pk),
        kdf::opt_bytes(*kem_ct),
    ));
    h
}

/// Reads the header of a package.
pub fn parse_header(pkg: &[u8]) -> (r: Result<Header, DecryptError>)
    ensures
        match r {
            Ok(h) => header_of(pkg@) == Some(h@),
            Err(e) => header_of(pkg@) is None && e == DecryptError::Malformed,
        },
{
    if pkg.len() < HEADER_LEN + 16 {
        return Err(DecryptError::Malformed);
    }
    if pkg[0] != PKG_VERSION {
        return Err(DecryptError::Malformed);
    }
    let flags: u8 = pkg[1];
    if flags & FLAG_DH == 0 {
        return Err(DecryptError::Malformed);
    }
    let pn = read_le32(pkg, 2);
    let n = read_le32(pkg, 6);
    let dh_pub = to_array32(vstd::slice::slice_subrange(pkg, 10, 42));
    let mut pos: usize = HEADER_LEN;
    let mut kem_pk: Option<Vec<u8>> = None;
    if flags & FLAG_KEM_PK != 0 {
        if pkg.len() - pos < KEM_PK_LEN {
            return Err(DecryptError::Malformed);
        }
        kem_pk = Some(slice_of(pkg, pos, pos + KEM_PK_LEN));
        pos = pos + KEM_PK_LEN;
    }
    let mut kem_ct: Option<Vec<u8>> = None;
    if flags & FLAG_KEM_CT != 0 {
        if pkg.len() - pos < KEM_CT_LEN {
            return Err(DecryptError::Malformed);
        }
        kem_ct = Some(slice_of(pkg, pos, pos + KEM_CT_LEN));
        pos = pos + KEM_CT_LEN;
    }
    Ok(Header { flags, pn, n, dh_pub, kem_pk, kem_ct, len: pos })
}

/// The sender's current X25519 ratchet public key in a package header. The responder's bootstrap
/// needs it: it is the initiator's ephemeral key.
pub fn package_sender_key(package: &[u8]) -> (r: Option<[u8; 32]>)
    ensures
        match r {
            Some(k) => {
                &&& header_of(package@) is Some
                &&& k@ == header_of(package@)->Some_0.dh_pub
                &&& k@ == package@.subrange(10, 42)
            },
            None => header_of(package@) is None,
        },
{
    match parse_header(package) {
        Ok(h) => Some(h.dh_pub),
        Err(_) => None,
    }
}

} // verus!
