//! # TLS material
//!
//! The certificates and the private key that a TLS server presents, from the contents of two PEM
//! files. The parser is that of `rustls_pemfile`; which of its results make a server is decided here.

use crate::text::join;
use vstd::prelude::*;

verus! {

/// A private key in DER, by the format that its PEM section names.
#[derive(Debug)]
pub enum PrivateKey {
    /// An RSA key (`RSA PRIVATE KEY`).
    Pkcs1(Vec<u8>),
    /// An elliptic-curve key (`EC PRIVATE KEY`).
    Sec1(Vec<u8>),
    /// A key of any algorithm (`PRIVATE KEY`).
    Pkcs8(Vec<u8>),
}

impl View for PrivateKey {
    type V = (int, Seq<u8>);

    /// The number of the PKCS standard, or 0 for SEC 1, and the DER bytes.
    open spec fn view(&self) -> (int, Seq<u8>) {
        match self {
            PrivateKey::Pkcs1(der) => (1, der@),
            PrivateKey::Sec1(der) => (0, der@),
            PrivateKey::Pkcs8(der) => (8, der@),
        }
    }
}

// ── PEM ─────────────────────────────────────────────────────────────

/// The certificates in a PEM file, in DER and in order, or why it cannot be read.
pub uninterp spec fn pem_certs_of(data: Seq<u8>) -> Result<Seq<Seq<u8>>, Seq<char>>;

/// The first private key in a PEM file, if there is one, or why the file cannot be read.
pub uninterp spec fn pem_key_of(data: Seq<u8>) -> Result<Option<(int, Seq<u8>)>, Seq<char>>;

/// The contents of byte strings.
pub open spec fn contents(v: Seq<Vec<u8>>) -> Seq<Seq<u8>> {
    Seq::new(v.len(), |i: int| v[i]@)
}

/// The plain contents of parsed certificates.
pub open spec fn plain_certs(r: Result<Vec<Vec<u8>>, String>) -> Result<Seq<Seq<u8>>, Seq<char>> {
    match r {
        Ok(certs) => Ok(contents(certs@)),
        Err(e) => Err(e@),
    }
}

/// The plain contents of a parsed private key.
pub open spec fn plain_key(r: Result<Option<PrivateKey>, String>) -> Result<Option<(int, Seq<u8>)>, Seq<char>> {
    match r {
        Ok(Some(key)) => Ok(Some(key@)),
        Ok(None) => Ok(None),
        Err(e) => Err(e@),
    }
}

/// Outside call: `rustls_pemfile::certs` on bytes in memory: the certificates of the file up to its
/// end, or the text of the first error. What they are has a name only.
#[verifier::external_body]
pub(crate) fn pem_certs(data: &[u8]) -> (r: Result<Vec<Vec<u8>>, String>)
    ensures
        plain_certs(r) == pem_certs_of(data@),
{
    let mut reader = data;
    let certs = rustls_pemfile::certs(&mut reader).collect::<Result<Vec<_>, _>>();
    let certs = certs.map_err(|e| e.to_string())?;
    Ok(certs.iter().map(|cert| cert.as_ref().to_vec()).collect())
}

/// Outside call: `rustls_pemfile::private_key` on bytes in memory: the first private key of the
/// file, or the text of an error in front of it. What it is has a name only. A key is of one of three
/// formats.
#[verifier::external_body]
pub(crate) fn pem_key(data: &[u8]) -> (r: Result<Option<PrivateKey>, String>)
    ensures
        plain_key(r) == pem_key_of(data@),
{
    let mut reader = data;
    let key = rustls_pemfile::private_key(&mut reader).map_err(|e| e.to_string())?;
    Ok(
        match key {
            None => None,
            Some(rustls::pki_types::PrivateKeyDer::Pkcs1(k)) => Some(PrivateKey::Pkcs1(k.secret_pkcs1_der().to_vec())),
            Some(rustls::pki_types::PrivateKeyDer::Sec1(k)) => Some(PrivateKey::Sec1(k.secret_sec1_der().to_vec())),
            Some(k) => Some(PrivateKey::Pkcs8(k.secret_der().to_vec())),
        },
    )
}

// ── What a server presents ──────────────────────────────────────────

/// The certificates that a server presents, by how its certificate file parsed.
pub open spec fn presented_certs(parsed: Result<Seq<Seq<u8>>, Seq<char>>) -> Result<Seq<Seq<u8>>, Seq<char>> {
    match parsed {
        Err(e) => Err("Failed to parse cert file: "@ + e),
        Ok(certs) => if certs.len() == 0 {
            Err("No certificates found in cert file"@)
        } else {
            Ok(certs)
        },
    }
}

/// The private key that a server uses, by how its key file parsed.
pub open spec fn presented_key(parsed: Result<Option<(int, Seq<u8>)>, Seq<char>>) -> Result<
    (int, Seq<u8>),
    Seq<char>,
> {
    match parsed {
        Err(e) => Err("Failed to parse key file: "@ + e),
        Ok(None) => Err("No private key found in key file"@),
        Ok(Some(key)) => Ok(key),
    }
}

/// What a server presents, by how its two files parsed. A fault of the certificates comes first.
pub open spec fn presented(
    certs: Result<Seq<Seq<u8>>, Seq<char>>,
    key: Result<Option<(int, Seq<u8>)>, Seq<char>>,
) -> Result<(Seq<Seq<u8>>, (int, Seq<u8>)), Seq<char>> {
    match (presented_certs(certs), presented_key(key)) {
        (Err(e), _) => Err(e),
        (Ok(_), Err(e)) => Err(e),
        (Ok(c), Ok(k)) => Ok((c, k)),
    }
}

/// Parsed certificates are presented as they are, all of them and in order, and a parsed key is used
/// as it is, in the format it came in.
pub proof fn parsed_material_is_presented(certs: Vec<Vec<u8>>, key: PrivateKey)
    requires
        certs@.len() > 0,
    ensures
        presented(plain_certs(Ok(certs)), plain_key(Ok(Some(key)))) == Ok::<
            (Seq<Seq<u8>>, (int, Seq<u8>)),
            Seq<char>,
        >((contents(certs@), key@)),
        contents(certs@).len() == certs@.len(),
        forall|i: int| 0 <= i < certs@.len() ==> #[trigger] contents(certs@)[i] == certs@[i]@,
        key matches PrivateKey::Pkcs1(der) ==> key@.1 == der@,
        key matches PrivateKey::Sec1(der) ==> key@.1 == der@,
        key matches PrivateKey::Pkcs8(der) ==> key@.1 == der@,
{
}

/// The format of a private key shows in its plain form.
pub proof fn key_formats_differ(a: PrivateKey, b: PrivateKey)
    requires
        a@ == b@,
    ensures
        a is Pkcs1 <==> b is Pkcs1,
        a is Sec1 <==> b is Sec1,
        a is Pkcs8 <==> b is Pkcs8,
{
}

/// Nothing is presented where a file does not parse, has no certificate, or has no key. What is said
/// names the file and passes the parser's words on; the certificate file comes first.
pub proof fn faults_of_files_are_told(
    certs: Seq<Seq<u8>>,
    words: Seq<char>,
    parsed_key: Result<Option<(int, Seq<u8>)>, Seq<char>>,
)
    ensures
        presented(Err(words), parsed_key) == Err::<(Seq<Seq<u8>>, (int, Seq<u8>)), Seq<char>>(
            "Failed to parse cert file: "@ + words,
        ),
        presented(Ok(Seq::empty()), parsed_key) == Err::<(Seq<Seq<u8>>, (int, Seq<u8>)), Seq<char>>(
            "No certificates found in cert file"@,
        ),
        certs.len() > 0 ==> presented(Ok(certs), Err(words)) == Err::<(Seq<Seq<u8>>, (int, Seq<u8>)), Seq<char>>(
            "Failed to parse key file: "@ + words,
        ),
        certs.len() > 0 ==> presented(Ok(certs), Ok(None)) == Err::<(Seq<Seq<u8>>, (int, Seq<u8>)), Seq<char>>(
            "No private key found in key file"@,
        ),
        presented_certs(Err(words)) == Err::<Seq<Seq<u8>>, Seq<char>>("Failed to parse cert file: "@ + words),
        certs.len() > 0 ==> presented_certs(Ok(certs)) == Ok::<Seq<Seq<u8>>, Seq<char>>(certs),
        presented_certs(Ok(Seq::empty())) == Err::<Seq<Seq<u8>>, Seq<char>>("No certificates found in cert file"@),
{
}

/// The certificates to present, from parsed ones: at least one.
pub fn certs_from(parsed: Result<Vec<Vec<u8>>, String>) -> (r: Result<Vec<Vec<u8>>, String>)
    ensures
        plain_certs(r) == presented_certs(plain_certs(parsed)),
{
    match parsed {
        Err(e) => Err(join("Failed to parse cert file: ", &e)),
        Ok(certs) => if certs.len() == 0 {
            Err("No certificates found in cert file".to_owned())
        } else {
            Ok(certs)
        },
    }
}

/// The private key to use, from a parsed one.
pub fn key_from(parsed: Result<Option<PrivateKey>, String>) -> (r: Result<PrivateKey, String>)
    ensures
        match r {
            Ok(key) => presented_key(plain_key(parsed)) == Ok::<(int, Seq<u8>), Seq<char>>(key@),
            Err(e) => presented_key(plain_key(parsed)) == Err::<(int, Seq<u8>), Seq<char>>(e@),
        },
{
    match parsed {
        Err(e) => Err(join("Failed to parse key file: ", &e)),
        Ok(None) => Err("No private key found in key file".to_owned()),
        Ok(Some(key)) => Ok(key),
    }
}

/// The certificates to present, from the contents of a PEM file.
pub fn tls_certs(cert_pem: &[u8]) -> (r: Result<Vec<Vec<u8>>, String>)
    ensures
        plain_certs(r) == presented_certs(pem_certs_of(cert_pem@)),
{
    certs_from(pem_certs(cert_pem))
}

/// The certificates to present and the private key to use, from the contents of two PEM files.
pub fn tls_material(cert_pem: &[u8], key_pem: &[u8]) -> (r: Result<(Vec<Vec<u8>>, PrivateKey), String>)
    ensures
        match r {
            Ok((certs, key)) => presented(pem_certs_of(cert_pem@), pem_key_of(key_pem@)) == Ok::<
                (Seq<Seq<u8>>, (int, Seq<u8>)),
                Seq<char>,
            >((contents(certs@), key@)),
            Err(e) => presented(pem_certs_of(cert_pem@), pem_key_of(key_pem@)) == Err::<
                (Seq<Seq<u8>>, (int, Seq<u8>)),
                Seq<char>,
            >(e@),
        },
{
    let certs = tls_certs(cert_pem)?;
    let key = key_from(pem_key(key_pem))?;
    Ok((certs, key))
}

} // verus!
