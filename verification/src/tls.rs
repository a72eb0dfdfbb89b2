//! The server's TLS identity: a certificate chain and its private key.
//!
//! An identity is generated on the first start, kept as two PEM files, and read
//! back on every later start, so that clients see the same certificate each time.
//! A key file that others than its owner can read is turned down.

use der::Decode;
use rustls::pki_types::PrivateKeyDer;
use vstd::prelude::*;

use crate::paths;
use crate::text;

verus! {

pub const CERT_FILE: &'static str = "cert.pem";

pub const KEY_FILE: &'static str = "key.pem";

/// Where the files go below the home directory.
pub const CERT_DIR: &'static str = "Library/Application Support/macrdp";

/// The name that a generated certificate is for.
pub const CERT_NAME: &'static str = "localhost";

/// The permissions that a key file gets: its owner's alone.
pub const KEY_MODE: u32 = 0o600;

/// Why there is no identity.
#[derive(Debug, Clone, Copy, PartialEq, Eq, Structural)]
pub enum TlsError {
    /// The home directory is not known, and no other place was given.
    NoHome,
    /// The certificate file is not well-formed PEM.
    CertParse,
    /// The certificate file holds no certificate.
    NoCertificates,
    /// The key file can be used by others than its owner.
    KeyAccessible { mode: u32 },
    /// The key file is not well-formed PEM.
    KeyParse,
    /// The key file holds no private key.
    NoPrivateKey,
    /// No identity could be generated.
    Generate,
    /// The generated key is of no known format.
    ConvertKey,
    /// There is no certificate to take the public key of.
    EmptyChain,
    /// The certificate itself is malformed.
    CertDer,
}

/// The format of a private key.
#[derive(Debug, Clone, Copy, PartialEq, Eq, Structural)]
pub enum KeyFormat {
    Pkcs1,
    Sec1,
    Pkcs8,
}

/// A chain of certificates and a private key, all in DER.
pub struct Identity {
    pub certs: Vec<Vec<u8>>,
    pub format: KeyFormat,
    pub key: Vec<u8>,
}

/// An identity as a value.
pub struct IdentityView {
    pub certs: Seq<Seq<u8>>,
    pub format: KeyFormat,
    pub key: Seq<u8>,
}

/// The contents of a series of byte strings.
pub open spec fn contents(v: Seq<Vec<u8>>) -> Seq<Seq<u8>> {
    v.map_values(|b: Vec<u8>| b@)
}

impl View for Identity {
    type V = IdentityView;

    open spec fn view(&self) -> IdentityView {
        IdentityView { certs: contents(self.certs@), format: self.format, key: self.key@ }
    }
}

/// The certificates in a PEM file, in order; `None` where the file is malformed.
pub uninterp spec fn pem_certs(pem: Seq<u8>) -> Option<Seq<Seq<u8>>>;

/// The first private key in a PEM file, if there is one; `None` where the file is
/// malformed up to that key.
pub uninterp spec fn pem_private_key(pem: Seq<u8>) -> Option<Option<(KeyFormat, Seq<u8>)>>;

/// The contents of the subject's public key in a certificate; `None` where the
/// certificate is malformed.
pub uninterp spec fn subject_public_key(der: Seq<u8>) -> Option<Seq<u8>>;

/// All certificates of a PEM file, by `rustls_pemfile::certs`, up to the first
/// error. Claimed: the outcome depends on the bytes alone.
#[verifier::external_body]
fn read_certs(pem: &[u8]) -> (r: Option<Vec<Vec<u8>>>)
    ensures
        match r {
            Some(v) => pem_certs(pem@) == Some(contents(v@)),
            None => pem_certs(pem@) is None,
        },
{
    let mut reader = pem;
    let certs = rustls_pemfile::certs(&mut reader);
    certs.map(|c| c.map(|der| der.to_vec())).collect::<Result<Vec<_>, _>>().ok()
}

/// The first private key of a PEM file, by `rustls_pemfile::private_key`.
/// Claimed: the outcome depends on the bytes alone.
#[verifier::external_body]
fn read_private_key(pem: &[u8]) -> (r: Option<Option<(KeyFormat, Vec<u8>)>>)
    ensures
        match r {
            Some(Some((format, der))) => pem_private_key(pem@) == Some(Some((format, der@))),
            Some(None) => pem_private_key(pem@) == Some(None::<(KeyFormat, Seq<u8>)>),
            None => pem_private_key(pem@) is None,
        },
{
    let mut reader = pem;
    let key = rustls_pemfile::private_key(&mut reader).ok()?;
    Some(match key {
        Some(PrivateKeyDer::Pkcs1(k)) => Some((KeyFormat::Pkcs1, k.secret_pkcs1_der().to_vec())),
        Some(PrivateKeyDer::Sec1(k)) => Some((KeyFormat::Sec1, k.secret_sec1_der().to_vec())),
        Some(PrivateKeyDer::Pkcs8(k)) => Some((KeyFormat::Pkcs8, k.secret_pkcs8_der().to_vec())),
        _ => None,
    })
}

/// The bits of the subject's public key, by `x509_cert::Certificate::from_der` and
/// `BitString::raw_bytes`: the key itself, without the algorithm it is wrapped
/// with. Claimed: the outcome depends on the bytes alone.
#[verifier::external_body]
fn read_public_key(cert: &[u8]) -> (r: Option<Vec<u8>>)
    ensures
        match r {
            Some(key) => subject_public_key(cert@) == Some(key@),
            None => subject_public_key(cert@) is None,
        },
{
    let parsed = x509_cert::Certificate::from_der(cert).ok()?;
    let info = parsed.tbs_certificate.subject_public_key_info;
    Some(info.subject_public_key.raw_bytes().to_vec())
}

/// Where the contents of the outer sequence of a key start.
pub open spec fn key_body(der: Seq<u8>) -> int {
    if der[1] < 128 {
        2
    } else {
        2 + (der[1] - 128)
    }
}

/// The format of a key in DER: told by its version, and by what follows it.
pub open spec fn key_format(der: Seq<u8>) -> Option<KeyFormat> {
    let at = key_body(der);
    if der.len() < 2 || der[0] != 0x30 || der.len() < at + 3 || der[at] != 2 || der[at + 1] != 1 {
        None
    } else if der.len() >= at + 4 && der[at + 3] == 0x30 {
        Some(KeyFormat::Pkcs8)
    } else if der[at + 2] == 0 {
        Some(KeyFormat::Pkcs1)
    } else if der[at + 2] == 1 {
        Some(KeyFormat::Sec1)
    } else {
        None
    }
}

/// The format of a key, by `rustls::pki_types::PrivateKeyDer::try_from`. Claimed:
/// it looks at the start of the outer sequence alone, as `key_format` says.
#[verifier::external_body]
fn tell_format(der: &[u8]) -> (r: Option<KeyFormat>)
    ensures
        r == key_format(der@),
{
    match PrivateKeyDer::try_from(der).ok()? {
        PrivateKeyDer::Pkcs1(_) => Some(KeyFormat::Pkcs1),
        PrivateKeyDer::Sec1(_) => Some(KeyFormat::Sec1),
        PrivateKeyDer::Pkcs8(_) => Some(KeyFormat::Pkcs8),
        _ => None,
    }
}

/// A certificate and a key that were just made, each in DER and in PEM.
pub struct Generated {
    pub cert_pem: Vec<u8>,
    pub key_pem: Vec<u8>,
    pub cert_der: Vec<u8>,
    pub key_der: Vec<u8>,
}

/// Whether each PEM file holds exactly what stands beside it in DER, the key in
/// the format that its DER has.
pub open spec fn reads_back(g: Generated) -> bool {
    &&& pem_certs(g.cert_pem@) == Some(seq![g.cert_der@])
    &&& key_format(g.key_der@) == Some(KeyFormat::Pkcs8)
    &&& pem_private_key(g.key_pem@) == Some(Some((KeyFormat::Pkcs8, g.key_der@)))
}

/// The DNS names that a certificate is for: those of its subject alternative
/// names, in order.
pub uninterp spec fn certified_names(der: Seq<u8>) -> Seq<Seq<char>>;

/// Whether a text is no IP address: it holds a letter that no such address has.
pub open spec fn host_name(s: Seq<char>) -> bool {
    exists|i: int| 0 <= i < s.len() && 'g' <= #[trigger] s[i] <= 'z'
}

/// A fresh self-signed certificate for `names` and its key, by
/// `rcgen::generate_simple_self_signed`, `Certificate::pem` and `der`, and
/// `KeyPair::serialize_pem` and `serialize_der`.
///
/// Claimed, of an outcome that is otherwise left to chance: the key is in PKCS #8,
/// each PEM file reads back as the DER beside it, and the certificate is for
/// `names`, if none of them is an IP address. When there is an error is not stated:
/// the source of randomness may fail.
#[verifier::external_body]
fn self_signed(names: Vec<String>) -> (r: Option<Generated>)
    ensures
        r matches Some(g) ==> reads_back(g),
        r matches Some(g) ==> (forall|i: int| 0 <= i < names@.len() ==> host_name(names@[i]@))
            ==> certified_names(g.cert_der@) == names@.map_values(|s: String| s@),
{
    let made = rcgen::generate_simple_self_signed(names).ok()?;
    Some(Generated {
        cert_pem: made.cert.pem().into_bytes(),
        key_pem: made.key_pair.serialize_pem().into_bytes(),
        cert_der: made.cert.der().to_vec(),
        key_der: made.key_pair.serialize_der(),
    })
}

/// The certificates of a chain, which has at least one.
pub open spec fn chain(parsed: Option<Seq<Seq<u8>>>) -> Result<Seq<Seq<u8>>, TlsError> {
    match parsed {
        None => Err(TlsError::CertParse),
        Some(certs) => if certs.len() == 0 {
            Err(TlsError::NoCertificates)
        } else {
            Ok(certs)
        },
    }
}

/// Whether a result is the one that is stated, its value taken by its contents.
pub open spec fn chain_is(
    r: Result<Vec<Vec<u8>>, TlsError>,
    stated: Result<Seq<Seq<u8>>, TlsError>,
) -> bool {
    match stated {
        Ok(certs) => r matches Ok(v) && contents(v@) == certs,
        Err(e) => r matches Err(f) && f == e,
    }
}

/// Takes a parsed certificate file as a chain.
pub fn accept_chain(parsed: Option<Vec<Vec<u8>>>) -> (r: Result<Vec<Vec<u8>>, TlsError>)
    ensures
        chain_is(
            r,
            chain(
                match parsed {
                    Some(v) => Some(contents(v@)),
                    None => None,
                },
            ),
        ),
{
    match parsed {
        None => Err(TlsError::CertParse),
        Some(certs) => if certs.len() == 0 {
            Err(TlsError::NoCertificates)
        } else {
            Ok(certs)
        },
    }
}

/// Reads a certificate file.
pub fn load_certs(cert_pem: &[u8]) -> (r: Result<Vec<Vec<u8>>, TlsError>)
    ensures
        chain_is(r, chain(pem_certs(cert_pem@))),
{
    accept_chain(read_certs(cert_pem))
}

/// Whether a file of these permissions is its owner's alone.
pub open spec fn private_mode(mode: u32) -> bool {
    mode % 0o100 == 0
}

/// What is said of a key file with these permissions.
pub open spec fn mode_verdict(mode: u32) -> Result<(), TlsError> {
    if private_mode(mode) {
        Ok(())
    } else {
        Err(TlsError::KeyAccessible { mode: mode % 0o1000 })
    }
}

/// Turns a key file down that others than its owner can use.
pub fn check_key_mode(mode: u32) -> (r: Result<(), TlsError>)
    ensures
        r == mode_verdict(mode),
{
    if mode % 0o100 != 0 {
        Err(TlsError::KeyAccessible { mode: mode % 0o1000 })
    } else {
        Ok(())
    }
}

/// The private key in a parsed key file.
pub open spec fn key_in(
    parsed: Option<Option<(KeyFormat, Seq<u8>)>>,
) -> Result<(KeyFormat, Seq<u8>), TlsError> {
    match parsed {
        None => Err(TlsError::KeyParse),
        Some(None) => Err(TlsError::NoPrivateKey),
        Some(Some(key)) => Ok(key),
    }
}

/// Whether a result is the one that is stated, its value taken by its contents.
pub open spec fn key_is(
    r: Result<(KeyFormat, Vec<u8>), TlsError>,
    stated: Result<(KeyFormat, Seq<u8>), TlsError>,
) -> bool {
    match stated {
        Ok((format, der)) => r matches Ok((f, v)) && f == format && v@ == der,
        Err(e) => r matches Err(f) && f == e,
    }
}

/// Takes the private key out of a parsed key file.
pub fn accept_key(
    parsed: Option<Option<(KeyFormat, Vec<u8>)>>,
) -> (r: Result<(KeyFormat, Vec<u8>), TlsError>)
    ensures
        key_is(
            r,
            key_in(
                match parsed {
                    Some(Some((format, der))) => Some(Some((format, der@))),
                    Some(None) => Some(None),
                    None => None,
                },
            ),
        ),
{
    match parsed {
        None => Err(TlsError::KeyParse),
        Some(None) => Err(TlsError::NoPrivateKey),
        Some(Some(key)) => Ok(key),
    }
}

/// Reads a key file.
pub fn load_key(key_pem: &[u8]) -> (r: Result<(KeyFormat, Vec<u8>), TlsError>)
    ensures
        key_is(r, key_in(pem_private_key(key_pem@))),
{
    accept_key(read_private_key(key_pem))
}

/// The identity in a certificate file and a key file with these permissions.
pub open spec fn loaded(
    cert_pem: Seq<u8>,
    key_mode: u32,
    key_pem: Seq<u8>,
) -> Result<IdentityView, TlsError> {
    match chain(pem_certs(cert_pem)) {
        Err(e) => Err(e),
        Ok(certs) => match mode_verdict(key_mode) {
            Err(e) => Err(e),
            Ok(_) => match key_in(pem_private_key(key_pem)) {
                Err(e) => Err(e),
                Ok((format, key)) => Ok(IdentityView { certs, format, key }),
            },
        },
    }
}

/// Reads an identity back: the certificates first, then the key, whose
/// permissions are checked before it is read.
pub fn load_pem_cert_and_key(cert_pem: &[u8], key_mode: u32, key_pem: &[u8]) -> (r: Result<
    Identity,
    TlsError,
>)
    ensures
        match loaded(cert_pem@, key_mode, key_pem@) {
            Ok(v) => r matches Ok(identity) && identity@ == v,
            Err(e) => r matches Err(f) && f == e,
        },
{
    let certs = match load_certs(cert_pem) {
        Ok(certs) => certs,
        Err(e) => return Err(e),
    };
    match check_key_mode(key_mode) {
        Ok(()) => {},
        Err(e) => return Err(e),
    }
    match load_key(key_pem) {
        Ok((format, key)) => Ok(Identity { certs, format, key }),
        Err(e) => Err(e),
    }
}

/// An identity that was just made, and the files to keep it in.
pub struct NewIdentity {
    pub identity: Identity,
    pub cert_pem: Vec<u8>,
    pub key_pem: Vec<u8>,
    /// The permissions that the key file gets.
    pub key_mode: u32,
}

/// The identity of what was generated, if its key is of a known format.
pub fn accept_generated(made: Option<Generated>) -> (r: Result<NewIdentity, TlsError>)
    ensures
        match made {
            None => r matches Err(e) && e == TlsError::Generate,
            Some(g) => match key_format(g.key_der@) {
                None => r matches Err(e) && e == TlsError::ConvertKey,
                Some(format) => {
                    &&& r matches Ok(n)
                    &&& n.identity@.certs == seq![g.cert_der@]
                    &&& n.identity@.format == format
                    &&& n.identity@.key == g.key_der@
                    &&& n.cert_pem == g.cert_pem
                    &&& n.key_pem == g.key_pem
                    &&& n.key_mode == KEY_MODE
                },
            },
        },
{
    match made {
        None => Err(TlsError::Generate),
        Some(g) => match tell_format(g.key_der.as_slice()) {
            None => Err(TlsError::ConvertKey),
            Some(format) => {
                let ghost der = g.cert_der@;
                let mut certs: Vec<Vec<u8>> = Vec::new();
                certs.push(g.cert_der);
                let identity = Identity { certs, format, key: g.key_der };
                assert(identity@.certs =~= seq![der]);
                Ok(
                    NewIdentity {
                        identity,
                        cert_pem: g.cert_pem,
                        key_pem: g.key_pem,
                        key_mode: KEY_MODE,
                    },
                )
            },
        },
    }
}

/// Makes a new identity, for this machine by its usual name. What comes out of it, if anything does, is what its files
/// give when they are read back.
pub fn generate_and_persist() -> (r: Result<NewIdentity, TlsError>)
    ensures
        match r {
            Ok(n) => {
                &&& n.key_mode == KEY_MODE
                &&& n.identity@.certs.len() == 1
                &&& certified_names(n.identity@.certs[0]) == seq![CERT_NAME@]
                &&& loaded(n.cert_pem@, n.key_mode, n.key_pem@) == Ok::<_, TlsError>(n.identity@)
            },
            Err(e) => e == TlsError::Generate,
        },
{
    let mut names: Vec<String> = Vec::new();
    names.push(CERT_NAME.to_owned());
    proof {
        reveal_strlit("localhost");
        assert(names@[0]@[0] == 'l');
        assert(names@.map_values(|s: String| s@) =~= seq![CERT_NAME@]);
    }
    let made = self_signed(names);
    let ghost g = made;
    let r = accept_generated(made);
    proof {
        if let Some(g) = g {
            law_generated_identity_survives(g);
        }
    }
    r
}

/// An identity that is generated now is the identity of every later start, for as
/// long as its two files are kept: a client never sees another certificate.
pub proof fn law_generated_identity_survives(g: Generated)
    requires
        reads_back(g),
    ensures
        loaded(g.cert_pem@, KEY_MODE, g.key_pem@) == Ok::<_, TlsError>(
            IdentityView {
                certs: seq![g.cert_der@],
                format: KeyFormat::Pkcs8,
                key: g.key_der@,
            },
        ),
{
}

/// Whether there is an identity of an earlier start.
pub open spec fn is_persisted(cert_exists: bool, key_exists: bool) -> bool {
    cert_exists && key_exists
}

/// Whether the identity of an earlier start is used: both files must be there.
pub fn use_persisted(cert_exists: bool, key_exists: bool) -> (r: bool)
    ensures
        r == is_persisted(cert_exists, key_exists),
{
    cert_exists && key_exists
}

/// The public key of a chain.
pub open spec fn key_of_chain(certs: Seq<Seq<u8>>) -> Result<Seq<u8>, TlsError> {
    if certs.len() == 0 {
        Err(TlsError::EmptyChain)
    } else {
        match subject_public_key(certs[0]) {
            Some(key) => Ok(key),
            None => Err(TlsError::CertDer),
        }
    }
}

/// The public key that a client binds its credentials to: the bits of the first
/// certificate's key.
pub fn public_key(identity: &Identity) -> (r: Result<Vec<u8>, TlsError>)
    ensures
        match key_of_chain(identity@.certs) {
            Ok(key) => r matches Ok(v) && v@ == key,
            Err(e) => r matches Err(f) && f == e,
        },
{
    if identity.certs.len() == 0 {
        return Err(TlsError::EmptyChain);
    }
    accept_public_key(read_public_key(identity.certs[0].as_slice()))
}

/// Takes the public key out of a parsed certificate.
pub fn accept_public_key(parsed: Option<Vec<u8>>) -> (r: Result<Vec<u8>, TlsError>)
    ensures
        match parsed {
            Some(key) => r matches Ok(v) && v == key,
            None => r matches Err(e) && e == TlsError::CertDer,
        },
{
    match parsed {
        Some(key) => Ok(key),
        None => Err(TlsError::CertDer),
    }
}

/// The directory of the identity's files, if it is known.
pub open spec fn identity_dir(given: Option<Seq<char>>, home: Option<Seq<char>>) -> Option<
    Seq<char>,
> {
    match (given, home) {
        (Some(d), _) => Some(d),
        (None, Some(h)) => Some(paths::joined(h, CERT_DIR@)),
        (None, None) => None,
    }
}

/// The directory of the identity's files: the one that was asked for, else the
/// usual place below the home directory.
pub fn cert_dir(given: Option<&str>, home: Option<&str>) -> (r: Result<String, TlsError>)
    ensures
        match identity_dir(text::optional(given), text::optional(home)) {
            Some(d) => r matches Ok(dir) && dir@ == d,
            None => r matches Err(e) && e == TlsError::NoHome,
        },
{
    match given {
        Some(d) => Ok(d.to_owned()),
        None => match home {
            Some(h) => Ok(default_cert_dir(h)),
            None => Err(TlsError::NoHome),
        },
    }
}

/// The usual place of the identity's files.
pub fn default_cert_dir(home: &str) -> (r: String)
    ensures
        r@ == paths::joined(home@, CERT_DIR@),
{
    paths::join(home, CERT_DIR)
}

/// The paths of the certificate file and the key file.
pub open spec fn identity_files(dir: Seq<char>) -> (Seq<char>, Seq<char>) {
    (paths::joined(dir, CERT_FILE@), paths::joined(dir, KEY_FILE@))
}

/// The paths of the certificate file and the key file.
pub fn file_paths(dir: &str) -> (r: (String, String))
    ensures
        (r.0@, r.1@) == identity_files(dir@),
{
    (paths::join(dir, CERT_FILE), paths::join(dir, KEY_FILE))
}

/// A key file is taken exactly where neither its group nor others may do anything
/// with it, whatever its owner may. Else the nine permission bits are told.
pub proof fn law_which_key_files_are_taken(
    mode: u32,
    high: int,
    owner: int,
    group: int,
    others: int,
)
    requires
        0 <= high,
        0 <= owner < 8,
        0 <= group < 8,
        0 <= others < 8,
        mode == 0o1000 * high + 0o100 * owner + 0o10 * group + others,
    ensures
        mode_verdict(mode) is Ok <==> group == 0 && others == 0,
        mode_verdict(mode) matches Err(e) ==> (e matches TlsError::KeyAccessible { mode: told }
            && told == 0o100 * owner + 0o10 * group + others),
        mode_verdict(0o600) is Ok,
{
}

/// The certificates are looked at first, then the permissions of the key file, and
/// its contents only if it is the owner's alone. An identity has all the certificates
/// of its file and the key of its file, as they are.
pub proof fn law_what_an_identity_is_made_of(cert_pem: Seq<u8>, mode: u32, key_pem: Seq<u8>)
    ensures
        pem_certs(cert_pem) is None ==> loaded(cert_pem, mode, key_pem) == Err::<
            IdentityView,
            TlsError,
        >(TlsError::CertParse),
        pem_certs(cert_pem) == Some(Seq::<Seq<u8>>::empty()) ==> loaded(cert_pem, mode, key_pem)
            == Err::<IdentityView, TlsError>(TlsError::NoCertificates),
        pem_certs(cert_pem) matches Some(certs) ==> certs.len() > 0 ==> {
            &&& mode % 64 != 0 ==> loaded(cert_pem, mode, key_pem) == Err::<IdentityView, TlsError>(
                TlsError::KeyAccessible { mode: mode % 512 },
            )
            &&& mode % 64 == 0 ==> match pem_private_key(key_pem) {
                None => loaded(cert_pem, mode, key_pem) == Err::<IdentityView, TlsError>(
                    TlsError::KeyParse,
                ),
                Some(None) => loaded(cert_pem, mode, key_pem) == Err::<IdentityView, TlsError>(
                    TlsError::NoPrivateKey,
                ),
                Some(Some((format, key))) => loaded(cert_pem, mode, key_pem) == Ok::<
                    IdentityView,
                    TlsError,
                >(IdentityView { certs, format, key }),
            }
        },
{
}

/// Credentials are bound to the key of the first certificate of a chain, whatever
/// follows it.
pub proof fn law_which_key_is_bound(first: Seq<u8>, rest: Seq<Seq<u8>>)
    ensures
        key_of_chain(seq![first] + rest) == (match subject_public_key(first) {
            Some(key) => Ok::<Seq<u8>, TlsError>(key),
            None => Err::<Seq<u8>, TlsError>(TlsError::CertDer),
        }),
        key_of_chain(Seq::empty()) == Err::<Seq<u8>, TlsError>(TlsError::EmptyChain),
{
}

/// The identity's files are in the directory that is given, else below the home
/// directory, under two names of their own. It is used again only where both are
/// there.
pub proof fn law_where_the_identity_is(dir: Seq<char>, home: Seq<char>)
    requires
        home.len() > 0,
        home[home.len() - 1] != '/',
        dir.len() > 0,
        dir[dir.len() - 1] != '/',
    ensures
        identity_dir(Some(dir), Some(home)) == Some(dir),
        identity_dir(Some(dir), None) == Some(dir),
        identity_dir(None, Some(home)) == Some(home + "/Library/Application Support/macrdp"@),
        identity_dir(None, None) is None,
        identity_files(dir) == (dir + "/cert.pem"@, dir + "/key.pem"@),
        is_persisted(true, true),
        !is_persisted(true, false),
        !is_persisted(false, true),
        !is_persisted(false, false),
{
    reveal_strlit("Library/Application Support/macrdp");
    reveal_strlit("/Library/Application Support/macrdp");
    reveal_strlit("cert.pem");
    reveal_strlit("/cert.pem");
    reveal_strlit("key.pem");
    reveal_strlit("/key.pem");
    assert(home.push('/') + "Library/Application Support/macrdp"@ =~= home
        + "/Library/Application Support/macrdp"@);
    assert(dir.push('/') + "cert.pem"@ =~= dir + "/cert.pem"@);
    assert(dir.push('/') + "key.pem"@ =~= dir + "/key.pem"@);
}

/// A chain and a key are taken over as they are read: every certificate in its place,
/// and the key in its format; what is missing or malformed is told apart.
pub proof fn law_chains_and_keys_are_taken_over(
    certs: Seq<Vec<u8>>,
    format: KeyFormat,
    key: Vec<u8>,
    r: Result<Vec<Vec<u8>>, TlsError>,
    k: Result<(KeyFormat, Vec<u8>), TlsError>,
    i: int,
)
    ensures
        chain_is(r, chain(Some(contents(certs)))) && certs.len() > 0 ==> (r matches Ok(v)
            && v@.len() == certs.len() && (0 <= i < certs.len() ==> v@[i]@ == certs[i]@)),
        chain_is(r, chain(Some(Seq::empty()))) ==> r == Err::<Vec<Vec<u8>>, TlsError>(
            TlsError::NoCertificates,
        ),
        chain_is(r, chain(None)) ==> r == Err::<Vec<Vec<u8>>, TlsError>(TlsError::CertParse),
        key_is(k, key_in(Some(Some((format, key@))))) ==> (k matches Ok((f, v)) && f == format && v@
            == key@),
        key_is(k, key_in(Some(None))) ==> k == Err::<(KeyFormat, Vec<u8>), TlsError>(
            TlsError::NoPrivateKey,
        ),
        key_is(k, key_in(None)) ==> k == Err::<(KeyFormat, Vec<u8>), TlsError>(TlsError::KeyParse),
{
    if chain_is(r, chain(Some(contents(certs)))) && certs.len() > 0 {
        if let Ok(v) = r {
            assert(contents(v@).len() == contents(certs).len());
            if 0 <= i < certs.len() {
                assert(contents(v@)[i] == contents(certs)[i]);
            }
        }
    }
}

/// An identity's value is all of its certificates, in order, and its key.
pub proof fn law_what_an_identity_holds(identity: Identity, i: int)
    requires
        0 <= i < identity.certs@.len(),
    ensures
        identity@.certs.len() == identity.certs@.len(),
        identity@.certs[i] == identity.certs@[i]@,
        identity@.key == identity.key@,
        identity@.format == identity.format,
{
}

/// A key is told by what follows the version at the start of its outer sequence: an
/// inner sequence means PKCS #8, whatever the version; without one, version 0 means
/// PKCS #1 and version 1 SEC 1. What starts with no sequence is none of them.
pub proof fn law_how_keys_are_told_apart(der: Seq<u8>)
    requires
        der.len() >= 6,
    ensures
        der[0] == 0x30 && der[1] < 128 && der[2] == 2 && der[3] == 1 ==> {
            &&& der[5] == 0x30 ==> key_format(der) == Some(KeyFormat::Pkcs8)
            &&& der[5] != 0x30 && der[4] == 0 ==> key_format(der) == Some(KeyFormat::Pkcs1)
            &&& der[5] != 0x30 && der[4] == 1 ==> key_format(der) == Some(KeyFormat::Sec1)
            &&& der[5] != 0x30 && der[4] > 1 ==> key_format(der) is None
        },
        der.len() >= 8 && der[0] == 0x30 && der[1] == 0x82 && der[4] == 2 && der[5] == 1 && der[7]
            == 0x30 ==> key_format(der) == Some(KeyFormat::Pkcs8),
        der[0] != 0x30 ==> key_format(der) is None,
        der[0] == 0x30 && der[1] < 128 && (der[2] != 2 || der[3] != 1) ==> key_format(der) is None,
{
}

/// A name with a letter beyond `f` is taken for no address, and one without such a
/// letter may be one.
pub proof fn law_which_names_are_no_addresses(s: Seq<char>, i: int)
    ensures
        0 <= i < s.len() && 'g' <= s[i] && s[i] <= 'z' ==> host_name(s),
        (forall|k: int| 0 <= k < s.len() ==> s[k] < 'g' || #[trigger] s[k] > 'z') ==> !host_name(s),
{
}

} // verus!
