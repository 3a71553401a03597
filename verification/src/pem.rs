//! The certificates and keys for upstream connections.

use rustls::RootCertStore;
use vstd::prelude::*;
use vstd::string::*;

verus! {

/// The certificates that rustls checks servers against.
#[verifier::external_type_specification]
#[verifier::external_body]
pub struct ExRootCertStore(rustls::RootCertStore);

/// What a trust anchor holds: the subject, the public key and the name
/// constraints, as they are encoded.
pub struct Anchor {
    pub subject: Seq<u8>,
    pub public_key: Seq<u8>,
    pub name_constraints: Option<Seq<u8>>,
}

/// The trust anchors of a store, in the order in which they were added.
pub uninterp spec fn root_anchors(store: RootCertStore) -> Seq<Anchor>;

/// The trust anchor that rustls makes of an encoded certificate.
pub uninterp spec fn trust_anchor(certificate: Seq<u8>) -> Option<Anchor>;

/// The certificates in a PEM file, or the text of the error.
pub uninterp spec fn pem_certificates(contents: Seq<u8>) -> Result<Seq<Seq<u8>>, Seq<char>>;

/// The PKCS8 keys in a PEM file, or the text of the error.
pub uninterp spec fn pem_pkcs8_keys(contents: Seq<u8>) -> Result<Seq<Seq<u8>>, Seq<char>>;

/// The RSA keys in a PEM file, or the text of the error.
pub uninterp spec fn pem_rsa_keys(contents: Seq<u8>) -> Result<Seq<Seq<u8>>, Seq<char>>;

/// What was read of a PEM file stands for.
pub open spec fn pem_view(outcome: Result<Vec<Vec<u8>>, String>) -> Result<
    Seq<Seq<u8>>,
    Seq<char>,
> {
    match outcome {
        Ok(items) => Ok(items.deep_view()),
        Err(text) => Err(text@),
    }
}

/// The certificates in a PEM file, by `rustls_pemfile::certs`. Its result
/// depends on the contents alone.
#[verifier::external_body]
fn read_certificates(contents: &[u8]) -> (outcome: Result<Vec<Vec<u8>>, String>)
    ensures
        pem_view(outcome) == pem_certificates(contents@),
{
    let mut reader = contents;
    rustls_pemfile::certs(&mut reader).map_err(|error| error.to_string())
}

/// The PKCS8 keys in a PEM file, by `rustls_pemfile::pkcs8_private_keys`. Its
/// result depends on the contents alone.
#[verifier::external_body]
fn read_pkcs8_keys(contents: &[u8]) -> (outcome: Result<Vec<Vec<u8>>, String>)
    ensures
        pem_view(outcome) == pem_pkcs8_keys(contents@),
{
    let mut reader = contents;
    rustls_pemfile::pkcs8_private_keys(&mut reader).map_err(|error| error.to_string())
}

/// The RSA keys in a PEM file, by `rustls_pemfile::rsa_private_keys`. Its result
/// depends on the contents alone.
#[verifier::external_body]
fn read_rsa_keys(contents: &[u8]) -> (outcome: Result<Vec<Vec<u8>>, String>)
    ensures
        pem_view(outcome) == pem_rsa_keys(contents@),
{
    let mut reader = contents;
    rustls_pemfile::rsa_private_keys(&mut reader).map_err(|error| error.to_string())
}

/// A store without trust anchors, by `rustls::RootCertStore::empty`.
#[verifier::external_body]
fn no_roots() -> (store: RootCertStore)
    ensures
        root_anchors(store) == Seq::<Anchor>::empty(),
{
    RootCertStore::empty()
}

/// Adds the trust anchor of a certificate at the end of a store, by
/// `rustls::RootCertStore::add`. A certificate that it cannot read changes
/// nothing, and the error always says the same.
#[verifier::external_body]
fn add_root(store: &mut RootCertStore, certificate: Vec<u8>) -> (outcome: Result<(), String>)
    ensures
        match trust_anchor(certificate@) {
            Some(anchor) => outcome is Ok && root_anchors(*final(store)) == root_anchors(
                *old(store),
            ).push(anchor),
            None => outcome is Err && outcome->Err_0@ == "invalid peer certificate: BadEncoding"@
                && root_anchors(*final(store)) == root_anchors(*old(store)),
        },
{
    store.add(&rustls::Certificate(certificate)).map_err(|error| error.to_string())
}

/// What came of reading a file.
#[derive(Debug)]
pub enum FileRead {
    /// The file could not be opened, with the text of the error.
    OpenFailed(String),
    /// The file could not be read, with the text of the error.
    ReadFailed(String),
    /// All that the file holds.
    Contents(Vec<u8>),
}

/// What the outcome of reading a file stands for.
pub enum FileReadView {
    OpenFailed(Seq<char>),
    ReadFailed(Seq<char>),
    Contents(Seq<u8>),
}

impl DeepView for FileRead {
    type V = FileReadView;

    open spec fn deep_view(&self) -> FileReadView {
        match self {
            FileRead::OpenFailed(text) => FileReadView::OpenFailed(text@),
            FileRead::ReadFailed(text) => FileReadView::ReadFailed(text@),
            FileRead::Contents(bytes) => FileReadView::Contents(bytes@),
        }
    }
}

/// What a step says that failed on a file.
pub open spec fn file_message(
    step: Seq<char>,
    label: Seq<char>,
    path: Seq<char>,
    text: Seq<char>,
) -> Seq<char> {
    step + label + " "@ + path + ": "@ + text
}

/// What a step says that failed on a file.
fn file_error(step: &str, label: &str, path: &str, text: &str) -> (message: String)
    ensures
        message@ == file_message(step@, label@, path@, text@),
{
    step.to_owned().concat(label).concat(" ").concat(path).concat(": ").concat(text)
}

/// The certificates of a file, given what its contents parse to.
pub open spec fn certificates_of(
    path: Seq<char>,
    label: Seq<char>,
    parsed: Result<Seq<Seq<u8>>, Seq<char>>,
) -> Result<Seq<Seq<u8>>, Seq<char>> {
    match parsed {
        Err(text) => Err(file_message("parse "@, label, path, text)),
        Ok(items) => if items.len() == 0 {
            Err(file_message("parse "@, label, path, "no certificates found"@))
        } else {
            Ok(items)
        },
    }
}

/// The certificates of a file, given what its contents parse to. There must be
/// at least one.
pub fn checked_certificates(
    path: &str,
    label: &str,
    parsed: Result<Vec<Vec<u8>>, String>,
) -> (outcome: Result<Vec<Vec<u8>>, String>)
    ensures
        pem_view(outcome) == certificates_of(path@, label@, pem_view(parsed)),
{
    match parsed {
        Err(text) => Err(file_error("parse ", label, path, text.as_str())),
        Ok(items) => {
            if items.len() == 0 {
                Err(file_error("parse ", label, path, "no certificates found"))
            } else {
                Ok(items)
            }
        },
    }
}

/// The certificates of a file.
pub open spec fn loaded_certificates(
    path: Seq<char>,
    label: Seq<char>,
    read: FileReadView,
) -> Result<Seq<Seq<u8>>, Seq<char>> {
    match read {
        FileReadView::OpenFailed(text) => Err(file_message("open "@, label, path, text)),
        FileReadView::ReadFailed(text) => Err(file_message("parse "@, label, path, text)),
        FileReadView::Contents(bytes) => certificates_of(path, label, pem_certificates(bytes)),
    }
}

/// The certificates of a file.
pub fn load_certs(path: &str, label: &str, read: &FileRead) -> (outcome: Result<
    Vec<Vec<u8>>,
    String,
>)
    ensures
        pem_view(outcome) == loaded_certificates(path@, label@, read.deep_view()),
{
    match read {
        FileRead::OpenFailed(text) => Err(file_error("open ", label, path, text.as_str())),
        FileRead::ReadFailed(text) => Err(file_error("parse ", label, path, text.as_str())),
        FileRead::Contents(bytes) => checked_certificates(
            path,
            label,
            read_certificates(bytes.as_slice()),
        ),
    }
}

/// The name of the file with the roots in messages.
pub const CA_LABEL: &'static str = "data-plane CA certificate";

/// The name of the file with the gateway's own certificate in messages.
pub const CERTIFICATE_LABEL: &'static str = "data-plane client certificate";

/// The name of the file with the gateway's own key in messages.
pub const KEY_LABEL: &'static str = "data-plane client private key";

/// The trust anchors of certificates, or nothing where one has none.
pub open spec fn anchors_of(certificates: Seq<Seq<u8>>) -> Option<Seq<Anchor>>
    decreases certificates.len(),
{
    if certificates.len() == 0 {
        Some(Seq::<Anchor>::empty())
    } else {
        match (anchors_of(certificates.drop_last()), trust_anchor(certificates.last())) {
            (Some(earlier), Some(anchor)) => Some(earlier.push(anchor)),
            _ => None,
        }
    }
}

/// Certificates of which some have no trust anchor.
proof fn lemma_no_anchors(certificates: Seq<Seq<u8>>, n: int)
    requires
        0 <= n <= certificates.len(),
        anchors_of(certificates.take(n)) is None,
    ensures
        anchors_of(certificates) is None,
    decreases certificates.len() - n,
{
    if n < certificates.len() {
        assert(certificates.take(n + 1).drop_last() =~= certificates.take(n));
        lemma_no_anchors(certificates, n + 1);
    } else {
        assert(certificates.take(n) =~= certificates);
    }
}

/// The trust anchors of a file.
pub open spec fn loaded_roots(path: Seq<char>, read: FileReadView) -> Result<
    Seq<Anchor>,
    Seq<char>,
> {
    match loaded_certificates(path, CA_LABEL@, read) {
        Ok(certificates) => match anchors_of(certificates) {
            Some(anchors) => Ok(anchors),
            None => Err(
                file_message("add "@, CA_LABEL@, path, "invalid peer certificate: BadEncoding"@),
            ),
        },
        Err(text) => Err(text),
    }
}

/// The store with the certificates of a file.
pub fn load_roots(path: &str, read: &FileRead) -> (outcome: Result<RootCertStore, String>)
    ensures
        match outcome {
            Ok(store) => loaded_roots(path@, read.deep_view()) == Ok::<Seq<Anchor>, Seq<char>>(
                root_anchors(store),
            ),
            Err(text) => loaded_roots(path@, read.deep_view()) == Err::<Seq<Anchor>, Seq<char>>(
                text@,
            ),
        },
{
    let certificates: Vec<Vec<u8>> = match load_certs(path, CA_LABEL, read) {
        Ok(certificates) => certificates,
        Err(text) => {
            return Err(text);
        },
    };
    let ghost all = certificates.deep_view();
    let mut store: RootCertStore = no_roots();
    let mut i: usize = 0;
    proof {
        assert(loaded_certificates(path@, CA_LABEL@, read.deep_view()) == Ok::<
            Seq<Seq<u8>>,
            Seq<char>,
        >(all));
        assert(all.take(0) =~= Seq::<Seq<u8>>::empty());
    }
    while i < certificates.len()
        invariant
            i <= certificates.len(),
            all == certificates.deep_view(),
            loaded_certificates(path@, CA_LABEL@, read.deep_view()) == Ok::<
                Seq<Seq<u8>>,
                Seq<char>,
            >(all),
            anchors_of(all.take(i as int)) == Some(root_anchors(store)),
        decreases certificates.len() - i,
    {
        let certificate: Vec<u8> = certificates[i].clone();
        proof {
            assert(certificate@ =~= certificates@[i as int]@);
            assert(certificates@[i as int].deep_view() =~= certificates@[i as int]@);
            assert(all[i as int] == certificates@[i as int].deep_view());
            assert(all.take(i as int + 1).drop_last() =~= all.take(i as int));
        }
        if let Err(text) = add_root(&mut store, certificate) {
            proof {
                lemma_no_anchors(all, i as int + 1);
            }
            return Err(file_error("add ", CA_LABEL, path, text.as_str()));
        }
        i += 1;
    }
    assert(all.take(i as int) =~= all);
    Ok(store)
}

/// The formats of private keys.
#[derive(Debug, Clone, Copy, PartialEq, Eq, Structural)]
pub enum KeyFormat {
    Pkcs8,
    Rsa,
}

/// The keys of a format in a PEM file.
pub open spec fn pem_keys(contents: Seq<u8>, format: KeyFormat) -> Result<
    Seq<Seq<u8>>,
    Seq<char>,
> {
    match format {
        KeyFormat::Pkcs8 => pem_pkcs8_keys(contents),
        KeyFormat::Rsa => pem_rsa_keys(contents),
    }
}

/// The private keys of a format in a file.
pub open spec fn loaded_keys(path: Seq<char>, format: KeyFormat, read: FileReadView) -> Result<
    Seq<Seq<u8>>,
    Seq<char>,
> {
    match read {
        FileReadView::OpenFailed(text) => Err(file_message("open "@, KEY_LABEL@, path, text)),
        FileReadView::ReadFailed(text) => Err(file_message("parse "@, KEY_LABEL@, path, text)),
        FileReadView::Contents(bytes) => match pem_keys(bytes, format) {
            Ok(keys) => Ok(keys),
            Err(text) => Err(file_message("parse "@, KEY_LABEL@, path, text)),
        },
    }
}

/// The private keys of a format in a file.
pub fn load_private_keys(path: &str, format: KeyFormat, read: &FileRead) -> (outcome: Result<
    Vec<Vec<u8>>,
    String,
>)
    ensures
        pem_view(outcome) == loaded_keys(path@, format, read.deep_view()),
{
    match read {
        FileRead::OpenFailed(text) => Err(file_error("open ", KEY_LABEL, path, text.as_str())),
        FileRead::ReadFailed(text) => Err(file_error("parse ", KEY_LABEL, path, text.as_str())),
        FileRead::Contents(bytes) => {
            let parsed: Result<Vec<Vec<u8>>, String> = match format {
                KeyFormat::Pkcs8 => read_pkcs8_keys(bytes.as_slice()),
                KeyFormat::Rsa => read_rsa_keys(bytes.as_slice()),
            };
            match parsed {
                Ok(keys) => Ok(keys),
                Err(text) => Err(file_error("parse ", KEY_LABEL, path, text.as_str())),
            }
        },
    }
}

/// The key to use, given the keys of the two formats: the first PKCS8 key, or
/// else the first RSA key. An error with the first format is reported before
/// the second is looked at.
pub open spec fn preferred_key(
    path: Seq<char>,
    pkcs8: Result<Seq<Seq<u8>>, Seq<char>>,
    rsa: Result<Seq<Seq<u8>>, Seq<char>>,
) -> Result<Seq<u8>, Seq<char>> {
    match pkcs8 {
        Err(text) => Err(text),
        Ok(keys) => if keys.len() > 0 {
            Ok(keys[0])
        } else {
            match rsa {
                Err(text) => Err(text),
                Ok(keys) => if keys.len() > 0 {
                    Ok(keys[0])
                } else {
                    Err(
                        file_message(
                            "parse "@,
                            KEY_LABEL@,
                            path,
                            "no PKCS8 or RSA keys found"@,
                        ),
                    )
                },
            }
        },
    }
}

/// The key to use, given the keys of the two formats.
pub fn choose_key(
    path: &str,
    pkcs8: Result<Vec<Vec<u8>>, String>,
    rsa: Result<Vec<Vec<u8>>, String>,
) -> (outcome: Result<Vec<u8>, String>)
    ensures
        match outcome {
            Ok(key) => preferred_key(path@, pem_view(pkcs8), pem_view(rsa)) == Ok::<
                Seq<u8>,
                Seq<char>,
            >(key@),
            Err(text) => preferred_key(path@, pem_view(pkcs8), pem_view(rsa)) == Err::<
                Seq<u8>,
                Seq<char>,
            >(text@),
        },
{
    let keys: Vec<Vec<u8>> = match pkcs8 {
        Ok(keys) => keys,
        Err(text) => {
            return Err(text);
        },
    };
    if keys.len() > 0 {
        let key: Vec<u8> = keys[0].clone();
        proof {
            assert(keys.deep_view()[0] == keys@[0].deep_view());
            assert(key@ =~= keys@[0].deep_view());
        }
        return Ok(key);
    }
    let keys: Vec<Vec<u8>> = match rsa {
        Ok(keys) => keys,
        Err(text) => {
            return Err(text);
        },
    };
    if keys.len() > 0 {
        let key: Vec<u8> = keys[0].clone();
        proof {
            assert(keys.deep_view()[0] == keys@[0].deep_view());
            assert(key@ =~= keys@[0].deep_view());
        }
        return Ok(key);
    }
    Err(file_error("parse ", KEY_LABEL, path, "no PKCS8 or RSA keys found"))
}

/// The private key of a file.
pub open spec fn loaded_key(path: Seq<char>, read: FileReadView) -> Result<Seq<u8>, Seq<char>> {
    preferred_key(
        path,
        loaded_keys(path, KeyFormat::Pkcs8, read),
        loaded_keys(path, KeyFormat::Rsa, read),
    )
}

/// The private key of a file.
pub fn load_private_key(path: &str, read: &FileRead) -> (outcome: Result<Vec<u8>, String>)
    ensures
        match outcome {
            Ok(key) => loaded_key(path@, read.deep_view()) == Ok::<Seq<u8>, Seq<char>>(key@),
            Err(text) => loaded_key(path@, read.deep_view()) == Err::<Seq<u8>, Seq<char>>(text@),
        },
{
    choose_key(
        path,
        load_private_keys(path, KeyFormat::Pkcs8, read),
        load_private_keys(path, KeyFormat::Rsa, read),
    )
}

} // verus!
