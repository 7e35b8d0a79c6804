//! Certificates and private keys read from PEM text, for the TLS links
//! between edges and the coordinator.
use vstd::prelude::*;

verus! {

#[verifier::external_type_specification]
#[verifier::external_body]
pub struct ExIoError(std::io::Error);

/// The kind of a PEM section, by its `BEGIN` label.
#[derive(Clone, Copy, Debug, PartialEq, Eq, Structural)]
pub enum PemKind {
    /// `CERTIFICATE`
    Certificate,
    /// `RSA PRIVATE KEY` (PKCS#1)
    RsaKey,
    /// `PRIVATE KEY` (PKCS#8)
    Pkcs8Key,
    /// `EC PRIVATE KEY` (SEC1)
    EcKey,
    /// `X509 CRL`
    Crl,
    /// A kind that this library does not use.
    Unrecognised,
}

/// A decoded PEM section: its kind and its DER bytes.
pub struct PemSection {
    pub kind: PemKind,
    pub der: Vec<u8>,
}

impl View for PemSection {
    type V = (PemKind, Seq<u8>);

    open spec fn view(&self) -> (PemKind, Seq<u8>) {
        (self.kind, self.der@)
    }
}

/// Why PEM text could not be read.
#[derive(Clone, Copy, Debug, PartialEq, Eq, Structural)]
pub enum PemError {
    /// A section is malformed (bad framing or bad base64).
    Malformed,
    /// The text holds no private key.
    NoPrivateKey,
}

/// The sections, in order, that `rustls_pemfile::read_all` finds in `input`,
/// or `None` when it reports an error.
pub uninterp spec fn pem_read_all(input: Seq<u8>) -> Option<Seq<(PemKind, Seq<u8>)>>;

/// `rustls_pemfile::read_all` on the bytes `pem`: every section, in order,
/// each turned into a `PemSection` (kinds this library does not use carry no
/// bytes), or its error. The contract claims that the result depends on the
/// bytes alone.
#[verifier::external_body]
fn read_pem_sections(pem: &[u8]) -> (r: Result<Vec<PemSection>, std::io::Error>)
    ensures
        match r {
            Ok(v) => pem_read_all(pem@) == Some(v@.map_values(|s: PemSection| s@)),
            Err(_) => pem_read_all(pem@) is None,
        },
{
    let mut reader: &[u8] = pem;
    rustls_pemfile::read_all(&mut reader).map(|items| items.into_iter().map(|item| match item {
        rustls_pemfile::Item::X509Certificate(der) => PemSection { kind: PemKind::Certificate, der },
        rustls_pemfile::Item::RSAKey(der) => PemSection { kind: PemKind::RsaKey, der },
        rustls_pemfile::Item::PKCS8Key(der) => PemSection { kind: PemKind::Pkcs8Key, der },
        rustls_pemfile::Item::ECKey(der) => PemSection { kind: PemKind::EcKey, der },
        rustls_pemfile::Item::Crl(der) => PemSection { kind: PemKind::Crl, der },
        _ => PemSection { kind: PemKind::Unrecognised, der: Vec::new() },
    }).collect())
}

/// Private keys in any of the forms a TLS endpoint accepts.
pub open spec fn is_private_key(k: PemKind) -> bool {
    k == PemKind::RsaKey || k == PemKind::Pkcs8Key || k == PemKind::EcKey
}

pub open spec fn is_certificate(k: PemKind) -> bool {
    k == PemKind::Certificate
}

/// The DER bytes of the sections of `s` whose kind satisfies `keep`, in order.
pub open spec fn ders_where(s: Seq<(PemKind, Seq<u8>)>, keep: spec_fn(PemKind) -> bool) -> Seq<
    Seq<u8>,
> {
    s.filter_map(|e: (PemKind, Seq<u8>)| if keep(e.0) { Some(e.1) } else { None })
}

pub open spec fn ders_view(v: Seq<Vec<u8>>) -> Seq<Seq<u8>> {
    v.map_values(|d: Vec<u8>| d@)
}

fn copy_bytes(v: &Vec<u8>) -> (c: Vec<u8>)
    ensures
        c@ == v@,
{
    let c = v.clone();
    assert(c@ =~= v@);
    c
}

/// The DER bytes of the sections of the kinds `keep` accepts, in order.
fn select_ders(sections: &Vec<PemSection>, want_keys: bool) -> (r: Vec<Vec<u8>>)
    ensures
        ders_view(r@) == ders_where(
            sections@.map_values(|s: PemSection| s@),
            if want_keys {
                |k: PemKind| is_private_key(k)
            } else {
                |k: PemKind| is_certificate(k)
            },
        ),
{
    let ghost keep: spec_fn(PemKind) -> bool = if want_keys {
        |k: PemKind| is_private_key(k)
    } else {
        |k: PemKind| is_certificate(k)
    };
    let ghost s = sections@.map_values(|x: PemSection| x@);
    let mut r: Vec<Vec<u8>> = Vec::new();
    let mut i: usize = 0;
    while i < sections.len()
        invariant
            i <= sections.len(),
            s == sections@.map_values(|x: PemSection| x@),
            keep == (if want_keys {
                |k: PemKind| is_private_key(k)
            } else {
                |k: PemKind| is_certificate(k)
            }),
            ders_view(r@) == ders_where(s.take(i as int), keep),
        decreases sections.len() - i,
    {
        assert(s.take(i + 1).drop_last() =~= s.take(i as int));
        let kind = sections[i].kind;
        let wanted = if want_keys {
            kind == PemKind::RsaKey || kind == PemKind::Pkcs8Key || kind == PemKind::EcKey
        } else {
            kind == PemKind::Certificate
        };
        if wanted {
            let d = copy_bytes(&sections[i].der);
            r.push(d);
            assert(ders_view(r@) =~= ders_view(r@.drop_last()).push(d@));
        }
        i += 1;
    }
    assert(s.take(sections.len() as int) =~= s);
    r
}

/// The private keys (PKCS#1, PKCS#8 or SEC1), in order, of the sections.
pub fn private_keys(sections: &Vec<PemSection>) -> (keys: Vec<Vec<u8>>)
    ensures
        ders_view(keys@) == ders_where(
            sections@.map_values(|s: PemSection| s@),
            |k: PemKind| is_private_key(k),
        ),
{
    select_ders(sections, true)
}

/// The certificates, in order, of the sections.
pub fn certificates(sections: &Vec<PemSection>) -> (certs: Vec<Vec<u8>>)
    ensures
        ders_view(certs@) == ders_where(
            sections@.map_values(|s: PemSection| s@),
            |k: PemKind| is_certificate(k),
        ),
{
    select_ders(sections, false)
}

/// Reads the sections of PEM text; an error of the reader becomes
/// `PemError::Malformed`.
pub fn read_sections(pem: &[u8]) -> (r: Result<Vec<PemSection>, PemError>)
    ensures
        match r {
            Ok(v) => pem_read_all(pem@) == Some(v@.map_values(|s: PemSection| s@)),
            Err(e) => e == PemError::Malformed && pem_read_all(pem@) is None,
        },
{
    match read_pem_sections(pem) {
        Ok(v) => Ok(v),
        Err(_) => Err(PemError::Malformed),
    }
}

/// Some section of `s` is a private key.
pub open spec fn has_private_key(s: Seq<(PemKind, Seq<u8>)>) -> bool {
    exists|i: int| 0 <= i < s.len() && is_private_key(#[trigger] s[i].0)
}

/// The DER bytes kept from `s` are at least one exactly when some section
/// of `s` is of a kept kind.
proof fn lemma_ders_where_nonempty(s: Seq<(PemKind, Seq<u8>)>, keep: spec_fn(PemKind) -> bool)
    ensures
        ders_where(s, keep).len() > 0 <==> exists|i: int| 0 <= i < s.len() && keep(#[trigger] s[i].0),
    decreases s.len(),
{
    if s.len() > 0 {
        let t = s.drop_last();
        lemma_ders_where_nonempty(t, keep);
        if exists|i: int| 0 <= i < t.len() && keep(#[trigger] t[i].0) {
            let i = choose|i: int| 0 <= i < t.len() && keep(#[trigger] t[i].0);
            assert(s[i] == t[i]);
        }
        if exists|i: int| 0 <= i < s.len() && keep(#[trigger] s[i].0) {
            let i = choose|i: int| 0 <= i < s.len() && keep(#[trigger] s[i].0);
            if i < t.len() {
                assert(t[i] == s[i]);
            }
        }
    }
}

/// The bytes of every section of a kept kind are among those kept.
proof fn lemma_ders_where_contains(s: Seq<(PemKind, Seq<u8>)>, keep: spec_fn(PemKind) -> bool, i: int)
    requires
        0 <= i < s.len(),
        keep(s[i].0),
    ensures
        ders_where(s, keep).contains(s[i].1),
    decreases s.len(),
{
    let t = s.drop_last();
    let d = ders_where(t, keep);
    if i == s.len() - 1 {
        assert(ders_where(s, keep) == d + seq![s[i].1]);
        assert(ders_where(s, keep)[d.len() as int] == s[i].1);
    } else {
        assert(t[i] == s[i]);
        lemma_ders_where_contains(t, keep, i);
        let j = choose|j: int| 0 <= j < d.len() && d[j] == s[i].1;
        if keep(s.last().0) {
            assert(ders_where(s, keep) == d + seq![s.last().1]);
            assert(ders_where(s, keep)[j] == d[j]);
        } else {
            assert(ders_where(s, keep) == d);
        }
    }
}

/// Every RSA (PKCS#1), PKCS#8 or EC (SEC1) private-key section makes the text
/// hold a private key, and its bytes are among the keys loaded from it.
pub proof fn lemma_key_sections_loaded(s: Seq<(PemKind, Seq<u8>)>, i: int)
    requires
        0 <= i < s.len(),
        s[i].0 == PemKind::RsaKey || s[i].0 == PemKind::Pkcs8Key || s[i].0 == PemKind::EcKey,
    ensures
        has_private_key(s),
        ders_where(s, |k: PemKind| is_private_key(k)).contains(s[i].1),
{
    lemma_ders_where_contains(s, |k: PemKind| is_private_key(k), i);
}

/// Every certificate section's bytes are among the certificates loaded, and
/// a key section never makes a certificate.
pub proof fn lemma_certificate_sections_loaded(s: Seq<(PemKind, Seq<u8>)>, i: int)
    requires
        0 <= i < s.len(),
    ensures
        s[i].0 == PemKind::Certificate ==> ders_where(s, |k: PemKind| is_certificate(k)).contains(
            s[i].1,
        ),
        (s[i].0 == PemKind::RsaKey || s[i].0 == PemKind::Pkcs8Key || s[i].0 == PemKind::EcKey)
            ==> !is_certificate(s[i].0),
{
    if s[i].0 == PemKind::Certificate {
        lemma_ders_where_contains(s, |k: PemKind| is_certificate(k), i);
    }
}

/// Sections are loaded in file order: a section that comes after all others
/// contributes its bytes after all others (when it is of a kept kind) and
/// changes nothing otherwise.
pub proof fn lemma_ders_in_file_order(
    s: Seq<(PemKind, Seq<u8>)>,
    x: (PemKind, Seq<u8>),
    keep: spec_fn(PemKind) -> bool,
)
    ensures
        keep(x.0) ==> ders_where(s.push(x), keep) == ders_where(s, keep).push(x.1),
        !keep(x.0) ==> ders_where(s.push(x), keep) == ders_where(s, keep),
{
    assert(s.push(x).drop_last() =~= s);
    if keep(x.0) {
        assert(ders_where(s, keep) + seq![x.1] =~= ders_where(s, keep).push(x.1));
    }
}

/// A server's key file is refused as holding no private key exactly when
/// loading its keys gives none.
pub proof fn lemma_refused_iff_no_keys(s: Seq<(PemKind, Seq<u8>)>)
    ensures
        has_private_key(s) <==> ders_where(s, |k: PemKind| is_private_key(k)).len() > 0,
{
    lemma_ders_where_nonempty(s, |k: PemKind| is_private_key(k));
}

/// Certificates, revocation lists and unrecognised sections hold no private
/// key: text made of them alone is refused as a server's key file.
pub proof fn lemma_other_sections_hold_no_key(s: Seq<(PemKind, Seq<u8>)>)
    requires
        forall|i: int|
            0 <= i < s.len() ==> (#[trigger] s[i].0 == PemKind::Certificate || s[i].0
                == PemKind::Crl || s[i].0 == PemKind::Unrecognised),
    ensures
        !has_private_key(s),
        ders_where(s, |k: PemKind| is_private_key(k)).len() == 0,
{
    lemma_ders_where_nonempty(s, |k: PemKind| is_private_key(k));
}

/// The private keys in PEM text that parses, in order: RSA (PKCS#1), PKCS#8
/// and EC (SEC1) keys; other sections are skipped.
pub fn load_keys(pem: &[u8]) -> (keys: Vec<Vec<u8>>)
    requires
        pem_read_all(pem@) is Some,
    ensures
        ders_view(keys@) == ders_where(pem_read_all(pem@).unwrap(), |k: PemKind| is_private_key(k)),
{
    match read_pem_sections(pem) {
        Ok(sections) => private_keys(&sections),
        Err(_) => Vec::new(),
    }
}

/// The private keys of a server's key file: PEM text that parses and holds
/// at least one private key. The keys come in order, and there is one at least.
pub fn load_server_keys(pem: &[u8]) -> (keys: Vec<Vec<u8>>)
    requires
        pem_read_all(pem@) is Some,
        has_private_key(pem_read_all(pem@).unwrap()),
    ensures
        ders_view(keys@) == ders_where(pem_read_all(pem@).unwrap(), |k: PemKind| is_private_key(k)),
        keys@.len() > 0,
{
    let keys = load_keys(pem);
    proof {
        lemma_ders_where_nonempty(pem_read_all(pem@).unwrap(), |k: PemKind| is_private_key(k));
    }
    keys
}

/// The certificates in PEM text that parses, in order; other sections are
/// skipped. (What `rustls_pemfile::certs` returns: it reads the same sections
/// as `read_all` and keeps the certificates.)
pub fn load_certs(pem: &[u8]) -> (certs: Vec<Vec<u8>>)
    requires
        pem_read_all(pem@) is Some,
    ensures
        ders_view(certs@) == ders_where(pem_read_all(pem@).unwrap(), |k: PemKind| is_certificate(k)),
{
    match read_pem_sections(pem) {
        Ok(sections) => certificates(&sections),
        Err(_) => Vec::new(),
    }
}

/// `load_keys` for any text: `Malformed` when the text does not parse.
pub fn try_load_keys(pem: &[u8]) -> (r: Result<Vec<Vec<u8>>, PemError>)
    ensures
        match r {
            Ok(keys) => pem_read_all(pem@) is Some && ders_view(keys@) == ders_where(
                pem_read_all(pem@).unwrap(),
                |k: PemKind| is_private_key(k),
            ),
            Err(e) => e == PemError::Malformed && pem_read_all(pem@) is None,
        },
{
    match read_sections(pem) {
        Ok(_) => Ok(load_keys(pem)),
        Err(e) => Err(e),
    }
}

/// `load_server_keys` for any text: `Malformed` when the text does not parse,
/// `NoPrivateKey` when it holds no private key.
pub fn try_load_server_keys(pem: &[u8]) -> (r: Result<Vec<Vec<u8>>, PemError>)
    ensures
        match r {
            Ok(keys) => pem_read_all(pem@) is Some && has_private_key(pem_read_all(pem@).unwrap())
                && ders_view(keys@) == ders_where(
                pem_read_all(pem@).unwrap(),
                |k: PemKind| is_private_key(k),
            ) && keys@.len() > 0,
            Err(PemError::Malformed) => pem_read_all(pem@) is None,
            Err(PemError::NoPrivateKey) => pem_read_all(pem@) is Some && !has_private_key(
                pem_read_all(pem@).unwrap(),
            ) && ders_where(pem_read_all(pem@).unwrap(), |k: PemKind| is_private_key(k)).len()
                == 0,
        },
{
    match read_sections(pem) {
        Ok(sections) => {
            let keys = private_keys(&sections);
            proof {
                lemma_ders_where_nonempty(
                    pem_read_all(pem@).unwrap(),
                    |k: PemKind| is_private_key(k),
                );
            }
            if keys.len() == 0 {
                Err(PemError::NoPrivateKey)
            } else {
                Ok(load_server_keys(pem))
            }
        },
        Err(e) => Err(e),
    }
}

/// `load_certs` for any text: `Malformed` when the text does not parse.
pub fn try_load_certs(pem: &[u8]) -> (r: Result<Vec<Vec<u8>>, PemError>)
    ensures
        match r {
            Ok(certs) => pem_read_all(pem@) is Some && ders_view(certs@) == ders_where(
                pem_read_all(pem@).unwrap(),
                |k: PemKind| is_certificate(k),
            ),
            Err(e) => e == PemError::Malformed && pem_read_all(pem@) is None,
        },
{
    match read_sections(pem) {
        Ok(_) => Ok(load_certs(pem)),
        Err(e) => Err(e),
    }
}

} // verus!
