//! What goes into the certificates of the proxy's own certificate
//! authority and of the certificates it issues for intercepted domains.

use std::sync::Arc;
use vstd::prelude::*;
use vstd::utf8::is_ascii_chars;
use crate::text::str_eq;

verus! {

/// A permitted use of a certificate's key.
#[derive(Clone, Copy, Debug, PartialEq, Eq, Structural)]
pub enum KeyUsage {
    KeyCertSign,
    CrlSign,
    DigitalSignature,
}

/// The contents of a certificate to issue.
pub struct CertProfile {
    /// The common name of the subject.
    pub common_name: String,
    /// The organization of the subject, if any.
    pub organization: Option<String>,
    /// The certificate is an authority without path-length limit.
    pub is_ca: bool,
    /// The DNS names the certificate is valid for.
    pub dns_names: Vec<String>,
    /// The permitted uses of its key.
    pub key_usages: Vec<KeyUsage>,
    /// The certificate may authenticate a TLS server.
    pub server_auth: bool,
}

/// The proxy's certificate authority: `ProxyClawd MITM CA` of organization
/// `ProxyClawd`, an unconstrained authority whose key signs certificates
/// and revocation lists, and signs digitally.
pub fn ca_profile() -> (p: CertProfile)
    ensures
        p.common_name@ == "ProxyClawd MITM CA"@,
        p.organization matches Some(o) && o@ == "ProxyClawd"@,
        p.is_ca,
        p.dns_names@.len() == 0,
        p.key_usages@ == seq![KeyUsage::KeyCertSign, KeyUsage::CrlSign, KeyUsage::DigitalSignature],
        !p.server_auth,
{
    let mut usages: Vec<KeyUsage> = Vec::new();
    usages.push(KeyUsage::KeyCertSign);
    usages.push(KeyUsage::CrlSign);
    usages.push(KeyUsage::DigitalSignature);
    assert(usages@ =~= seq![KeyUsage::KeyCertSign, KeyUsage::CrlSign, KeyUsage::DigitalSignature]);
    CertProfile {
        common_name: "ProxyClawd MITM CA".to_owned(),
        organization: Some("ProxyClawd".to_owned()),
        is_ca: true,
        dns_names: Vec::new(),
        key_usages: usages,
        server_auth: false,
    }
}

/// The certificate the proxy presents for `domain`: common name and only
/// DNS name `domain`, not an authority, key for digital signatures, valid
/// to authenticate a TLS server.
pub fn leaf_profile(domain: &str) -> (p: CertProfile)
    ensures
        p.common_name@ == domain@,
        p.organization is None,
        !p.is_ca,
        p.dns_names@.len() == 1,
        p.dns_names@[0]@ == domain@,
        p.key_usages@ == seq![KeyUsage::DigitalSignature],
        p.server_auth,
{
    let mut usages: Vec<KeyUsage> = Vec::new();
    usages.push(KeyUsage::DigitalSignature);
    assert(usages@ =~= seq![KeyUsage::DigitalSignature]);
    let mut names: Vec<String> = Vec::new();
    names.push(domain.to_owned());
    CertProfile {
        common_name: domain.to_owned(),
        organization: None,
        is_ca: false,
        dns_names: names,
        key_usages: usages,
        server_auth: true,
    }
}

// ----- issuing certificates -----

/// A key pair of the certificate crate.
#[verifier::external_type_specification]
#[verifier::external_body]
pub struct ExKeyPair(rcgen::KeyPair);

/// A signed certificate of the certificate crate.
#[verifier::external_type_specification]
#[verifier::external_body]
pub struct ExCertificate(rcgen::Certificate);

/// The parameters of a certificate to sign.
#[verifier::external_type_specification]
#[verifier::external_body]
pub struct ExCertificateParams(rcgen::CertificateParams);

/// An error of the certificate crate.
#[verifier::external_type_specification]
#[verifier::external_body]
pub struct ExRcgenError(rcgen::Error);

/// A TLS server configuration.
#[verifier::external_type_specification]
#[verifier::external_body]
pub struct ExServerConfig(rustls::ServerConfig);

/// An error of the TLS crate.
#[verifier::external_type_specification]
#[verifier::external_body]
pub struct ExRustlsError(rustls::Error);

/// A part of a certificate's subject name.
pub enum NamePart {
    CommonName,
    Organization,
}

/// What certificate parameters hold, as far as this library sets them.
pub struct ParamsModel {
    /// An authority without path-length limit (else not an authority).
    pub is_ca: bool,
    /// The common name of the subject.
    pub common_name: Seq<char>,
    /// The organization of the subject, if it has one.
    pub organization: Option<Seq<char>>,
    /// The DNS names among the subject alternative names, in order.
    pub dns_names: Seq<Seq<char>>,
    /// The permitted uses of the key, in order.
    pub key_usages: Seq<KeyUsage>,
    /// Server authentication is among the extended key uses.
    pub server_auth: bool,
}

/// What `params` holds: its authority flag, the common name and
/// organization of its subject, its DNS names, its key uses and whether
/// server authentication is among its extended key uses.
pub uninterp spec fn params_contents(params: rcgen::CertificateParams) -> ParamsModel;

/// What the parameters that `cert` was made from hold (rcgen keeps them in
/// the certificate).
pub uninterp spec fn cert_contents(cert: rcgen::Certificate) -> ParamsModel;

/// The DER encoding of `cert`, which rcgen keeps in the certificate.
pub uninterp spec fn cert_der_of(cert: rcgen::Certificate) -> Seq<u8>;

/// The public key of `key`, as `KeyPair::public_key_der` gives it.
pub uninterp spec fn public_key_of(key: rcgen::KeyPair) -> Seq<u8>;

/// The PKCS#8 DER encoding of `key`, which rcgen keeps in the key pair
/// and `KeyPair::serialize_der` returns.
pub uninterp spec fn key_der_of(key: rcgen::KeyPair) -> Seq<u8>;

/// The PKCS#8 DER encoding of the private key that `config` signs its
/// handshakes with.
pub uninterp spec fn served_key(config: rustls::ServerConfig) -> Seq<u8>;

/// The public key that `cert` certifies, which rcgen keeps in the
/// certificate (in the form of [`public_key_of`]).
pub uninterp spec fn certified_key(cert: rcgen::Certificate) -> Seq<u8>;

/// The public key of the key pair whose signature `cert` carries.
pub uninterp spec fn signing_key(cert: rcgen::Certificate) -> Seq<u8>;

/// The common name and organization of the issuer that `cert` names.
pub uninterp spec fn issuer_name(cert: rcgen::Certificate) -> (Seq<char>, Option<Seq<char>>);

/// The chain of DER certificates that `config` presents to every client.
pub uninterp spec fn presented_chain(config: rustls::ServerConfig) -> Seq<Seq<u8>>;

/// The parameters as `CertificateParams::default` makes them: no authority,
/// the subject `rcgen self signed cert`, nothing else set.
pub open spec fn default_contents() -> ParamsModel {
    ParamsModel {
        is_ca: false,
        common_name: "rcgen self signed cert"@,
        organization: None,
        dns_names: Seq::empty(),
        key_usages: Seq::empty(),
        server_auth: false,
    }
}

/// The views of a sequence of strings.
pub open spec fn string_views(names: Seq<String>) -> Seq<Seq<char>> {
    names.map_values(|s: String| s@)
}

/// What the parameters of a profile hold.
pub open spec fn profile_contents(p: CertProfile) -> ParamsModel {
    ParamsModel {
        is_ca: p.is_ca,
        common_name: p.common_name@,
        organization: match p.organization {
            Some(o) => Some(o@),
            None => None,
        },
        dns_names: string_views(p.dns_names@),
        key_usages: p.key_usages@,
        server_auth: p.server_auth,
    }
}

/// What the authority's certificate holds (see [`ca_profile`]).
pub open spec fn ca_contents() -> ParamsModel {
    ParamsModel {
        is_ca: true,
        common_name: "ProxyClawd MITM CA"@,
        organization: Some("ProxyClawd"@),
        dns_names: Seq::empty(),
        key_usages: seq![KeyUsage::KeyCertSign, KeyUsage::CrlSign, KeyUsage::DigitalSignature],
        server_auth: false,
    }
}

/// What the certificate issued for `domain` holds (see [`leaf_profile`]).
pub open spec fn leaf_contents(domain: Seq<char>) -> ParamsModel {
    ParamsModel {
        is_ca: false,
        common_name: domain,
        organization: None,
        dns_names: seq![domain],
        key_usages: seq![KeyUsage::DigitalSignature],
        server_auth: true,
    }
}

/// A key pair made on this machine by [`generate_key_pair`]. rcgen's
/// serialisation panics only on a remote key pair, which this type cannot
/// hold: its field is private and that function is its only constructor.
struct LocalKeyPair {
    key: rcgen::KeyPair,
}

/// `rcgen::KeyPair::generate`: a new random ECDSA P-256 key pair, held in
/// memory. Nothing is stated of the key, which is random, nor of when
/// generation fails.
#[verifier::external_body]
fn generate_key_pair() -> (r: Result<LocalKeyPair, rcgen::Error>) {
    match rcgen::KeyPair::generate() {
        Ok(key) => Ok(LocalKeyPair { key }),
        Err(e) => Err(e),
    }
}

/// `rcgen::CertificateParams::default`: no authority, the common name
/// `rcgen self signed cert`, no organization, no subject alternative
/// name, no key use and no extended key use.
#[verifier::external_body]
fn new_params() -> (r: rcgen::CertificateParams)
    ensures
        params_contents(r) == default_contents(),
{
    rcgen::CertificateParams::default()
}

/// `DistinguishedName::push`: sets a part of the subject name, replacing
/// the value it had.
#[verifier::external_body]
fn push_name(params: &mut rcgen::CertificateParams, part: NamePart, value: &str)
    ensures
        params_contents(*final(params)) == (match part {
            NamePart::CommonName => ParamsModel { common_name: value@, ..params_contents(*old(params)) },
            NamePart::Organization => ParamsModel {
                organization: Some(value@),
                ..params_contents(*old(params))
            },
        }),
{
    let kind = match part {
        NamePart::CommonName => rcgen::DnType::CommonName,
        NamePart::Organization => rcgen::DnType::OrganizationName,
    };
    params.distinguished_name.push(kind, value);
}

/// Marks the parameters as those of an authority without path-length
/// limit (`IsCa::Ca(BasicConstraints::Unconstrained)`).
#[verifier::external_body]
fn make_unconstrained_ca(params: &mut rcgen::CertificateParams)
    ensures
        params_contents(*final(params)) == (ParamsModel { is_ca: true, ..params_contents(*old(params)) }),
{
    params.is_ca = rcgen::IsCa::Ca(rcgen::BasicConstraints::Unconstrained);
}

/// `Ia5String::try_from`, then adds the DNS name to the subject
/// alternative names. Stated, as the crate's source shows: the conversion
/// fails exactly when the name is not ASCII, and then nothing is added.
#[verifier::external_body]
fn push_dns_name(params: &mut rcgen::CertificateParams, name: &str) -> (r: Result<(), rcgen::Error>)
    ensures
        r is Ok <==> is_ascii_chars(name@),
        r is Ok ==> params_contents(*final(params)) == (ParamsModel {
            dns_names: params_contents(*old(params)).dns_names.push(name@),
            ..params_contents(*old(params))
        }),
        r is Err ==> params_contents(*final(params)) == params_contents(*old(params)),
{
    let ia5 = rcgen::Ia5String::try_from(name)?;
    params.subject_alt_names.push(rcgen::SanType::DnsName(ia5));
    Ok(())
}

/// Adds a permitted key use at the end of the parameters' key uses.
#[verifier::external_body]
fn push_key_usage(params: &mut rcgen::CertificateParams, usage: KeyUsage)
    ensures
        params_contents(*final(params)) == (ParamsModel {
            key_usages: params_contents(*old(params)).key_usages.push(usage),
            ..params_contents(*old(params))
        }),
{
    let purpose = match usage {
        KeyUsage::KeyCertSign => rcgen::KeyUsagePurpose::KeyCertSign,
        KeyUsage::CrlSign => rcgen::KeyUsagePurpose::CrlSign,
        KeyUsage::DigitalSignature => rcgen::KeyUsagePurpose::DigitalSignature,
    };
    params.key_usages.push(purpose);
}

/// Adds server authentication to the extended key uses.
#[verifier::external_body]
fn allow_server_auth(params: &mut rcgen::CertificateParams)
    ensures
        params_contents(*final(params)) == (ParamsModel { server_auth: true, ..params_contents(*old(params)) }),
{
    params.extended_key_usages.push(rcgen::ExtendedKeyUsagePurpose::ServerAuth);
}

/// `CertificateParams::self_signed`: a certificate made from `params`
/// (rcgen keeps them in it) for the public key of `key`, naming its own
/// subject as issuer and signed with `key`. Nothing is stated of when
/// signing fails.
#[verifier::external_body]
fn self_sign(params: rcgen::CertificateParams, key: &LocalKeyPair) -> (r: Result<rcgen::Certificate, rcgen::Error>)
    ensures
        r matches Ok(cert) ==> cert_contents(cert) == params_contents(params),
        r matches Ok(cert) ==> certified_key(cert) == public_key_of(key.key),
        r matches Ok(cert) ==> signing_key(cert) == public_key_of(key.key),
        r matches Ok(cert) ==> issuer_name(cert) == (
            params_contents(params).common_name,
            params_contents(params).organization,
        ),
{
    params.self_signed(&key.key)
}

/// `CertificateParams::signed_by`: a certificate made from `params`
/// (rcgen keeps them in it) for the public key of `key`, naming the
/// subject of `issuer` as issuer and signed with `issuer_key`. Nothing is
/// stated of when signing fails.
#[verifier::external_body]
fn sign_with(
    params: rcgen::CertificateParams,
    key: &LocalKeyPair,
    issuer: &rcgen::Certificate,
    issuer_key: &LocalKeyPair,
) -> (r: Result<rcgen::Certificate, rcgen::Error>)
    ensures
        r matches Ok(cert) ==> cert_contents(cert) == params_contents(params),
        r matches Ok(cert) ==> certified_key(cert) == public_key_of(key.key),
        r matches Ok(cert) ==> signing_key(cert) == public_key_of(issuer_key.key),
        r matches Ok(cert) ==> issuer_name(cert) == (
            cert_contents(*issuer).common_name,
            cert_contents(*issuer).organization,
        ),
{
    params.signed_by(&key.key, issuer, &issuer_key.key)
}

/// The text that `rcgen::Certificate::pem` gives for a certificate whose
/// DER encoding is `der`: the crate's source makes it the PEM encoding of
/// `Certificate::der` under the label `CERTIFICATE`, and of nothing else.
pub uninterp spec fn certificate_pem_text(der: Seq<u8>) -> Seq<char>;

/// The text that `rcgen::KeyPair::serialize_pem` gives for a key whose
/// PKCS#8 DER encoding is `der`: the crate's source makes it the PEM
/// encoding of `KeyPair::serialize_der` under the label `PRIVATE KEY`, and
/// of nothing else.
pub uninterp spec fn key_pem_text(der: Seq<u8>) -> Seq<char>;

/// `Certificate::der`, as bytes, and `Certificate::pem`. Stated: the DER
/// bytes are those kept in the certificate, and the PEM text is the one
/// named for them.
#[verifier::external_body]
fn certificate_encodings(cert: &rcgen::Certificate) -> (r: (Vec<u8>, String))
    ensures
        r.0@ == cert_der_of(*cert),
        r.1@ == certificate_pem_text(r.0@),
{
    (cert.der().to_vec(), cert.pem())
}

/// `KeyPair::serialize_der` (PKCS#8 DER) and `KeyPair::serialize_pem`, on
/// a key pair held in memory, on which neither panics. Stated: the DER
/// bytes are those kept in the key pair, and the PEM text is the one
/// named for them.
#[verifier::external_body]
fn key_encodings(key: &LocalKeyPair) -> (r: (Vec<u8>, String))
    ensures
        r.0@ == key_der_of(key.key),
        r.1@ == key_pem_text(r.0@),
{
    (key.key.serialize_der(), key.key.serialize_pem())
}

/// `ConfigBuilder::with_single_cert`, on a builder for the ring provider
/// with its safe default protocol versions and no client authentication:
/// a server configuration presenting `chain` with the PKCS#8 key
/// `key_der`. Stated: a configuration it gives presents exactly `chain`
/// and signs with the key `key_der`. Nothing is stated of when it fails (rustls refuses a key that does not
/// match the first certificate of the chain).
#[verifier::external_body]
fn single_cert_config(chain: Vec<Vec<u8>>, key_der: Vec<u8>) -> (r: Result<rustls::ServerConfig, rustls::Error>)
    ensures
        r matches Ok(config) ==> presented_chain(config) == chain@.map_values(|d: Vec<u8>| d@),
        r matches Ok(config) ==> served_key(config) == key_der@,
{
    let chain = chain.into_iter().map(rustls::pki_types::CertificateDer::from).collect();
    let key = rustls::pki_types::PrivateKeyDer::Pkcs8(rustls::pki_types::PrivatePkcs8KeyDer::from(key_der));
    rustls::ServerConfig::builder_with_provider(std::sync::Arc::new(rustls::crypto::ring::default_provider()))
        .with_safe_default_protocol_versions()?
        .with_no_client_auth()
        .with_single_cert(chain, key)
}

/// All the DNS names of a profile are ASCII.
pub open spec fn dns_names_ascii(p: CertProfile) -> bool {
    forall|i: int| 0 <= i < p.dns_names@.len() ==> is_ascii_chars(#[trigger] p.dns_names@[i]@)
}

/// The certificate parameters that hold a profile: its subject name, its
/// authority flag, its DNS names, its key uses and its server flag. Fails
/// exactly when a DNS name is not ASCII.
pub fn certificate_params(profile: &CertProfile) -> (r: Result<rcgen::CertificateParams, rcgen::Error>)
    ensures
        r is Ok <==> dns_names_ascii(*profile),
        r matches Ok(params) ==> params_contents(params) == profile_contents(*profile),
{
    let mut params = new_params();
    if profile.is_ca {
        make_unconstrained_ca(&mut params);
    }
    push_name(&mut params, NamePart::CommonName, profile.common_name.as_str());
    match &profile.organization {
        Some(org) => push_name(&mut params, NamePart::Organization, org.as_str()),
        None => {},
    }
    let ghost base = params_contents(params);
    assert(base.is_ca == profile.is_ca);
    assert(base.common_name == profile.common_name@);
    assert(base.organization == profile_contents(*profile).organization);
    assert(base.dns_names =~= Seq::empty());
    assert(string_views(profile.dns_names@.take(0)) =~= Seq::empty());
    let mut i: usize = 0;
    while i < profile.dns_names.len()
        invariant
            0 <= i <= profile.dns_names.len(),
            forall|k: int| 0 <= k < i ==> is_ascii_chars(#[trigger] profile.dns_names@[k]@),
            params_contents(params) == (ParamsModel {
                dns_names: string_views(profile.dns_names@.take(i as int)),
                ..base
            }),
        decreases profile.dns_names.len() - i,
    {
        match push_dns_name(&mut params, profile.dns_names[i].as_str()) {
            Ok(()) => {},
            Err(e) => {
                return Err(e);
            },
        }
        assert(string_views(profile.dns_names@.take(i + 1)) =~= string_views(
            profile.dns_names@.take(i as int),
        ).push(profile.dns_names@[i as int]@));
        i = i + 1;
    }
    assert(profile.dns_names@.take(i as int) =~= profile.dns_names@);
    let ghost named = params_contents(params);
    assert(named.key_usages =~= Seq::empty());
    assert(profile.key_usages@.take(0) =~= Seq::empty());
    let mut j: usize = 0;
    while j < profile.key_usages.len()
        invariant
            0 <= j <= profile.key_usages.len(),
            params_contents(params) == (ParamsModel { key_usages: profile.key_usages@.take(j as int), ..named }),
        decreases profile.key_usages.len() - j,
    {
        push_key_usage(&mut params, profile.key_usages[j]);
        assert(profile.key_usages@.take(j + 1) =~= profile.key_usages@.take(j as int).push(
            profile.key_usages@[j as int],
        ));
        j = j + 1;
    }
    assert(profile.key_usages@.take(j as int) =~= profile.key_usages@);
    if profile.server_auth {
        allow_server_auth(&mut params);
    }
    Ok(params)
}

/// The chain a server presents: its own certificate, then the certificate
/// of the authority that issued it.
pub fn server_chain(leaf_der: Vec<u8>, ca_der: Vec<u8>) -> (r: Vec<Vec<u8>>)
    ensures
        r@.map_values(|d: Vec<u8>| d@) == seq![leaf_der@, ca_der@],
{
    let mut chain: Vec<Vec<u8>> = Vec::new();
    chain.push(leaf_der);
    chain.push(ca_der);
    assert(chain@.map_values(|d: Vec<u8>| d@) =~= seq![leaf_der@, ca_der@]);
    chain
}

/// Why issuing a certificate failed, with the error of the crate that
/// failed.
pub enum TlsError {
    CaKeyGeneration(rcgen::Error),
    CaSigning(rcgen::Error),
    LeafKeyGeneration(rcgen::Error),
    InvalidDomain(rcgen::Error),
    LeafSigning(rcgen::Error),
    ServerConfig(rustls::Error),
}

impl TlsError {
    /// What was being done when the error came.
    pub fn context(&self) -> (r: &'static str)
        ensures
            r@ == match *self {
                TlsError::CaKeyGeneration(_) => "Failed to generate CA key pair"@,
                TlsError::CaSigning(_) => "Failed to self-sign CA certificate"@,
                TlsError::LeafKeyGeneration(_) => "Failed to generate leaf key pair"@,
                TlsError::InvalidDomain(_) => "Invalid domain for SAN"@,
                TlsError::LeafSigning(_) => "Failed to sign leaf certificate"@,
                TlsError::ServerConfig(_) => "Failed to build rustls ServerConfig"@,
            },
    {
        match self {
            TlsError::CaKeyGeneration(_) => "Failed to generate CA key pair",
            TlsError::CaSigning(_) => "Failed to self-sign CA certificate",
            TlsError::LeafKeyGeneration(_) => "Failed to generate leaf key pair",
            TlsError::InvalidDomain(_) => "Invalid domain for SAN",
            TlsError::LeafSigning(_) => "Failed to sign leaf certificate",
            TlsError::ServerConfig(_) => "Failed to build rustls ServerConfig",
        }
    }
}

/// The proxy's certificate authority: its certificate and its key, each
/// also kept in DER and in PEM.
pub struct CertAuthority {
    ca_cert_der: Vec<u8>,
    ca_cert_pem: String,
    ca_cert: rcgen::Certificate,
    ca_key_der: Vec<u8>,
    ca_key_pem: String,
    ca_key_pair: LocalKeyPair,
}

/// An authority seen through its certificate and its key pair.
pub struct CaModel {
    /// The authority's certificate.
    pub cert: rcgen::Certificate,
    /// The authority's key pair.
    pub key: rcgen::KeyPair,
}

/// The views of cached server configurations.
pub open spec fn config_views(configs: Seq<(String, Arc<rustls::ServerConfig>)>) -> Seq<(Seq<char>, rustls::ServerConfig)> {
    configs.map_values(|p: (String, Arc<rustls::ServerConfig>)| (p.0@, *p.1))
}

/// The first configuration cached for `domain`, if any.
pub open spec fn cached_config(configs: Seq<(Seq<char>, rustls::ServerConfig)>, domain: Seq<char>) -> Option<rustls::ServerConfig>
    decreases configs.len(),
{
    if configs.len() == 0 {
        None
    } else if configs[0].0 == domain {
        Some(configs[0].1)
    } else {
        cached_config(configs.drop_first(), domain)
    }
}

proof fn lemma_cached_first(configs: Seq<(Seq<char>, rustls::ServerConfig)>, domain: Seq<char>, i: int)
    requires
        0 <= i < configs.len(),
        configs[i].0 == domain,
        forall|k: int| 0 <= k < i ==> configs[k].0 != domain,
    ensures
        cached_config(configs, domain) == Some(configs[i].1),
    decreases i,
{
    if i > 0 {
        lemma_cached_first(configs.drop_first(), domain, i - 1);
    }
}

proof fn lemma_cached_none(configs: Seq<(Seq<char>, rustls::ServerConfig)>, domain: Seq<char>)
    requires
        forall|k: int| 0 <= k < configs.len() ==> configs[k].0 != domain,
    ensures
        cached_config(configs, domain) is None,
    decreases configs.len(),
{
    if configs.len() > 0 {
        lemma_cached_none(configs.drop_first(), domain);
    }
}

/// `config` is one that the authority `ca` issued for `domain`: it presents
/// a certificate made from [`leaf_profile`] for a key pair, issued and
/// signed by the authority, followed by the authority's certificate, and
/// signs with that key pair.
pub open spec fn issued_for(ca: CaModel, domain: Seq<char>, config: rustls::ServerConfig) -> bool {
    exists|leaf: rcgen::Certificate, key: rcgen::KeyPair|
        cert_contents(leaf) == leaf_contents(domain)
        && certified_key(leaf) == public_key_of(key)
        && signing_key(leaf) == public_key_of(ca.key)
        && issuer_name(leaf) == (cert_contents(ca.cert).common_name, cert_contents(ca.cert).organization)
        && served_key(config) == key_der_of(key)
        && #[trigger] presented_chain(config) == seq![cert_der_of(leaf), cert_der_of(ca.cert)]
}

impl View for CertAuthority {
    type V = CaModel;

    closed spec fn view(&self) -> CaModel {
        CaModel { cert: self.ca_cert, key: self.ca_key_pair.key }
    }
}

impl CertAuthority {
    /// The encodings kept are those of the certificate and the key pair
    /// kept.
    #[verifier::type_invariant]
    spec fn encodings_agree(self) -> bool {
        &&& self.ca_cert_der@ == cert_der_of(self.ca_cert)
        &&& self.ca_cert_pem@ == certificate_pem_text(self.ca_cert_der@)
        &&& self.ca_key_der@ == key_der_of(self.ca_key_pair.key)
        &&& self.ca_key_pem@ == key_pem_text(self.ca_key_der@)
    }

    /// A new authority with a fresh key pair and a certificate made from
    /// [`ca_profile`] for that key pair, self-signed with it. Failing, it
    /// fails generating the key or signing.
    pub fn generate() -> (r: Result<CertAuthority, TlsError>)
        ensures
            r matches Ok(ca) ==> cert_contents(ca@.cert) == ca_contents(),
            r matches Ok(ca) ==> certified_key(ca@.cert) == public_key_of(ca@.key),
            r matches Ok(ca) ==> signing_key(ca@.cert) == public_key_of(ca@.key),
            r matches Ok(ca) ==> issuer_name(ca@.cert) == ("ProxyClawd MITM CA"@, Some("ProxyClawd"@)),
            r matches Err(e) ==> (e is CaKeyGeneration || e is CaSigning),
    {
        let key = match generate_key_pair() {
            Ok(k) => k,
            Err(e) => {
                return Err(TlsError::CaKeyGeneration(e));
            },
        };
        let profile = ca_profile();
        let params = match certificate_params(&profile) {
            Ok(p) => p,
            Err(e) => {
                // The profile has no DNS name, so its parameters are always built.
                assert(dns_names_ascii(profile));
                return Err(TlsError::CaSigning(e));
            },
        };
        assert(string_views(profile.dns_names@) =~= Seq::empty());
        assert(profile_contents(profile) == ca_contents());
        let cert = match self_sign(params, &key) {
            Ok(c) => c,
            Err(e) => {
                return Err(TlsError::CaSigning(e));
            },
        };
        let (cert_der, cert_pem) = certificate_encodings(&cert);
        let (key_der, key_pem) = key_encodings(&key);
        Ok(
            CertAuthority {
                ca_cert_der: cert_der,
                ca_cert_pem: cert_pem,
                ca_cert: cert,
                ca_key_der: key_der,
                ca_key_pem: key_pem,
                ca_key_pair: key,
            },
        )
    }

    /// The authority's certificate, in PEM.
    pub fn certificate_pem(&self) -> (r: String)
        ensures
            r@ == certificate_pem_text(cert_der_of(self@.cert)),
    {
        proof {
            use_type_invariant(self);
        }
        self.ca_cert_pem.clone()
    }

    /// The authority's key pair, in PEM.
    pub fn key_pem(&self) -> (r: String)
        ensures
            r@ == key_pem_text(key_der_of(self@.key)),
    {
        proof {
            use_type_invariant(self);
        }
        self.ca_key_pem.clone()
    }

    /// A server configuration for `domain`: a fresh key pair, and a
    /// certificate made from [`leaf_profile`] for it, issued and signed by
    /// this authority, presented followed by the authority's certificate,
    /// with the fresh key. It fails for a domain that is not ASCII, and
    /// only then with `InvalidDomain`.
    pub fn generate_server_config(&self, domain: &str) -> (r: Result<rustls::ServerConfig, TlsError>)
        ensures
            !is_ascii_chars(domain@) ==> r is Err,
            (r matches Err(e) && e is InvalidDomain) <==> (!is_ascii_chars(domain@) && !(r matches Err(
                e2,
            ) && e2 is LeafKeyGeneration)),
            r matches Ok(config) ==> issued_for(self@, domain@, config),
    {
        proof {
            use_type_invariant(self);
        }
        let key = match generate_key_pair() {
            Ok(k) => k,
            Err(e) => {
                return Err(TlsError::LeafKeyGeneration(e));
            },
        };
        let profile = leaf_profile(domain);
        assert(dns_names_ascii(profile) <==> is_ascii_chars(domain@));
        let params = match certificate_params(&profile) {
            Ok(p) => p,
            Err(e) => {
                return Err(TlsError::InvalidDomain(e));
            },
        };
        assert(string_views(profile.dns_names@) =~= seq![domain@]);
        assert(profile_contents(profile) == leaf_contents(domain@));
        let cert = match sign_with(params, &key, &self.ca_cert, &self.ca_key_pair) {
            Ok(c) => c,
            Err(e) => {
                return Err(TlsError::LeafSigning(e));
            },
        };
        let (leaf_der, _) = certificate_encodings(&cert);
        let chain = server_chain(leaf_der, self.ca_cert_der.clone());
        let (leaf_key_der, _) = key_encodings(&key);
        match single_cert_config(chain, leaf_key_der) {
            Ok(config) => {
                assert(cert_contents(cert) == leaf_contents(domain@)
                    && certified_key(cert) == public_key_of(key.key)
                    && signing_key(cert) == public_key_of(self@.key)
                    && served_key(config) == key_der_of(key.key)
                    && presented_chain(config) == seq![cert_der_of(cert), cert_der_of(self@.cert)]);
                Ok(config)
            },
            Err(e) => Err(TlsError::ServerConfig(e)),
        }
    }
}

/// The server configurations made so far by an authority, with their
/// domains, oldest first.
pub struct ConfigCache {
    configs: Vec<(String, Arc<rustls::ServerConfig>)>,
}

impl View for ConfigCache {
    type V = Seq<(Seq<char>, rustls::ServerConfig)>;

    closed spec fn view(&self) -> Seq<(Seq<char>, rustls::ServerConfig)> {
        config_views(self.configs@)
    }
}

/// Every configuration of `configs` was issued by `ca` for its domain.
pub open spec fn all_issued(ca: CaModel, configs: Seq<(Seq<char>, rustls::ServerConfig)>) -> bool {
    forall|i: int| 0 <= i < configs.len() ==> #[trigger] issued_for(ca, configs[i].0, configs[i].1)
}

impl ConfigCache {
    /// No configuration yet.
    pub fn new() -> (r: ConfigCache)
        ensures
            r@ == Seq::<(Seq<char>, rustls::ServerConfig)>::empty(),
    {
        let r = ConfigCache { configs: Vec::new() };
        assert(r@ =~= Seq::<(Seq<char>, rustls::ServerConfig)>::empty());
        r
    }

    /// The server configuration for `domain`: the one made for it before,
    /// or else a new one from `ca` (see
    /// [`CertAuthority::generate_server_config`]), kept for later calls.
    pub fn server_config_for_domain(&mut self, ca: &CertAuthority, domain: &str) -> (r: Result<
        Arc<rustls::ServerConfig>,
        TlsError,
    >)
        ensures
            all_issued(ca@, old(self)@) ==> all_issued(ca@, final(self)@),
            cached_config(old(self)@, domain@) matches Some(c) ==> (r matches Ok(a) && *a == c
                && final(self)@ == old(self)@),
            cached_config(old(self)@, domain@) is None ==> ({
                &&& r matches Ok(a) ==> issued_for(ca@, domain@, *a)
                &&& r matches Ok(a) ==> final(self)@ == old(self)@.push((domain@, *a))
                &&& r is Err ==> final(self)@ == old(self)@
                &&& !is_ascii_chars(domain@) ==> r is Err
                &&& (r matches Err(e) && e is InvalidDomain) <==> (!is_ascii_chars(domain@) && !(r matches Err(
                    e2,
                ) && e2 is LeafKeyGeneration))
            }),
    {
        let mut i: usize = 0;
        while i < self.configs.len()
            invariant
                self == old(self),
                0 <= i <= self.configs.len(),
                forall|k: int| 0 <= k < i ==> self@[k].0 != domain@,
            decreases self.configs.len() - i,
        {
            if str_eq(self.configs[i].0.as_str(), domain) {
                proof {
                    lemma_cached_first(self@, domain@, i as int);
                }
                let found = self.configs[i].1.clone();
                return Ok(found);
            }
            i = i + 1;
        }
        proof {
            lemma_cached_none(self@, domain@);
        }
        match ca.generate_server_config(domain) {
            Ok(config) => {
                let shared = Arc::new(config);
                let kept = shared.clone();
                let ghost before = self@;
                self.configs.push((domain.to_owned(), kept));
                assert(self@ =~= before.push((domain@, *shared)));
                Ok(shared)
            },
            Err(e) => Err(e),
        }
    }
}

} // verus!
