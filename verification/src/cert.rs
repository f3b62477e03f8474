//! Certificates: a self-signed one for local use, or one that a certificate
//! authority provisions for a domain.

use vstd::prelude::*;

use crate::encoding;
use crate::encoding::fingerprint;
use crate::text::join2;

verus! {

/// Where the server's certificate comes from.
pub enum TlsMode {
    /// The server made it itself.
    SelfSigned {
        /// The certificate, in DER.
        cert_der: Vec<u8>,
        /// The private key, in PKCS#8 and DER.
        key_der: Vec<u8>,
        /// The fingerprint of the public key, by which a browser can be told to
        /// accept the certificate.
        spki_hash_b64: String,
    },
    /// It is provisioned and renewed by Let's Encrypt.
    Acme {
        domain: String,
        /// Whom the authority may write to.
        contact: String,
        /// Where certificates are kept.
        cache_dir: String,
        /// Whether certificates are real ones.
        production: bool,
    },
}

/// A new key pair with a certificate for it.
pub struct SelfSigned {
    pub cert_der: Vec<u8>,
    pub key_der: Vec<u8>,
    /// The public key as a `SubjectPublicKeyInfo`, in DER.
    pub public_key_der: Vec<u8>,
}

/// The public key that a certificate in DER binds, as a `SubjectPublicKeyInfo`.
pub uninterp spec fn certificate_key(cert_der: Seq<u8>) -> Seq<u8>;

/// Whether a certificate in DER lists the host with this name or address among
/// its subject's alternative names.
pub uninterp spec fn certifies_host(cert_der: Seq<u8>, name: Seq<char>) -> bool;

/// The public key that belongs to a private key in PKCS#8, as a
/// `SubjectPublicKeyInfo`.
pub uninterp spec fn public_key_of(key_der: Seq<u8>) -> Seq<u8>;

/// `rcgen::generate_simple_self_signed`: a certificate that lists the given names,
/// with a new key pair. Both the certificate and the private key go with the
/// public key. Which key it is, is random, and whether one can be made depends on
/// the machine: neither is claimed.
#[verifier::external_body]
fn simple_self_signed(names: Vec<String>) -> (r: Result<SelfSigned, String>)
    ensures
        r matches Ok(made) ==> certificate_key(made.cert_der@) == made.public_key_der@,
        r matches Ok(made) ==> public_key_of(made.key_der@) == made.public_key_der@,
        r matches Ok(made) ==> forall|i: int|
            0 <= i < names.deep_view().len() ==> certifies_host(
                made.cert_der@,
                #[trigger] names.deep_view()[i],
            ),
{
    let made = rcgen::generate_simple_self_signed(names).map_err(|e| e.to_string())?;
    Ok(
        SelfSigned {
            cert_der: made.cert.der().to_vec(),
            key_der: made.key_pair.serialize_der(),
            public_key_der: made.key_pair.public_key_der(),
        },
    )
}

/// The names for which the server signs itself: those of the local host.
pub fn local_names() -> (names: Vec<String>)
    ensures
        names.deep_view() == seq!["localhost"@, "127.0.0.1"@],
{
    let mut names: Vec<String> = Vec::new();
    names.push("localhost".to_string());
    names.push("127.0.0.1".to_string());
    assert(names.deep_view() =~= seq!["localhost"@, "127.0.0.1"@]);
    names
}

/// Whether `mode` presents the certificate in `made`, and the fingerprint is
/// that of its key.
pub open spec fn presents(mode: TlsMode, made: SelfSigned) -> bool {
    &&& mode matches TlsMode::SelfSigned { cert_der, key_der, spki_hash_b64 }
    &&& cert_der@ == made.cert_der@
    &&& key_der@ == made.key_der@
    &&& spki_hash_b64@ == encoding::base64_encoded(encoding::sha256(made.public_key_der@))
}

/// Presents a certificate that the server made itself.
pub fn self_signed_mode(made: SelfSigned) -> (mode: TlsMode)
    ensures
        presents(mode, made),
        mode is SelfSigned,
        mode->cert_der@ == made.cert_der@,
        mode->key_der@ == made.key_der@,
        mode->spki_hash_b64@ == encoding::base64_encoded(encoding::sha256(made.public_key_der@)),
{
    let spki_hash_b64 = fingerprint(made.public_key_der.as_slice());
    TlsMode::SelfSigned { cert_der: made.cert_der, key_der: made.key_der, spki_hash_b64 }
}

/// Whether `mode` presents a certificate for the local host, with the private key
/// and the fingerprint that go with it.
pub open spec fn is_local(mode: TlsMode) -> bool {
    &&& mode matches TlsMode::SelfSigned { cert_der, key_der, spki_hash_b64 }
    &&& certifies_host(cert_der@, "localhost"@)
    &&& certifies_host(cert_der@, "127.0.0.1"@)
    &&& public_key_of(key_der@) == certificate_key(cert_der@)
    &&& spki_hash_b64@ == encoding::base64_encoded(encoding::sha256(certificate_key(cert_der@)))
}

/// Makes a certificate for the local host. Whether it succeeds depends on the
/// machine, which has to make a key.
pub fn generate_self_signed() -> (r: Result<TlsMode, String>)
    ensures
        r matches Ok(mode) ==> is_local(mode),
        r matches Ok(mode) ==> {
            &&& mode is SelfSigned
            &&& certifies_host(mode->cert_der@, "localhost"@)
            &&& certifies_host(mode->cert_der@, "127.0.0.1"@)
            &&& public_key_of(mode->key_der@) == certificate_key(mode->cert_der@)
            &&& mode->spki_hash_b64@ == encoding::base64_encoded(
                encoding::sha256(certificate_key(mode->cert_der@)),
            )
        },
{
    let names = local_names();
    let ghost listed = names.deep_view();
    match simple_self_signed(names) {
        Ok(made) => {
            assert(listed[0] == "localhost"@ && listed[1] == "127.0.0.1"@);
            Ok(self_signed_mode(made))
        },
        Err(e) => Err(e),
    }
}

/// Has certificates provisioned for a domain.
pub fn acme(domain: &str) -> (mode: TlsMode)
    ensures
        mode matches TlsMode::Acme { domain: d, contact, cache_dir, production } && d@ == domain@
            && contact@ == "mailto:acme@"@ + domain@ && cache_dir@ == "/data/acme_cache"@
            && production,
{
    TlsMode::Acme {
        domain: domain.to_string(),
        contact: join2("mailto:acme@", domain),
        cache_dir: "/data/acme_cache".to_string(),
        production: true,
    }
}

/// Which certificate a connection is answered with.
#[derive(Clone, Copy, PartialEq, Eq, Structural, Debug)]
pub enum CertSource {
    /// The one that the server made itself.
    Own,
    /// The one that was provisioned last.
    Provisioned,
}

/// How QUIC connections are secured.
pub struct QuicTls {
    pub source: CertSource,
    /// The protocols that are offered.
    pub alpn_protocols: Vec<Vec<u8>>,
    /// How much a client may send before the handshake is complete.
    pub max_early_data_size: u32,
}

impl TlsMode {
    /// How QUIC connections are secured: with this certificate, for HTTP/3, and
    /// with early data, which QUIC allows only without a limit.
    pub fn quinn_rustls_config(&self) -> (tls: QuicTls)
        ensures
            tls.source == match *self {
                TlsMode::SelfSigned { .. } => CertSource::Own,
                TlsMode::Acme { .. } => CertSource::Provisioned,
            },
            tls.alpn_protocols.deep_view() == seq![seq![0x68u8, 0x33u8]],
            tls.max_early_data_size == u32::MAX,
    {
        let mut h3: Vec<u8> = Vec::new();
        h3.push(0x68);
        h3.push(0x33);
        assert(h3.deep_view() =~= seq![0x68u8, 0x33u8]);
        let mut alpn_protocols: Vec<Vec<u8>> = Vec::new();
        alpn_protocols.push(h3);
        assert(alpn_protocols.deep_view() =~= seq![seq![0x68u8, 0x33u8]]);
        QuicTls {
            source: match self {
                TlsMode::SelfSigned { .. } => CertSource::Own,
                TlsMode::Acme { .. } => CertSource::Provisioned,
            },
            alpn_protocols,
            max_early_data_size: u32::MAX,
        }
    }

    /// What `GET /cert-hash` answers: the fingerprint that a browser needs to be
    /// told, if it needs one.
    pub fn cert_hash(&self) -> (hash: String)
        ensures
            hash@ == match *self {
                TlsMode::SelfSigned { spki_hash_b64, .. } => spki_hash_b64@,
                TlsMode::Acme { .. } => Seq::<char>::empty(),
            },
    {
        match self {
            TlsMode::SelfSigned { spki_hash_b64, .. } => spki_hash_b64.clone(),
            TlsMode::Acme { .. } => String::new(),
        }
    }
}

// ---- laws ----

/// A certificate for the local host can be used: it lists both names of the host,
/// the private key goes with the public key in it, and the fingerprint is that
/// of this public key.
pub proof fn law_a_local_certificate_fits_its_key(mode: TlsMode)
    requires
        is_local(mode),
    ensures
        mode is SelfSigned,
        certifies_host(mode->cert_der@, "localhost"@),
        certifies_host(mode->cert_der@, "127.0.0.1"@),
        public_key_of(mode->key_der@) == certificate_key(mode->cert_der@),
        mode->spki_hash_b64@ == encoding::base64_encoded(
            encoding::sha256(public_key_of(mode->key_der@)),
        ),
{
}

} // verus!
