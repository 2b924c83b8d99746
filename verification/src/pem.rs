//! Reading certificates and the private key out of PEM text.

use vstd::prelude::*;

use rustls_pemfile::Item::{Pkcs1Key, Pkcs8Key, Sec1Key, X509Certificate};

verus! {

use PemStep::{End, Malformed, Section};

/// The kind of a PEM section, as far as the server cares.
#[derive(Clone, Copy, Debug, PartialEq, Eq, Structural)]
pub enum PemKind {
    /// `CERTIFICATE`
    Certificate,
    /// `RSA PRIVATE KEY` (PKCS #1)
    RsaKey,
    /// `PRIVATE KEY` (PKCS #8)
    Pkcs8Key,
    /// `EC PRIVATE KEY` (SEC1)
    EcKey,
    /// Any other recognised section (public key, CRL, signing request).
    Other,
}

/// One step through PEM text: the end of the sections, a malformed
/// section, or a section with its decoded bytes and the number of bytes of
/// text that follow it.
pub enum PemStep {
    End,
    Malformed,
    Section(PemKind, Vec<u8>, usize),
}

/// The model of a `PemStep`, with the section's bytes as a sequence.
pub ghost enum PemStepModel {
    End,
    Malformed,
    Section(PemKind, Seq<u8>, nat),
}

impl View for PemStep {
    type V = PemStepModel;

    open spec fn view(&self) -> PemStepModel {
        match self {
            PemStep::End => PemStepModel::End,
            PemStep::Malformed => PemStepModel::Malformed,
            PemStep::Section(k, d, rest) => PemStepModel::Section(*k, d@, *rest as nat),
        }
    }
}

/// What `rustls_pemfile::read_one_from_slice` finds first in `input`.
pub uninterp spec fn pem_step_of(input: Seq<u8>) -> PemStepModel;

/// The first recognised section of `input`
/// (`rustls_pemfile::read_one_from_slice`). Its result is named by
/// `pem_step_of`; the crate's source also shows that a section is followed
/// by strictly less text than the input held, since the section's own
/// `BEGIN` line is consumed. The decoded bytes of sections of kind `Other`
/// are not kept.
#[verifier::external_body]
fn next_pem_section(input: &[u8]) -> (r: PemStep)
    ensures
        r@ == pem_step_of(input@),
        r matches PemStep::Section(_, _, rest) ==> rest < input@.len(),
{
    match rustls_pemfile::read_one_from_slice(input) {
        Ok(None) => End,
        Ok(Some((X509Certificate(d), r))) => Section(PemKind::Certificate, d.to_vec(), r.len()),
        Ok(Some((Pkcs1Key(d), r))) => Section(PemKind::RsaKey, d.secret_pkcs1_der().to_vec(), r.len()),
        Ok(Some((Pkcs8Key(d), r))) => Section(PemKind::Pkcs8Key, d.secret_pkcs8_der().to_vec(), r.len()),
        Ok(Some((Sec1Key(d), r))) => Section(PemKind::EcKey, d.secret_sec1_der().to_vec(), r.len()),
        Ok(Some((_, r))) => Section(PemKind::Other, vec![], r.len()),
        _ => Malformed,
    }
}

/// The text that follows a section which leaves `rest` bytes of `input`.
pub open spec fn tail_of(input: Seq<u8>, rest: nat) -> Seq<u8> {
    input.subrange(input.len() - rest, input.len() as int)
}

/// The certificates of a PEM text, in order, or `None` when a malformed
/// section comes first.
pub open spec fn certificates_in(input: Seq<u8>) -> Option<Seq<Seq<u8>>>
    decreases input.len(),
{
    match pem_step_of(input) {
        PemStepModel::End => Some(Seq::empty()),
        PemStepModel::Malformed => None,
        PemStepModel::Section(kind, der, rest) => {
            if rest < input.len() {
                match certificates_in(tail_of(input, rest)) {
                    Some(more) => Some(
                        if kind == PemKind::Certificate {
                            seq![der] + more
                        } else {
                            more
                        },
                    ),
                    None => None,
                }
            } else {
                None
            }
        },
    }
}

/// `found` followed by the certificates of `rest`, if `rest` reads.
pub open spec fn after(found: Seq<Seq<u8>>, rest: Option<Seq<Seq<u8>>>) -> Option<Seq<Seq<u8>>> {
    match rest {
        Some(more) => Some(found + more),
        None => None,
    }
}

/// The byte sequences held by a list of byte vectors.
pub open spec fn bytes_view(v: Seq<Vec<u8>>) -> Seq<Seq<u8>> {
    v.map_values(|b: Vec<u8>| b@)
}

/// What one PEM step contributes to the list of certificates: the end of
/// the text, a malformed section, or the next section (its DER bytes when it
/// is a certificate) followed by `rest` bytes of text.
pub enum CertStep {
    Done,
    Failed,
    Next(Option<Vec<u8>>, usize),
}

/// Reads one PEM step for the list of certificates.
pub fn cert_step(step: PemStep) -> (r: CertStep)
    ensures
        match step@ {
            PemStepModel::End => r is Done,
            PemStepModel::Malformed => r is Failed,
            PemStepModel::Section(kind, der, rest) => match r {
                CertStep::Next(found, n) => n == rest && match found {
                    Some(d) => kind == PemKind::Certificate && d@ == der,
                    None => kind != PemKind::Certificate,
                },
                _ => false,
            },
        },
{
    match step {
        End => CertStep::Done,
        Malformed => CertStep::Failed,
        Section(kind, der, rest) => {
            if kind == PemKind::Certificate {
                CertStep::Next(Some(der), rest)
            } else {
                CertStep::Next(None, rest)
            }
        },
    }
}

/// The certificates of a PEM text, or why they cannot be read.
fn scan_certs(pem: &[u8]) -> (r: Option<Vec<Vec<u8>>>)
    ensures
        r matches Some(v) ==> certificates_in(pem@) == Some(bytes_view(v@)),
        r is None ==> certificates_in(pem@) is None,
{
    let mut found: Vec<Vec<u8>> = Vec::new();
    let mut cur: &[u8] = pem;
    assert(bytes_view(found@) =~= Seq::<Seq<u8>>::empty());
    assert(after(Seq::empty(), certificates_in(pem@)) =~= certificates_in(pem@)) by {
        if let Some(m) = certificates_in(pem@) {
            assert(Seq::<Seq<u8>>::empty() + m =~= m);
        }
    }
    loop
        invariant
            certificates_in(pem@) == after(bytes_view(found@), certificates_in(cur@)),
        decreases cur@.len(),
    {
        let step = next_pem_section(cur);
        match cert_step(step) {
            CertStep::Done => {
                assert(bytes_view(found@) + Seq::<Seq<u8>>::empty() =~= bytes_view(found@));
                return Some(found);
            },
            CertStep::Failed => {
                return None;
            },
            CertStep::Next(der, rest) => {
                let ghost before = bytes_view(found@);
                let ghost tail = tail_of(cur@, rest as nat);
                let ghost is_cert = der is Some;
                let ghost d = match &der {
                    Some(x) => x@,
                    None => Seq::empty(),
                };
                match der {
                    Some(x) => {
                        found.push(x);
                        assert(bytes_view(found@) =~= before.push(d));
                    },
                    None => {},
                }
                let (_, next) = cur.split_at(cur.len() - rest);
                assert(next@ =~= tail);
                proof {
                    if let Some(more) = certificates_in(tail) {
                        if is_cert {
                            assert(before + (seq![d] + more) =~= before.push(d) + more);
                        }
                    }
                }
                cur = next;
            },
        }
    }
}

/// The DER bytes of every certificate of a PEM text, in order, for a text
/// that holds no malformed section before its end.
pub fn load_certs(pem: &[u8]) -> (v: Vec<Vec<u8>>)
    requires
        certificates_in(pem@) is Some,
    ensures
        certificates_in(pem@) == Some(bytes_view(v@)),
{
    match scan_certs(pem) {
        Some(v) => v,
        None => {
            proof {
                assert(false);
            }
            Vec::new()
        },
    }
}

/// The DER bytes of every certificate of a PEM text, in order; `None` when
/// the text holds a malformed section before its end.
pub fn try_load_certs(pem: &[u8]) -> (r: Option<Vec<Vec<u8>>>)
    ensures
        r matches Some(v) ==> certificates_in(pem@) == Some(bytes_view(v@)),
        r is None ==> certificates_in(pem@) is None,
{
    if scan_certs(pem).is_some() {
        Some(load_certs(pem))
    } else {
        None
    }
}

/// How a private key is encoded.
#[derive(Clone, Copy, Debug, PartialEq, Eq, Structural)]
pub enum KeyKind {
    /// PKCS #1 RSA key.
    Pkcs1,
    /// PKCS #8 key.
    Pkcs8,
    /// SEC1 elliptic-curve key.
    Sec1,
}

/// A private key: its encoding and its DER bytes.
pub struct PrivateKey {
    pub kind: KeyKind,
    pub der: Vec<u8>,
}

/// Why no private key could be read from a PEM text.
#[derive(Clone, Copy, Debug, PartialEq, Eq, Structural)]
pub enum KeyError {
    /// A malformed section came before any key.
    Unparsable,
    /// The text ends without a key section.
    NoKey,
}

/// The key kind that a section kind holds, if any.
pub open spec fn key_kind_of(kind: PemKind) -> Option<KeyKind> {
    match kind {
        PemKind::RsaKey => Some(KeyKind::Pkcs1),
        PemKind::Pkcs8Key => Some(KeyKind::Pkcs8),
        PemKind::EcKey => Some(KeyKind::Sec1),
        _ => None,
    }
}

/// The first private key of a PEM text, skipping the sections that are not
/// keys; an error when a malformed section or the end comes first.
pub open spec fn first_key_in(input: Seq<u8>) -> Result<(KeyKind, Seq<u8>), KeyError>
    decreases input.len(),
{
    match pem_step_of(input) {
        PemStepModel::End => Err(KeyError::NoKey),
        PemStepModel::Malformed => Err(KeyError::Unparsable),
        PemStepModel::Section(kind, der, rest) => match key_kind_of(kind) {
            Some(k) => Ok((k, der)),
            None => if rest < input.len() {
                first_key_in(tail_of(input, rest))
            } else {
                Err(KeyError::NoKey)
            },
        },
    }
}

/// What one PEM step contributes to the search for a private key: the key
/// it holds, the reason the search ends without one, or the number of bytes
/// of text that follow a section that holds no key.
pub enum KeyStep {
    Found(PrivateKey),
    Failed(KeyError),
    Skip(usize),
}

/// Reads one PEM step in the search for a private key.
pub fn key_step(step: PemStep) -> (r: KeyStep)
    ensures
        match step@ {
            PemStepModel::End => r matches KeyStep::Failed(e) && e == KeyError::NoKey,
            PemStepModel::Malformed => r matches KeyStep::Failed(e) && e == KeyError::Unparsable,
            PemStepModel::Section(kind, der, rest) => match key_kind_of(kind) {
                Some(k) => r matches KeyStep::Found(key) && key.kind == k && key.der@ == der,
                None => r matches KeyStep::Skip(n) && n == rest,
            },
        },
{
    match step {
        End => KeyStep::Failed(KeyError::NoKey),
        Malformed => KeyStep::Failed(KeyError::Unparsable),
        Section(kind, der, rest) => match kind {
            PemKind::RsaKey => KeyStep::Found(PrivateKey { kind: KeyKind::Pkcs1, der }),
            PemKind::Pkcs8Key => KeyStep::Found(PrivateKey { kind: KeyKind::Pkcs8, der }),
            PemKind::EcKey => KeyStep::Found(PrivateKey { kind: KeyKind::Sec1, der }),
            _ => KeyStep::Skip(rest),
        },
    }
}

/// The first private key of a PEM text, or why there is none.
fn scan_private_key(pem: &[u8]) -> (r: Result<PrivateKey, KeyError>)
    ensures
        match r {
            Ok(key) => first_key_in(pem@) == Ok::<(KeyKind, Seq<u8>), KeyError>((key.kind, key.der@)),
            Err(e) => first_key_in(pem@) == Err::<(KeyKind, Seq<u8>), KeyError>(e),
        },
{
    let mut cur: &[u8] = pem;
    loop
        invariant
            first_key_in(pem@) == first_key_in(cur@),
        decreases cur@.len(),
    {
        let step = next_pem_section(cur);
        match key_step(step) {
            KeyStep::Found(key) => {
                return Ok(key);
            },
            KeyStep::Failed(e) => {
                return Err(e);
            },
            KeyStep::Skip(rest) => {
                let (_, next) = cur.split_at(cur.len() - rest);
                assert(next@ =~= tail_of(cur@, rest as nat));
                cur = next;
            },
        }
    }
}

/// The first private key of a PEM text that holds one before any malformed
/// section (see `first_key_in`).
pub fn load_private_key(pem: &[u8]) -> (key: PrivateKey)
    requires
        first_key_in(pem@) is Ok,
    ensures
        first_key_in(pem@) == Ok::<(KeyKind, Seq<u8>), KeyError>((key.kind, key.der@)),
{
    match scan_private_key(pem) {
        Ok(key) => key,
        Err(_) => {
            proof {
                assert(false);
            }
            PrivateKey { kind: KeyKind::Pkcs8, der: Vec::new() }
        },
    }
}

/// The first private key of a PEM text, or why there is none (see
/// `first_key_in`).
pub fn try_load_private_key(pem: &[u8]) -> (r: Result<PrivateKey, KeyError>)
    ensures
        match r {
            Ok(key) => first_key_in(pem@) == Ok::<(KeyKind, Seq<u8>), KeyError>((key.kind, key.der@)),
            Err(e) => first_key_in(pem@) == Err::<(KeyKind, Seq<u8>), KeyError>(e),
        },
{
    match scan_private_key(pem) {
        Ok(_) => Ok(load_private_key(pem)),
        Err(e) => Err(e),
    }
}

} // verus!
