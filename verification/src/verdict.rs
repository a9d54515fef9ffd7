//! What a signature turns out to prove (12.8), assembled from the parts.
//!
//! Reading a signature is four independent questions — which bytes does it
//! cover, do they still hash to what was signed, was it made by the key in
//! the certificate, and whose key is it — and a verdict that collapses them
//! into one answer throws away the only information a caller can act on.
//!
//! The parsing and the arithmetic behind each answer are the CMS and crypto
//! layers' own; what is here is every decision made between them: the order
//! the checks run in, which outcome each fact leads to, and which weaknesses
//! are reported on the way. Each decision takes what the layer below found as
//! plain values, so every outcome it can hand back is covered by the
//! contracts below.

use vstd::prelude::*;

use crate::signature::{Coverage, SubFilter};

verus! {

/// Whether the CMS blob could be read.
#[derive(Clone, Debug, PartialEq, Eq)]
pub enum CmsState {
    /// Parsed, with `signers` signer informations in it.
    Read {
        /// How many `SignerInfo`s the `SignedData` carries.
        signers: usize,
    },
    /// `/Contents` held no bytes to parse.
    Absent,
    /// Bytes were there and would not parse, with the parser's own reason.
    Unreadable(String),
}

/// Whether the document still hashes to what the signature was made over.
#[derive(Clone, Debug, PartialEq, Eq)]
pub enum DocumentDigest {
    /// The `messageDigest` attribute equals a digest recomputed over the
    /// covered bytes.
    Matches,
    /// It does not.
    Differs,
    /// Not checked, and why.
    NotChecked(Unchecked),
}

/// Whether the signature verifies against the signer's own public key.
#[derive(Clone, Debug, PartialEq, Eq)]
pub enum SignatureCheck {
    /// It verifies.
    Verified,
    /// The arithmetic ran and the signature is not the one that key would
    /// have made.
    Failed,
    /// Not checked, and why.
    NotChecked(Unchecked),
}

/// Why a check did not produce an answer — always a named reason rather than
/// a `false`, because "we did not look" and "we looked and it was wrong" are
/// the two answers a caller must never confuse.
#[derive(Clone, Debug, PartialEq, Eq)]
pub enum Unchecked {
    /// There was no CMS to check against.
    NoCms,
    /// The `/ByteRange` does not describe a range of this file.
    CoverageUnusable,
    /// The `SignedData` carries no `SignerInfo`.
    NoSigner,
    /// The signer names an algorithm this build does not implement.
    UnsupportedAlgorithm(String),
    /// The signer's certificate is not in the blob, so there is no key.
    SignerCertificateMissing,
    /// The certificate's public key is not one this build verifies with.
    UnsupportedKey(String),
    /// There are no signed attributes, so there is no `messageDigest`.
    NoSignedAttributes,
    /// The blob is an `adbe.pkcs7.sha1` (12.8.3.3.1), named rather than
    /// implemented.
    LegacySha1SubFilter,
}

/// How far the certificate chain reached.
#[derive(Clone, Debug, PartialEq, Eq)]
pub enum Chain {
    /// A path was built to an anchor the caller supplied, and every link's
    /// signature verified.
    AnchoredTo {
        /// The trusted certificate's subject.
        anchor: String,
        /// How many certificates were between the signer and the anchor.
        links: usize,
    },
    /// The path ends at a self-signed certificate that is not an anchor.
    SelfSigned {
        /// That certificate's subject.
        subject: String,
    },
    /// No issuer for some certificate was found, so the path stops.
    Incomplete {
        /// The issuer that could not be found.
        missing_issuer: String,
    },
    /// A link's signature did not verify.
    Broken {
        /// The certificate whose signature over its child failed.
        at: String,
    },
    /// No anchors were supplied, so no path was attempted.
    NoAnchors,
    /// The signer's certificate was not found.
    NoSignerCertificate,
}

/// Something accepted that a caller should be told about.
#[derive(Clone, Debug, PartialEq, Eq)]
pub enum Weakness {
    /// The document digest is SHA-1.
    Sha1Digest,
    /// The signature algorithm is SHA-1 with RSA.
    Sha1Signature,
    /// The signer's RSA modulus is under 2 048 bits.
    ShortRsaKey {
        /// How many bits it is.
        bits: usize,
    },
    /// The signature covers an earlier revision, so later ones are outside it.
    CoversOnlyARevision,
    /// The `/ByteRange` did not hold up.
    CoverageSuspicious,
    /// A certificate's validity window does not contain the instant the
    /// caller asked about.
    OutsideValidity {
        /// The certificate's subject.
        subject: String,
    },
}

/// Who the signer's certificate says they are.
#[derive(Debug, PartialEq, Eq)]
pub struct SignerDescription {
    /// The certificate's subject, rendered per RFC 4514.
    pub subject: String,
    /// Its issuer.
    pub issuer: String,
    /// `notBefore` and `notAfter`, as seconds since the Unix epoch.
    pub validity: (i64, i64),
    /// The signing time the signer *claims*.
    pub claimed_signing_time: Option<i64>,
    /// Whether the blob carries an RFC 3161 timestamp token.
    pub timestamped: bool,
}

impl Clone for SignerDescription {
    fn clone(&self) -> (r: SignerDescription)
        ensures
            r.subject@ == self.subject@,
            r.issuer@ == self.issuer@,
            r.validity == self.validity,
            r.claimed_signing_time == self.claimed_signing_time,
            r.timestamped == self.timestamped,
    {
        SignerDescription {
            subject: self.subject.clone(),
            issuer: self.issuer.clone(),
            validity: (self.validity.0, self.validity.1),
            claimed_signing_time: self.claimed_signing_time,
            timestamped: self.timestamped,
        }
    }
}

/// Everything the four questions came back with.
#[derive(Clone, Debug, PartialEq, Eq)]
pub struct Verdict {
    /// Which bytes it covers.
    pub coverage: Coverage,
    /// Whether the CMS could be read.
    pub cms: CmsState,
    /// Whether the covered bytes still hash to what was signed.
    pub document_digest: DocumentDigest,
    /// Whether the signature verifies against the signer's key.
    pub signature: SignatureCheck,
    /// How far the chain reached.
    pub chain: Chain,
    /// What was accepted and is worth saying.
    pub weaknesses: Vec<Weakness>,
    /// Who the signer's certificate says they are.
    pub signer: Option<SignerDescription>,
}

/// All four questions came back the way "this document is intact and signed
/// by someone I trust" needs.
pub open spec fn trusted(verdict: Verdict) -> bool {
    &&& verdict.coverage == Coverage::WholeFile
    &&& verdict.document_digest is Matches
    &&& verdict.signature is Verified
    &&& verdict.chain is AnchoredTo
}

impl Verdict {
    /// Whether all four questions came back the way a caller hoping for
    /// "this document is intact and signed by someone I trust" needs.
    ///
    /// A convenience, not the answer: it is deliberately conservative and it
    /// discards every distinction the fields make.
    pub fn is_trusted(&self) -> (r: bool)
        ensures
            r == trusted(*self),
    {
        self.coverage == Coverage::WholeFile
            && matches!(self.document_digest, DocumentDigest::Matches)
            && matches!(self.signature, SignatureCheck::Verified)
            && matches!(self.chain, Chain::AnchoredTo { .. })
    }
}

/// Certificates the caller trusts, as DER.
///
/// Empty by default and never populated by the engine: without something
/// trusted to reach, a chain proves that a key signed something, not whose
/// key it was.
#[derive(Clone, Debug)]
pub struct TrustAnchors {
    certificates: Vec<Vec<u8>>,
}

impl View for TrustAnchors {
    type V = Seq<Seq<u8>>;

    closed spec fn view(&self) -> Seq<Seq<u8>> {
        Seq::new(self.certificates@.len(), |i: int| self.certificates@[i]@)
    }
}

impl Default for TrustAnchors {
    fn default() -> (r: TrustAnchors)
        ensures
            r@ == Seq::<Seq<u8>>::empty(),
    {
        TrustAnchors::new()
    }
}

impl TrustAnchors {
    /// No anchors.
    pub fn new() -> (r: TrustAnchors)
        ensures
            r@ == Seq::<Seq<u8>>::empty(),
    {
        let r = TrustAnchors { certificates: Vec::new() };
        assert(r@ =~= Seq::<Seq<u8>>::empty());
        r
    }

    /// Adds a DER certificate, given what the certificate parser made of it.
    /// Bytes that do not parse are refused here, with the parser's own reason,
    /// rather than silently ignored at verification time.
    pub fn add(&mut self, der: Vec<u8>, parsed: Result<(), String>) -> (r: Result<(), String>)
        ensures
            r == parsed,
            parsed is Ok ==> final(self)@ == old(self)@.push(der@),
            parsed is Err ==> final(self)@ == old(self)@,
    {
        if parsed.is_ok() {
            let ghost before = self@;
            self.certificates.push(der);
            assert(self@ =~= before.push(der@));
        }
        parsed
    }

    /// How many anchors there are.
    pub fn len(&self) -> (r: usize)
        ensures
            r == self@.len(),
    {
        self.certificates.len()
    }

    /// Whether there are none.
    pub fn is_empty(&self) -> (r: bool)
        ensures
            r == (self@.len() == 0),
    {
        self.certificates.len() == 0
    }

    /// The anchor at `index`, as DER.
    pub fn get(&self, index: usize) -> (r: &Vec<u8>)
        requires
            index < self@.len(),
        ensures
            r@ == self@[index as int],
    {
        &self.certificates[index]
    }
}

// ---- The four questions -----------------------------------------------------

/// The digest algorithms a CMS signer can name.
#[derive(Clone, Copy, Debug, PartialEq, Eq, Structural)]
pub enum DigestAlgorithm {
    /// SHA-1.
    Sha1,
    /// SHA-256.
    Sha256,
    /// SHA-384.
    Sha384,
    /// SHA-512.
    Sha512,
}

/// What the CMS layer found about the first signer's document digest.
pub struct DigestFacts {
    /// The signature's recognised `/SubFilter`.
    pub sub_filter: Option<SubFilter>,
    /// The `messageDigest` signed attribute, when there are signed
    /// attributes.
    pub expected: Option<Vec<u8>>,
    /// The digest algorithm the signer uses, or the parser's reason it names
    /// none this build implements.
    pub algorithm: Result<DigestAlgorithm, String>,
    /// The digest of the covered bytes under that algorithm, or `None` when
    /// the spans do not fit the file. Read only once the checks before it
    /// have passed.
    pub actual: Option<Vec<u8>>,
}

/// Question 2's answer, and the weaknesses it raises.
pub open spec fn spec_document_digest(facts: DigestFacts) -> (DocumentDigest, Seq<Weakness>) {
    if facts.sub_filter == Some(SubFilter::Pkcs7Sha1) {
        (DocumentDigest::NotChecked(Unchecked::LegacySha1SubFilter), Seq::empty())
    } else if facts.expected is None {
        (DocumentDigest::NotChecked(Unchecked::NoSignedAttributes), Seq::empty())
    } else {
        match facts.algorithm {
            Err(reason) => (DocumentDigest::NotChecked(Unchecked::UnsupportedAlgorithm(reason)), Seq::empty()),
            Ok(algorithm) => {
                let raised: Seq<Weakness> = if algorithm == DigestAlgorithm::Sha1 {
                    seq![Weakness::Sha1Digest]
                } else {
                    Seq::empty()
                };
                match facts.actual {
                    None => (DocumentDigest::NotChecked(Unchecked::CoverageUnusable), raised),
                    Some(actual) => if actual@ == facts.expected->0@ {
                        (DocumentDigest::Matches, raised)
                    } else {
                        (DocumentDigest::Differs, raised)
                    },
                }
            },
        }
    }
}

/// Once the digest is compared at all — the sub-filter is not
/// `adbe.pkcs7.sha1`, there is a signed `messageDigest`, the algorithm is one
/// this build implements and the covered bytes could be hashed — the answer
/// is `Matches` exactly when the two digests are the same bytes and `Differs`
/// otherwise, whichever algorithm it is; and only SHA-1 is named a weakness.
pub proof fn lemma_equal_digests_match_under_every_algorithm(facts: DigestFacts)
    requires
        facts.sub_filter != Some(SubFilter::Pkcs7Sha1),
        facts.expected is Some,
        facts.algorithm is Ok,
        facts.actual is Some,
    ensures
        facts.actual->0@ == facts.expected->0@ ==> spec_document_digest(facts).0 == DocumentDigest::Matches,
        facts.actual->0@ != facts.expected->0@ ==> spec_document_digest(facts).0 == DocumentDigest::Differs,
        spec_document_digest(facts).1 == (if facts.algorithm->Ok_0 == DigestAlgorithm::Sha1 {
            seq![Weakness::Sha1Digest]
        } else {
            Seq::<Weakness>::empty()
        }),
{
}

/// The digest goes unchecked, and says why, exactly in the order the reasons
/// apply: the legacy SHA-1 sub-filter first, then no signed attributes, then
/// an algorithm this build does not implement, then coverage that could not
/// be hashed; none of these answers `Matches` or `Differs`.
pub proof fn lemma_why_a_digest_goes_unchecked(facts: DigestFacts)
    ensures
        facts.sub_filter == Some(SubFilter::Pkcs7Sha1) ==> spec_document_digest(facts).0
            == DocumentDigest::NotChecked(Unchecked::LegacySha1SubFilter),
        facts.sub_filter != Some(SubFilter::Pkcs7Sha1) && facts.expected is None ==> spec_document_digest(
            facts,
        ).0 == DocumentDigest::NotChecked(Unchecked::NoSignedAttributes),
        facts.sub_filter != Some(SubFilter::Pkcs7Sha1) && facts.expected is Some && facts.algorithm is Err
            ==> spec_document_digest(facts).0 == DocumentDigest::NotChecked(
            Unchecked::UnsupportedAlgorithm(facts.algorithm->Err_0),
        ),
        facts.sub_filter != Some(SubFilter::Pkcs7Sha1) && facts.expected is Some && facts.algorithm is Ok
            && facts.actual is None ==> spec_document_digest(facts).0 == DocumentDigest::NotChecked(
            Unchecked::CoverageUnusable,
        ),
{
}

/// Question 2: do the covered bytes still hash to what was signed?
///
/// The comparison is not constant-time, and deliberately: both values are
/// public — one is in the document and the other is computed from it.
pub fn check_document_digest(facts: DigestFacts, weaknesses: &mut Vec<Weakness>) -> (r: DocumentDigest)
    ensures
        r == spec_document_digest(facts).0,
        final(weaknesses)@ == old(weaknesses)@ + spec_document_digest(facts).1,
{
    let ghost before = weaknesses@;
    let ghost all = facts;
    if matches!(facts.sub_filter, Some(SubFilter::Pkcs7Sha1)) {
        assert(weaknesses@ =~= before + Seq::<Weakness>::empty());
        return DocumentDigest::NotChecked(Unchecked::LegacySha1SubFilter);
    }
    let expected = match facts.expected {
        Some(expected) => expected,
        None => {
            assert(weaknesses@ =~= before + Seq::<Weakness>::empty());
            return DocumentDigest::NotChecked(Unchecked::NoSignedAttributes);
        },
    };
    let algorithm = match facts.algorithm {
        Ok(algorithm) => algorithm,
        Err(reason) => {
            assert(weaknesses@ =~= before + Seq::<Weakness>::empty());
            return DocumentDigest::NotChecked(Unchecked::UnsupportedAlgorithm(reason));
        },
    };
    if algorithm == DigestAlgorithm::Sha1 {
        weaknesses.push(Weakness::Sha1Digest);
    }
    assert(weaknesses@ =~= before + spec_document_digest(all).1);
    match facts.actual {
        None => DocumentDigest::NotChecked(Unchecked::CoverageUnusable),
        Some(actual) => if crate::text::bytes_equal(actual.as_slice(), expected.as_slice()) {
            DocumentDigest::Matches
        } else {
            DocumentDigest::Differs
        },
    }
}

/// The signature schemes a signer can name.
#[derive(Clone, Debug, PartialEq, Eq)]
pub enum SignatureScheme {
    /// RSASSA-PKCS1-v1_5, the one this build verifies with.
    RsaPkcs1v15,
    /// Anything else, as the CMS layer renders it.
    Other(String),
}

/// What the CMS and crypto layers found about the first signer's signature.
pub struct SignatureFacts {
    /// Whether the signer carries signed attributes, which are what the
    /// signature is over (RFC 5652 §5.4).
    pub signed_attributes: bool,
    /// The signature algorithm, or the parser's reason it has none.
    pub scheme: Result<SignatureScheme, String>,
    /// The digest algorithm, or the parser's reason it has none.
    pub digest: Result<DigestAlgorithm, String>,
    /// The RSA modulus length in bits, when the certificate's key is RSA.
    pub rsa_bits: Option<usize>,
    /// Whether the key verified the signature over the signed attributes.
    /// Read only once every check before it has passed.
    pub verified: bool,
}

/// Whether a message is the one `UnsupportedKey` carries for a key that is
/// not RSA.
pub open spec fn names_non_rsa_key(reason: Seq<char>) -> bool {
    reason == "the subject public key is not RSA"@
}

/// Whether the facts reach the key at all: signed attributes, a signature
/// scheme and a digest this build names, and that scheme RSA.
pub open spec fn reaches_the_key(facts: SignatureFacts) -> bool {
    &&& facts.signed_attributes
    &&& facts.scheme matches Ok(SignatureScheme::RsaPkcs1v15)
    &&& facts.digest is Ok
}

/// Question 3's answer: `r` is what the facts lead to.
pub open spec fn signature_outcome(facts: SignatureFacts, r: SignatureCheck) -> bool {
    if !facts.signed_attributes {
        r == SignatureCheck::NotChecked(Unchecked::NoSignedAttributes)
    } else {
        match facts.scheme {
            Err(reason) => r == SignatureCheck::NotChecked(Unchecked::UnsupportedAlgorithm(reason)),
            Ok(scheme) => match facts.digest {
                Err(reason) => r == SignatureCheck::NotChecked(Unchecked::UnsupportedAlgorithm(reason)),
                Ok(_) => match scheme {
                    SignatureScheme::Other(rendered) => r == SignatureCheck::NotChecked(
                        Unchecked::UnsupportedAlgorithm(rendered),
                    ),
                    SignatureScheme::RsaPkcs1v15 => match facts.rsa_bits {
                        None => (r matches SignatureCheck::NotChecked(Unchecked::UnsupportedKey(s))
                            && names_non_rsa_key(s@)),
                        Some(_) => r == (if facts.verified {
                            SignatureCheck::Verified
                        } else {
                            SignatureCheck::Failed
                        }),
                    },
                },
            },
        }
    }
}

/// The weaknesses question 3 raises: a SHA-1 digest once the key is reached,
/// then a modulus under 2 048 bits once the key is RSA.
pub open spec fn signature_weaknesses(facts: SignatureFacts) -> Seq<Weakness> {
    if !reaches_the_key(facts) {
        Seq::empty()
    } else {
        let sha1: Seq<Weakness> = if facts.digest == Ok::<DigestAlgorithm, String>(DigestAlgorithm::Sha1) {
            seq![Weakness::Sha1Signature]
        } else {
            Seq::empty()
        };
        match facts.rsa_bits {
            Some(bits) if bits < 2048 => sha1.push(Weakness::ShortRsaKey { bits }),
            _ => sha1,
        }
    }
}

/// Question 3: was the signature made by the key in the certificate?
///
/// ECDSA is not wired here and is named rather than guessed: an untested path
/// is worst in exactly this place.
pub fn check_signature(facts: SignatureFacts, weaknesses: &mut Vec<Weakness>) -> (r: SignatureCheck)
    ensures
        signature_outcome(facts, r),
        final(weaknesses)@ == old(weaknesses)@ + signature_weaknesses(facts),
{
    let ghost before = weaknesses@;
    let ghost all = facts;
    if !facts.signed_attributes {
        assert(weaknesses@ =~= before + Seq::<Weakness>::empty());
        return SignatureCheck::NotChecked(Unchecked::NoSignedAttributes);
    }
    let scheme = match facts.scheme {
        Ok(scheme) => scheme,
        Err(reason) => {
            assert(weaknesses@ =~= before + Seq::<Weakness>::empty());
            return SignatureCheck::NotChecked(Unchecked::UnsupportedAlgorithm(reason));
        },
    };
    let digest = match facts.digest {
        Ok(digest) => digest,
        Err(reason) => {
            assert(weaknesses@ =~= before + Seq::<Weakness>::empty());
            return SignatureCheck::NotChecked(Unchecked::UnsupportedAlgorithm(reason));
        },
    };
    match scheme {
        SignatureScheme::Other(rendered) => {
            assert(weaknesses@ =~= before + Seq::<Weakness>::empty());
            return SignatureCheck::NotChecked(Unchecked::UnsupportedAlgorithm(rendered));
        },
        SignatureScheme::RsaPkcs1v15 => {},
    }
    if digest == DigestAlgorithm::Sha1 {
        weaknesses.push(Weakness::Sha1Signature);
    }
    let bits = match facts.rsa_bits {
        Some(bits) => bits,
        None => {
            let reason = "the subject public key is not RSA".to_owned();
            proof {
                reveal_strlit("the subject public key is not RSA");
            }
            assert(weaknesses@ =~= before + signature_weaknesses(all));
            return SignatureCheck::NotChecked(Unchecked::UnsupportedKey(reason));
        },
    };
    if bits < 2048 {
        weaknesses.push(Weakness::ShortRsaKey { bits });
    }
    assert(weaknesses@ =~= before + signature_weaknesses(all));
    if facts.verified {
        SignatureCheck::Verified
    } else {
        SignatureCheck::Failed
    }
}

/// A certificate as the chain walk reads it.
pub struct CertificateFacts {
    /// The certificate's own DER.
    pub der: Vec<u8>,
    /// Its subject, rendered per RFC 4514.
    pub subject: String,
    /// Its issuer, rendered per RFC 4514.
    pub issuer: String,
    /// Whether its issuer names its subject.
    pub self_issued: bool,
    /// `notBefore` and `notAfter`, as seconds since the Unix epoch.
    pub validity: (i64, i64),
}

/// How one certificate stands to a candidate issuer.
#[derive(Clone, Copy, Debug, PartialEq, Eq, Structural)]
pub struct Link {
    /// The candidate's subject matches the certificate's issuer name.
    pub issued: bool,
    /// The candidate's key verifies the certificate's signature over its
    /// `TBSCertificate`, as stored.
    pub verifies: bool,
}

/// Everything the chain walk reads: the blob's certificates, the anchors
/// that parsed, and how each blob certificate stands to every candidate
/// issuer among them.
pub struct ChainFacts {
    /// The certificates the CMS blob carries.
    pub blob: Vec<CertificateFacts>,
    /// The caller's anchors, parsed.
    pub anchors: Vec<CertificateFacts>,
    /// `to_anchor[c][a]`: blob certificate `c` against anchor `a`.
    pub to_anchor: Vec<Vec<Link>>,
    /// `to_blob[c][b]`: blob certificate `c` against blob certificate `b`.
    pub to_blob: Vec<Vec<Link>>,
}

/// A walk is bounded because a certificate set is attacker-supplied and two
/// certificates can name each other as issuer. Eight is past any real
/// hierarchy; the web's longest are four.
pub const MAX_LINKS: usize = 8;

impl ChainFacts {
    /// Every table has one row per blob certificate and one entry per
    /// candidate.
    pub open spec fn well_formed(&self) -> bool {
        &&& self.to_anchor@.len() == self.blob@.len()
        &&& self.to_blob@.len() == self.blob@.len()
        &&& forall|c: int| 0 <= c < self.blob@.len() ==> #[trigger] self.to_anchor@[c]@.len() == self.anchors@.len()
        &&& forall|c: int| 0 <= c < self.blob@.len() ==> #[trigger] self.to_blob@[c]@.len() == self.blob@.len()
    }
}

/// The first candidate in `row`, from `from` on, whose subject matches.
pub open spec fn first_issued(row: Seq<Link>, from: int) -> Option<int>
    decreases row.len() - from,
{
    if from < 0 || from >= row.len() {
        None
    } else if row[from].issued {
        Some(from)
    } else {
        first_issued(row, from + 1)
    }
}

proof fn lemma_first_issued(row: Seq<Link>, from: int)
    requires
        0 <= from <= row.len(),
    ensures
        first_issued(row, from) matches Some(i) ==> from <= i < row.len() && row[i].issued,
    decreases row.len() - from,
{
    if from < row.len() && !row[from].issued {
        lemma_first_issued(row, from + 1);
    }
}

/// Whether the window contains the instant. RFC 5280 §4.1.2.5: the period
/// runs from `notBefore` through `notAfter`, inclusive.
pub open spec fn within(validity: (i64, i64), instant: i64) -> bool {
    validity.0 <= instant <= validity.1
}

/// The weakness a certificate raises when the caller asked about an instant
/// outside its window.
pub open spec fn outside(at: Option<i64>, certificate: CertificateFacts) -> Seq<Weakness> {
    match at {
        Some(instant) if !within(certificate.validity, instant) => seq![
            Weakness::OutsideValidity { subject: certificate.subject },
        ],
        _ => Seq::empty(),
    }
}

/// Whether some anchor is, byte for byte, this certificate.
pub open spec fn is_an_anchor(facts: ChainFacts, der: Seq<u8>) -> bool {
    exists|a: int| 0 <= a < facts.anchors@.len() && #[trigger] facts.anchors@[a].der@ == der
}

/// The walk from blob certificate `current`, `links` certificates above the
/// signer: how it ends (`None` once it has gone past [`MAX_LINKS`]) and the
/// weaknesses it raises on the way.
pub open spec fn spec_walk(facts: ChainFacts, at: Option<i64>, current: int, links: nat) -> (
    Option<Chain>,
    Seq<Weakness>,
)
    decreases MAX_LINKS - links,
{
    if links >= MAX_LINKS {
        (None, Seq::empty())
    } else {
        let certificate = facts.blob@[current];
        match first_issued(facts.to_anchor@[current]@, 0) {
            Some(a) => {
                let anchor = facts.anchors@[a];
                if !facts.to_anchor@[current]@[a].verifies {
                    (Some(Chain::Broken { at: anchor.subject }), Seq::empty())
                } else {
                    (
                        Some(Chain::AnchoredTo { anchor: anchor.subject, links: links as usize }),
                        outside(at, anchor),
                    )
                }
            },
            None => if is_an_anchor(facts, certificate.der@) {
                (
                    Some(Chain::AnchoredTo { anchor: certificate.subject, links: links as usize }),
                    Seq::empty(),
                )
            } else if certificate.self_issued {
                (Some(Chain::SelfSigned { subject: certificate.subject }), Seq::empty())
            } else {
                match first_issued(facts.to_blob@[current]@, 0) {
                    None => (
                        Some(Chain::Incomplete { missing_issuer: certificate.issuer }),
                        Seq::empty(),
                    ),
                    Some(b) => {
                        let issuer = facts.blob@[b];
                        if !facts.to_blob@[current]@[b].verifies {
                            (Some(Chain::Broken { at: issuer.subject }), Seq::empty())
                        } else {
                            let rest = spec_walk(facts, at, b, links + 1);
                            (rest.0, outside(at, issuer) + rest.1)
                        }
                    },
                }
            },
        }
    }
}

/// The message an exhausted walk carries as its missing issuer.
pub open spec fn names_exhaustion(missing: Seq<char>) -> bool {
    missing == "more than 8 links from the signer"@
}

/// Question 4's answer: `r` is how the walk from `signer` ends.
pub open spec fn chain_outcome(
    facts: ChainFacts,
    supplied: Seq<Seq<u8>>,
    signer: int,
    at: Option<i64>,
    r: Chain,
) -> bool {
    if supplied.len() == 0 {
        r == Chain::NoAnchors
    } else {
        match spec_walk(facts, at, signer, 0).0 {
            Some(end) => r == end,
            None => r matches Chain::Incomplete { missing_issuer } && names_exhaustion(missing_issuer@),
        }
    }
}

/// The weaknesses question 4 raises.
pub open spec fn chain_weaknesses(
    facts: ChainFacts,
    supplied: Seq<Seq<u8>>,
    signer: int,
    at: Option<i64>,
) -> Seq<Weakness> {
    if supplied.len() == 0 {
        Seq::empty()
    } else {
        spec_walk(facts, at, signer, 0).1
    }
}

/// The first candidate in `row` whose subject matches.
fn find_issuer(row: &Vec<Link>) -> (r: Option<usize>)
    ensures
        match r {
            Some(i) => first_issued(row@, 0) == Some(i as int),
            None => first_issued(row@, 0) is None,
        },
{
    let mut i: usize = 0;
    while i < row.len()
        invariant
            i <= row@.len(),
            first_issued(row@, 0) == first_issued(row@, i as int),
        decreases row@.len() - i,
    {
        if row[i].issued {
            return Some(i);
        }
        i = i + 1;
    }
    None
}

/// Whether some anchor is, byte for byte, `der`.
fn holds_anchor(anchors: &Vec<CertificateFacts>, der: &Vec<u8>) -> (r: bool)
    ensures
        r == exists|a: int| 0 <= a < anchors@.len() && #[trigger] anchors@[a].der@ == der@,
{
    let mut i: usize = 0;
    while i < anchors.len()
        invariant
            i <= anchors@.len(),
            forall|a: int| 0 <= a < i ==> #[trigger] anchors@[a].der@ != der@,
        decreases anchors@.len() - i,
    {
        if crate::text::bytes_equal(anchors[i].der.as_slice(), der.as_slice()) {
            return true;
        }
        i = i + 1;
    }
    false
}

/// Pushes the weakness `certificate` raises at `at`.
fn note_validity(certificate: &CertificateFacts, at: Option<i64>, weaknesses: &mut Vec<Weakness>)
    ensures
        final(weaknesses)@ == old(weaknesses)@ + outside(at, *certificate),
{
    let ghost before = weaknesses@;
    match at {
        Some(instant) => {
            if !(certificate.validity.0 <= instant && instant <= certificate.validity.1) {
                weaknesses.push(Weakness::OutsideValidity { subject: certificate.subject.clone() });
                assert(weaknesses@ =~= before + outside(at, *certificate));
            } else {
                assert(weaknesses@ =~= before + outside(at, *certificate));
            }
        },
        None => {
            assert(weaknesses@ =~= before + outside(at, *certificate));
        },
    }
}

/// Question 4: how far up does the chain go from the blob certificate
/// `signer`?
///
/// Each link is verified: the issuer's key must actually have signed the
/// child's `TBSCertificate`. A path assembled by name alone is a list of
/// certificates, not a chain, and the difference is the whole point.
pub fn walk(
    facts: &ChainFacts,
    supplied: &TrustAnchors,
    signer: usize,
    at: Option<i64>,
    weaknesses: &mut Vec<Weakness>,
) -> (r: Chain)
    requires
        facts.well_formed(),
        signer < facts.blob@.len(),
    ensures
        chain_outcome(*facts, supplied@, signer as int, at, r),
        final(weaknesses)@ == old(weaknesses)@ + chain_weaknesses(*facts, supplied@, signer as int, at),
{
    let ghost before = weaknesses@;
    if supplied.is_empty() {
        assert(weaknesses@ =~= before + Seq::<Weakness>::empty());
        return Chain::NoAnchors;
    }
    let ghost whole = spec_walk(*facts, at, signer as int, 0);
    let ghost mut raised: Seq<Weakness> = Seq::empty();
    let mut current: usize = signer;
    let mut links: usize = 0;
    while links < MAX_LINKS
        invariant
            facts.well_formed(),
            supplied@.len() != 0,
            current < facts.blob@.len(),
            links <= MAX_LINKS,
            whole == spec_walk(*facts, at, signer as int, 0),
            whole.0 == spec_walk(*facts, at, current as int, links as nat).0,
            whole.1 == raised + spec_walk(*facts, at, current as int, links as nat).1,
            weaknesses@ == before + raised,
            before == old(weaknesses)@,
        decreases MAX_LINKS - links,
    {
        let certificate = &facts.blob[current];
        let to_anchor = &facts.to_anchor[current];
        let found = find_issuer(to_anchor);
        proof {
            lemma_first_issued(to_anchor@, 0);
        }
        match found {
            Some(a) => {
                let anchor = &facts.anchors[a];
                if !to_anchor[a].verifies {
                    assert(spec_walk(*facts, at, current as int, links as nat).1 =~= Seq::empty());
                    assert(weaknesses@ =~= before + whole.1);
                    return Chain::Broken { at: anchor.subject.clone() };
                }
                note_validity(anchor, at, weaknesses);
                assert(weaknesses@ =~= before + whole.1);
                return Chain::AnchoredTo { anchor: anchor.subject.clone(), links };
            },
            None => {},
        }
        if holds_anchor(&facts.anchors, &certificate.der) {
            assert(spec_walk(*facts, at, current as int, links as nat).1 =~= Seq::empty());
            assert(weaknesses@ =~= before + whole.1);
            return Chain::AnchoredTo { anchor: certificate.subject.clone(), links };
        }
        if certificate.self_issued {
            assert(weaknesses@ =~= before + whole.1);
            return Chain::SelfSigned { subject: certificate.subject.clone() };
        }
        let to_blob = &facts.to_blob[current];
        let next = find_issuer(to_blob);
        proof {
            lemma_first_issued(to_blob@, 0);
        }
        let b = match next {
            Some(b) => b,
            None => {
                assert(weaknesses@ =~= before + whole.1);
                return Chain::Incomplete { missing_issuer: certificate.issuer.clone() };
            },
        };
        let issuer = &facts.blob[b];
        if !to_blob[b].verifies {
            assert(spec_walk(*facts, at, current as int, links as nat).1 =~= Seq::empty());
            assert(weaknesses@ =~= before + whole.1);
            return Chain::Broken { at: issuer.subject.clone() };
        }
        note_validity(issuer, at, weaknesses);
        proof {
            raised = raised + outside(at, *issuer);
            assert(whole.1 =~= raised + spec_walk(*facts, at, b as int, (links + 1) as nat).1);
        }
        current = b;
        links = links + 1;
    }
    assert(weaknesses@ =~= before + whole.1);
    let missing_issuer = "more than 8 links from the signer".to_owned();
    Chain::Incomplete { missing_issuer }
}

// ---- The verdict ------------------------------------------------------------

/// What the CMS layer found about the first signer.
pub struct SignerFacts {
    /// Question 2's facts.
    pub digest: DigestFacts,
    /// Which blob certificate is the signer's own, found by whichever
    /// identifier the signer used; `None` when none is.
    pub certificate: Option<usize>,
    /// Question 3's facts, about that certificate's key.
    pub signature: SignatureFacts,
    /// Question 4's facts: the blob's certificates and the caller's anchors.
    pub chain: ChainFacts,
    /// The signing time the signer claims, from its `signingTime` attribute.
    pub claimed_signing_time: Option<i64>,
    /// Whether the signer carries an RFC 3161 timestamp token.
    pub timestamped: bool,
}

impl SignerFacts {
    /// The chain's tables line up and the signer's certificate is one of the
    /// blob's.
    pub open spec fn well_formed(&self) -> bool {
        &&& self.chain.well_formed()
        &&& self.certificate matches Some(c) ==> c < self.chain.blob@.len()
    }
}

/// What reading the CMS blob in `/Contents` came to.
pub enum CmsFacts {
    /// `/Contents` held no bytes to parse.
    Absent,
    /// Bytes were there and would not parse, with the parser's own reason.
    Unreadable(String),
    /// Parsed: how many `SignerInfo`s it carries, and the first of them.
    Read {
        /// How many `SignerInfo`s the `SignedData` carries.
        signers: usize,
        /// What was found about the first, when there is one.
        first: Option<SignerFacts>,
    },
}

/// The weakness a coverage raises on its own.
pub open spec fn coverage_weaknesses(coverage: Coverage) -> Seq<Weakness> {
    match coverage {
        Coverage::WholeFile => Seq::empty(),
        Coverage::Revision { .. } => seq![Weakness::CoversOnlyARevision],
        Coverage::Suspicious(_) => seq![Weakness::CoverageSuspicious],
    }
}

/// The verdict `r` is what the coverage, the CMS facts, the caller's anchors
/// and the instant it asked about lead to.
pub open spec fn verdict_outcome(
    coverage: Coverage,
    cms: CmsFacts,
    supplied: Seq<Seq<u8>>,
    at: Option<i64>,
    r: Verdict,
) -> bool {
    let raised = coverage_weaknesses(coverage);
    &&& r.coverage == coverage
    &&& match cms {
        CmsFacts::Absent => {
            &&& r.cms == CmsState::Absent
            &&& r.document_digest == DocumentDigest::NotChecked(Unchecked::NoCms)
            &&& r.signature == SignatureCheck::NotChecked(Unchecked::NoCms)
            &&& r.chain == Chain::NoSignerCertificate
            &&& r.weaknesses@ == raised
            &&& r.signer is None
        },
        CmsFacts::Unreadable(reason) => {
            &&& r.cms == CmsState::Unreadable(reason)
            &&& r.document_digest == DocumentDigest::NotChecked(Unchecked::UnsupportedAlgorithm(reason))
            &&& r.signature == SignatureCheck::NotChecked(Unchecked::UnsupportedAlgorithm(reason))
            &&& r.chain == Chain::NoSignerCertificate
            &&& r.weaknesses@ == raised
            &&& r.signer is None
        },
        CmsFacts::Read { signers, first: None } => {
            &&& r.cms == CmsState::Read { signers }
            &&& r.document_digest == DocumentDigest::NotChecked(Unchecked::NoSigner)
            &&& r.signature == SignatureCheck::NotChecked(Unchecked::NoSigner)
            &&& r.chain == Chain::NoSignerCertificate
            &&& r.weaknesses@ == raised
            &&& r.signer is None
        },
        CmsFacts::Read { signers, first: Some(first) } => {
            let digest = spec_document_digest(first.digest);
            &&& r.cms == CmsState::Read { signers }
            &&& r.document_digest == digest.0
            &&& match first.certificate {
                None => {
                    &&& r.signature == SignatureCheck::NotChecked(Unchecked::SignerCertificateMissing)
                    &&& r.chain == Chain::NoSignerCertificate
                    &&& r.weaknesses@ == raised + digest.1
                    &&& r.signer is None
                },
                Some(c) => {
                    let certificate = first.chain.blob@[c as int];
                    &&& r.signer == Some(
                        SignerDescription {
                            subject: certificate.subject,
                            issuer: certificate.issuer,
                            validity: certificate.validity,
                            claimed_signing_time: first.claimed_signing_time,
                            timestamped: first.timestamped,
                        },
                    )
                    &&& signature_outcome(first.signature, r.signature)
                    &&& chain_outcome(first.chain, supplied, c as int, at, r.chain)
                    &&& r.weaknesses@ == raised + digest.1 + outside(at, certificate)
                        + signature_weaknesses(first.signature)
                        + chain_weaknesses(first.chain, supplied, c as int, at)
                },
            }
        },
    }
}

/// The verdict for one signature: the four questions asked in order, each
/// answer recorded whatever the others came to.
pub fn verdict(coverage: Coverage, cms: CmsFacts, anchors: &TrustAnchors, at: Option<i64>) -> (r: Verdict)
    requires
        cms matches CmsFacts::Read { first: Some(first), .. } ==> first.well_formed(),
    ensures
        verdict_outcome(coverage, cms, anchors@, at, r),
{
    let ghost all = cms;
    let mut weaknesses: Vec<Weakness> = Vec::new();
    match coverage {
        Coverage::WholeFile => {},
        Coverage::Revision { .. } => weaknesses.push(Weakness::CoversOnlyARevision),
        Coverage::Suspicious(_) => weaknesses.push(Weakness::CoverageSuspicious),
    }
    assert(weaknesses@ =~= coverage_weaknesses(coverage));
    let (signers, first) = match cms {
        CmsFacts::Absent => {
            return Verdict {
                coverage,
                cms: CmsState::Absent,
                document_digest: DocumentDigest::NotChecked(Unchecked::NoCms),
                signature: SignatureCheck::NotChecked(Unchecked::NoCms),
                chain: Chain::NoSignerCertificate,
                weaknesses,
                signer: None,
            };
        },
        CmsFacts::Unreadable(reason) => {
            let why = Unchecked::UnsupportedAlgorithm(reason.clone());
            let again = Unchecked::UnsupportedAlgorithm(reason.clone());
            return Verdict {
                coverage,
                cms: CmsState::Unreadable(reason),
                document_digest: DocumentDigest::NotChecked(why),
                signature: SignatureCheck::NotChecked(again),
                chain: Chain::NoSignerCertificate,
                weaknesses,
                signer: None,
            };
        },
        CmsFacts::Read { signers, first } => (signers, first),
    };
    let first = match first {
        Some(first) => first,
        None => {
            return Verdict {
                coverage,
                cms: CmsState::Read { signers },
                document_digest: DocumentDigest::NotChecked(Unchecked::NoSigner),
                signature: SignatureCheck::NotChecked(Unchecked::NoSigner),
                chain: Chain::NoSignerCertificate,
                weaknesses,
                signer: None,
            };
        },
    };
    let SignerFacts { digest, certificate, signature, chain, claimed_signing_time, timestamped } =
        first;
    let document_digest = check_document_digest(digest, &mut weaknesses);
    let c = match certificate {
        Some(c) => c,
        None => {
            return Verdict {
                coverage,
                cms: CmsState::Read { signers },
                document_digest,
                signature: SignatureCheck::NotChecked(Unchecked::SignerCertificateMissing),
                chain: Chain::NoSignerCertificate,
                weaknesses,
                signer: None,
            };
        },
    };
    let own = &chain.blob[c];
    let signer = SignerDescription {
        subject: own.subject.clone(),
        issuer: own.issuer.clone(),
        validity: (own.validity.0, own.validity.1),
        claimed_signing_time,
        timestamped,
    };
    note_validity(own, at, &mut weaknesses);
    let signature = check_signature(signature, &mut weaknesses);
    let chain = walk(&chain, anchors, c, at, &mut weaknesses);
    Verdict {
        coverage,
        cms: CmsState::Read { signers },
        document_digest,
        signature,
        chain,
        weaknesses,
        signer: Some(signer),
    }
}

// ---- Laws -------------------------------------------------------------------

/// "We did not look" is never "we looked": a check that did not run is
/// neither of the answers a check that ran gives.
pub proof fn lemma_not_checked_is_no_answer(why: Unchecked)
    ensures
        DocumentDigest::NotChecked(why) != DocumentDigest::Matches,
        DocumentDigest::NotChecked(why) != DocumentDigest::Differs,
        SignatureCheck::NotChecked(why) != SignatureCheck::Verified,
        SignatureCheck::NotChecked(why) != SignatureCheck::Failed,
{
}

/// Without anchors from the caller no verdict is trusted, whatever the
/// signature and the document: the chain comes back `NoAnchors` or
/// `NoSignerCertificate`, never anchored.
pub proof fn lemma_no_anchors_no_trust(
    coverage: Coverage,
    cms: CmsFacts,
    supplied: Seq<Seq<u8>>,
    at: Option<i64>,
    r: Verdict,
)
    requires
        verdict_outcome(coverage, cms, supplied, at, r),
        supplied.len() == 0,
    ensures
        !trusted(r),
        r.chain == Chain::NoAnchors || r.chain == Chain::NoSignerCertificate,
{
}

/// A verdict is trusted only when the whole file is covered, the CMS was read
/// and the signer's own certificate was found.
pub proof fn lemma_trust_needs_the_signer(
    coverage: Coverage,
    cms: CmsFacts,
    supplied: Seq<Seq<u8>>,
    at: Option<i64>,
    r: Verdict,
)
    requires
        verdict_outcome(coverage, cms, supplied, at, r),
        trusted(r),
    ensures
        coverage == Coverage::WholeFile,
        cms matches CmsFacts::Read { first: Some(first), .. } && first.certificate is Some,
        r.signer is Some,
{
}

} // verus!
