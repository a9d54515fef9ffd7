use tinker_pdf::signature::{Coverage, CoverageDefect, SubFilter};
use tinker_pdf::verdict::{
    check_document_digest, check_signature, verdict, walk, CertificateFacts, Chain, ChainFacts,
    CmsFacts, CmsState, DigestAlgorithm, DigestFacts, DocumentDigest, Link, SignatureCheck,
    SignatureFacts, SignatureScheme, SignerFacts, TrustAnchors, Unchecked, Verdict, Weakness,
};

#[test]
fn an_anchor_that_is_not_a_certificate_is_refused_when_it_is_added() {
    let mut anchors = TrustAnchors::new();
    let refused = Err("Truncated".to_string());
    assert!(
        anchors.add(vec![0x30, 0x00], refused.clone()).is_err(),
        "an empty SEQUENCE"
    );
    assert!(anchors.add(Vec::new(), refused).is_err(), "nothing at all");
    assert!(anchors.is_empty(), "and neither was kept");
}

#[test]
fn the_convenience_needs_all_four_questions_to_agree() {
    let good = Verdict {
        coverage: Coverage::WholeFile,
        cms: CmsState::Read { signers: 1 },
        document_digest: DocumentDigest::Matches,
        signature: SignatureCheck::Verified,
        chain: Chain::AnchoredTo {
            anchor: "CN=A".into(),
            links: 1,
        },
        weaknesses: Vec::new(),
        signer: None,
    };
    assert!(good.is_trusted());

    // Each of the four, spoiled on its own.
    let mut coverage = good.clone();
    coverage.coverage = Coverage::Revision { index: 1 };
    assert!(!coverage.is_trusted(), "a revision is not the document");

    let mut digest = good.clone();
    digest.document_digest = DocumentDigest::Differs;
    assert!(!digest.is_trusted());

    let mut signed = good.clone();
    signed.signature = SignatureCheck::Failed;
    assert!(!signed.is_trusted());

    let mut chain = good.clone();
    chain.chain = Chain::SelfSigned {
        subject: "CN=A".into(),
    };
    assert!(!chain.is_trusted(), "self-signed is not anchored");
}

/// The distinction the whole module exists to keep: "we did not look" is
/// not "we looked and it was wrong".
#[test]
fn a_check_that_did_not_run_is_not_a_failure() {
    let unchecked = DocumentDigest::NotChecked(Unchecked::NoCms);
    assert_ne!(unchecked, DocumentDigest::Differs);
    assert_ne!(unchecked, DocumentDigest::Matches);

    let unchecked = SignatureCheck::NotChecked(Unchecked::SignerCertificateMissing);
    assert_ne!(unchecked, SignatureCheck::Failed);
    assert_ne!(unchecked, SignatureCheck::Verified);
}

fn certificate(subject: &str, issuer: &str, der: u8) -> CertificateFacts {
    CertificateFacts {
        der: vec![0x30, der],
        subject: subject.to_string(),
        issuer: issuer.to_string(),
        self_issued: subject == issuer,
        validity: (100, 200),
    }
}

const NO: Link = Link {
    issued: false,
    verifies: false,
};
const SIGNED: Link = Link {
    issued: true,
    verifies: true,
};
const FORGED: Link = Link {
    issued: true,
    verifies: false,
};

/// A signer issued by an intermediate, issued by a root the caller trusts.
fn three_level(root_link: Link) -> ChainFacts {
    ChainFacts {
        blob: vec![
            certificate("CN=Signer", "CN=Intermediate", 1),
            certificate("CN=Intermediate", "CN=Root", 2),
        ],
        anchors: vec![certificate("CN=Root", "CN=Root", 3)],
        to_anchor: vec![vec![NO], vec![root_link]],
        to_blob: vec![vec![NO, SIGNED], vec![NO, NO]],
    }
}

fn trusting_one() -> TrustAnchors {
    let mut anchors = TrustAnchors::new();
    anchors.add(vec![0x30, 3], Ok(())).unwrap();
    anchors
}

#[test]
fn a_chain_reaches_the_anchor_through_an_intermediate() {
    let mut weaknesses = Vec::new();
    let chain = walk(&three_level(SIGNED), &trusting_one(), 0, None, &mut weaknesses);
    assert_eq!(
        chain,
        Chain::AnchoredTo {
            anchor: "CN=Root".to_string(),
            links: 1
        }
    );
    assert!(weaknesses.is_empty());
}

#[test]
fn a_link_whose_signature_fails_breaks_the_chain_at_the_issuer() {
    let mut weaknesses = Vec::new();
    let chain = walk(&three_level(FORGED), &trusting_one(), 0, None, &mut weaknesses);
    assert_eq!(
        chain,
        Chain::Broken {
            at: "CN=Root".to_string()
        }
    );
}

#[test]
fn without_anchors_no_path_is_attempted() {
    let mut weaknesses = Vec::new();
    let chain = walk(
        &three_level(SIGNED),
        &TrustAnchors::new(),
        0,
        Some(5000),
        &mut weaknesses,
    );
    assert_eq!(chain, Chain::NoAnchors);
    assert!(weaknesses.is_empty(), "nothing was walked, so nothing was judged");
}

#[test]
fn an_issuer_outside_its_window_is_named() {
    let mut weaknesses = Vec::new();
    let chain = walk(&three_level(SIGNED), &trusting_one(), 0, Some(300), &mut weaknesses);
    assert!(matches!(chain, Chain::AnchoredTo { links: 1, .. }));
    assert_eq!(
        weaknesses,
        vec![
            Weakness::OutsideValidity {
                subject: "CN=Intermediate".to_string()
            },
            Weakness::OutsideValidity {
                subject: "CN=Root".to_string()
            },
        ]
    );
}

#[test]
fn a_missing_issuer_and_a_self_signed_end_are_told_apart() {
    let lonely = ChainFacts {
        blob: vec![certificate("CN=Signer", "CN=Nobody", 1)],
        anchors: vec![certificate("CN=Root", "CN=Root", 3)],
        to_anchor: vec![vec![NO]],
        to_blob: vec![vec![NO]],
    };
    let mut weaknesses = Vec::new();
    assert_eq!(
        walk(&lonely, &trusting_one(), 0, None, &mut weaknesses),
        Chain::Incomplete {
            missing_issuer: "CN=Nobody".to_string()
        }
    );
    let own = ChainFacts {
        blob: vec![certificate("CN=Me", "CN=Me", 1)],
        anchors: vec![certificate("CN=Root", "CN=Root", 3)],
        to_anchor: vec![vec![NO]],
        to_blob: vec![vec![SIGNED]],
    };
    assert_eq!(
        walk(&own, &trusting_one(), 0, None, &mut weaknesses),
        Chain::SelfSigned {
            subject: "CN=Me".to_string()
        }
    );
}

#[test]
fn an_anchor_may_be_the_signers_own_certificate() {
    let own = ChainFacts {
        blob: vec![certificate("CN=Me", "CN=Me", 3)],
        anchors: vec![certificate("CN=Me", "CN=Me", 3)],
        to_anchor: vec![vec![NO]],
        to_blob: vec![vec![SIGNED]],
    };
    let mut weaknesses = Vec::new();
    assert_eq!(
        walk(&own, &trusting_one(), 0, None, &mut weaknesses),
        Chain::AnchoredTo {
            anchor: "CN=Me".to_string(),
            links: 0
        }
    );
}

#[test]
fn two_certificates_naming_each_other_stop_at_the_link_bound() {
    let looping = ChainFacts {
        blob: vec![
            certificate("CN=A", "CN=B", 1),
            certificate("CN=B", "CN=A", 2),
        ],
        anchors: vec![certificate("CN=Root", "CN=Root", 3)],
        to_anchor: vec![vec![NO], vec![NO]],
        to_blob: vec![vec![NO, SIGNED], vec![SIGNED, NO]],
    };
    let mut weaknesses = Vec::new();
    assert_eq!(
        walk(&looping, &trusting_one(), 0, None, &mut weaknesses),
        Chain::Incomplete {
            missing_issuer: "more than 8 links from the signer".to_string()
        }
    );
}

fn digest_facts(expected: &[u8], actual: &[u8], algorithm: DigestAlgorithm) -> DigestFacts {
    DigestFacts {
        sub_filter: Some(SubFilter::Pkcs7Detached),
        expected: Some(expected.to_vec()),
        algorithm: Ok(algorithm),
        actual: Some(actual.to_vec()),
    }
}

#[test]
fn the_document_digest_compares_and_names_sha1() {
    let mut weaknesses = Vec::new();
    assert_eq!(
        check_document_digest(digest_facts(b"ab", b"ab", DigestAlgorithm::Sha256), &mut weaknesses),
        DocumentDigest::Matches
    );
    assert!(weaknesses.is_empty());
    assert_eq!(
        check_document_digest(digest_facts(b"ab", b"ac", DigestAlgorithm::Sha1), &mut weaknesses),
        DocumentDigest::Differs
    );
    assert_eq!(weaknesses, vec![Weakness::Sha1Digest]);
}

#[test]
fn the_legacy_subfilter_and_a_missing_attribute_are_named() {
    let mut weaknesses = Vec::new();
    let mut legacy = digest_facts(b"ab", b"ab", DigestAlgorithm::Sha1);
    legacy.sub_filter = Some(SubFilter::Pkcs7Sha1);
    assert_eq!(
        check_document_digest(legacy, &mut weaknesses),
        DocumentDigest::NotChecked(Unchecked::LegacySha1SubFilter)
    );
    let mut bare = digest_facts(b"ab", b"ab", DigestAlgorithm::Sha1);
    bare.expected = None;
    assert_eq!(
        check_document_digest(bare, &mut weaknesses),
        DocumentDigest::NotChecked(Unchecked::NoSignedAttributes)
    );
    let mut unusable = digest_facts(b"ab", b"ab", DigestAlgorithm::Sha512);
    unusable.actual = None;
    assert_eq!(
        check_document_digest(unusable, &mut weaknesses),
        DocumentDigest::NotChecked(Unchecked::CoverageUnusable)
    );
    assert!(weaknesses.is_empty(), "no digest was read as SHA-1");
}

fn rsa(bits: Option<usize>, digest: DigestAlgorithm, verified: bool) -> SignatureFacts {
    SignatureFacts {
        signed_attributes: true,
        scheme: Ok(SignatureScheme::RsaPkcs1v15),
        digest: Ok(digest),
        rsa_bits: bits,
        verified,
    }
}

#[test]
fn a_short_sha1_key_verifies_and_is_named_twice() {
    let mut weaknesses = Vec::new();
    assert_eq!(
        check_signature(rsa(Some(1024), DigestAlgorithm::Sha1, true), &mut weaknesses),
        SignatureCheck::Verified
    );
    assert_eq!(
        weaknesses,
        vec![Weakness::Sha1Signature, Weakness::ShortRsaKey { bits: 1024 }]
    );
}

#[test]
fn a_key_that_is_not_rsa_and_an_unknown_scheme_are_not_checked() {
    let mut weaknesses = Vec::new();
    assert_eq!(
        check_signature(rsa(None, DigestAlgorithm::Sha256, true), &mut weaknesses),
        SignatureCheck::NotChecked(Unchecked::UnsupportedKey(
            "the subject public key is not RSA".to_string()
        ))
    );
    let mut ecdsa = rsa(Some(2048), DigestAlgorithm::Sha256, true);
    ecdsa.scheme = Ok(SignatureScheme::Other("Ecdsa".to_string()));
    assert_eq!(
        check_signature(ecdsa, &mut weaknesses),
        SignatureCheck::NotChecked(Unchecked::UnsupportedAlgorithm("Ecdsa".to_string()))
    );
    assert_eq!(
        check_signature(rsa(Some(4096), DigestAlgorithm::Sha256, false), &mut weaknesses),
        SignatureCheck::Failed
    );
    assert!(weaknesses.is_empty());
}

#[test]
fn a_whole_verdict_is_assembled_in_order() {
    let first = SignerFacts {
        digest: digest_facts(b"ab", b"ab", DigestAlgorithm::Sha256),
        certificate: Some(0),
        signature: rsa(Some(2048), DigestAlgorithm::Sha256, true),
        chain: three_level(SIGNED),
        claimed_signing_time: Some(150),
        timestamped: false,
    };
    let made = verdict(
        Coverage::WholeFile,
        CmsFacts::Read {
            signers: 1,
            first: Some(first),
        },
        &trusting_one(),
        Some(150),
    );
    assert!(made.is_trusted());
    assert_eq!(made.cms, CmsState::Read { signers: 1 });
    let signer = made.signer.expect("the signer was described");
    assert_eq!(signer.subject, "CN=Signer");
    assert_eq!(signer.validity, (100, 200));
    assert!(made.weaknesses.is_empty());
}

#[test]
fn a_suspicious_coverage_without_a_cms_is_named_and_not_checked() {
    let made = verdict(
        Coverage::Suspicious(CoverageDefect::Missing),
        CmsFacts::Absent,
        &trusting_one(),
        None,
    );
    assert_eq!(made.weaknesses, vec![Weakness::CoverageSuspicious]);
    assert_eq!(
        made.document_digest,
        DocumentDigest::NotChecked(Unchecked::NoCms)
    );
    assert_eq!(made.chain, Chain::NoSignerCertificate);
    let unreadable = verdict(
        Coverage::Revision { index: 0 },
        CmsFacts::Unreadable("BadTag".to_string()),
        &trusting_one(),
        None,
    );
    assert_eq!(unreadable.cms, CmsState::Unreadable("BadTag".to_string()));
    assert_eq!(
        unreadable.signature,
        SignatureCheck::NotChecked(Unchecked::UnsupportedAlgorithm("BadTag".to_string()))
    );
    assert_eq!(unreadable.weaknesses, vec![Weakness::CoversOnlyARevision]);
}
