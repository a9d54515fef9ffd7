use tinker_pdf::signature::{
    classify, hex_value, reaches, read_byte_range, read_contents, trim, Coverage, CoverageDefect,
    candidates, field_lock, read_sub_filter, transforms, Anchor, FieldLockRule, Gap, Holder, PermEntry,
    SigField, Signature, SignatureWarning, SubFilter, TransformEntry,
};
use tinker_pdf::subset::ObjRef;

#[test]
fn the_subfilter_names_round_trip() {
    for filter in [
        SubFilter::Pkcs7Detached,
        SubFilter::Pkcs7Sha1,
        SubFilter::X509RsaSha1,
        SubFilter::EtsiCadesDetached,
        SubFilter::EtsiRfc3161,
    ] {
        assert_eq!(
            SubFilter::from_bytes(filter.name().as_bytes()),
            Some(filter),
            "{filter:?}"
        );
    }
}

/// Both conventions the corpus contains, and the difference named.
#[test]
fn a_delimited_gap_and_a_tight_one_both_decode_and_only_one_is_silent() {
    let delimited = b"AAAA<0a0B>BBBB".to_vec();
    let mut warnings = Vec::new();
    let (contents, at, shape) = read_contents(&delimited, &[0..4u64, 10..14u64], &mut warnings);
    assert_eq!(contents, vec![0x0a, 0x0b]);
    assert_eq!(at, Some(4..10));
    assert!(shape == Gap::Delimited && warnings.is_empty());

    let tight = b"AAAA<0a0B>BBBB".to_vec();
    let mut warnings = Vec::new();
    let (contents, _, shape) = read_contents(&tight, &[0..5u64, 9..14u64], &mut warnings);
    assert_eq!(contents, vec![0x0a, 0x0b], "the same bytes either way");
    assert_eq!(shape, Gap::Tight);
    assert_eq!(
        warnings,
        vec![SignatureWarning::ContentsGapExcludesDelimiters],
        "covering its own delimiters is worth saying"
    );
}

#[test]
fn a_gap_that_is_not_a_hexadecimal_string_yields_no_contents() {
    let prose = b"AAAAnot hex!BBBB".to_vec();
    let mut warnings = Vec::new();
    let (contents, _, shape) = read_contents(&prose, &[0..4u64, 12..16u64], &mut warnings);
    assert!(contents.is_empty() && shape == Gap::Elsewhere);
    assert!(warnings.is_empty(), "a missing gap is not a lenient read");

    let markup = b"AAAA<rdf:Desc>BBBB".to_vec();
    let mut warnings = Vec::new();
    let (contents, _, shape) = read_contents(&markup, &[0..4u64, 14..18u64], &mut warnings);
    assert!(contents.is_empty() && shape == Gap::Elsewhere);
    assert_eq!(warnings, vec![SignatureWarning::ContentsNotHexadecimal]);
}

#[test]
fn an_odd_digit_count_is_padded_and_named() {
    let file = b"AAAA<0a0>BBBB".to_vec();
    let mut warnings = Vec::new();
    let (contents, _, _) = read_contents(&file, &[0..4u64, 9..13u64], &mut warnings);
    assert_eq!(contents, vec![0x0a, 0x00], "7.3.4.3 pads with zero");
    assert_eq!(warnings, vec![SignatureWarning::ContentsOddDigitCount]);
}

#[test]
fn white_space_inside_the_digits_is_skipped_and_warnings_accumulate() {
    let file = b"AA< 0A\n ff >BB".to_vec();
    let mut warnings = vec![SignatureWarning::SubFilterMissing];
    let (contents, at, shape) = read_contents(&file, &[0..2u64, 12..14u64], &mut warnings);
    assert_eq!(contents, vec![0x0a, 0xff]);
    assert_eq!(at, Some(2..12));
    assert_eq!(shape, Gap::Delimited);
    assert_eq!(warnings, vec![SignatureWarning::SubFilterMissing]);
}

#[test]
fn spans_that_leave_no_gap_in_the_file_yield_nothing() {
    let file = b"AAAA<00>BB".to_vec();
    let mut warnings = Vec::new();
    assert_eq!(read_contents(&file, &[0..4u64], &mut warnings), (Vec::new(), None, Gap::Elsewhere));
    assert_eq!(
        read_contents(&file, &[0..8u64, 4..10u64], &mut warnings),
        (Vec::new(), None, Gap::Elsewhere)
    );
    assert_eq!(
        read_contents(&file, &[0..4u64, 20..30u64], &mut warnings),
        (Vec::new(), None, Gap::Elsewhere)
    );
    assert!(warnings.is_empty());
}

#[test]
fn an_unknown_sub_filter_name_is_none() {
    assert_eq!(SubFilter::from_bytes(b"adbe.pkcs7.detached"), Some(SubFilter::Pkcs7Detached));
    assert_eq!(SubFilter::from_bytes(b"ETSI.RFC3161"), Some(SubFilter::EtsiRfc3161));
    assert_eq!(SubFilter::from_bytes(b"adbe.pkcs7.detache"), None);
    assert_eq!(SubFilter::from_bytes(b""), None);
    assert_eq!(SubFilter::Pkcs7Sha1.name(), "adbe.pkcs7.sha1");
}

#[test]
fn trim_takes_ascii_white_space_off_both_ends() {
    assert_eq!(trim(b" \t<ab>\r\n"), b"<ab>");
    assert_eq!(trim(b"   "), b"");
    assert_eq!(trim(b"x"), b"x");
    assert_eq!(trim(b"\x0ba\x0b"), b"\x0ba\x0b", "vertical tab is not ASCII white space");
}

#[test]
fn hex_digits_in_either_case() {
    assert_eq!(hex_value(b'0'), Some(0));
    assert_eq!(hex_value(b'9'), Some(9));
    assert_eq!(hex_value(b'a'), Some(10));
    assert_eq!(hex_value(b'F'), Some(15));
    assert_eq!(hex_value(b'g'), None);
    assert_eq!(hex_value(b' '), None);
}

#[test]
fn a_byte_range_is_checked_number_by_number() {
    let ok = [Some(0), Some(4), Some(10), Some(4)];
    assert_eq!(read_byte_range(Some(&ok), 14), (vec![0..4, 10..14], Ok(())));
    assert_eq!(read_byte_range(None, 14), (vec![], Err(CoverageDefect::Missing)));
    assert_eq!(
        read_byte_range(Some(&[Some(0), Some(4), Some(10)]), 14),
        (vec![], Err(CoverageDefect::NotFourNumbers { count: 3 }))
    );
    assert_eq!(
        read_byte_range(Some(&[Some(0), None, Some(10), Some(4)]), 14),
        (vec![], Err(CoverageDefect::NotAnOffset))
    );
    assert_eq!(
        read_byte_range(Some(&[Some(0), Some(-4), Some(10), Some(4)]), 14),
        (vec![], Err(CoverageDefect::NotAnOffset))
    );
    assert_eq!(
        read_byte_range(Some(&[Some(0), Some(1), Some(i64::MAX), Some(i64::MAX)]), 14),
        (
            vec![],
            Err(CoverageDefect::PastEndOfFile {
                end: 18_446_744_073_709_551_614,
                file: 14
            })
        ),
        "two of the largest offsets still sum inside an offset, and past the file"
    );
    assert_eq!(
        read_byte_range(Some(&[Some(2), Some(4), Some(10), Some(4)]), 14),
        (vec![], Err(CoverageDefect::DoesNotStartAtZero { first: 2 }))
    );
    assert_eq!(
        read_byte_range(Some(&[Some(0), Some(11), Some(10), Some(4)]), 14),
        (vec![], Err(CoverageDefect::SpansOverlap))
    );
    assert_eq!(
        read_byte_range(Some(&ok), 13),
        (vec![], Err(CoverageDefect::PastEndOfFile { end: 14, file: 13 }))
    );
}

#[test]
fn coverage_reaches_past_at_most_two_end_of_line_bytes() {
    let file = b"0123%%EOF\r\nmore";
    assert!(reaches(file, 9, 9));
    assert!(reaches(file, 11, 9), "CR LF after %%EOF is the same revision");
    assert!(reaches(file, 10, 9));
    assert!(!reaches(file, 12, 9), "three bytes is more than an end-of-line marker");
    assert!(!reaches(file, 8, 9), "coverage that stops short does not reach");
    assert!(!reaches(b"0123%%EOFxx", 11, 9), "only carriage returns and line feeds count");
    assert!(!reaches(b"abc", 5, 3), "bytes the file does not have");
}

#[test]
fn coverage_is_classified_against_the_file_and_its_revisions() {
    let file = b"first%%EOF\nsecond%%EOF\n";
    let whole = [0..2u64, 6..23u64];
    assert_eq!(classify(file, &whole, Gap::Delimited, &[23, 11]), Coverage::WholeFile);
    let stops_before_eol = [0..2u64, 6..22u64];
    assert_eq!(classify(file, &stops_before_eol, Gap::Tight, &[]), Coverage::WholeFile);
    let first_revision = [0..2u64, 6..10u64];
    assert_eq!(
        classify(file, &first_revision, Gap::Delimited, &[23, 10]),
        Coverage::Revision { index: 1 }
    );
    assert_eq!(
        classify(file, &first_revision, Gap::Delimited, &[23]),
        Coverage::Suspicious(CoverageDefect::EndsMidFile { covered_to: 10 })
    );
    assert_eq!(
        classify(file, &whole, Gap::Elsewhere, &[23]),
        Coverage::Suspicious(CoverageDefect::GapIsNotContents)
    );
    assert_eq!(
        classify(file, &[], Gap::Delimited, &[23]),
        Coverage::Suspicious(CoverageDefect::Missing)
    );
}

fn signature(anchor: Anchor, coverage: Coverage, contents: Vec<u8>) -> Signature {
    Signature {
        anchor,
        field: None,
        field_ref: None,
        value_ref: None,
        filter: None,
        sub_filter: None,
        sub_filter_name: None,
        spans: Vec::new(),
        coverage,
        contents,
        contents_at: None,
        reason: None,
        location: None,
        name: None,
        contact: None,
        warnings: Vec::new(),
    }
}

#[test]
fn zero_fill_after_the_declared_length_is_trimmed() {
    let sig = signature(Anchor::Field, Coverage::WholeFile, vec![0x30, 0x02, 0x01, 0x01, 0, 0, 0]);
    assert_eq!(sig.cms(Some(4)), &[0x30, 0x02, 0x01, 0x01]);
    assert!(sig.covers_whole_file());
}

#[test]
fn anything_but_zeros_after_the_declared_length_keeps_the_whole_reservation() {
    let sig = signature(Anchor::Field, Coverage::Revision { index: 1 }, vec![0x30, 0x00, 0, 7, 0]);
    assert_eq!(sig.cms(Some(2)), &[0x30, 0x00, 0, 7, 0]);
    assert_eq!(sig.cms(None), &[0x30, 0x00, 0, 7, 0], "no declared length, nothing trusted");
    assert_eq!(sig.cms(Some(9)), &[0x30, 0x00, 0, 7, 0], "a length past the end trims nothing");
    assert!(!sig.covers_whole_file());
}

#[test]
fn only_the_usage_rights_keys_make_a_usage_rights_signature() {
    let ur3 = signature(Anchor::Permissions("UR3".to_string()), Coverage::WholeFile, Vec::new());
    let ur = signature(Anchor::Permissions("UR".to_string()), Coverage::WholeFile, Vec::new());
    let doc_mdp = signature(Anchor::Permissions("DocMDP".to_string()), Coverage::WholeFile, Vec::new());
    let field = signature(Anchor::MergedField, Coverage::WholeFile, Vec::new());
    assert!(ur3.is_usage_rights());
    assert!(ur.is_usage_rights());
    assert!(!doc_mdp.is_usage_rights());
    assert!(!field.is_usage_rights());
}

fn obj(num: u32) -> ObjRef {
    ObjRef { num, gen: 0 }
}

fn field(name: &str, reference: u32, value_ref: Option<u32>, value_is_dict: bool, has_byte_range: bool) -> SigField {
    SigField {
        name: name.to_string(),
        reference: obj(reference),
        value_ref: value_ref.map(obj),
        value_is_dict,
        has_value: value_ref.is_some() || value_is_dict,
        has_byte_range,
    }
}

#[test]
fn fields_then_perms_and_each_dictionary_once() {
    let fields = vec![
        // `/V 20 0 R`, a dictionary.
        field("Sig1", 10, Some(20), true, false),
        // The same `/V` named by a second field: read once.
        field("Sig2", 11, Some(20), true, false),
        // `/ByteRange` beside `/FT /Sig`, no `/V`.
        field("Merged", 12, None, false, true),
        // A `/V` that is no dictionary.
        field("Broken", 13, Some(21), false, false),
        // An empty signature field: a place for a signature, not one.
        field("Empty", 14, None, false, false),
    ];
    let perms = vec![
        PermEntry { label: b"DocMDP".to_vec(), value_ref: Some(obj(20)), signs: true },
        PermEntry { label: b"UR3".to_vec(), value_ref: Some(obj(30)), signs: true },
        PermEntry { label: b"Other".to_vec(), value_ref: Some(obj(31)), signs: false },
    ];
    let found = candidates(&fields, &perms);
    let summary: Vec<(Anchor, Option<String>, Option<u32>, Holder, usize)> = found
        .iter()
        .map(|c| (c.anchor.clone(), c.field.clone(), c.value_ref.map(|r| r.num), c.holder, c.warnings.len()))
        .collect();
    assert_eq!(
        summary,
        vec![
            (Anchor::Field, Some("Sig1".to_string()), Some(20), Holder::Value, 0),
            (Anchor::MergedField, Some("Merged".to_string()), Some(12), Holder::Field, 0),
            (Anchor::Field, Some("Broken".to_string()), Some(21), Holder::Nothing, 1),
            (Anchor::Permissions("UR3".to_string()), None, Some(30), Holder::Value, 0),
        ]
    );
    assert_eq!(found[2].warnings, vec![SignatureWarning::ValueNotADictionary]);
}

#[test]
fn a_missing_or_unknown_sub_filter_is_named() {
    assert_eq!(read_sub_filter(None), (None, None, Some(SignatureWarning::SubFilterMissing)));
    assert_eq!(
        read_sub_filter(Some(b"adbe.pkcs7.detached")),
        (Some(SubFilter::Pkcs7Detached), Some("adbe.pkcs7.detached".to_string()), None)
    );
    assert_eq!(
        read_sub_filter(Some(b"x.custom")),
        (None, Some("x.custom".to_string()), Some(SignatureWarning::SubFilterUnknown("x.custom".to_string())))
    );
}

fn entry(method: &str, p: Option<i64>, action: Option<&str>, fields: &[&str]) -> TransformEntry {
    TransformEntry {
        method: method.as_bytes().to_vec(),
        p,
        action: action.map(|a| a.as_bytes().to_vec()),
        fields: fields.iter().map(|f| f.to_string()).collect(),
    }
}

#[test]
fn the_three_actions_lock_what_they_say_and_any_other_locks_nothing() {
    let names = vec!["a".to_string(), "b".to_string()];
    assert_eq!(field_lock(Some(b"All"), &names), Some(FieldLockRule::All));
    assert_eq!(field_lock(Some(b"Include"), &names), Some(FieldLockRule::Include(names.clone())));
    assert_eq!(field_lock(Some(b"Exclude"), &names), Some(FieldLockRule::Exclude(names.clone())));
    assert_eq!(field_lock(Some(b"Everything"), &names), None);
    assert_eq!(field_lock(None, &names), None);
}

#[test]
fn the_last_transform_of_each_method_wins() {
    let entries = vec![
        entry("DocMDP", Some(1), None, &[]),
        entry("FieldMDP", None, Some("All"), &[]),
        entry("UR", Some(9), None, &[]),
        entry("DocMDP", Some(2), None, &[]),
    ];
    assert_eq!(transforms(&entries), (Some(Some(2)), Some(FieldLockRule::All)));

    let silenced = vec![entry("FieldMDP", None, Some("Include"), &["x"]), entry("FieldMDP", None, None, &[])];
    assert_eq!(transforms(&silenced), (None, None), "a later entry that says nothing replaces an earlier one");
    assert_eq!(transforms(&vec![entry("DocMDP", None, None, &[])]), (Some(None), None));
}

#[test]
fn trimming_keeps_the_middle_and_settles() {
    assert_eq!(trim(b" \t ab c \r\n"), b"ab c");
    assert_eq!(trim(trim(b" \t ab c \r\n")), b"ab c");
    assert_eq!(trim(b" \n "), b"");
    assert_eq!(trim(b"x"), b"x");
}

#[test]
fn a_delimited_gap_reads_back_the_bytes_its_digits_spell() {
    let file = b"AB<0aFf>CD".to_vec();
    let mut warnings = Vec::new();
    let (contents, at, shape) = read_contents(&file, &[0..2u64, 8..10u64], &mut warnings);
    assert_eq!(contents, vec![0x0A, 0xFF]);
    assert_eq!(at, Some(2..8));
    assert_eq!(shape, Gap::Delimited);
    assert!(warnings.is_empty());
}
