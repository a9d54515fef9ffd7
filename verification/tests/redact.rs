use tinker_pdf::redact::{
    cut_string, encode_code, escape_into, leave_whole, note, Code, Piece, RedactionReport,
    RedactionWarning, MAX_WARNINGS,
};

fn vertical(font: &[u8], bytes: usize) -> RedactionWarning {
    RedactionWarning::VerticalRun {
        font: font.to_vec(),
        bytes,
    }
}

#[test]
fn warnings_of_one_cause_in_one_font_merge_and_others_do_not() {
    let mut warnings = Vec::new();
    note(&mut warnings, vertical(b"F0", 6));
    note(&mut warnings, vertical(b"F0", 5));
    assert_eq!(warnings, vec![vertical(b"F0", 11)], "one entry, both runs' lengths");
    note(&mut warnings, vertical(b"F1", 2));
    note(
        &mut warnings,
        RedactionWarning::UnknownFont {
            font: b"F0".to_vec(),
            bytes: 3,
        },
    );
    assert_eq!(warnings.len(), 3, "another font and another cause are their own entries");
    assert_eq!(warnings[2].font(), b"F0");
    assert_eq!(warnings[2].bytes(), 3);
    assert!(warnings[0].same_cause(&vertical(b"F0", 0)));
    assert!(!warnings[0].same_cause(&vertical(b"F1", 0)));
}

#[test]
fn the_list_stops_growing_at_its_cap_and_bytes_saturate() {
    let mut warnings = Vec::new();
    for i in 0..(MAX_WARNINGS + 5) {
        note(&mut warnings, vertical(format!("F{i}").as_bytes(), 1));
    }
    assert_eq!(warnings.len(), MAX_WARNINGS);
    let mut full = vertical(b"F0", usize::MAX - 1);
    full.absorb(5);
    assert_eq!(full.bytes(), usize::MAX);
}

#[test]
fn a_report_starts_empty() {
    let report = RedactionReport::default();
    assert_eq!(report.operations, 0);
    assert_eq!(report.glyphs, 0);
    assert_eq!(report.images, 0);
    assert!(report.warnings.is_empty());
}

#[test]
fn a_code_is_written_big_endian_in_its_width() {
    let mut out = Vec::new();
    encode_code(&mut out, 0x0041, 1);
    encode_code(&mut out, 0x1234, 2);
    encode_code(&mut out, 0x0102_0304, 0);
    encode_code(&mut out, 0x0102_0304, 9);
    assert_eq!(out, vec![0x41, 0x12, 0x34, 0x04, 0x01, 0x02, 0x03, 0x04]);
}

#[test]
fn a_literal_escapes_its_parentheses_and_backslashes() {
    let mut out = b"(".to_vec();
    escape_into(&mut out, b"a(b)c\\d");
    out.push(b')');
    assert_eq!(out, b"(a\\(b\\)c\\\\d)".to_vec());
}

#[test]
fn a_run_is_left_whole_for_the_first_reason_that_holds() {
    let font = b"F0".to_vec();
    assert_eq!(leave_whole(&font, 6, false, false, true, true, false), Some(None), "no rectangle, no warning");
    assert_eq!(
        leave_whole(&font, 6, true, false, true, true, false),
        Some(Some(RedactionWarning::UnknownFont {
            font: font.clone(),
            bytes: 6
        }))
    );
    assert_eq!(
        leave_whole(&font, 6, true, true, true, true, false),
        Some(Some(vertical(b"F0", 6)))
    );
    assert_eq!(
        leave_whole(&font, 6, true, true, false, true, false),
        Some(Some(RedactionWarning::RescaledType3Font {
            font: font.clone(),
            bytes: 6
        }))
    );
    assert_eq!(
        leave_whole(&font, 6, true, true, false, false, false),
        Some(Some(RedactionWarning::UnmeasurableFrame {
            font: font.clone(),
            bytes: 6
        }))
    );
    assert_eq!(leave_whole(&font, 6, true, true, false, false, true), None);
}

fn codes(text: &[u8]) -> Vec<Code> {
    text.iter().map(|&b| Code { code: u32::from(b), width: 1 }).collect()
}

#[test]
fn removed_glyphs_leave_gaps_and_survivors_keep_their_codes() {
    // "AAA BBB CCC" with the Bs covered.
    let text = b"AAA BBB CCC";
    let inside: Vec<bool> = (0..text.len()).map(|i| (4..7).contains(&i)).collect();
    let (pieces, removed) = cut_string(&codes(text), &inside);
    assert_eq!(removed, 3);
    assert_eq!(
        pieces,
        vec![
            Piece::Text(b"AAA ".to_vec()),
            Piece::Gap { from: 4, to: 7 },
            Piece::Text(b" CCC".to_vec()),
        ]
    );
    let all_inside = vec![true; 3];
    let (pieces, removed) = cut_string(&codes(b"abc"), &all_inside);
    assert_eq!(pieces, vec![Piece::Gap { from: 0, to: 3 }], "a trailing gap still holds the pen");
    assert_eq!(removed, 3);
    let two_byte = vec![Code { code: 0x0102, width: 2 }];
    let (pieces, _) = cut_string(&two_byte, &vec![false]);
    assert_eq!(pieces, vec![Piece::Text(vec![1, 2])]);
}

#[test]
fn a_code_is_written_as_its_low_bytes_big_endian() {
    let mut out = vec![0xEE];
    encode_code(&mut out, 0x4142, 2);
    assert_eq!(out, vec![0xEE, 0x41, 0x42]);
    let mut out = Vec::new();
    encode_code(&mut out, 0x4142, 0);
    assert_eq!(out, vec![0x42]);
    let mut out = Vec::new();
    encode_code(&mut out, 0x00AB_CDEF, 3);
    let value = out.iter().fold(0u32, |v, b| v * 256 + u32::from(*b));
    assert_eq!(value, 0x00AB_CDEF % (1 << 24));
}

#[test]
fn a_carriage_return_is_written_as_the_run_had_it() {
    let mut out = Vec::new();
    escape_into(&mut out, b"a\rb\r\n(");
    assert_eq!(out, b"a\rb\r\n\\(".to_vec());
}
