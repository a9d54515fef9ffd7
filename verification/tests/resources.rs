use tinker_pdf::resources::{
    apply_soft_mask, expand_inline_abbreviations, image_layout, read_bits, route_by_last_filter,
    sample_bit, fax_params, fax_samples, jbig2_to_gray, FaxParams, ImageRoute, SampledImage,
};

fn expand(dict: &str) -> String {
    String::from_utf8(expand_inline_abbreviations(dict.as_bytes())).expect("ascii in, ascii out")
}

/// Table 93's short keys expand whatever follows them.
#[test]
fn an_abbreviation_expands_against_a_delimiter_as_well_as_a_space() {
    assert_eq!(
        expand("/W 4/H 4/CS/RGB/BPC 8/F/Fl"),
        "<< /Width 4/Height 4/ColorSpace/DeviceRGB/BitsPerComponent 8/Filter/FlateDecode >>"
    );
    assert_eq!(
        expand("/F[/AHx/Fl]/DP[null<</Predictor 15>>]"),
        "<< /Filter[/ASCIIHexDecode/FlateDecode]/DecodeParms[null<</Predictor 15>>] >>"
    );
}

/// A name that is not an abbreviation comes back exactly as it went in,
/// including one carrying a `#` escape.
#[test]
fn a_name_that_is_not_an_abbreviation_is_untouched() {
    assert_eq!(expand("/Whirlpool"), "<< /Whirlpool >>");
    assert_eq!(expand("/CS /Sep#20A"), "<< /ColorSpace /Sep#20A >>");
    assert_eq!(
        expand("/D[1 0]/DP<<>>"),
        "<< /Decode[1 0]/DecodeParms<<>> >>"
    );
}

#[test]
fn every_abbreviation_of_both_tables_expands() {
    assert_eq!(
        expand("/IM true/I false/CS/G/CS/CMYK"),
        "<< /ImageMask true/Interpolate false/ColorSpace/DeviceGray/ColorSpace/DeviceCMYK >>"
    );
    assert_eq!(
        expand("/F[/A85/LZW/RL/CCF/DCT]"),
        "<< /Filter[/ASCII85Decode/LZWDecode/RunLengthDecode/CCITTFaxDecode/DCTDecode] >>"
    );
}

#[test]
fn an_empty_dictionary_and_a_bare_slash_are_wrapped_as_they_are() {
    assert_eq!(expand(""), "<<  >>");
    assert_eq!(expand("/"), "<< / >>");
    assert_eq!(expand("/W\t2"), "<< /Width\t2 >>");
}

#[test]
fn bits_are_read_big_endian_and_zero_past_the_end() {
    let data = [0b1010_0000u8, 0xFF];
    assert_eq!(read_bits(&data, 0, 1), 1);
    assert_eq!(read_bits(&data, 0, 4), 0b1010);
    assert_eq!(read_bits(&data, 6, 4), 0b0011);
    assert_eq!(read_bits(&data, 12, 8), 0b1111_0000, "past the end reads zero");
    assert_eq!(read_bits(&data, 0, 32), 0b1010_0000_1111_1111, "at most sixteen bits");
    assert_eq!(read_bits(&data, 0, 0), 0);
}

#[test]
fn an_image_layout_is_clamped_and_an_empty_one_refused() {
    assert_eq!(image_layout(4, 2, 8, false), Some((4, 2, 8)));
    assert_eq!(image_layout(100_000, 3, 99, false), Some((65536, 3, 16)));
    assert_eq!(image_layout(4, 2, 0, false), Some((4, 2, 1)), "an absent depth reads as one");
    assert_eq!(image_layout(4, 2, 8, true), Some((4, 2, 1)), "a mask is one bit whatever it claims");
    assert_eq!(image_layout(0, 2, 8, false), None);
    assert_eq!(image_layout(4, -1, 8, false), None);
}

#[test]
fn rows_start_on_byte_boundaries() {
    // Three one-bit grey samples a row: each row takes one byte.
    assert_eq!(sample_bit(0, 2, 0, 1, 3, 1), 2);
    assert_eq!(sample_bit(1, 0, 0, 1, 3, 1), 8);
    // RGB at eight bits: component 2 of sample 1 of row 1.
    assert_eq!(sample_bit(1, 1, 2, 3, 2, 8), 48 + 40);
}

#[test]
fn the_final_filter_decides_how_an_image_is_read() {
    assert_eq!(route_by_last_filter(Some(b"DCTDecode")), ImageRoute::Jpeg);
    assert_eq!(route_by_last_filter(Some(b"DCT")), ImageRoute::Jpeg);
    assert_eq!(route_by_last_filter(Some(b"CCF")), ImageRoute::Fax);
    assert_eq!(route_by_last_filter(Some(b"JBIG2Decode")), ImageRoute::Jbig2);
    assert_eq!(route_by_last_filter(Some(b"JPXDecode")), ImageRoute::Unsupported);
    assert_eq!(route_by_last_filter(Some(b"FlateDecode")), ImageRoute::Samples);
    assert_eq!(route_by_last_filter(None), ImageRoute::Samples);
}

#[test]
fn a_small_mask_is_stretched_over_a_larger_image() {
    let mut image = SampledImage {
        width: 4,
        height: 2,
        rgb: vec![0; 24],
        alpha: Vec::new(),
    };
    let mask = SampledImage {
        width: 2,
        height: 1,
        rgb: vec![0, 0, 0, 255, 255, 255],
        alpha: Vec::new(),
    };
    apply_soft_mask(&mut image, &mask);
    assert_eq!(image.alpha, vec![0, 0, 255, 255, 0, 0, 255, 255]);
    let half = SampledImage {
        width: 1,
        height: 1,
        rgb: vec![128, 128, 128],
        alpha: Vec::new(),
    };
    apply_soft_mask(&mut image, &half);
    assert_eq!(image.alpha, vec![0, 0, 128, 128, 0, 0, 128, 128], "the more opaque constraint of the two");
    let empty = SampledImage {
        width: 0,
        height: 0,
        rgb: Vec::new(),
        alpha: Vec::new(),
    };
    apply_soft_mask(&mut image, &empty);
    assert_eq!(image.alpha, vec![0, 0, 128, 128, 0, 0, 128, 128], "an empty mask changes nothing");
}

#[test]
fn fax_parameters_default_as_the_table_gives_them() {
    let p = fax_params(None, None, None, 40, None, None, None, None);
    assert_eq!(
        p,
        FaxParams {
            k: 0,
            columns: 1728,
            rows: 40,
            black_is_1: false,
            byte_align: false,
            end_of_line: false,
            end_of_block: true,
        }
    );
    let q = fax_params(Some(-1), Some(0), Some(0), 7, Some(true), Some(true), Some(true), Some(false));
    assert_eq!(q.k, -1);
    assert_eq!(q.columns, 1, "a row is at least one column");
    assert_eq!(q.rows, 7, "rows that are not positive mean the image's height");
    assert!(q.black_is_1 && q.byte_align && q.end_of_line && !q.end_of_block);
    assert_eq!(fax_params(None, Some(1 << 40), Some(1 << 40), 1, None, None, None, None).rows, 65536);
}

#[test]
fn fax_rows_are_restrided_and_missing_rows_are_white() {
    // 16 coded columns (2 bytes a row) into an image 8 wide (1 byte a row),
    // three rows high, with only two rows decoded.
    let packed = [0x11, 0x12, 0x21, 0x22];
    assert_eq!(fax_samples(&packed, 16, 8, 3, false), vec![0x11, 0x21, 0xFF]);
    assert_eq!(fax_samples(&packed, 16, 8, 3, true), vec![0x11, 0x21, 0x00]);
    // 8 coded columns into an image 16 wide: the second byte of each row is
    // white.
    assert_eq!(fax_samples(&[0xAA, 0xBB], 8, 16, 2, false), vec![0xAA, 0xFF, 0xBB, 0xFF]);
}

#[test]
fn jbig2_polarity_is_flipped_once() {
    let mut samples = vec![0x00, 0xFF, 0x0F];
    jbig2_to_gray(&mut samples);
    assert_eq!(samples, vec![0xFF, 0x00, 0xF0]);
}

#[test]
fn bits_read_as_their_weighted_sum() {
    assert_eq!(read_bits(&[0xAB, 0xCD], 4, 8), 0xBC);
    assert_eq!(read_bits(&[0xFF; 3], 0, 24), 0xFFFF);
    assert_eq!(read_bits(&[0x80], 0, 3), 0b100);
    assert_eq!(read_bits(&[0x01], 7, 4), 0b1000);
}

#[test]
fn expanding_an_expansion_changes_nothing() {
    for dict in ["/W 4/H 4/CS/RGB/BPC 8/F/Fl", "/F[/AHx/Fl]/DP[null<</Predictor 15>>]", "/IM true/D[1 0]"] {
        let once = expand(dict);
        let middle = &once[3..once.len() - 3];
        assert_eq!(expand(middle), once);
    }
    assert_eq!(expand("/Width 4/Filter/FlateDecode"), "<< /Width 4/Filter/FlateDecode >>");
}
