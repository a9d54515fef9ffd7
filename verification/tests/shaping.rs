use tinker_pdf::shaping::cluster_texts;

#[test]
fn a_ligature_takes_every_character_it_replaced() {
    // "office": o, the ffi ligature at 1, c at 4, e at 5.
    let text = "office";
    assert_eq!(cluster_texts(text, &[0, 1, 4, 5], 6), vec!["o", "ffi", "c", "e"]);
}

#[test]
fn a_decomposed_character_is_extracted_once() {
    // "naïve": the ï at byte 2 is two bytes, shaped as a base and two marks.
    let text = "naïve";
    assert_eq!(
        cluster_texts(text, &[0, 1, 2, 2, 2, 4, 5], 6),
        vec!["n", "a", "ï", "", "", "v", "e"]
    );
}

#[test]
fn a_run_ends_where_its_text_ends_and_a_bad_range_yields_nothing() {
    let text = "abc def";
    assert_eq!(cluster_texts(text, &[4, 5, 6], 7), vec!["d", "e", "f"]);
    assert_eq!(cluster_texts(text, &[4, 5, 6], 6), vec!["d", "e", ""]);
    // Byte 3 of "naïve" is inside the ï.
    assert_eq!(cluster_texts("naïve", &[3], 6), vec![""]);
    assert_eq!(cluster_texts("abc", &[], 3), Vec::<&str>::new());
}
