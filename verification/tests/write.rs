use tinker_pdf::subset::{ObjRef, SubsetReport, Untouched, UntouchedReason};
use tinker_pdf::write::{fonts_outcome, runs_the_pass, FontPolicy, SubsetOutcome, WriteMode};

/// `removed()` is about the **file**, not about whether the pass ran.
#[test]
fn a_program_left_whole_means_the_disclosure_is_not_out_of_the_file() {
    let mut report = SubsetReport::default();
    assert!(
        SubsetOutcome::Cut(report.clone()).removed(),
        "an empty report is a rewrite that cut everything it found"
    );

    report.untouched.push(Untouched {
        program: ObjRef { num: 7, gen: 0 },
        base_font: "ABCDEF+Helvetica".to_string(),
        bytes: 12_345,
        reason: UntouchedReason::FieldResource,
    });
    assert!(
        !SubsetOutcome::Cut(report.clone()).removed(),
        "a form field's /DA may draw any character, so that face went \
         through entire and the redacted letters are in it"
    );
    assert!(
        SubsetOutcome::Cut(report.clone()).report().is_some(),
        "and the list naming it is what `removed` sends a caller to"
    );
    assert!(!SubsetOutcome::CutButTheOriginalsRemain(report).removed());
    assert!(!SubsetOutcome::Kept.removed());
}

#[test]
fn the_default_policy_subsets() {
    assert_eq!(FontPolicy::default(), FontPolicy::Subset);
    assert!(runs_the_pass(FontPolicy::default()));
    assert!(!runs_the_pass(FontPolicy::Keep));
}

#[test]
fn an_appended_save_says_the_originals_remain() {
    let outcome = fonts_outcome(
        FontPolicy::Subset,
        WriteMode::Incremental,
        Some(SubsetReport::default()),
    );
    assert_eq!(
        outcome,
        SubsetOutcome::CutButTheOriginalsRemain(SubsetReport::default())
    );
    assert!(!outcome.removed());
    let rewritten = fonts_outcome(FontPolicy::Subset, WriteMode::Rewrite, Some(SubsetReport::default()));
    assert!(rewritten.removed());
    let kept = fonts_outcome(FontPolicy::Keep, WriteMode::Rewrite, None);
    assert_eq!(kept, SubsetOutcome::Kept);
    assert!(kept.report().is_none());
}
