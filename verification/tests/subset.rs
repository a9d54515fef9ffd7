use tinker_pdf::subset::{
    job_outcome, plan_jobs, report_from, strip_tag, tagged_name, JobDone, JobOutcome, ObjRef, Site,
    SubsetReport, Subsetted, SweptFont, Untouched, UntouchedReason, Usage, sweep, record_glyph,
    note_scope, ScopeFont, ScopeStack, Selection,
};

#[test]
fn a_six_letter_tag_and_a_plus_come_off_a_base_font() {
    assert_eq!(strip_tag(b"ABCDEF+Times-Roman"), b"Times-Roman");
}

#[test]
fn a_name_that_merely_contains_a_plus_is_not_a_tag() {
    // `A+B` is a font called `A+B`, and a looser test would eat the name.
    assert_eq!(strip_tag(b"A+B"), b"A+B");
    assert_eq!(strip_tag(b"abcdef+Times"), b"abcdef+Times");
    assert_eq!(strip_tag(b"ABCDE+Times"), b"ABCDE+Times");
    // Six letters, a plus, and nothing after it is not a name with a tag
    // on it — stripping would leave the font with no name at all.
    assert_eq!(strip_tag(b"ABCDEF+"), b"ABCDEF+");
}

#[test]
fn an_untagged_name_is_returned_whole() {
    assert_eq!(strip_tag(b"Times-Roman"), b"Times-Roman");
    assert_eq!(strip_tag(b""), b"");
}

#[test]
fn only_one_tag_comes_off() {
    assert_eq!(strip_tag(b"ABCDEF+GHIJKL+Times"), b"GHIJKL+Times");
    assert_eq!(strip_tag(b"ABCDE1+Times"), b"ABCDE1+Times");
}

fn report() -> SubsetReport {
    SubsetReport {
        subsetted: vec![
            Subsetted {
                program: ObjRef { num: 4, gen: 0 },
                base_font: "ABCDEF+Serif".to_string(),
                before: 1000,
                after: 300,
                glyphs: 12,
            },
            Subsetted {
                program: ObjRef { num: 9, gen: 0 },
                base_font: "GHIJKL+Sans".to_string(),
                before: 500,
                after: 100,
                glyphs: 3,
            },
        ],
        untouched: vec![Untouched {
            program: ObjRef { num: 7, gen: 0 },
            base_font: "Helvetica".to_string(),
            bytes: 40,
            reason: UntouchedReason::SubsetNotSmaller,
        }],
    }
}

#[test]
fn the_report_sums_what_it_names() {
    let report = report();
    assert_eq!(report.bytes_before(), 1540);
    assert_eq!(report.bytes_after(), 440);
    let empty = SubsetReport::default();
    assert_eq!(empty.bytes_before(), 0);
    assert_eq!(empty.bytes_after(), 0);
}

#[test]
fn a_whole_program_reads_as_a_sentence() {
    let report = report();
    assert_eq!(
        report.untouched[0].message(),
        "/Helvetica left whole (40 bytes): the subset is no smaller than the face"
    );
    assert_eq!(
        UntouchedReason::FieldResource.message(),
        "a form field's /DA may draw it at any character (12.7.3.3)"
    );
}

fn obj(num: u32) -> ObjRef {
    ObjRef { num, gen: 0 }
}

fn site(font: u32, program: u32, base_font: &str) -> Site {
    Site {
        font: obj(font),
        program: obj(program),
        base_font: base_font.as_bytes().to_vec(),
    }
}

#[test]
fn two_fonts_naming_one_program_share_one_job_and_its_glyphs() {
    let mut usage = Usage::new();
    usage.show(obj(10), 5);
    usage.show(obj(10), 7);
    usage.show(obj(10), 5);
    usage.show(obj(11), 9);
    let plan = plan_jobs(
        &vec![site(11, 40, "B+Face"), site(10, 40, "A+Face"), site(12, 30, "Other")],
        &usage,
    );
    assert_eq!(plan.jobs.len(), 2);
    assert_eq!(plan.jobs[0].program, obj(30), "jobs come in object order");
    assert_eq!(plan.jobs[0].refused, Some(UntouchedReason::ScopeNotWalked));
    let shared = &plan.jobs[1];
    assert_eq!(shared.program, obj(40));
    assert_eq!(shared.base_font, b"B+Face".to_vec(), "the first font that names it");
    let mut glyphs = shared.glyphs.clone();
    glyphs.sort();
    assert_eq!(glyphs, vec![5, 7, 9]);
    assert_eq!(shared.refused, None);
    assert!(plan.direct_only.is_empty());
}

#[test]
fn the_first_reason_stands_and_a_direct_font_refuses_a_shared_program() {
    let mut usage = Usage::new();
    usage.see(obj(10));
    usage.refuse(obj(10), UntouchedReason::FieldResource);
    usage.refuse(obj(10), UntouchedReason::CodeNotMapped);
    usage.see(obj(11));
    usage.note_direct(obj(50), b"Direct".to_vec());
    usage.note_direct(obj(45), b"Shared".to_vec());
    usage.note_direct(obj(45), b"Later".to_vec());
    let plan = plan_jobs(&vec![site(10, 40, "Field"), site(11, 45, "Plain")], &usage);
    assert_eq!(plan.jobs[0].refused, Some(UntouchedReason::FieldResource));
    assert_eq!(plan.jobs[1].refused, Some(UntouchedReason::NotAnObject));
    assert_eq!(plan.direct_only, vec![(obj(50), b"Direct".to_vec())]);
}

#[test]
fn a_program_is_cut_only_when_the_cut_is_smaller() {
    assert_eq!(
        job_outcome(Some(UntouchedReason::Type3Resource), 100, Some(10)),
        JobOutcome::Leave(UntouchedReason::Type3Resource)
    );
    assert_eq!(
        job_outcome(None, 100, None),
        JobOutcome::Leave(UntouchedReason::ProgramNotRebuildable)
    );
    assert_eq!(
        job_outcome(None, 100, Some(100)),
        JobOutcome::Leave(UntouchedReason::SubsetNotSmaller)
    );
    assert_eq!(job_outcome(None, 100, Some(99)), JobOutcome::Cut);
}

#[test]
fn an_existing_tag_is_replaced_rather_than_stacked() {
    assert_eq!(tagged_name(b"GHIJKL+", b"AAAAAA+LiberationSerif"), b"GHIJKL+LiberationSerif".to_vec());
    assert_eq!(tagged_name(b"GHIJKL+", b"Helvetica"), b"GHIJKL+Helvetica".to_vec());
}

fn whole(num: u32, reason: UntouchedReason) -> Untouched {
    Untouched {
        program: obj(num),
        base_font: format!("F{num}"),
        bytes: 1,
        reason,
    }
}

#[test]
fn the_report_lists_programs_in_object_order() {
    let cut = Subsetted {
        program: obj(6),
        base_font: "ABCDEF+F6".to_string(),
        before: 10,
        after: 5,
        glyphs: 2,
    };
    let report = report_from(
        vec![whole(3, UntouchedReason::NotAnObject), whole(8, UntouchedReason::NotAnObject)],
        vec![
            JobDone::Whole(whole(2, UntouchedReason::ScopeNotWalked)),
            JobDone::Cut(cut.clone()),
            JobDone::Whole(whole(8, UntouchedReason::FieldResource)),
        ],
    );
    let order: Vec<(u32, UntouchedReason)> =
        report.untouched.iter().map(|u| (u.program.num, u.reason)).collect();
    assert_eq!(
        order,
        vec![
            (2, UntouchedReason::ScopeNotWalked),
            (3, UntouchedReason::NotAnObject),
            (8, UntouchedReason::NotAnObject),
            (8, UntouchedReason::FieldResource),
        ]
    );
    assert_eq!(report.subsetted, vec![cut]);
    assert!(report.bytes_after() < report.bytes_before());
    assert_eq!(report.bytes_before() - report.bytes_after(), 5);
}

fn swept(font: u32, descendant: Option<u32>, program: Option<u32>) -> Option<SweptFont> {
    Some(SweptFont {
        font: ObjRef { num: font, gen: 0 },
        base_font: format!("F{font}").into_bytes(),
        descendant: descendant.map(|num| ObjRef { num, gen: 0 }),
        program: program.map(|num| ObjRef { num, gen: 0 }),
    })
}

#[test]
fn the_sweep_keeps_fonts_with_programs_and_drops_descendants() {
    let objects = vec![
        None,
        // A Type 0 font whose descendant, object 6, holds the descriptor.
        swept(5, Some(6), Some(40)),
        // The descendant itself, swept as a font dictionary of its own.
        swept(6, None, Some(40)),
        // A simple font with no program.
        swept(7, None, None),
        // A simple font with one.
        swept(8, None, Some(41)),
        // A Type 0 font whose descendant could not be read still names it.
        swept(9, Some(10), None),
        swept(10, None, Some(42)),
    ];
    let sites = sweep(&objects);
    let kept: Vec<(u32, u32, Vec<u8>)> =
        sites.iter().map(|s| (s.font.num, s.program.num, s.base_font.clone())).collect();
    assert_eq!(kept, vec![(5, 40, b"F5".to_vec()), (8, 41, b"F8".to_vec())]);
}

fn font(num: u32) -> ObjRef {
    ObjRef { num, gen: 0 }
}

#[test]
fn a_stated_glyph_is_counted_and_a_guessed_one_refuses_the_font() {
    let mut usage = Usage::new();
    record_glyph(&mut usage, Some(font(5)), Some(Selection { stated: true, glyph: 7 }));
    record_glyph(&mut usage, Some(font(5)), Some(Selection { stated: true, glyph: 7 }));
    record_glyph(&mut usage, Some(font(6)), Some(Selection { stated: false, glyph: 9 }));
    record_glyph(&mut usage, Some(font(8)), None);
    record_glyph(&mut usage, None, Some(Selection { stated: true, glyph: 1 }));

    assert_eq!(usage.glyph_list(font(5)), Some(&vec![7u16]));
    assert_eq!(usage.reason(font(6)), Some(UntouchedReason::CodeNotMapped));
    assert_eq!(usage.glyph_list(font(6)), None);
    assert!(usage.seen(font(8)), "a font with no selection was still walked");
    assert_eq!(usage.reason(font(8)), None);
}

#[test]
fn a_walked_scope_sees_its_fonts_and_refuses_type3_resources() {
    let mut usage = Usage::new();
    usage.refuse(font(21), UntouchedReason::FieldResource);
    let fonts = vec![
        ScopeFont { font: font(5), type3_fonts: Vec::new() },
        ScopeFont { font: font(6), type3_fonts: vec![font(20), font(21)] },
    ];
    let direct = vec![(font(40), b"First".to_vec()), (font(40), b"Second".to_vec()), (font(30), b"Other".to_vec())];
    note_scope(&mut usage, &fonts, &direct);

    assert!(usage.seen(font(5)) && usage.seen(font(6)));
    assert!(!usage.seen(font(20)), "a Type 3 font's resource is refused, not walked");
    assert_eq!(usage.reason(font(20)), Some(UntouchedReason::Type3Resource));
    assert_eq!(usage.reason(font(21)), Some(UntouchedReason::FieldResource), "the first reason stands");
    assert_eq!(
        usage.direct_entries(),
        &vec![(font(30), b"Other".to_vec()), (font(40), b"First".to_vec())],
        "in object order, the first font naming a program stands"
    );
}

#[test]
fn a_form_returns_the_walk_to_the_scope_that_invoked_it() {
    let mut scopes = ScopeStack::new(0);
    scopes.enter(true, Some(3));
    assert_eq!(scopes.current(), 3);
    scopes.enter(true, None);
    assert_eq!(scopes.current(), 3, "a form with no resources keeps its caller's");
    scopes.enter(false, Some(9));
    assert_eq!(scopes.current(), 3, "a form not entered changes nothing");
    scopes.leave();
    scopes.leave();
    assert_eq!(scopes.current(), 0);
    scopes.leave();
    assert_eq!(scopes.current(), 0, "the page's own scope is never left");
}
