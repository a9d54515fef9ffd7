use tinker_pdf::xps::{
    child_sources, dialect_of, fixed_representation_dialect, plan_page, plan_spine, push_plan,
    recognise, reference_name, Dialect, DocumentFacts, GeometryFacts, MarkupEvent, PackageFacts,
    PageFacts, PagePlan, PlanLimits, Recognition, RelationshipFacts, SynthesisRefusal,
    XpsElementDefect, XpsPageDefect, FIXED_DOCUMENT_SEQUENCE_MEDIA_TYPE, OPENXPS_NAMESPACE,
    XPS_1_0_NAMESPACE,
};

#[test]
fn each_dialect_reads_back_from_its_own_spellings() {
    for dialect in [Dialect::Xps1, Dialect::OpenXps] {
        assert_eq!(dialect_of(Some(dialect.namespace())), Some(dialect));
        assert_eq!(
            fixed_representation_dialect(dialect.fixed_representation()),
            Some(dialect)
        );
        assert!(dialect.required_resource().ends_with("/required-resource"));
    }
    assert_eq!(dialect_of(Some(XPS_1_0_NAMESPACE)), Some(Dialect::Xps1));
    assert_eq!(dialect_of(Some(OPENXPS_NAMESPACE)), Some(Dialect::OpenXps));
    assert_eq!(dialect_of(Some("http://example.com/")), None);
    assert_eq!(dialect_of(None), None);
    assert_eq!(
        fixed_representation_dialect(Dialect::Xps1.required_resource()),
        None,
        "a required resource is not a fixed representation"
    );
}

#[test]
fn defects_read_as_sentences() {
    assert_eq!(
        XpsPageDefect::SourceUnresolved.message(),
        "a `PageContent` naming no part"
    );
    assert_eq!(
        XpsElementDefect::BrushCyclic.message(),
        "a `{StaticResource}` chain that returns to itself"
    );
}

fn relationship(kind: &str, media: &str) -> RelationshipFacts {
    RelationshipFacts {
        kind: kind.to_string(),
        external: false,
        resolved: Some("/FixedDocumentSequence.fdseq".to_string()),
        present: true,
        media_type: Some(media.to_string()),
    }
}

fn package(relationships: Vec<RelationshipFacts>) -> PackageFacts {
    PackageFacts {
        has_content_types: true,
        has_package_relationships: true,
        relationships: Some(relationships),
    }
}

#[test]
fn a_fixed_representation_is_recognised_in_either_dialect() {
    let kind = Dialect::OpenXps.fixed_representation();
    assert_eq!(
        recognise(&package(vec![
            relationship("http://example.com/thumbnail", "image/png"),
            relationship(kind, FIXED_DOCUMENT_SEQUENCE_MEDIA_TYPE),
        ])),
        Recognition::Xps {
            sequence: "/FixedDocumentSequence.fdseq".to_string(),
            dialect: Dialect::OpenXps
        }
    );
}

#[test]
fn a_comic_with_a_content_types_item_is_still_a_comic() {
    let mut facts = package(Vec::new());
    facts.has_package_relationships = false;
    facts.relationships = None;
    assert_eq!(recognise(&facts), Recognition::NotXps);
    assert_eq!(
        recognise(&package(vec![relationship("http://example.com/officeDocument", "x")])),
        Recognition::NotXps,
        "OPC with no fixed representation is a .docx, not an XPS"
    );
}

#[test]
fn a_fixed_representation_that_will_not_resolve_is_broken() {
    let kind = Dialect::Xps1.fixed_representation();
    let mut external = relationship(kind, FIXED_DOCUMENT_SEQUENCE_MEDIA_TYPE);
    external.external = true;
    assert_eq!(recognise(&package(vec![external])), Recognition::Broken);
    let mut absent = relationship(kind, FIXED_DOCUMENT_SEQUENCE_MEDIA_TYPE);
    absent.present = false;
    assert_eq!(recognise(&package(vec![absent])), Recognition::Broken);
    assert_eq!(
        recognise(&package(vec![relationship(kind, "image/png")])),
        Recognition::Broken
    );
    let mut unreadable = package(Vec::new());
    unreadable.relationships = None;
    assert_eq!(recognise(&unreadable), Recognition::Broken);
}

fn page(name: &str, geometry: Option<GeometryFacts>) -> PageFacts {
    PageFacts {
        source: Some(name.to_string()),
        resolved: Some(format!("/Documents/1/Pages/{name}")),
        present: true,
        media_ok: true,
        geometry,
    }
}

const SIZED: GeometryFacts = GeometryFacts {
    size_stated: true,
    box_unusable: false,
};

#[test]
fn a_page_draws_or_names_why_not() {
    let drawn = plan_page(&page("1.fpage", Some(SIZED)));
    assert_eq!(
        drawn,
        PagePlan {
            name: "/Documents/1/Pages/1.fpage".to_string(),
            draws: true,
            defect: None,
            extra: None
        }
    );
    let boxed = plan_page(&page(
        "2.fpage",
        Some(GeometryFacts {
            size_stated: true,
            box_unusable: true,
        }),
    ));
    assert_eq!(boxed.extra, Some(XpsPageDefect::PageBoxUnusable));
    assert!(boxed.draws);
    let unsized_page = plan_page(&page(
        "3.fpage",
        Some(GeometryFacts {
            size_stated: false,
            box_unusable: true,
        }),
    ));
    assert_eq!(unsized_page.defect, Some(XpsPageDefect::SizeUnusable));
    assert_eq!(unsized_page.extra, None, "the same sentence is not said twice");
    let mut unresolved = page("4.fpage", Some(SIZED));
    unresolved.resolved = None;
    let placeholder = plan_page(&unresolved);
    assert_eq!(placeholder.name, "4.fpage");
    assert_eq!(placeholder.defect, Some(XpsPageDefect::SourceUnresolved));
    let mut image = page("5.png", Some(SIZED));
    image.media_ok = false;
    assert_eq!(
        plan_page(&image).defect,
        Some(XpsPageDefect::MediaTypeMismatch)
    );
    assert_eq!(
        plan_page(&page("6.fpage", None)).defect,
        Some(XpsPageDefect::Unreadable)
    );
}

fn document(pages: Option<Vec<PageFacts>>) -> DocumentFacts {
    DocumentFacts {
        source: Some("Documents/1/FixedDocument.fdoc".to_string()),
        resolved: Some("/Documents/1/FixedDocument.fdoc".to_string()),
        present: true,
        media_ok: true,
        pages,
    }
}

const ROOMY: PlanLimits = PlanLimits {
    max_pages: 10,
    document_overhead: 100,
    page_overhead: 10,
    max_synthesised: 1000,
};

#[test]
fn pages_come_in_markup_order_and_a_lost_document_keeps_one_place() {
    let mut lost = document(None);
    lost.media_ok = false;
    let plans = plan_spine(
        Some(vec![
            document(Some(vec![page("2.fpage", Some(SIZED)), page("1.fpage", Some(SIZED))])),
            lost,
        ]),
        ROOMY,
    )
    .expect("it plans");
    let names: Vec<&str> = plans.iter().map(|plan| plan.name.as_str()).collect();
    assert_eq!(
        names,
        vec![
            "/Documents/1/Pages/2.fpage",
            "/Documents/1/Pages/1.fpage",
            "/Documents/1/FixedDocument.fdoc"
        ]
    );
    assert_eq!(plans[2].defect, Some(XpsPageDefect::MediaTypeMismatch));
}

#[test]
fn a_spine_with_nothing_in_it_or_too_much_is_refused() {
    assert_eq!(plan_spine(None, ROOMY), Err(SynthesisRefusal::NoFixedPages));
    assert_eq!(plan_spine(Some(Vec::new()), ROOMY), Err(SynthesisRefusal::NoFixedPages));
    assert_eq!(
        plan_spine(Some(vec![document(Some(Vec::new()))]), ROOMY),
        Err(SynthesisRefusal::NoFixedPages),
        "a document with no pages plans nothing"
    );
    let many: Vec<PageFacts> = (0..11).map(|i| page(&format!("{i}.fpage"), Some(SIZED))).collect();
    assert_eq!(
        plan_spine(Some(vec![document(Some(many))]), ROOMY),
        Err(SynthesisRefusal::TooLarge)
    );
    let tight = PlanLimits {
        max_synthesised: 119,
        ..ROOMY
    };
    assert_eq!(
        plan_spine(
            Some(vec![document(Some(vec![
                page("1.fpage", Some(SIZED)),
                page("2.fpage", Some(SIZED))
            ]))]),
            tight
        ),
        Err(SynthesisRefusal::TooLarge),
        "two pages cost 120 against a budget of 119"
    );
}

#[test]
fn the_page_cap_refuses_the_push_past_it() {
    let mut plans = vec![1, 2];
    assert_eq!(push_plan(&mut plans, 3, 3), Ok(()));
    assert_eq!(push_plan(&mut plans, 4, 3), Err(SynthesisRefusal::TooLarge));
    assert_eq!(plans, vec![1, 2, 3]);
    assert_eq!(
        reference_name(&None, &Some("x".to_string())),
        "x".to_string()
    );
    assert_eq!(reference_name(&None, &None), String::new());
}

fn start(local: &str, namespace: Option<&str>, source: Option<&str>) -> Option<MarkupEvent> {
    Some(MarkupEvent::Start {
        local: local.to_string(),
        namespace: namespace.map(str::to_string),
        source: source.map(str::to_string),
    })
}

#[test]
fn children_are_read_in_markup_order_under_the_right_root() {
    let ns = Some(XPS_1_0_NAMESPACE);
    let events = vec![
        start("FixedDocument", ns, None),
        start("PageContent", ns, Some("Pages/2.fpage")),
        start("PageContent.LinkTargets", ns, None),
        Some(MarkupEvent::End),
        Some(MarkupEvent::End),
        Some(MarkupEvent::Other),
        start("PageContent", ns, None),
        Some(MarkupEvent::End),
        start("PageContent", Some("http://example.com/"), Some("other")),
        Some(MarkupEvent::End),
        Some(MarkupEvent::End),
    ];
    assert_eq!(
        child_sources(Some(&events), "FixedDocument", "PageContent"),
        Some(vec![Some("Pages/2.fpage".to_string()), None])
    );
    assert_eq!(
        child_sources(Some(&events), "FixedDocumentSequence", "DocumentReference"),
        None,
        "the wrong root refuses the part"
    );
    let broken = vec![start("FixedDocument", ns, None), None];
    assert_eq!(child_sources(Some(&broken), "FixedDocument", "PageContent"), None);
    assert_eq!(child_sources(None, "FixedDocument", "PageContent"), None);
    assert_eq!(child_sources(Some(&Vec::new()), "FixedDocument", "PageContent"), None);
}
