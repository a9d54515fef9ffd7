use tinker_pdf::color_space::{color_space, lookup_table, parse_space, ColorSpace, Lookup, SpaceNode};

fn name(text: &str) -> SpaceNode {
    SpaceNode::Name(text.as_bytes().to_vec())
}

#[test]
fn a_device_family_named_directly_needs_no_entry() {
    let none: Vec<SpaceNode> = Vec::new();
    assert_eq!(color_space(b"DeviceGray", &none, None), Some(ColorSpace::DeviceGray));
    assert_eq!(color_space(b"G", &none, None), Some(ColorSpace::DeviceGray));
    assert_eq!(color_space(b"CalRGB", &none, None), Some(ColorSpace::DeviceRgb));
    assert_eq!(color_space(b"CMYK", &none, None), Some(ColorSpace::DeviceCmyk));
    assert_eq!(color_space(b"Pattern", &none, None), Some(ColorSpace::Pattern { base: None }));
    assert_eq!(color_space(b"CS0", &none, None), None);
}

#[test]
fn an_uncoloured_pattern_space_resolves_through_its_underlying_space() {
    // /Prgb [ /Pattern /DeviceRGB ]  /Pcmyk [ /Pattern /DeviceCMYK ]  /Pbare /Pattern
    let nodes = vec![
        SpaceNode::Array(vec![1, 2]),
        name("Pattern"),
        name("DeviceRGB"),
        SpaceNode::Array(vec![1, 4]),
        name("DeviceCMYK"),
    ];
    assert_eq!(
        color_space(b"Prgb", &nodes, Some(0)),
        Some(ColorSpace::Pattern { base: Some(Box::new(ColorSpace::DeviceRgb)) })
    );
    assert_eq!(
        color_space(b"Pcmyk", &nodes, Some(3)),
        Some(ColorSpace::Pattern { base: Some(Box::new(ColorSpace::DeviceCmyk)) })
    );
    assert_eq!(color_space(b"Pbare", &nodes, Some(1)), Some(ColorSpace::Pattern { base: None }));
}

#[test]
fn an_icc_space_reads_its_component_count_clamped() {
    let nodes = vec![
        SpaceNode::Array(vec![1, 2]),
        name("ICCBased"),
        SpaceNode::Ref(3),
        SpaceNode::Stream { n: Some(4), decoded: None },
        SpaceNode::Array(vec![1, 5]),
        SpaceNode::Stream { n: Some(7), decoded: None },
        SpaceNode::Array(vec![1, 7]),
        SpaceNode::Dict { n: None },
        SpaceNode::Array(vec![1, 9]),
        SpaceNode::Dict { n: Some(0) },
        SpaceNode::Array(vec![1]),
    ];
    assert_eq!(parse_space(&nodes, 0, 0), Some(ColorSpace::Approximated { components: 4 }));
    assert_eq!(parse_space(&nodes, 4, 0), Some(ColorSpace::Approximated { components: 4 }));
    assert_eq!(parse_space(&nodes, 6, 0), Some(ColorSpace::Approximated { components: 3 }));
    assert_eq!(parse_space(&nodes, 8, 0), Some(ColorSpace::Approximated { components: 1 }));
    assert_eq!(parse_space(&nodes, 10, 0), None);
}

#[test]
fn an_indexed_space_clamps_its_high_value_and_finds_its_table() {
    // [ /Indexed /DeviceRGB 300 (abc) ]
    let nodes = vec![
        SpaceNode::Array(vec![1, 2, 3, 4]),
        name("Indexed"),
        name("DeviceRGB"),
        SpaceNode::Int(300),
        SpaceNode::Str(b"abc".to_vec()),
        // [ /I /G -5 6 0 R ], the table in a stream
        SpaceNode::Array(vec![6, 7, 8, 9]),
        name("I"),
        name("G"),
        SpaceNode::Int(-5),
        SpaceNode::Ref(10),
        SpaceNode::Stream { n: None, decoded: Some(vec![1, 2, 3]) },
        // [ /Indexed /DeviceRGB /High ] has no integer high value
        SpaceNode::Array(vec![1, 2, 7]),
    ];
    let first = parse_space(&nodes, 0, 0);
    assert_eq!(
        first,
        Some(ColorSpace::Indexed { base: Box::new(ColorSpace::DeviceRgb), lookup: Lookup::Text(4), high: 255 })
    );
    assert_eq!(lookup_table(&nodes, Lookup::Text(4)), b"abc".to_vec());

    let second = parse_space(&nodes, 5, 0);
    assert_eq!(
        second,
        Some(ColorSpace::Indexed { base: Box::new(ColorSpace::DeviceGray), lookup: Lookup::Stream(10), high: 0 })
    );
    assert_eq!(lookup_table(&nodes, Lookup::Stream(10)), vec![1, 2, 3]);
    assert_eq!(lookup_table(&nodes, Lookup::Empty), Vec::<u8>::new());

    assert_eq!(parse_space(&nodes, 11, 0), None);
}

#[test]
fn a_separation_and_a_device_n_keep_their_alternate_and_tint() {
    // [ /Separation /Spot /DeviceCMYK 5 ]  [ /DeviceN [/A /B /C] /DeviceRGB 5 ]
    let nodes = vec![
        SpaceNode::Array(vec![1, 2, 3, 5]),
        name("Separation"),
        name("Spot"),
        name("DeviceCMYK"),
        SpaceNode::Array(vec![2, 2, 2]),
        SpaceNode::Other,
        SpaceNode::Array(vec![7, 4, 8, 5]),
        name("DeviceN"),
        name("DeviceRGB"),
        SpaceNode::Array(vec![1, 2, 3]),
    ];
    assert_eq!(
        parse_space(&nodes, 0, 0),
        Some(ColorSpace::Separation {
            components: 1,
            alternate: Box::new(ColorSpace::DeviceCmyk),
            tint: Some((5, 1)),
        })
    );
    assert_eq!(
        parse_space(&nodes, 6, 0),
        Some(ColorSpace::Separation {
            components: 3,
            alternate: Box::new(ColorSpace::DeviceRgb),
            tint: Some((5, 1)),
        })
    );
    assert_eq!(
        parse_space(&nodes, 9, 0),
        Some(ColorSpace::Separation { components: 1, alternate: Box::new(ColorSpace::DeviceCmyk), tint: None })
    );
}

#[test]
fn a_lab_space_points_at_its_parameters() {
    let nodes = vec![
        SpaceNode::Array(vec![1, 2]),
        name("Lab"),
        SpaceNode::Ref(3),
        SpaceNode::Dict { n: None },
        SpaceNode::Array(vec![5]),
        name("CalRGB"),
        SpaceNode::Array(vec![7, 3]),
        name("Whirlpool"),
    ];
    assert_eq!(parse_space(&nodes, 0, 0), Some(ColorSpace::Lab { params: Some(3) }));
    assert_eq!(parse_space(&nodes, 4, 0), Some(ColorSpace::DeviceRgb));
    assert_eq!(parse_space(&nodes, 6, 0), None);
}

/// `Indexed` over `Indexed` over ... over `DeviceGray`, `levels` deep.
fn chain(levels: usize) -> Vec<SpaceNode> {
    let mut nodes = vec![name("Indexed"), SpaceNode::Int(1), name("DeviceGray")];
    for level in 0..levels {
        let base = if level == 0 { 2 } else { nodes.len() - 1 };
        nodes.push(SpaceNode::Array(vec![0, base, 1]));
    }
    nodes
}

#[test]
fn nesting_past_the_limit_or_a_reference_loop_reads_as_nothing() {
    let eight = chain(8);
    assert!(parse_space(&eight, eight.len() - 1, 0).is_some());
    let nine = chain(9);
    assert_eq!(parse_space(&nine, nine.len() - 1, 0), None);

    let looped = vec![SpaceNode::Array(vec![1, 2, 3]), name("Indexed"), SpaceNode::Ref(0), SpaceNode::Int(1)];
    assert_eq!(parse_space(&looped, 0, 0), None);
}

#[test]
fn a_family_given_through_a_reference_is_not_followed() {
    let nodes = vec![SpaceNode::Array(vec![1, 3]), SpaceNode::Ref(2), name("Pattern"), name("DeviceRGB")];
    assert_eq!(parse_space(&nodes, 0, 0), None);
    assert_eq!(parse_space(&nodes, 7, 0), None);
}
