use tinker_pdf::structure::{
    bind, resolve_role, KDict, KGraph, KItem, MarkInfo, StructKid, StructureTree, StructureWarning,
    TextSource, TreePages, MAX_STRUCTURE_ELEMENTS,
};
use tinker_pdf::subset::ObjRef;

/// The depth cap the object parser uses for every other kind of nesting.
const DEPTH: u32 = 256;

fn r(num: u32) -> ObjRef {
    ObjRef { num, gen: 0 }
}

fn map(entries: &[(&str, &str)]) -> Vec<(Vec<u8>, Vec<u8>)> {
    entries
        .iter()
        .map(|(from, to)| (from.as_bytes().to_vec(), to.as_bytes().to_vec()))
        .collect()
}

fn dict() -> KDict {
    KDict {
        kind: None,
        mcid: None,
        obj: None,
        s: None,
        pg: None,
        k: KItem::Null,
        title: None,
        lang: None,
        alt: None,
        actual_text: None,
        expansion: None,
    }
}

/// A structure element dictionary: `/S`, `/Pg` (as a page index) and `/K`.
fn element(s: Option<&str>, pg: Option<u32>, k: KItem) -> KDict {
    KDict { s: s.map(|s| s.as_bytes().to_vec()), pg, k, ..dict() }
}

/// Builds the object graph a tree points at.
struct Graph {
    graph: KGraph,
}

impl Graph {
    fn new() -> Graph {
        Graph { graph: KGraph { objects: Vec::new(), dicts: Vec::new(), arrays: Vec::new() } }
    }

    /// A direct dictionary.
    fn dict(&mut self, d: KDict) -> KItem {
        self.graph.dicts.push(d);
        KItem::Dict(self.graph.dicts.len() - 1)
    }

    /// A direct array.
    fn array(&mut self, items: Vec<KItem>) -> KItem {
        self.graph.arrays.push(items);
        KItem::Array(self.graph.arrays.len() - 1)
    }

    /// Indirect object `num` holding `value`.
    fn object(&mut self, num: u32, value: KItem) -> KItem {
        self.graph.objects.push((r(num), value));
        KItem::Ref(r(num))
    }

    /// Indirect object `num` holding an element dictionary.
    fn elem(&mut self, num: u32, d: KDict) -> KItem {
        let value = self.dict(d);
        self.object(num, value)
    }

    fn tree(&self, role_map: &[(&str, &str)], root_k: KItem) -> StructureTree {
        let marks = MarkInfo { marked: true, suspects: false, user_properties: false };
        let pages = TreePages { page_count: 1, struct_parents: Vec::new(), parent_tree: Vec::new() };
        bind(&self.graph, &map(role_map), DEPTH, Some(root_k), marks, pages).expect("a root gives a tree")
    }
}

#[test]
fn a_document_element_holding_a_paragraph_reads_back() {
    let mut g = Graph::new();
    let contents = g.array(vec![KItem::Int(0), KItem::Int(1)]);
    let paragraph = g.elem(11, element(Some("P"), Some(0), contents));
    let kids = g.array(vec![paragraph]);
    let root = g.elem(10, element(Some("Document"), None, kids));
    let tree = g.tree(&[], root);

    assert!(tree.marked, "/MarkInfo /Marked true");
    assert!(!tree.suspects);
    assert_eq!(tree.element_count(), 2);
    assert_eq!(tree.content_count(), 2);
    assert_eq!(tree.object_count(), 0);
    assert!(tree.warnings.is_empty(), "{:?}", tree.warnings);

    let elements = tree.elements();
    assert_eq!(elements[0].standard_type, "Document");
    assert_eq!(elements[1].standard_type, "P");
    assert_eq!(elements[1].page, Some(0), "/Pg resolved to a page index");
    assert!(matches!(
        elements[1].kids.as_slice(),
        [
            StructKid::Content { page: Some(0), mcid: 0 },
            StructKid::Content { page: Some(0), mcid: 1 }
        ]
    ));
}

#[test]
fn a_kid_cycle_is_cut_and_named() {
    let mut g = Graph::new();
    let back = g.array(vec![KItem::Ref(r(10))]);
    let p = g.elem(12, element(Some("P"), None, back));
    let to_p = g.array(vec![p]);
    let sect = g.elem(11, element(Some("Sect"), None, to_p));
    let to_sect = g.array(vec![sect]);
    let root = g.elem(10, element(Some("Document"), None, to_sect));
    let tree = g.tree(&[], root);

    assert_eq!(tree.element_count(), 3, "the three real elements are kept");
    assert!(
        tree.warnings.contains(&StructureWarning::KidCycle { element: r(10) }),
        "the cycle names the element it closed on: {:?}",
        tree.warnings
    );
}

#[test]
fn a_subtree_named_from_two_places_is_read_twice() {
    let mut g = Graph::new();
    let p = g.elem(13, element(Some("P"), Some(0), KItem::Int(7)));
    let to_p = g.array(vec![p]);
    let first = g.elem(11, element(Some("Sect"), None, to_p));
    let to_p_again = g.array(vec![p]);
    let second = g.elem(12, element(Some("Sect"), None, to_p_again));
    let both = g.array(vec![first, second]);
    let root = g.elem(10, element(Some("Document"), None, both));
    let tree = g.tree(&[], root);

    assert_eq!(tree.element_count(), 5, "10, 11, 12 and 13 twice");
    assert_eq!(tree.content_count(), 2);
    assert!(tree.warnings.is_empty(), "{:?}", tree.warnings);
}

#[test]
fn nesting_past_the_depth_cap_is_refused_at_the_cap() {
    let deep = DEPTH + 20;
    let mut g = Graph::new();
    let mut below = g.elem(10 + deep, element(Some("P"), Some(0), KItem::Int(0)));
    for step in (0..deep).rev() {
        let kids = g.array(vec![below]);
        below = g.elem(10 + step, element(Some("Sect"), None, kids));
    }
    let tree = g.tree(&[], below);

    assert_eq!(
        tree.element_count(),
        DEPTH as usize + 1,
        "everything down to the cap, and nothing under it"
    );
    assert!(
        tree.warnings.iter().any(|w| matches!(w, StructureWarning::DepthCapped { .. })),
        "{:?}",
        tree.warnings
    );
}

#[test]
fn a_doubling_tree_stops_on_the_element_budget() {
    let levels = 40u32;
    let mut g = Graph::new();
    let mut below = g.elem(10 + levels, element(Some("P"), Some(0), KItem::Int(0)));
    for step in (0..levels).rev() {
        let kids = g.array(vec![below, below]);
        below = g.elem(10 + step, element(Some("Sect"), None, kids));
    }
    let tree = g.tree(&[], below);

    assert!(
        tree.element_count() <= MAX_STRUCTURE_ELEMENTS,
        "the budget bounds the tree, got {}",
        tree.element_count()
    );
    assert!(
        tree.warnings.contains(&StructureWarning::ElementCapped),
        "and it says so: {:?}",
        tree.warnings
    );
}

#[test]
fn the_role_map_maps_what_it_names_and_nothing_else() {
    let mut g = Graph::new();
    let chapitre = g.elem(11, element(Some("Chapitre"), None, KItem::Null));
    let encadre = g.elem(12, element(Some("Encadre"), None, KItem::Null));
    let kids = g.array(vec![chapitre, encadre]);
    let root = g.elem(10, element(Some("Document"), None, kids));
    let tree = g.tree(&[("Chapitre", "Sect")], root);

    let elements = tree.elements();
    assert_eq!(elements[1].raw_type, "Chapitre", "the file's own name");
    assert_eq!(elements[1].standard_type, "Sect", "and what it maps to");
    assert_eq!(elements[2].raw_type, "Encadre");
    assert_eq!(
        elements[2].standard_type, "Encadre",
        "an unmapped custom type is itself, not an error and not a /Span"
    );
}

#[test]
fn a_role_map_loop_terminates_and_is_named() {
    let mut g = Graph::new();
    let root = g.elem(10, element(Some("Foo"), None, KItem::Null));
    let tree = g.tree(&[("Foo", "Bar"), ("Bar", "Baz"), ("Baz", "Foo")], root);

    assert!(
        tree.warnings.contains(&StructureWarning::RoleMapLoop { role: "Foo".to_string() }),
        "{:?}",
        tree.warnings
    );
    let elements = tree.elements();
    assert_eq!(elements[0].raw_type, "Foo");
    assert!(!elements[0].standard_type.is_empty(), "a loop must not cost the element its type");
}

#[test]
fn an_identity_role_map_entry_is_not_a_loop() {
    let mut g = Graph::new();
    let chapitre = g.elem(11, element(Some("Chapitre"), None, KItem::Null));
    let kids = g.array(vec![chapitre]);
    let root = g.elem(10, element(Some("P"), None, kids));
    let tree = g.tree(&[("P", "P"), ("Span", "Span"), ("Chapitre", "Sect")], root);

    assert!(tree.warnings.is_empty(), "{:?}", tree.warnings);
    let elements = tree.elements();
    assert_eq!(elements[0].standard_type, "P");
    assert_eq!(elements[1].standard_type, "Sect", "and a real mapping in the same map still applies");
}

#[test]
fn odd_kids_are_read_or_dropped_without_losing_their_neighbours() {
    let mut g = Graph::new();
    let mcr = g.dict(KDict { kind: Some(b"MCR".to_vec()), mcid: Some(4), pg: Some(0), ..dict() });
    let objr = g.dict(KDict { kind: Some(b"OBJR".to_vec()), obj: Some(r(99)), ..dict() });
    let nested = g.array(vec![KItem::Int(1), KItem::Int(2)]);
    let untyped = g.dict(element(None, None, KItem::Int(5)));
    let kids = g.array(vec![
        KItem::Int(3),
        KItem::Other,
        KItem::Null,
        mcr,
        KItem::Other,
        objr,
        nested,
        untyped,
        KItem::Int(7),
    ]);
    let root = g.elem(10, element(Some("Document"), Some(0), kids));
    let tree = g.tree(&[], root);

    let root = tree.elements()[0];
    let mcids: Vec<u32> = root
        .kids
        .iter()
        .filter_map(|kid| match kid {
            StructKid::Content { mcid, .. } => Some(*mcid),
            _ => None,
        })
        .collect();
    assert_eq!(mcids, vec![3, 4, 7], "the integer, the /MCR and the integer after the nonsense");
    assert_eq!(tree.object_count(), 1, "the /OBJR");
    assert!(
        matches!(
            root.kids.iter().find_map(|kid| match kid {
                StructKid::Object(reference) => Some(*reference),
                _ => None,
            }),
            Some(reference) if reference == r(99)
        ),
        "and it names the object it referred to"
    );
    assert_eq!(tree.element_count(), 2);
    assert!(
        tree.warnings.iter().any(|w| matches!(w, StructureWarning::UnreadableKid { .. })),
        "the string, the boolean and the nested array were dropped and said so: {:?}",
        tree.warnings
    );
}

#[test]
fn an_element_without_a_type_is_kept_and_named() {
    let mut g = Graph::new();
    let root = g.elem(10, element(None, Some(0), KItem::Int(2)));
    let tree = g.tree(&[], root);

    assert_eq!(tree.element_count(), 1);
    assert_eq!(tree.content_count(), 1, "its content survived");
    assert_eq!(tree.elements()[0].raw_type, "");
    assert!(tree.warnings.contains(&StructureWarning::UntypedElement { element: r(10) }));
}

#[test]
fn a_page_is_inherited_down_the_tree_and_overridden_by_its_own() {
    let mut g = Graph::new();
    let mcr = g.dict(KDict { kind: Some(b"MCR".to_vec()), mcid: Some(9), ..dict() });
    let contents = g.array(vec![KItem::Int(0), mcr]);
    let paragraph = g.elem(11, element(Some("P"), None, contents));
    let kids = g.array(vec![paragraph]);
    let root = g.elem(10, element(Some("Document"), Some(0), kids));
    let tree = g.tree(&[], root);

    let paragraph = tree.elements()[1];
    assert_eq!(paragraph.page, Some(0), "inherited from the document");
    for kid in &paragraph.kids {
        assert!(
            matches!(kid, StructKid::Content { page: Some(0), .. }),
            "an /MCR with no /Pg of its own inherits too: {kid:?}"
        );
    }

    let mut h = Graph::new();
    let own = h.elem(11, element(Some("P"), Some(3), KItem::Int(1)));
    let kids = h.array(vec![own]);
    let root = h.elem(10, element(Some("Document"), Some(0), kids));
    let tree = h.tree(&[], root);
    assert_eq!(tree.elements()[1].page, Some(3), "an element's own /Pg wins");
}

#[test]
fn an_untagged_document_has_no_tree_at_all() {
    let g = Graph::new();
    let marks = MarkInfo { marked: false, suspects: false, user_properties: false };
    let pages = TreePages { page_count: 1, struct_parents: Vec::new(), parent_tree: Vec::new() };
    let tree = bind(&g.graph, &Vec::new(), DEPTH, None, marks, pages);
    assert!(tree.is_none(), "no /StructTreeRoot is no tree, not an empty one");
}

#[test]
fn a_damaged_root_degrades_rather_than_failing() {
    let g = Graph::new();
    let unreadable_kid = g.tree(&[], KItem::Other);
    assert_eq!(unreadable_kid.element_count(), 0);
    assert_eq!(unreadable_kid.content_count(), 0);

    let no_kids = g.tree(&[], KItem::Null);
    assert_eq!(no_kids.element_count(), 0);
    assert!(no_kids.marked, "the /MarkInfo is still read");
}

#[test]
fn a_root_that_names_itself_is_cut_at_once() {
    let mut g = Graph::new();
    let back = g.array(vec![KItem::Ref(r(10))]);
    let root = g.elem(10, element(Some("Document"), None, back));
    let tree = g.tree(&[], root);
    assert_eq!(tree.element_count(), 1);
    assert_eq!(tree.warnings, vec![StructureWarning::KidCycle { element: r(10) }]);
}

#[test]
fn a_role_map_resolves_alone() {
    let role_map = map(&[("Chapitre", "Sect")]);
    assert_eq!(resolve_role(&role_map, b"Chapitre"), ("Sect".to_string(), false));
    assert_eq!(resolve_role(&role_map, b"Encadre"), ("Encadre".to_string(), false));

    let looping = map(&[("Foo", "Bar"), ("Bar", "Baz"), ("Baz", "Foo")]);
    assert_eq!(resolve_role(&looping, b"Foo"), ("Baz".to_string(), true));
}

#[test]
fn a_long_acyclic_chain_stops_at_the_hop_bound() {
    let names: Vec<String> = (0..40).map(|i| format!("T{i}")).collect();
    let entries: Vec<(&str, &str)> =
        names.windows(2).map(|pair| (pair[0].as_str(), pair[1].as_str())).collect();
    let role_map = map(&entries);
    assert_eq!(resolve_role(&role_map, b"T0"), ("T16".to_string(), false));
    assert_ne!(TextSource::Glyphs, TextSource::ActualText);
}
