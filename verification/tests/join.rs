use tinker_pdf::join::{McidProps, PageChar, PageText};
use tinker_pdf::structure::{
    bind, KDict, KGraph, KItem, MarkInfo, StructureTree, StructureWarning, TextSource, TreePages,
};
use tinker_pdf::subset::ObjRef;

fn dict() -> KDict {
    KDict {
        kind: None,
        mcid: None,
        obj: None,
        s: None,
        pg: None,
        k: KItem::Null,
        title: None,
        lang: None,
        alt: None,
        actual_text: None,
        expansion: None,
    }
}

fn element(s: &str, k: KItem) -> KDict {
    KDict { s: Some(s.as_bytes().to_vec()), pg: Some(0), k, ..dict() }
}

struct Graph {
    graph: KGraph,
}

impl Graph {
    fn new() -> Graph {
        Graph { graph: KGraph { objects: Vec::new(), dicts: Vec::new(), arrays: Vec::new() } }
    }

    fn array(&mut self, items: Vec<KItem>) -> KItem {
        self.graph.arrays.push(items);
        KItem::Array(self.graph.arrays.len() - 1)
    }

    fn elem(&mut self, num: u32, d: KDict) -> KItem {
        self.graph.dicts.push(d);
        let value = KItem::Dict(self.graph.dicts.len() - 1);
        self.graph.objects.push((ObjRef { num, gen: 0 }, value));
        KItem::Ref(ObjRef { num, gen: 0 })
    }

    fn tree(&self, root_k: KItem, pages: TreePages) -> StructureTree {
        let marks = MarkInfo { marked: true, suspects: false, user_properties: false };
        bind(&self.graph, &Vec::new(), 256, Some(root_k), marks, pages).expect("a root gives a tree")
    }
}

fn one_page() -> TreePages {
    TreePages { page_count: 1, struct_parents: Vec::new(), parent_tree: Vec::new() }
}

fn page(chars: &[(&str, Option<u32>)]) -> PageText {
    PageText {
        chars: chars.iter().map(|(text, mcid)| PageChar { text: text.to_string(), mcid: *mcid }).collect(),
        props: Vec::new(),
    }
}

#[test]
fn content_and_child_elements_interleave_in_reading_order() {
    // `/P [ 3 /Span [4] 5 ]` reads 3, then 4, then 5.
    let mut g = Graph::new();
    let span_kids = g.array(vec![KItem::Int(4)]);
    let span = g.elem(11, element("Span", span_kids));
    let p_kids = g.array(vec![KItem::Int(3), span, KItem::Int(5)]);
    let p = g.elem(10, element("P", p_kids));
    let tree = g.tree(p, one_page());

    let text = tree.text_for_page(0, &page(&[("c", Some(5)), ("a", Some(3)), ("b", Some(4))]));
    let runs: Vec<(&str, &str, u32, Vec<usize>)> = text
        .nodes
        .iter()
        .map(|n| (n.standard_type.as_str(), n.text.as_str(), n.depth, n.chars.clone()))
        .collect();
    assert_eq!(runs, vec![("P", "a", 0, vec![1]), ("Span", "b", 1, vec![2]), ("P", "c", 0, vec![0])]);
    assert_eq!((text.matched, text.orphans, text.unmarked), (3, 0, 0));
    assert_eq!(text.plain_text(), "a\nb\nc\n");
}

#[test]
fn an_actual_text_replaces_its_subtree_which_still_counts_as_claimed() {
    let mut g = Graph::new();
    let kids = g.array(vec![KItem::Int(1), KItem::Int(2)]);
    let abbr = g.elem(10, KDict { actual_text: Some("and".to_string()), ..element("Span", kids) });
    let tree = g.tree(abbr, one_page());

    let text = tree.text_for_page(0, &page(&[("&", Some(1)), ("!", Some(2)), ("x", None), ("y", Some(9))]));
    assert_eq!(text.nodes.len(), 1);
    assert_eq!(text.nodes[0].text, "and");
    assert_eq!(text.nodes[0].source, TextSource::ActualText);
    assert!(text.nodes[0].chars.is_empty(), "no glyph stands behind an /ActualText");
    assert_eq!((text.matched, text.orphans, text.unmarked), (2, 1, 1));
}

#[test]
fn a_property_list_actual_text_replaces_exactly_its_sequence() {
    let mut g = Graph::new();
    let kids = g.array(vec![KItem::Int(1), KItem::Int(2)]);
    let p = g.elem(10, element("P", kids));
    let tree = g.tree(p, one_page());

    let mut text_page = page(&[("f", Some(1)), ("i", Some(1)), ("x", Some(2))]);
    text_page.props.push((
        1,
        McidProps { actual_text: Some("fi".to_string()), alt: None, lang: Some("en".to_string()), expansion: None },
    ));
    let text = tree.text_for_page(0, &text_page);
    assert_eq!(text.nodes.len(), 1);
    assert_eq!(text.nodes[0].text, "fix");
    assert_eq!(text.nodes[0].source, TextSource::ActualText);
    assert_eq!(text.nodes[0].chars, vec![2]);
    assert_eq!(text.nodes[0].lang, None, "the run's first character is not under the property list");
}

#[test]
fn a_figure_with_alt_and_nothing_drawn_still_describes_itself() {
    let mut g = Graph::new();
    let figure = g.elem(11, KDict { alt: Some("a chart".to_string()), ..element("Figure", KItem::Null) });
    let kids = g.array(vec![figure]);
    let root = g.elem(10, element("Document", kids));
    let tree = g.tree(root, one_page());

    let text = tree.text_for_page(0, &page(&[]));
    assert_eq!(text.nodes.len(), 1);
    assert_eq!(text.nodes[0].standard_type, "Figure");
    assert_eq!(text.nodes[0].alt.as_deref(), Some("a chart"));
    assert_eq!(text.nodes[0].text, "");
    assert_eq!(text.plain_text(), "", "a run with no text is no line");

    let elsewhere = tree.text_for_page(3, &page(&[]));
    assert!(elsewhere.nodes.is_empty(), "a figure on page 0 is not described on page 3");
}

#[test]
fn content_with_no_page_belongs_to_a_page_only_in_a_one_page_document() {
    let mut g = Graph::new();
    let kids = g.array(vec![KItem::Int(1)]);
    let p = g.elem(10, KDict { pg: None, ..element("P", kids) });
    let single = g.tree(p, one_page());
    let text = single.text_for_page(0, &page(&[("a", Some(1))]));
    assert_eq!(text.matched, 1);

    let many = g.tree(p, TreePages { page_count: 2, struct_parents: Vec::new(), parent_tree: Vec::new() });
    let text = many.text_for_page(0, &page(&[("a", Some(1))]));
    assert_eq!((text.matched, text.orphans), (0, 1));
    assert!(text.nodes.is_empty());
}

#[test]
fn a_parent_tree_that_disagrees_with_the_walk_is_named() {
    let mut g = Graph::new();
    let kids = g.array(vec![KItem::Int(0), KItem::Int(1)]);
    let p = g.elem(10, element("P", kids));
    let pages = TreePages { page_count: 1, struct_parents: vec![(0, 7)], parent_tree: vec![(7, 3)] };
    let tree = g.tree(p, pages);

    let text = tree.text_for_page(0, &page(&[("a", Some(0)), ("b", Some(1))]));
    assert_eq!(
        text.warnings,
        vec![StructureWarning::ParentTreeDisagreement { page: 0, walk: 2, parent_tree: 3 }]
    );

    let agreeing = g.tree(p, TreePages { page_count: 1, struct_parents: vec![(0, 7)], parent_tree: vec![(7, 2)] });
    assert!(agreeing.text_for_page(0, &page(&[("a", Some(0))])).warnings.is_empty());
}
