//! A page's text in structure order: the structure tree joined with the
//! characters the page draws, through the marked-content identifiers each
//! character was shown under.
//!
//! The page's characters are the same ones search and selection read, named
//! here by their place in the page's reading order, so the structured view
//! can never disagree with them about what the page says.

use vstd::prelude::*;

use crate::structure::{
    copy_text, element_view, kid_view, kids_view, lemma_kids_view_index, text_view, warning_view,
    ElementView, KidView, StructElement, StructKid, StructureTree, StructureWarning, TextSource,
    WarningView,
};
use crate::text::push_text;

verus! {

broadcast use vstd::std_specs::hash::group_hash_axioms;

/// One character a page draws, as the join reads it.
pub struct PageChar {
    /// What it reads as.
    pub text: String,
    /// The marked-content identifier in force when it was shown.
    pub mcid: Option<u32>,
}

/// What one marked-content sequence's property list says.
pub struct McidProps {
    /// `/ActualText`: what the sequence *is*, replacing what it draws.
    pub actual_text: Option<String>,
    /// `/Alt`.
    pub alt: Option<String>,
    /// `/Lang`.
    pub lang: Option<String>,
    /// `/E`.
    pub expansion: Option<String>,
}

/// A page's text as the join reads it.
pub struct PageText {
    /// Every character, line by line, in the order the page's text gives.
    pub chars: Vec<PageChar>,
    /// The property lists, by marked-content identifier.
    pub props: Vec<(u32, McidProps)>,
}

/// One run of content under one structure element.
pub struct StructuredNode {
    /// `/S` as the file wrote it.
    pub raw_type: String,
    /// `/S` after the role map.
    pub standard_type: String,
    /// How deep in the tree the element sits; the root's own kids are 0.
    pub depth: u32,
    /// The run's text.
    pub text: String,
    /// Whether the text is glyphs or an `/ActualText`.
    pub source: TextSource,
    /// `/Alt`, from the element or from its property list.
    pub alt: Option<String>,
    /// `/Lang`.
    pub lang: Option<String>,
    /// `/E`.
    pub expansion: Option<String>,
    /// The characters this run covers, by their place in [`PageText::chars`];
    /// empty when the text came from an `/ActualText`, which no glyph stands
    /// behind.
    pub chars: Vec<usize>,
}

/// A page's text in structure order.
pub struct StructuredText {
    /// The runs of content, in the order the structure tree gives them.
    pub nodes: Vec<StructuredNode>,
    /// Characters a structure element claimed.
    pub matched: usize,
    /// Characters carrying an `/MCID` no structure element on this page
    /// claimed: counted, never appended.
    pub orphans: usize,
    /// Characters carrying no `/MCID` at all.
    pub unmarked: usize,
    /// What the join had to tolerate.
    pub warnings: Vec<StructureWarning>,
}

/// A node as values.
pub struct NodeView {
    /// Its raw type.
    pub raw: Seq<char>,
    /// Its standard type.
    pub standard: Seq<char>,
    /// Its depth.
    pub depth: u32,
    /// Its text.
    pub text: Seq<char>,
    /// Where the text came from.
    pub source: TextSource,
    /// `/Alt`.
    pub alt: Option<Seq<char>>,
    /// `/Lang`.
    pub lang: Option<Seq<char>>,
    /// `/E`.
    pub expansion: Option<Seq<char>>,
    /// The characters it covers.
    pub chars: Seq<usize>,
}

/// A node's values.
pub open spec fn node_view(node: StructuredNode) -> NodeView {
    NodeView {
        raw: node.raw_type@,
        standard: node.standard_type@,
        depth: node.depth,
        text: node.text@,
        source: node.source,
        alt: text_view(node.alt),
        lang: text_view(node.lang),
        expansion: text_view(node.expansion),
        chars: node.chars@,
    }
}

/// What the join has produced so far.
pub struct JoinView {
    /// Every identifier on this page some element claimed.
    pub claimed: Set<u32>,
    /// The nodes, in order.
    pub nodes: Seq<NodeView>,
}

/// The run being gathered under one element, between two of its child
/// elements.
pub struct RunView {
    /// Its characters.
    pub chars: Seq<usize>,
    /// Its text.
    pub text: Seq<char>,
    /// Whether any of it came from an `/ActualText`.
    pub replaced: bool,
    /// Whether the element has yet to emit its first node, which is where its
    /// `/Alt`, `/Lang` and `/E` go.
    pub first: bool,
}

/// What the join runs over: the page, its index, and whether content with no
/// page of its own belongs to it.
pub struct JoinSetting {
    /// The page.
    pub page: PageText,
    /// Its zero-based index.
    pub index: u32,
    /// True only for a one-page document.
    pub unpaged_is_here: bool,
}

/// Where in `props`, from `from` on, identifier `mcid`'s property list is.
pub open spec fn prop_index(props: Seq<(u32, McidProps)>, mcid: u32, from: int) -> Option<int>
    decreases props.len() - from,
{
    if from < 0 || from >= props.len() {
        None
    } else if props[from].0 == mcid {
        Some(from)
    } else {
        prop_index(props, mcid, from + 1)
    }
}

/// Identifier `mcid`'s property list.
pub open spec fn props_of(page: PageText, mcid: u32) -> Option<McidProps> {
    match prop_index(page.props@, mcid, 0) {
        Some(i) => Some(page.props@[i].1),
        None => None,
    }
}

/// The text and the places of the characters among the first `n` shown under
/// `mcid`, in order.
pub open spec fn content_upto(chars: Seq<PageChar>, mcid: u32, n: int) -> (Seq<char>, Seq<usize>)
    decreases n,
{
    if n <= 0 || n > chars.len() {
        (Seq::empty(), Seq::empty())
    } else {
        let (text, places) = content_upto(chars, mcid, n - 1);
        if chars[n - 1].mcid == Some(mcid) {
            (text + chars[n - 1].text@, places.push((n - 1) as usize))
        } else {
            (text, places)
        }
    }
}

/// One content item: claimed when it is on this page, and then its glyphs, or
/// the `/ActualText` its property list gives, added to the run.
pub open spec fn spec_content(
    s: JoinSetting,
    state: JoinView,
    run: RunView,
    page: Option<u32>,
    mcid: u32,
    suppressed: bool,
) -> (JoinView, RunView) {
    let here = page == Some(s.index) || (page is None && s.unpaged_is_here);
    if !here {
        (state, run)
    } else {
        let claimed = JoinView { claimed: state.claimed.insert(mcid), ..state };
        if suppressed {
            (claimed, run)
        } else {
            match props_of(s.page, mcid) {
                Some(props) if props.actual_text is Some => (
                    claimed,
                    RunView { text: run.text + props.actual_text->0@, replaced: true, ..run },
                ),
                _ => {
                    let (text, places) = content_upto(s.page.chars@, mcid, s.page.chars@.len() as int);
                    (claimed, RunView { text: run.text + text, chars: run.chars + places, ..run })
                },
            }
        }
    }
}

/// The first of two optional texts that is present.
pub open spec fn first_of(a: Option<Seq<char>>, b: Option<Seq<char>>) -> Option<Seq<char>> {
    if a is Some {
        a
    } else {
        b
    }
}

/// One level up, short of zero.
pub open spec fn up(depth: u32) -> u32 {
    if depth == 0 {
        0
    } else {
        (depth - 1) as u32
    }
}

/// One level down, short of `u32::MAX`.
pub open spec fn down(depth: u32) -> u32 {
    if depth == u32::MAX {
        u32::MAX
    } else {
        (depth + 1) as u32
    }
}

/// The property list of the run's first character, when it has one.
pub open spec fn run_props(s: JoinSetting, run: RunView) -> Option<McidProps> {
    if run.chars.len() > 0 && run.chars[0] < s.page.chars@.len() {
        match s.page.chars@[run.chars[0] as int].mcid {
            Some(mcid) => props_of(s.page, mcid),
            None => None,
        }
    } else {
        None
    }
}

/// An empty run that is no longer the element's first.
pub open spec fn emptied(run: RunView) -> RunView {
    RunView { chars: Seq::empty(), text: Seq::empty(), replaced: false, ..run }
}

/// Ends the run under `under`: a node when it holds text, nothing otherwise.
/// The element's `/Alt`, `/Lang` and `/E` go on the first node it produces,
/// from its own dictionary or else from the run's property list.
pub open spec fn spec_flush(
    s: JoinSetting,
    state: JoinView,
    run: RunView,
    under: Option<ElementView>,
    depth: u32,
) -> (JoinView, RunView) {
    match under {
        None => (state, emptied(run)),
        Some(element) => if run.text.len() == 0 {
            (state, RunView { chars: Seq::empty(), replaced: false, ..run })
        } else {
            let list = run_props(s, run);
            let (alt, lang, expansion) = if run.first {
                (
                    first_of(element.texts[2], match list { Some(p) => text_view(p.alt), None => None }),
                    first_of(element.texts[1], match list { Some(p) => text_view(p.lang), None => None }),
                    first_of(element.texts[4], match list { Some(p) => text_view(p.expansion), None => None }),
                )
            } else {
                (None, None, None)
            };
            let node = NodeView {
                raw: element.raw,
                standard: element.standard,
                depth: up(depth),
                text: run.text,
                source: if run.replaced {
                    TextSource::ActualText
                } else {
                    TextSource::Glyphs
                },
                alt,
                lang,
                expansion,
                chars: run.chars,
            };
            (JoinView { nodes: state.nodes.push(node), ..state }, RunView { first: false, ..emptied(run) })
        },
    }
}

/// The first node an element produces carries the element's own `/Lang`,
/// `/Alt` and `/E` wherever the element gives them; the property list of the
/// run's first character supplies each only where the element gives none;
/// and a later node of the same element carries none of them.
pub proof fn lemma_an_element_describes_its_first_node(
    s: JoinSetting,
    state: JoinView,
    run: RunView,
    element: StructElement,
    depth: u32,
)
    requires
        run.text.len() > 0,
    ensures
        ({
            let joined = spec_flush(s, state, run, Some(element_view(element)), depth);
            let node = joined.0.nodes.last();
            let list = run_props(s, run);
            &&& joined.0.nodes.len() == state.nodes.len() + 1
            &&& joined.0.nodes.drop_last() == state.nodes
            &&& node.text == run.text
            &&& !joined.1.first
            &&& (run.first && element.lang is Some ==> node.lang == text_view(element.lang))
            &&& (run.first && element.lang is None ==> node.lang == match list {
                Some(p) => text_view(p.lang),
                None => None,
            })
            &&& (run.first && element.alt is Some ==> node.alt == text_view(element.alt))
            &&& (run.first && element.alt is None ==> node.alt == match list {
                Some(p) => text_view(p.alt),
                None => None,
            })
            &&& (run.first && element.expansion is Some ==> node.expansion == text_view(element.expansion))
            &&& (run.first && element.expansion is None ==> node.expansion == match list {
                Some(p) => text_view(p.expansion),
                None => None,
            })
            &&& (!run.first ==> node.lang is None && node.alt is None && node.expansion is None)
        }),
{
    let view = element_view(element);
    let next = spec_flush(s, state, run, Some(view), depth).0;
    assert(next.nodes.drop_last() =~= state.nodes);
    assert(view.texts[1] == text_view(element.lang));
    assert(view.texts[2] == text_view(element.alt));
    assert(view.texts[4] == text_view(element.expansion));
}

/// Whether some kid is content on page `index`.
pub open spec fn has_content_on(kids: Seq<KidView>, index: u32) -> bool {
    exists|i: int| 0 <= i < kids.len() && kids[i] == KidView::Content(Some(index), kids[i]->Content_1)
}

/// An element that drew nothing on this page but describes something on it.
pub open spec fn spec_alt_only(s: JoinSetting, state: JoinView, under: Option<ElementView>, depth: u32) -> JoinView {
    match under {
        None => state,
        Some(element) => if element.texts[2] is None && element.texts[4] is None {
            state
        } else if !(element.page == Some(s.index) || has_content_on(element.kids, s.index)) {
            state
        } else {
            JoinView {
                nodes: state.nodes.push(
                    NodeView {
                        raw: element.raw,
                        standard: element.standard,
                        depth: up(depth),
                        text: Seq::empty(),
                        source: TextSource::Glyphs,
                        alt: element.texts[2],
                        lang: element.texts[1],
                        expansion: element.texts[4],
                        chars: Seq::empty(),
                    },
                ),
                ..state
            }
        },
    }
}

/// The run every element starts with.
pub open spec fn fresh_run() -> RunView {
    RunView { chars: Seq::empty(), text: Seq::empty(), replaced: false, first: true }
}

/// One level of `/K`, in reading order: `under` owns the kids, which sit at
/// `depth`; `suppressed` holds inside an `/ActualText` subtree, where
/// identifiers are still claimed and nothing is emitted.
pub open spec fn spec_join_kids(
    s: JoinSetting,
    state: JoinView,
    kids: Seq<KidView>,
    under: Option<ElementView>,
    depth: u32,
    suppressed: bool,
) -> JoinView
    decreases kids, 2nat, 0nat,
{
    let (read, run) = spec_join_items(s, state, fresh_run(), kids, 0, under, depth, suppressed);
    let (flushed, left) = spec_flush(s, read, run, under, depth);
    if left.first && !suppressed {
        spec_alt_only(s, flushed, under, depth)
    } else {
        flushed
    }
}

/// Kids `at..` of one level, with the run gathered so far.
pub open spec fn spec_join_items(
    s: JoinSetting,
    state: JoinView,
    run: RunView,
    kids: Seq<KidView>,
    at: nat,
    under: Option<ElementView>,
    depth: u32,
    suppressed: bool,
) -> (JoinView, RunView)
    decreases kids, 1nat, kids.len() - at,
{
    if at >= kids.len() {
        (state, run)
    } else {
        match kids[at as int] {
            KidView::Content(page, mcid) => {
                let (next, gathered) = spec_content(s, state, run, page, mcid, suppressed);
                spec_join_items(s, next, gathered, kids, at + 1, under, depth, suppressed)
            },
            KidView::Object(_) => spec_join_items(s, state, run, kids, at + 1, under, depth, suppressed),
            KidView::Element(element) => {
                let (flushed, left) = spec_flush(s, state, run, under, depth);
                proof {
                    assert(decreases_to!(kids => kids[at as int]));
                }
                let joined = spec_join_element(s, flushed, element, depth, suppressed);
                spec_join_items(s, joined, left, kids, at + 1, under, depth, suppressed)
            },
        }
    }
}

/// One element: a node for its `/ActualText`, which then stands for
/// everything under it, or else its kids one level down.
pub open spec fn spec_join_element(
    s: JoinSetting,
    state: JoinView,
    element: ElementView,
    depth: u32,
    suppressed: bool,
) -> JoinView
    decreases element, 0nat, 0nat,
{
    if !suppressed && element.texts[3] is Some {
        let node = NodeView {
            raw: element.raw,
            standard: element.standard,
            depth,
            text: element.texts[3]->0,
            source: TextSource::ActualText,
            alt: element.texts[2],
            lang: element.texts[1],
            expansion: element.texts[4],
            chars: Seq::empty(),
        };
        spec_join_kids(
            s,
            JoinView { nodes: state.nodes.push(node), ..state },
            element.kids,
            Some(element),
            down(depth),
            true,
        )
    } else {
        spec_join_kids(s, state, element.kids, Some(element), down(depth), suppressed)
    }
}

// ---- The join, run -----------------------------------------------------------------

/// What the join has produced so far.
struct JoinState {
    /// Every identifier on this page some element claimed.
    claimed: std::collections::HashSet<u32>,
    /// The nodes, in order.
    nodes: Vec<StructuredNode>,
}

impl JoinState {
    spec fn view(&self) -> JoinView {
        JoinView { claimed: self.claimed@, nodes: self.nodes@.map_values(|n: StructuredNode| node_view(n)) }
    }
}

/// The run being gathered under one element.
struct Run {
    chars: Vec<usize>,
    text: String,
    replaced: bool,
    first: bool,
}

impl Run {
    spec fn view(&self) -> RunView {
        RunView { chars: self.chars@, text: self.text@, replaced: self.replaced, first: self.first }
    }
}

/// The setting as values.
pub open spec fn setting(page: PageText, index: u32, unpaged_is_here: bool) -> JoinSetting {
    JoinSetting { page, index, unpaged_is_here }
}

/// Where identifier `mcid`'s property list is.
fn find_prop(props: &Vec<(u32, McidProps)>, mcid: u32) -> (r: Option<usize>)
    ensures
        match r {
            Some(i) => i < props@.len() && prop_index(props@, mcid, 0) == Some(i as int),
            None => prop_index(props@, mcid, 0) is None,
        },
{
    let mut i: usize = 0;
    while i < props.len()
        invariant
            i <= props@.len(),
            prop_index(props@, mcid, 0) == prop_index(props@, mcid, i as int),
        decreases props@.len() - i,
    {
        if props[i].0 == mcid {
            return Some(i);
        }
        i = i + 1;
    }
    None
}

/// One content item.
#[verifier::loop_isolation(false)]
fn content(
    page: &PageText,
    index: u32,
    unpaged_is_here: bool,
    state: &mut JoinState,
    run: &mut Run,
    at: Option<u32>,
    mcid: u32,
    suppressed: bool,
)
    ensures
        (final(state).view(), final(run).view()) == spec_content(
            setting(*page, index, unpaged_is_here),
            old(state).view(),
            old(run).view(),
            at,
            mcid,
            suppressed,
        ),
{
    let here = match at {
        Some(p) => p == index,
        None => unpaged_is_here,
    };
    if !here {
        return;
    }
    state.claimed.insert(mcid);
    if suppressed {
        return;
    }
    match find_prop(&page.props, mcid) {
        Some(i) => match &page.props[i].1.actual_text {
            Some(actual) => {
                push_text(&mut run.text, actual.as_str());
                run.replaced = true;
                return;
            },
            None => {},
        },
        None => {},
    }
    let ghost text0 = run.text@;
    let ghost chars0 = run.chars@;
    let mut i: usize = 0;
    while i < page.chars.len()
        invariant
            i <= page.chars@.len(),
            run.text@ == text0 + content_upto(page.chars@, mcid, i as int).0,
            run.chars@ == chars0 + content_upto(page.chars@, mcid, i as int).1,
            run.replaced == old(run).replaced,
            run.first == old(run).first,
        decreases page.chars@.len() - i,
    {
        let ghost before = content_upto(page.chars@, mcid, i as int);
        if page.chars[i].mcid == Some(mcid) {
            push_text(&mut run.text, page.chars[i].text.as_str());
            run.chars.push(i);
            proof {
                assert(run.text@ =~= text0 + (before.0 + page.chars@[i as int].text@));
                assert(run.chars@ =~= chars0 + before.1.push(i));
            }
        }
        i = i + 1;
    }
}

/// Empties a run.
fn empty_run(run: &mut Run)
    ensures
        final(run).view() == emptied(old(run).view()),
{
    run.chars = Vec::new();
    run.text = String::new();
    run.replaced = false;
}

/// An optional text of the element, or else one of the property list.
fn text_or(own: &Option<String>, props: Option<&McidProps>, which: u8) -> (r: Option<String>)
    requires
        which < 3,
    ensures
        text_view(r) == first_of(
            text_view(*own),
            match props {
                Some(p) => text_view(if which == 0 { p.alt } else if which == 1 { p.lang } else { p.expansion }),
                None => None,
            },
        ),
{
    match own {
        Some(text) => Some(text.clone()),
        None => match props {
            Some(p) => if which == 0 {
                copy_text(&p.alt)
            } else if which == 1 {
                copy_text(&p.lang)
            } else {
                copy_text(&p.expansion)
            },
            None => None,
        },
    }
}

/// Ends the run under `under`.
fn flush(
    page: &PageText,
    index: u32,
    unpaged_is_here: bool,
    state: &mut JoinState,
    run: &mut Run,
    under: Option<&StructElement>,
    depth: u32,
)
    ensures
        (final(state).view(), final(run).view()) == spec_flush(
            setting(*page, index, unpaged_is_here),
            old(state).view(),
            old(run).view(),
            match under {
                Some(e) => Some(element_view(*e)),
                None => None,
            },
            depth,
        ),
{
    let ghost s = setting(*page, index, unpaged_is_here);
    let element = match under {
        Some(element) => element,
        None => {
            empty_run(run);
            return;
        },
    };
    if run.text.as_str().unicode_len() == 0 {
        run.chars = Vec::new();
        run.replaced = false;
        return;
    }
    let list: Option<&McidProps> = if run.chars.len() > 0 && run.chars[0] < page.chars.len() {
        match page.chars[run.chars[0]].mcid {
            Some(mcid) => match find_prop(&page.props, mcid) {
                Some(i) => Some(&page.props[i].1),
                None => None,
            },
            None => None,
        }
    } else {
        None
    };
    let (alt, lang, expansion) = if run.first {
        (text_or(&element.alt, list, 0), text_or(&element.lang, list, 1), text_or(&element.expansion, list, 2))
    } else {
        (None, None, None)
    };
    let mut text = String::new();
    std::mem::swap(&mut text, &mut run.text);
    let mut chars: Vec<usize> = Vec::new();
    std::mem::swap(&mut chars, &mut run.chars);
    let node = StructuredNode {
        raw_type: element.raw_type.clone(),
        standard_type: element.standard_type.clone(),
        depth: if depth == 0 { 0 } else { depth - 1 },
        text,
        source: if run.replaced {
            TextSource::ActualText
        } else {
            TextSource::Glyphs
        },
        alt,
        lang,
        expansion,
        chars,
    };
    let ghost was = state.nodes@;
    state.nodes.push(node);
    proof {
        assert(state.nodes@.map_values(|n: StructuredNode| node_view(n)) =~= was.map_values(
            |n: StructuredNode| node_view(n),
        ).push(node_view(node)));
    }
    run.replaced = false;
    run.first = false;
}

/// Whether some kid is content on page `index`.
fn any_content_on(kids: &Vec<StructKid>, index: u32) -> (r: bool)
    ensures
        r == has_content_on(kids_view(kids@), index),
{
    proof {
        lemma_kids_view_index(kids@);
    }
    let mut i: usize = 0;
    while i < kids.len()
        invariant
            i <= kids@.len(),
            kids_view(kids@).len() == kids@.len(),
            forall|j: int| 0 <= j < kids@.len() ==> #[trigger] kids_view(kids@)[j] == kid_view(kids@[j]),
            forall|j: int| 0 <= j < i ==> !(kids_view(kids@)[j] == KidView::Content(Some(index), kids_view(kids@)[j]->Content_1)),
        decreases kids@.len() - i,
    {
        match &kids[i] {
            StructKid::Content { page, mcid } => {
                if *page == Some(index) {
                    proof {
                        assert(kids_view(kids@)[i as int] == KidView::Content(Some(index), *mcid));
                    }
                    return true;
                }
            },
            _ => {},
        }
        i = i + 1;
    }
    false
}

/// An element that drew nothing on this page but describes something on it.
fn alt_only(page: &PageText, index: u32, unpaged_is_here: bool, state: &mut JoinState, under: Option<&StructElement>, depth: u32)
    ensures
        final(state).view() == spec_alt_only(
            setting(*page, index, unpaged_is_here),
            old(state).view(),
            match under {
                Some(e) => Some(element_view(*e)),
                None => None,
            },
            depth,
        ),
{
    let element = match under {
        Some(element) => element,
        None => return,
    };
    if element.alt.is_none() && element.expansion.is_none() {
        return;
    }
    let here = element.page == Some(index) || any_content_on(&element.kids, index);
    if !here {
        return;
    }
    let node = StructuredNode {
        raw_type: element.raw_type.clone(),
        standard_type: element.standard_type.clone(),
        depth: if depth == 0 { 0 } else { depth - 1 },
        text: String::new(),
        source: TextSource::Glyphs,
        alt: copy_text(&element.alt),
        lang: copy_text(&element.lang),
        expansion: copy_text(&element.expansion),
        chars: Vec::new(),
    };
    let ghost was = state.nodes@;
    state.nodes.push(node);
    proof {
        assert(state.nodes@.map_values(|n: StructuredNode| node_view(n)) =~= was.map_values(
            |n: StructuredNode| node_view(n),
        ).push(node_view(node)));
    }
}

/// The view of an optional element.
pub open spec fn under_view(under: Option<&StructElement>) -> Option<ElementView> {
    match under {
        Some(e) => Some(element_view(*e)),
        None => None,
    }
}

/// One level of `/K`, in reading order.
fn join_kids(
    page: &PageText,
    index: u32,
    unpaged_is_here: bool,
    state: &mut JoinState,
    kids: &Vec<StructKid>,
    under: Option<&StructElement>,
    depth: u32,
    suppressed: bool,
)
    ensures
        final(state).view() == spec_join_kids(
            setting(*page, index, unpaged_is_here),
            old(state).view(),
            kids_view(kids@),
            under_view(under),
            depth,
            suppressed,
        ),
    decreases kids@, 2nat, 0nat,
{
    let ghost s = setting(*page, index, unpaged_is_here);
    let ghost all = kids_view(kids@);
    proof {
        lemma_kids_view_index(kids@);
    }
    let mut run = Run { chars: Vec::new(), text: String::new(), replaced: false, first: true };
    let ghost whole = spec_join_items(s, state.view(), run.view(), all, 0, under_view(under), depth, suppressed);
    let mut i: usize = 0;
    while i < kids.len()
        invariant
            i <= kids@.len(),
            all == kids_view(kids@),
            all.len() == kids@.len(),
            forall|j: int| 0 <= j < kids@.len() ==> #[trigger] all[j] == kid_view(kids@[j]),
            s == setting(*page, index, unpaged_is_here),
            whole == spec_join_items(s, state.view(), run.view(), all, i as nat, under_view(under), depth, suppressed),
        decreases kids@.len() - i,
    {
        match &kids[i] {
            StructKid::Content { page: at, mcid } => {
                content(page, index, unpaged_is_here, state, &mut run, *at, *mcid, suppressed);
            },
            StructKid::Object(_) => {},
            StructKid::Element(element) => {
                flush(page, index, unpaged_is_here, state, &mut run, under, depth);
                proof {
                    assert(decreases_to!(kids@ => kids@[i as int]));
                }
                join_element(page, index, unpaged_is_here, state, &**element, depth, suppressed);
            },
        }
        i = i + 1;
    }
    flush(page, index, unpaged_is_here, state, &mut run, under, depth);
    if run.first && !suppressed {
        alt_only(page, index, unpaged_is_here, state, under, depth);
    }
}

/// One element.
fn join_element(
    page: &PageText,
    index: u32,
    unpaged_is_here: bool,
    state: &mut JoinState,
    element: &StructElement,
    depth: u32,
    suppressed: bool,
)
    ensures
        final(state).view() == spec_join_element(
            setting(*page, index, unpaged_is_here),
            old(state).view(),
            element_view(*element),
            depth,
            suppressed,
        ),
    decreases *element, 0nat, 0nat,
{
    let below: u32 = if depth == u32::MAX { u32::MAX } else { depth + 1 };
    if !suppressed {
        match &element.actual_text {
            Some(actual) => {
                let node = StructuredNode {
                    raw_type: element.raw_type.clone(),
                    standard_type: element.standard_type.clone(),
                    depth,
                    text: actual.clone(),
                    source: TextSource::ActualText,
                    alt: copy_text(&element.alt),
                    lang: copy_text(&element.lang),
                    expansion: copy_text(&element.expansion),
                    chars: Vec::new(),
                };
                let ghost was = state.nodes@;
                state.nodes.push(node);
                proof {
                    assert(state.nodes@.map_values(|n: StructuredNode| node_view(n)) =~= was.map_values(
                        |n: StructuredNode| node_view(n),
                    ).push(node_view(node)));
                }
                join_kids(page, index, unpaged_is_here, state, &element.kids, Some(element), below, true);
                return;
            },
            None => {},
        }
    }
    join_kids(page, index, unpaged_is_here, state, &element.kids, Some(element), below, suppressed);
}

// ---- One page ------------------------------------------------------------------------

/// The first value `entries` holds for `key`.
pub open spec fn value_of<K, V>(entries: Seq<(K, V)>, key: K) -> Option<V>
    decreases entries.len(),
{
    if entries.len() == 0 {
        None
    } else {
        match value_of(entries.drop_last(), key) {
            Some(v) => Some(v),
            None => if entries.last().0 == key {
                Some(entries.last().1)
            } else {
                None
            },
        }
    }
}

/// The first value `entries` holds for page `index`.
fn page_key(entries: &Vec<(u32, i64)>, index: u32) -> (r: Option<i64>)
    ensures
        r == value_of(entries@, index),
{
    let mut i: usize = 0;
    while i < entries.len()
        invariant
            i <= entries@.len(),
            value_of(entries@.take(i as int), index) is None,
        decreases entries@.len() - i,
    {
        proof {
            assert(entries@.take(i + 1).drop_last() =~= entries@.take(i as int));
        }
        if entries[i].0 == index {
            proof {
                lemma_value_of_prefix(entries@, index, i + 1);
            }
            return Some(entries[i].1);
        }
        i = i + 1;
    }
    proof {
        assert(entries@.take(i as int) =~= entries@);
    }
    None
}

/// The first value `entries` holds for key `key`.
fn key_count(entries: &Vec<(i64, usize)>, key: i64) -> (r: Option<usize>)
    ensures
        r == value_of(entries@, key),
{
    let mut i: usize = 0;
    while i < entries.len()
        invariant
            i <= entries@.len(),
            value_of(entries@.take(i as int), key) is None,
        decreases entries@.len() - i,
    {
        proof {
            assert(entries@.take(i + 1).drop_last() =~= entries@.take(i as int));
        }
        if entries[i].0 == key {
            proof {
                lemma_value_of_prefix(entries@, key, i + 1);
            }
            return Some(entries[i].1);
        }
        i = i + 1;
    }
    proof {
        assert(entries@.take(i as int) =~= entries@);
    }
    None
}

/// Once a prefix holds a value for `key`, so does the whole.
proof fn lemma_value_of_prefix<K, V>(entries: Seq<(K, V)>, key: K, n: int)
    requires
        0 <= n <= entries.len(),
        value_of(entries.take(n), key) is Some,
    ensures
        value_of(entries, key) == value_of(entries.take(n), key),
    decreases entries.len() - n,
{
    if n < entries.len() {
        assert(entries.take(n + 1).drop_last() =~= entries.take(n));
        lemma_value_of_prefix(entries, key, n + 1);
    } else {
        assert(entries.take(n) =~= entries);
    }
}

/// How many of the first `n` characters were claimed, carry an identifier
/// nothing claimed, and carry none.
pub open spec fn tally(chars: Seq<PageChar>, claimed: Set<u32>, n: int) -> (nat, nat, nat)
    decreases n,
{
    if n <= 0 || n > chars.len() {
        (0, 0, 0)
    } else {
        let (matched, orphans, unmarked) = tally(chars, claimed, n - 1);
        match chars[n - 1].mcid {
            None => (matched, orphans, unmarked + 1),
            Some(mcid) => if claimed.contains(mcid) {
                (matched + 1, orphans, unmarked)
            } else {
                (matched, orphans + 1, unmarked)
            },
        }
    }
}

/// What the join of `tree` with page `index` produces.
pub open spec fn spec_page_join(tree: StructureTree, index: u32, page: PageText) -> JoinView {
    spec_join_kids(
        setting(page, index, tree.pages.page_count <= 1),
        JoinView { claimed: Set::empty(), nodes: Seq::empty() },
        kids_view(tree.kids@),
        None,
        0,
        false,
    )
}

/// What the parent tree says when it disagrees with the `/K` walk about how
/// many marked sequences page `index` has.
pub open spec fn spec_disagreement(tree: StructureTree, index: u32, walk: nat) -> Seq<WarningView> {
    match value_of(tree.pages.struct_parents@, index) {
        Some(key) => match value_of(tree.pages.parent_tree@, key) {
            Some(declared) if declared != walk => seq![WarningView::ParentTreeDisagreement(index, walk as usize, declared)],
            _ => Seq::empty(),
        },
        None => Seq::empty(),
    }
}

impl StructuredText {
    /// The page's text in structure order, one line per run, runs with no
    /// text left out.
    pub fn plain_text(&self) -> (r: String)
        ensures
            r@ == spec_plain(self.nodes@.map_values(|n: StructuredNode| node_view(n))),
    {
        let mut out = String::new();
        let mut i: usize = 0;
        while i < self.nodes.len()
            invariant
                i <= self.nodes@.len(),
                out@ == spec_plain(self.nodes@.take(i as int).map_values(|n: StructuredNode| node_view(n))),
            decreases self.nodes@.len() - i,
        {
            proof {
                assert(self.nodes@.take(i + 1).map_values(|n: StructuredNode| node_view(n)).drop_last()
                    =~= self.nodes@.take(i as int).map_values(|n: StructuredNode| node_view(n)));
            }
            let node = &self.nodes[i];
            if node.text.as_str().unicode_len() != 0 {
                push_text(&mut out, node.text.as_str());
                proof {
                    reveal_strlit("\n");
                }
                push_text(&mut out, "\n");
            }
            i = i + 1;
        }
        proof {
            assert(self.nodes@.take(i as int) =~= self.nodes@);
        }
        out
    }
}

/// The nodes' text, each non-empty one followed by a line break.
pub open spec fn spec_plain(nodes: Seq<NodeView>) -> Seq<char>
    decreases nodes.len(),
{
    if nodes.len() == 0 {
        Seq::empty()
    } else {
        let last = nodes.last();
        spec_plain(nodes.drop_last()) + if last.text.len() == 0 {
            Seq::empty()
        } else {
            last.text + seq!['\n']
        }
    }
}

impl StructureTree {
    /// One page's text in structure order, joined with this tree. `page` is
    /// the same text the page's own extraction produces, so the structured
    /// view and search can never drift apart.
    pub fn text_for_page(&self, index: u32, page: &PageText) -> (r: StructuredText)
        ensures
            r.nodes@.map_values(|n: StructuredNode| node_view(n)) == spec_page_join(*self, index, *page).nodes,
            r.matched + r.orphans + r.unmarked == page.chars@.len(),
            (r.matched as nat, r.orphans as nat, r.unmarked as nat) == tally(
                page.chars@,
                spec_page_join(*self, index, *page).claimed,
                page.chars@.len() as int,
            ),
            r.warnings@.map_values(|w: StructureWarning| warning_view(w)) == spec_disagreement(
                *self,
                index,
                spec_page_join(*self, index, *page).claimed.len(),
            ),
    {
        let mut state = JoinState { claimed: std::collections::HashSet::new(), nodes: Vec::new() };
        proof {
            assert(state.view().nodes =~= Seq::<NodeView>::empty());
        }
        join_kids(page, index, self.pages.page_count <= 1, &mut state, &self.kids, None, 0, false);
        let ghost joined = state.view();
        let mut matched: usize = 0;
        let mut orphans: usize = 0;
        let mut unmarked: usize = 0;
        let mut i: usize = 0;
        while i < page.chars.len()
            invariant
                i <= page.chars@.len(),
                state.view() == joined,
                (matched as nat, orphans as nat, unmarked as nat) == tally(page.chars@, joined.claimed, i as int),
                matched + orphans + unmarked == i,
            decreases page.chars@.len() - i,
        {
            match page.chars[i].mcid {
                None => unmarked = unmarked + 1,
                Some(mcid) => if state.claimed.contains(&mcid) {
                    matched = matched + 1;
                } else {
                    orphans = orphans + 1;
                },
            }
            i = i + 1;
        }
        let walk = state.claimed.len();
        let mut warnings: Vec<StructureWarning> = Vec::new();
        match page_key(&self.pages.struct_parents, index) {
            Some(key) => match key_count(&self.pages.parent_tree, key) {
                Some(declared) => if declared != walk {
                    warnings.push(StructureWarning::ParentTreeDisagreement { page: index, walk, parent_tree: declared });
                },
                None => {},
            },
            None => {},
        }
        proof {
            assert(warnings@.map_values(|w: StructureWarning| warning_view(w)) =~= spec_disagreement(
                *self,
                index,
                joined.claimed.len(),
            ));
        }
        StructuredText { nodes: state.nodes, matched, orphans, unmarked, warnings }
    }
}

// ---- What a node carries -------------------------------------------------------------

/// Whether every character in `chars` is one of the page's and was shown under
/// an identifier in `claimed`.
pub open spec fn all_claimed(page: PageText, claimed: Set<u32>, chars: Seq<usize>) -> bool {
    forall|j: int| #![trigger chars[j]]
        0 <= j < chars.len() ==> chars[j] < page.chars@.len() && (page.chars@[chars[j] as int].mcid matches Some(
            mcid,
        ) && claimed.contains(mcid))
}

/// Whether every node carries only claimed characters.
pub open spec fn nodes_claimed(page: PageText, claimed: Set<u32>, nodes: Seq<NodeView>) -> bool {
    forall|k: int| 0 <= k < nodes.len() ==> all_claimed(page, claimed, #[trigger] nodes[k].chars)
}

/// Every character content gathers was shown under the identifier asked for.
proof fn lemma_content_marked(chars: Seq<PageChar>, mcid: u32, n: int)
    requires
        chars.len() <= usize::MAX,
    ensures
        forall|j: int| #![trigger content_upto(chars, mcid, n).1[j]]
            0 <= j < content_upto(chars, mcid, n).1.len() ==> content_upto(chars, mcid, n).1[j] < chars.len()
                && chars[content_upto(chars, mcid, n).1[j] as int].mcid == Some(mcid),
    decreases n,
{
    if 0 < n <= chars.len() {
        lemma_content_marked(chars, mcid, n - 1);
        let before = content_upto(chars, mcid, n - 1).1;
        let after = content_upto(chars, mcid, n).1;
        assert forall|j: int| 0 <= j < after.len() implies after[j] < chars.len() && chars[after[j] as int].mcid == Some(mcid) by {
            if j < before.len() {
                assert(after[j] == before[j]);
            }
        }
    }
}

/// The invariant the join keeps: its nodes and its run carry only claimed
/// characters.
pub open spec fn join_keeps(s: JoinSetting, state: JoinView, run: RunView) -> bool {
    &&& nodes_claimed(s.page, state.claimed, state.nodes)
    &&& all_claimed(s.page, state.claimed, run.chars)
}

proof fn lemma_content_keeps(
    s: JoinSetting,
    state: JoinView,
    run: RunView,
    page: Option<u32>,
    mcid: u32,
    suppressed: bool,
)
    requires
        join_keeps(s, state, run),
    ensures
        ({
            let (next, gathered) = spec_content(s, state, run, page, mcid, suppressed);
            &&& join_keeps(s, next, gathered)
            &&& state.claimed.subset_of(next.claimed)
        }),
{
    let here = page == Some(s.index) || (page is None && s.unpaged_is_here);
    if here {
        let claimed = state.claimed.insert(mcid);
        assert forall|k: int| 0 <= k < state.nodes.len() implies all_claimed(s.page, claimed, #[trigger] state.nodes[k].chars) by {
            assert(all_claimed(s.page, state.claimed, state.nodes[k].chars));
        }
        if !suppressed {
            assert(s.page.chars.len() == s.page.chars@.len());
            lemma_content_marked(s.page.chars@, mcid, s.page.chars@.len() as int);
            let places = content_upto(s.page.chars@, mcid, s.page.chars@.len() as int).1;
            let joined = run.chars + places;
            assert forall|j: int| 0 <= j < joined.len() implies joined[j] < s.page.chars@.len() && (s.page.chars@[joined[j] as int].mcid matches Some(
                m,
            ) && claimed.contains(m)) by {
                if j >= run.chars.len() {
                    assert(joined[j] == places[j - run.chars.len()]);
                } else {
                    assert(joined[j] == run.chars[j]);
                }
            }
        }
    }
}

proof fn lemma_flush_keeps(s: JoinSetting, state: JoinView, run: RunView, under: Option<ElementView>, depth: u32)
    requires
        join_keeps(s, state, run),
    ensures
        ({
            let (next, left) = spec_flush(s, state, run, under, depth);
            &&& join_keeps(s, next, left)
            &&& next.claimed == state.claimed
            &&& left.first == (run.first && !(under is Some && run.text.len() > 0))
        }),
{
    let (next, left) = spec_flush(s, state, run, under, depth);
    assert(left.chars.len() == 0 || left.chars == run.chars);
    assert forall|k: int| 0 <= k < next.nodes.len() implies all_claimed(s.page, next.claimed, #[trigger] next.nodes[k].chars) by {
        if k < state.nodes.len() {
            assert(next.nodes[k] == state.nodes[k]);
        }
    }
}

proof fn lemma_alt_only_keeps(s: JoinSetting, state: JoinView, under: Option<ElementView>, depth: u32)
    requires
        nodes_claimed(s.page, state.claimed, state.nodes),
    ensures
        nodes_claimed(s.page, state.claimed, spec_alt_only(s, state, under, depth).nodes),
        spec_alt_only(s, state, under, depth).claimed == state.claimed,
{
    let next = spec_alt_only(s, state, under, depth);
    assert forall|k: int| 0 <= k < next.nodes.len() implies all_claimed(s.page, next.claimed, #[trigger] next.nodes[k].chars) by {
        if k < state.nodes.len() {
            assert(next.nodes[k] == state.nodes[k]);
        }
    }
}

/// Claiming more keeps every claimed character claimed.
proof fn lemma_claim_more(page: PageText, claimed: Set<u32>, more: Set<u32>, nodes: Seq<NodeView>, chars: Seq<usize>)
    requires
        claimed.subset_of(more),
        nodes_claimed(page, claimed, nodes),
        all_claimed(page, claimed, chars),
    ensures
        nodes_claimed(page, more, nodes),
        all_claimed(page, more, chars),
{
    assert forall|k: int| 0 <= k < nodes.len() implies all_claimed(page, more, #[trigger] nodes[k].chars) by {
        assert(all_claimed(page, claimed, nodes[k].chars));
    }
}

proof fn lemma_join_kids_keeps(
    s: JoinSetting,
    state: JoinView,
    kids: Seq<KidView>,
    under: Option<ElementView>,
    depth: u32,
    suppressed: bool,
)
    requires
        nodes_claimed(s.page, state.claimed, state.nodes),
    ensures
        nodes_claimed(
            s.page,
            spec_join_kids(s, state, kids, under, depth, suppressed).claimed,
            spec_join_kids(s, state, kids, under, depth, suppressed).nodes,
        ),
        state.claimed.subset_of(spec_join_kids(s, state, kids, under, depth, suppressed).claimed),
    decreases kids, 2nat, 0nat,
{
    lemma_join_items_keeps(s, state, fresh_run(), kids, 0, under, depth, suppressed);
    let (read, run) = spec_join_items(s, state, fresh_run(), kids, 0, under, depth, suppressed);
    lemma_flush_keeps(s, read, run, under, depth);
    let (flushed, left) = spec_flush(s, read, run, under, depth);
    lemma_alt_only_keeps(s, flushed, under, depth);
}

proof fn lemma_join_items_keeps(
    s: JoinSetting,
    state: JoinView,
    run: RunView,
    kids: Seq<KidView>,
    at: nat,
    under: Option<ElementView>,
    depth: u32,
    suppressed: bool,
)
    requires
        join_keeps(s, state, run),
    ensures
        join_keeps(
            s,
            spec_join_items(s, state, run, kids, at, under, depth, suppressed).0,
            spec_join_items(s, state, run, kids, at, under, depth, suppressed).1,
        ),
        state.claimed.subset_of(spec_join_items(s, state, run, kids, at, under, depth, suppressed).0.claimed),
    decreases kids, 1nat, kids.len() - at,
{
    if at < kids.len() {
        match kids[at as int] {
            KidView::Content(page, mcid) => {
                lemma_content_keeps(s, state, run, page, mcid, suppressed);
                let (next, gathered) = spec_content(s, state, run, page, mcid, suppressed);
                lemma_join_items_keeps(s, next, gathered, kids, at + 1, under, depth, suppressed);
            },
            KidView::Object(_) => {
                lemma_join_items_keeps(s, state, run, kids, at + 1, under, depth, suppressed);
            },
            KidView::Element(element) => {
                lemma_flush_keeps(s, state, run, under, depth);
                let (flushed, left) = spec_flush(s, state, run, under, depth);
                assert(decreases_to!(kids => kids[at as int]));
                lemma_join_element_keeps(s, flushed, element, depth, suppressed);
                let joined = spec_join_element(s, flushed, element, depth, suppressed);
                lemma_claim_more(s.page, flushed.claimed, joined.claimed, Seq::empty(), left.chars);
                lemma_join_items_keeps(s, joined, left, kids, at + 1, under, depth, suppressed);
            },
        }
    }
}

proof fn lemma_join_element_keeps(s: JoinSetting, state: JoinView, element: ElementView, depth: u32, suppressed: bool)
    requires
        nodes_claimed(s.page, state.claimed, state.nodes),
    ensures
        nodes_claimed(
            s.page,
            spec_join_element(s, state, element, depth, suppressed).claimed,
            spec_join_element(s, state, element, depth, suppressed).nodes,
        ),
        state.claimed.subset_of(spec_join_element(s, state, element, depth, suppressed).claimed),
    decreases element, 0nat, 0nat,
{
    if !suppressed && element.texts[3] is Some {
        let node = NodeView {
            raw: element.raw,
            standard: element.standard,
            depth,
            text: element.texts[3]->0,
            source: TextSource::ActualText,
            alt: element.texts[2],
            lang: element.texts[1],
            expansion: element.texts[4],
            chars: Seq::empty(),
        };
        let pushed = JoinView { nodes: state.nodes.push(node), ..state };
        assert forall|k: int| 0 <= k < pushed.nodes.len() implies all_claimed(s.page, pushed.claimed, #[trigger] pushed.nodes[k].chars) by {
            if k < state.nodes.len() {
                assert(pushed.nodes[k] == state.nodes[k]);
            }
        }
        lemma_join_kids_keeps(s, pushed, element.kids, Some(element), down(depth), true);
    } else {
        lemma_join_kids_keeps(s, state, element.kids, Some(element), down(depth), suppressed);
    }
}

/// Every character a structured node carries is one of the page's, shown
/// under an identifier the join claimed: characters nothing on the page
/// claimed are counted as orphans and never appended to a node.
pub proof fn lemma_nodes_carry_only_claimed_characters(tree: StructureTree, index: u32, page: PageText)
    ensures
        nodes_claimed(page, spec_page_join(tree, index, page).claimed, spec_page_join(tree, index, page).nodes),
{
    let empty = JoinView { claimed: Set::empty(), nodes: Seq::empty() };
    lemma_join_kids_keeps(setting(page, index, tree.pages.page_count <= 1), empty, kids_view(tree.kids@), None, 0, false);
}

} // verus!
