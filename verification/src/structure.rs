//! The logical structure of a tagged document (14.7): what a structure
//! element's type resolves to, and where a run's text came from.
//!
//! `/RoleMap` maps a name to another name, and nothing stops a file mapping
//! `/Foo` to `/Bar` to `/Foo`. Resolution is iterative, bounded, and watches
//! for the name it has already passed through, so a loop reports itself
//! rather than running the budget out silently — and the element keeps a type
//! either way.
//!
//! `/K` is a graph with no promise of acyclicity, read before anything has
//! validated it. Every walk is bounded: a cycle is cut at the element that
//! closes it, nesting stops at a depth cap, and an element budget stops the
//! tree that names one subtree twice at every level — each truncation a typed
//! warning naming the object it stopped at, and a refused subtree costing the
//! subtree rather than the document.

use vstd::prelude::*;

use crate::subset::{find_key, key_index, lemma_key_index, ObjRef};
use crate::text::{bytes_equal, name_text, text_of};

verus! {

/// Where a run's text came from.
#[derive(Clone, Copy, Debug, PartialEq, Eq, Structural)]
pub enum TextSource {
    /// The glyphs the page drew.
    Glyphs,
    /// An `/ActualText` that replaced them (14.9.4).
    ActualText,
}

/// How many `/RoleMap` hops one type name may take (14.7.3). A real role map
/// is one hop; this bounds the acyclic-but-absurd chain.
pub const MAX_ROLE_MAP_HOPS: u32 = 16;

/// What a role map says a name maps to: the first entry naming it.
pub open spec fn lookup(role_map: Seq<(Seq<u8>, Seq<u8>)>, name: Seq<u8>, from: int) -> Option<Seq<u8>>
    decreases role_map.len() - from,
{
    if from < 0 || from >= role_map.len() {
        None
    } else if role_map[from].0 == name {
        Some(role_map[from].1)
    } else {
        lookup(role_map, name, from + 1)
    }
}

/// Where rewriting `current` ends, given the names already passed through
/// and the hops left: the name reached, and whether a loop stopped it.
pub open spec fn role_walk(
    role_map: Seq<(Seq<u8>, Seq<u8>)>,
    current: Seq<u8>,
    seen: Set<Seq<u8>>,
    hops: nat,
) -> (Seq<u8>, bool)
    decreases hops,
{
    if hops == 0 {
        (current, false)
    } else {
        match lookup(role_map, current, 0) {
            None => (current, false),
            Some(next) => if next == current {
                (current, false)
            } else if seen.contains(next) {
                (current, true)
            } else {
                role_walk(role_map, next, seen.insert(next), (hops - 1) as nat)
            },
        }
    }
}

/// A raw type's standard type under the role map, and whether a loop stopped
/// the rewriting.
pub open spec fn spec_resolve_role(role_map: Seq<(Seq<u8>, Seq<u8>)>, raw: Seq<u8>) -> (Seq<u8>, bool) {
    role_walk(role_map, raw, set![raw], MAX_ROLE_MAP_HOPS as nat)
}

/// The role map's entries as values.
pub open spec fn map_view(role_map: Seq<(Vec<u8>, Vec<u8>)>) -> Seq<(Seq<u8>, Seq<u8>)> {
    role_map.map_values(|entry: (Vec<u8>, Vec<u8>)| (entry.0@, entry.1@))
}

/// What the role map says `name` maps to.
fn find_role<'a>(role_map: &'a Vec<(Vec<u8>, Vec<u8>)>, name: &Vec<u8>) -> (r: Option<&'a Vec<u8>>)
    ensures
        match r {
            Some(next) => lookup(map_view(role_map@), name@, 0) == Some(next@),
            None => lookup(map_view(role_map@), name@, 0) is None,
        },
{
    let ghost view = map_view(role_map@);
    let mut i: usize = 0;
    while i < role_map.len()
        invariant
            i <= role_map@.len(),
            view == map_view(role_map@),
            view.len() == role_map@.len(),
            lookup(view, name@, 0) == lookup(view, name@, i as int),
        decreases role_map@.len() - i,
    {
        assert(view[i as int] == (role_map@[i as int].0@, role_map@[i as int].1@));
        if bytes_equal(role_map[i].0.as_slice(), name.as_slice()) {
            return Some(&role_map[i].1);
        }
        i = i + 1;
    }
    None
}

/// Whether `name` is among the names passed through.
fn passed(seen: &Vec<Vec<u8>>, name: &Vec<u8>) -> (r: bool)
    ensures
        r == exists|i: int| 0 <= i < seen@.len() && #[trigger] seen@[i]@ == name@,
{
    let mut i: usize = 0;
    while i < seen.len()
        invariant
            i <= seen@.len(),
            forall|j: int| 0 <= j < i ==> #[trigger] seen@[j]@ != name@,
        decreases seen@.len() - i,
    {
        if bytes_equal(seen[i].as_slice(), name.as_slice()) {
            return true;
        }
        i = i + 1;
    }
    false
}

/// The names in `seen`, as a set of values.
pub open spec fn seen_set(seen: Seq<Vec<u8>>) -> Set<Seq<u8>> {
    Set::new(|name: Seq<u8>| exists|i: int| 0 <= i < seen.len() && #[trigger] seen[i]@ == name)
}

/// 14.7.3: `/RoleMap` rewrites a type name until it reaches one it does not
/// mention, and what it reached is the standard type, as bytes; the flag says
/// whether a loop stopped it.
///
/// Bounded by [`MAX_ROLE_MAP_HOPS`], and with a visited set so `/Foo → /Bar →
/// /Foo` reports itself. An unmapped name resolves to itself, which is what
/// makes a custom type a type rather than an error. **`/P /P` is not a
/// cycle**: an entry mapping a name to itself is what a producer writes when
/// its role map covers every type it uses, and it ends the rewriting.
pub fn resolve_role_bytes(role_map: &Vec<(Vec<u8>, Vec<u8>)>, raw: &[u8]) -> (r: (Vec<u8>, bool))
    ensures
        (r.0@, r.1) == spec_resolve_role(map_view(role_map@), raw@),
{
    let ghost map = map_view(role_map@);
    let mut current: Vec<u8> = vstd::slice::slice_to_vec(raw);
    let mut seen: Vec<Vec<u8>> = Vec::new();
    seen.push(vstd::slice::slice_to_vec(raw));
    assert(seen_set(seen@) =~= set![raw@]) by {
        assert(seen@[0]@ == raw@);
    }
    let mut hops: u32 = 0;
    while hops < MAX_ROLE_MAP_HOPS
        invariant
            hops <= MAX_ROLE_MAP_HOPS,
            map == map_view(role_map@),
            spec_resolve_role(map, raw@) == role_walk(
                map,
                current@,
                seen_set(seen@),
                (MAX_ROLE_MAP_HOPS - hops) as nat,
            ),
        decreases MAX_ROLE_MAP_HOPS - hops,
    {
        let next = match find_role(role_map, &current) {
            Some(next) => next,
            None => return (current, false),
        };
        if bytes_equal(next.as_slice(), current.as_slice()) {
            return (current, false);
        }
        if passed(&seen, next) {
            return (current, true);
        }
        let ghost before = seen@;
        seen.push(next.clone());
        assert(seen_set(seen@) =~= seen_set(before).insert(next@)) by {
            assert forall|name: Seq<u8>| seen_set(seen@).contains(name) implies seen_set(before).insert(
                next@,
            ).contains(name) by {
                let i = choose|i: int| 0 <= i < seen@.len() && #[trigger] seen@[i]@ == name;
                if i < before.len() {
                    assert(before[i]@ == name);
                }
            }
            assert forall|name: Seq<u8>| seen_set(before).insert(next@).contains(name) implies seen_set(
                seen@,
            ).contains(name) by {
                if name == next@ {
                    assert(seen@[before.len() as int]@ == name);
                } else {
                    let i = choose|i: int| 0 <= i < before.len() && #[trigger] before[i]@ == name;
                    assert(seen@[i]@ == name);
                }
            }
        }
        current = next.clone();
        hops = hops + 1;
    }
    (current, false)
}

/// The standard type of a raw type under the role map, as text, and whether
/// a loop stopped the rewriting.
pub fn resolve_role(role_map: &Vec<(Vec<u8>, Vec<u8>)>, raw: &[u8]) -> (r: (String, bool))
    ensures
        r.0@ == name_text(spec_resolve_role(map_view(role_map@), raw@).0),
        r.1 == spec_resolve_role(map_view(role_map@), raw@).1,
{
    let (name, looped) = resolve_role_bytes(role_map, raw);
    (text_of(name.as_slice()), looped)
}

/// An unmapped name is itself, and an entry mapping a name to itself ends the
/// rewriting without being called a loop.
pub proof fn lemma_unmapped_and_identity_names_stay(role_map: Seq<(Seq<u8>, Seq<u8>)>, raw: Seq<u8>)
    requires
        lookup(role_map, raw, 0) is None || lookup(role_map, raw, 0) == Some(raw),
    ensures
        spec_resolve_role(role_map, raw) == (raw, false),
{
}

/// A loop is named, and never costs the element its type: what resolution
/// stops at is a name the role map reached from the raw type.
pub proof fn lemma_a_loop_is_named(raw: Seq<u8>, other: Seq<u8>)
    requires
        raw != other,
    ensures
        spec_resolve_role(seq![(raw, other), (other, raw)], raw) == (other, true),
{
    let map = seq![(raw, other), (other, raw)];
    assert(lookup(map, raw, 0) == Some(other));
    assert(lookup(map, other, 0) == Some(raw)) by {
        assert(lookup(map, other, 1) == Some(raw));
    }
    assert(set![raw].insert(other).contains(raw));
    assert(!set![raw].contains(other));
    assert(role_walk(map, other, set![raw].insert(other), 15) == (other, true));
    assert(role_walk(map, raw, set![raw], 16) == role_walk(map, other, set![raw].insert(other), 15));
}

// ---- The tree ---------------------------------------------------------------------

/// Something the structure walk had to tolerate. Every variant names the
/// object it happened to.
#[derive(Clone, Debug, PartialEq, Eq)]
pub enum StructureWarning {
    /// 14.7.2: an element's `/K` reached an element already on the path from
    /// the root. The branch was cut there.
    KidCycle {
        /// The element the cycle closed on.
        element: ObjRef,
    },
    /// The depth cap was reached; this element's kids were not read.
    DepthCapped {
        /// The element whose kids were refused.
        element: ObjRef,
    },
    /// The element budget was reached; the rest of the tree was not read.
    ElementCapped,
    /// [`MAX_KIDS`] entries of one `/K` array were read and the rest dropped.
    KidsCapped {
        /// The element whose kid list was truncated.
        element: ObjRef,
        /// How many entries the array actually held.
        kids: usize,
    },
    /// 14.7.2: an element dictionary carries no `/S`. It is kept, with an
    /// empty type, because its kids are still content.
    UntypedElement {
        /// The element.
        element: ObjRef,
    },
    /// A `/K` entry was none of the shapes 14.7.4 defines. It was dropped.
    UnreadableKid {
        /// The element whose `/K` held it, when its parent could be named.
        element: Option<ObjRef>,
    },
    /// 14.7.3: `/RoleMap` maps this type into a cycle. Resolution stopped at
    /// the name that closed it, and the element keeps that name as its
    /// standard type.
    RoleMapLoop {
        /// The raw type the loop was entered by.
        role: String,
    },
    /// 14.7.4.4: the `/ParentTree` and the `/K` walk disagree about how many
    /// marked-content sequences a page has. The `/K` walk wins.
    ParentTreeDisagreement {
        /// Zero-based page index.
        page: u32,
        /// How many distinct `/MCID`s the `/K` walk placed on this page.
        walk: usize,
        /// How many the page's `/ParentTree` entry accounts for.
        parent_tree: usize,
    },
}

/// A warning as values.
pub enum WarningView {
    /// A cycle closed on this element.
    KidCycle(ObjRef),
    /// The depth cap stopped this element's kids.
    DepthCapped(ObjRef),
    /// The element budget ran out.
    ElementCapped,
    /// This element's kid list was truncated from this many.
    KidsCapped(ObjRef, usize),
    /// This element carries no `/S`.
    UntypedElement(ObjRef),
    /// An unreadable kid of this element.
    UnreadableKid(Option<ObjRef>),
    /// A role map loop entered by this raw type.
    RoleMapLoop(Seq<char>),
    /// The parent tree disagrees for this page.
    ParentTreeDisagreement(u32, usize, usize),
}

/// A warning's values.
pub open spec fn warning_view(warning: StructureWarning) -> WarningView {
    match warning {
        StructureWarning::KidCycle { element } => WarningView::KidCycle(element),
        StructureWarning::DepthCapped { element } => WarningView::DepthCapped(element),
        StructureWarning::ElementCapped => WarningView::ElementCapped,
        StructureWarning::KidsCapped { element, kids } => WarningView::KidsCapped(element, kids),
        StructureWarning::UntypedElement { element } => WarningView::UntypedElement(element),
        StructureWarning::UnreadableKid { element } => WarningView::UnreadableKid(element),
        StructureWarning::RoleMapLoop { role } => WarningView::RoleMapLoop(role@),
        StructureWarning::ParentTreeDisagreement { page, walk, parent_tree } => WarningView::ParentTreeDisagreement(
            page,
            walk,
            parent_tree,
        ),
    }
}

/// Whether two warnings say the same thing.
fn same_warning(a: &StructureWarning, b: &StructureWarning) -> (r: bool)
    ensures
        r == (warning_view(*a) == warning_view(*b)),
{
    match (a, b) {
        (StructureWarning::KidCycle { element: x }, StructureWarning::KidCycle { element: y }) => *x == *y,
        (StructureWarning::DepthCapped { element: x }, StructureWarning::DepthCapped { element: y }) => *x == *y,
        (StructureWarning::ElementCapped, StructureWarning::ElementCapped) => true,
        (
            StructureWarning::KidsCapped { element: x, kids: m },
            StructureWarning::KidsCapped { element: y, kids: n },
        ) => *x == *y && *m == *n,
        (StructureWarning::UntypedElement { element: x }, StructureWarning::UntypedElement { element: y }) => *x
            == *y,
        (StructureWarning::UnreadableKid { element: x }, StructureWarning::UnreadableKid { element: y }) => {
            match (x, y) {
                (Some(x), Some(y)) => *x == *y,
                (None, None) => true,
                _ => false,
            }
        },
        (StructureWarning::RoleMapLoop { role: x }, StructureWarning::RoleMapLoop { role: y }) => {
            let same = bytes_equal(x.as_str().as_bytes(), y.as_str().as_bytes());
            proof {
                vstd::utf8::encode_utf8_decode_utf8(x@);
                vstd::utf8::encode_utf8_decode_utf8(y@);
            }
            same
        },
        (
            StructureWarning::ParentTreeDisagreement { page: p, walk: w, parent_tree: t },
            StructureWarning::ParentTreeDisagreement { page: q, walk: v, parent_tree: u },
        ) => *p == *q && *w == *v && *t == *u,
        _ => false,
    }
}

/// How many warnings one structure walk retains: past this the walk still
/// completes and its counts are still right; only the enumeration stops.
pub const MAX_STRUCTURE_WARNINGS: usize = 1024;

/// The warnings once `warning` is recorded: appended unless the same
/// sentence is already there or the list is full.
pub open spec fn spec_warn(warnings: Seq<WarningView>, warning: WarningView) -> Seq<WarningView> {
    if warnings.len() < MAX_STRUCTURE_WARNINGS && !warnings.contains(warning) {
        warnings.push(warning)
    } else {
        warnings
    }
}

/// Records a warning, once, while there is room.
pub fn warn(warnings: &mut Vec<StructureWarning>, warning: StructureWarning)
    ensures
        final(warnings)@.map_values(|w: StructureWarning| warning_view(w)) == spec_warn(
            old(warnings)@.map_values(|w: StructureWarning| warning_view(w)),
            warning_view(warning),
        ),
{
    let ghost views = warnings@.map_values(|w: StructureWarning| warning_view(w));
    if warnings.len() >= MAX_STRUCTURE_WARNINGS {
        return;
    }
    let mut i: usize = 0;
    while i < warnings.len()
        invariant
            i <= warnings@.len(),
            views == warnings@.map_values(|w: StructureWarning| warning_view(w)),
            forall|j: int| 0 <= j < i ==> views[j] != warning_view(warning),
        decreases warnings@.len() - i,
    {
        if same_warning(&warnings[i], &warning) {
            assert(views[i as int] == warning_view(warning));
            return;
        }
        i = i + 1;
    }
    let ghost view = warning_view(warning);
    warnings.push(warning);
    assert(warnings@.map_values(|w: StructureWarning| warning_view(w)) =~= views.push(view));
}

/// One value of the object model, as far as a `/K` walk reads it. Arrays
/// and dictionaries are named by their place in the graph's tables.
#[derive(Clone, Copy, Debug, PartialEq, Eq, Structural)]
pub enum KItem {
    /// `null`, or nothing at all.
    Null,
    /// An integer.
    Int(i64),
    /// An indirect reference.
    Ref(ObjRef),
    /// The array at this place in [`KGraph::arrays`].
    Array(usize),
    /// The dictionary at this place in [`KGraph::dicts`].
    Dict(usize),
    /// Anything else: a name, a string, a number that is not an integer.
    Other,
}

/// A dictionary of the object model, as far as a `/K` walk reads it.
pub struct KDict {
    /// `/Type`, when it is a name.
    pub kind: Option<Vec<u8>>,
    /// `/MCID`, when it is an integer.
    pub mcid: Option<i64>,
    /// `/Obj`, when it is a reference.
    pub obj: Option<ObjRef>,
    /// `/S`, when it is a name.
    pub s: Option<Vec<u8>>,
    /// `/Pg`, resolved to a zero-based page index, when it names a page.
    pub pg: Option<u32>,
    /// `/K`, as written: a reference stays a reference.
    pub k: KItem,
    /// `/T`, decoded.
    pub title: Option<String>,
    /// `/Lang`, decoded.
    pub lang: Option<String>,
    /// `/Alt`, decoded.
    pub alt: Option<String>,
    /// `/ActualText`, decoded.
    pub actual_text: Option<String>,
    /// `/E`, decoded.
    pub expansion: Option<String>,
}

/// The part of a document a structure walk can reach: its indirect objects,
/// and the arrays and dictionaries they and `/K` values hold.
pub struct KGraph {
    /// Each indirect object's value.
    pub objects: Vec<(ObjRef, KItem)>,
    /// The dictionaries.
    pub dicts: Vec<KDict>,
    /// The arrays.
    pub arrays: Vec<Vec<KItem>>,
}

/// One kid of a structure element — the three shapes 14.7.4 gives, never
/// collapsed.
#[derive(Debug)]
pub enum StructKid {
    /// A nested structure element (14.7.2).
    Element(Box<StructElement>),
    /// Content in a page's stream, by its marked-content identifier
    /// (14.7.4.2).
    Content {
        /// The page it is drawn on, when one could be resolved.
        page: Option<u32>,
        /// The `/MCID`.
        mcid: u32,
    },
    /// A whole object as a content item: an annotation, an XObject
    /// (14.7.4.3's `/OBJR`).
    Object(ObjRef),
}

/// One structure element (14.7.2).
#[derive(Debug)]
pub struct StructElement {
    /// The element's own indirect reference, when it had one.
    pub reference: Option<ObjRef>,
    /// `/S` exactly as the file wrote it.
    pub raw_type: String,
    /// `/S` after `/RoleMap` (14.7.3), or `raw_type` itself when the role map
    /// does not mention it.
    pub standard_type: String,
    /// `/T`, the human-readable title.
    pub title: Option<String>,
    /// `/Lang`, the natural language of this element's content (14.9.2).
    pub lang: Option<String>,
    /// `/Alt`, a description for content that is not text (14.9.3).
    pub alt: Option<String>,
    /// `/ActualText`, what the content *is* rather than what it draws
    /// (14.9.4).
    pub actual_text: Option<String>,
    /// `/E`, what an abbreviation stands for (14.9.5).
    pub expansion: Option<String>,
    /// `/Pg`, resolved to a zero-based page index.
    pub page: Option<u32>,
    /// `/K`, in the order the file wrote it — which 14.8 makes reading order.
    pub kids: Vec<StructKid>,
}

/// A kid as values.
pub enum KidView {
    /// An element.
    Element(ElementView),
    /// Marked content on a page.
    Content(Option<u32>, u32),
    /// A whole object.
    Object(ObjRef),
}

/// An element as values.
pub struct ElementView {
    /// Its reference.
    pub reference: Option<ObjRef>,
    /// Its raw type.
    pub raw: Seq<char>,
    /// Its standard type.
    pub standard: Seq<char>,
    /// Its page.
    pub page: Option<u32>,
    /// Its text entries: `/T`, `/Lang`, `/Alt`, `/ActualText`, `/E`.
    pub texts: Seq<Option<Seq<char>>>,
    /// Its kids.
    pub kids: Seq<KidView>,
}

/// A kid's values.
pub open spec fn kid_view(kid: StructKid) -> KidView
    decreases kid,
{
    match kid {
        StructKid::Element(element) => KidView::Element(element_view(*element)),
        StructKid::Content { page, mcid } => KidView::Content(page, mcid),
        StructKid::Object(object) => KidView::Object(object),
    }
}

/// A text entry's values.
pub open spec fn text_view(text: Option<String>) -> Option<Seq<char>> {
    match text {
        Some(text) => Some(text@),
        None => None,
    }
}

/// An element's values.
pub open spec fn element_view(element: StructElement) -> ElementView
    decreases element,
{
    ElementView {
        reference: element.reference,
        raw: element.raw_type@,
        standard: element.standard_type@,
        page: element.page,
        texts: seq![
            text_view(element.title),
            text_view(element.lang),
            text_view(element.alt),
            text_view(element.actual_text),
            text_view(element.expansion),
        ],
        kids: kids_view(element.kids@),
    }
}

/// A kid list's values.
pub open spec fn kids_view(kids: Seq<StructKid>) -> Seq<KidView>
    decreases kids,
{
    if kids.len() == 0 {
        Seq::empty()
    } else {
        kids_view(kids.drop_last()).push(kid_view(kids.last()))
    }
}

// ---- The `/K` walk -------------------------------------------------------------------

/// How many structure elements one document may yield: the depth cap alone
/// does not bound a tree that names one subtree from two places at every
/// level, and this is checked before descending.
pub const MAX_STRUCTURE_ELEMENTS: usize = 262144;

/// How many entries of one element's `/K` array are examined.
pub const MAX_KIDS: usize = 65536;

/// Where a walk has got to.
pub struct WalkView {
    /// The object numbers on the path from the root.
    pub path: Set<u32>,
    /// Elements left before the walk stops.
    pub budget: nat,
    /// Whether a cap has ended the walk.
    pub stopped: bool,
    /// What the walk has had to tolerate.
    pub warnings: Seq<WarningView>,
}

/// The walk with one more warning recorded.
pub open spec fn with_warning(walk: WalkView, warning: WarningView) -> WalkView {
    WalkView { warnings: spec_warn(walk.warnings, warning), ..walk }
}

/// A value with one level of indirection taken off.
pub open spec fn resolve(graph: KGraph, value: KItem) -> KItem {
    match value {
        KItem::Ref(reference) => match key_index(graph.objects@, reference, 0) {
            Some(i) => graph.objects@[i].1,
            None => KItem::Null,
        },
        _ => value,
    }
}

/// An integer that is a `u32`.
pub open spec fn as_u32(value: i64) -> Option<u32> {
    if 0 <= value <= u32::MAX {
        Some(value as u32)
    } else {
        None
    }
}

/// The bytes of an ASCII text.
pub open spec fn ascii(text: Seq<char>) -> Seq<u8> {
    Seq::new(text.len(), |i: int| text[i] as u8)
}

/// Everything the walk is run over.
pub struct WalkSetting {
    /// The graph.
    pub graph: KGraph,
    /// `/RoleMap`.
    pub role_map: Seq<(Seq<u8>, Seq<u8>)>,
    /// How deep `/K` may nest.
    pub max_depth: nat,
}

/// Reads a `/K` value: one kid, or an array of them.
pub open spec fn spec_kids(
    setting: WalkSetting,
    walk: WalkView,
    value: KItem,
    parent: Option<ObjRef>,
    page: Option<u32>,
    depth: nat,
) -> (WalkView, Seq<KidView>)
    decreases setting.max_depth - depth, 3nat, 0nat,
{
    if depth > setting.max_depth {
        (walk, Seq::empty())
    } else {
        match resolve(setting.graph, value) {
            KItem::Array(a) if a < setting.graph.arrays@.len() => {
                let items = setting.graph.arrays@[a as int]@;
                let noted = match parent {
                    Some(element) if items.len() > MAX_KIDS => with_warning(
                        walk,
                        WarningView::KidsCapped(element, items.len() as usize),
                    ),
                    _ => walk,
                };
                let limit = if items.len() > MAX_KIDS {
                    MAX_KIDS as nat
                } else {
                    items.len()
                };
                spec_items(setting, noted, items, limit, 0, parent, page, depth)
            },
            KItem::Null => (walk, Seq::empty()),
            _ => {
                let (after, kid) = spec_kid(setting, walk, value, parent, page, depth);
                (
                    after,
                    match kid {
                        Some(kid) => seq![kid],
                        None => Seq::empty(),
                    },
                )
            },
        }
    }
}

/// Reads array entries `at..limit`, stopping once a cap has ended the walk.
pub open spec fn spec_items(
    setting: WalkSetting,
    walk: WalkView,
    items: Seq<KItem>,
    limit: nat,
    at: nat,
    parent: Option<ObjRef>,
    page: Option<u32>,
    depth: nat,
) -> (WalkView, Seq<KidView>)
    decreases setting.max_depth - depth, 2nat, limit - at,
{
    if depth > setting.max_depth || at >= limit || at >= items.len() || walk.stopped {
        (walk, Seq::empty())
    } else {
        let (after, kid) = spec_kid(setting, walk, items[at as int], parent, page, depth);
        let (end, rest) = spec_items(setting, after, items, limit, at + 1, parent, page, depth);
        (
            end,
            match kid {
                Some(kid) => seq![kid] + rest,
                None => rest,
            },
        )
    }
}

/// One `/K` entry, in whichever of 14.7.4's shapes it is.
pub open spec fn spec_kid(
    setting: WalkSetting,
    walk: WalkView,
    value: KItem,
    parent: Option<ObjRef>,
    page: Option<u32>,
    depth: nat,
) -> (WalkView, Option<KidView>)
    decreases setting.max_depth - depth, 1nat, 0nat,
{
    let reference = match value {
        KItem::Ref(reference) => Some(reference),
        _ => None,
    };
    match resolve(setting.graph, value) {
        KItem::Int(n) if as_u32(n) is Some => (walk, Some(KidView::Content(page, as_u32(n)->0))),
        KItem::Dict(d) if d < setting.graph.dicts@.len() => {
            let dict = setting.graph.dicts@[d as int];
            if dict.kind matches Some(kind) && kind@ == ascii("MCR"@) {
                match dict.mcid {
                    Some(mcid) if as_u32(mcid) is Some => (
                        walk,
                        Some(
                            KidView::Content(
                                if dict.pg is Some {
                                    dict.pg
                                } else {
                                    page
                                },
                                as_u32(mcid)->0,
                            ),
                        ),
                    ),
                    _ => (walk, None),
                }
            } else if dict.kind matches Some(kind) && kind@ == ascii("OBJR"@) {
                match dict.obj {
                    Some(object) => (walk, Some(KidView::Object(object))),
                    None => (walk, None),
                }
            } else {
                let (after, element) = spec_element(setting, walk, reference, d as int, page, depth);
                (
                    after,
                    match element {
                        Some(element) => Some(KidView::Element(element)),
                        None => None,
                    },
                )
            }
        },
        _ => (with_warning(walk, WarningView::UnreadableKid(parent)), None),
    }
}

/// One structure element: the budget and the path checked first, then its
/// type, its page and its kids.
pub open spec fn spec_element(
    setting: WalkSetting,
    walk: WalkView,
    reference: Option<ObjRef>,
    d: int,
    inherited: Option<u32>,
    depth: nat,
) -> (WalkView, Option<ElementView>)
    decreases setting.max_depth - depth, 0nat, 0nat,
{
    if walk.budget == 0 {
        (WalkView { stopped: true, ..with_warning(walk, WarningView::ElementCapped) }, None)
    } else {
        let spent = WalkView { budget: (walk.budget - 1) as nat, ..walk };
        match reference {
            Some(r) if spent.path.contains(r.num) => (with_warning(spent, WarningView::KidCycle(r)), None),
            _ => {
                let dict = setting.graph.dicts@[d];
                let entered = match reference {
                    Some(r) => WalkView { path: spent.path.insert(r.num), ..spent },
                    None => spent,
                };
                let raw = match dict.s {
                    Some(s) => s@,
                    None => Seq::empty(),
                };
                let typed = match reference {
                    Some(r) if dict.s is None => with_warning(entered, WarningView::UntypedElement(r)),
                    _ => entered,
                };
                let (standard, looped) = spec_resolve_role(setting.role_map, raw);
                let mapped = if looped {
                    with_warning(typed, WarningView::RoleMapLoop(name_text(raw)))
                } else {
                    typed
                };
                let page = if dict.pg is Some {
                    dict.pg
                } else {
                    inherited
                };
                let (read, kids) = if depth >= setting.max_depth {
                    (
                        match reference {
                            Some(r) => with_warning(mapped, WarningView::DepthCapped(r)),
                            None => mapped,
                        },
                        Seq::empty(),
                    )
                } else {
                    spec_kids(setting, mapped, dict.k, reference, page, depth + 1)
                };
                let left = match reference {
                    Some(r) => WalkView { path: read.path.remove(r.num), ..read },
                    None => read,
                };
                (
                    left,
                    Some(
                        ElementView {
                            reference,
                            raw: name_text(raw),
                            standard: name_text(standard),
                            page,
                            texts: seq![
                                text_view(dict.title),
                                text_view(dict.lang),
                                text_view(dict.alt),
                                text_view(dict.actual_text),
                                text_view(dict.expansion),
                            ],
                            kids,
                        },
                    ),
                )
            },
        }
    }
}

/// The walk's own state, so the caps are one budget rather than one per
/// recursion.
struct WalkState {
    /// Object numbers on the path from the root: inserted on entry and
    /// removed on exit, so a subtree named twice from different places is
    /// read twice and a subtree containing itself is cut.
    path: Vec<u32>,
    /// Elements left before the walk stops.
    budget: usize,
    /// Set when a cap ends the walk.
    stopped: bool,
    /// What the walk had to tolerate.
    warnings: Vec<StructureWarning>,
}

impl WalkState {
    /// The state as values.
    spec fn view(&self) -> WalkView {
        WalkView {
            path: self.path@.to_set(),
            budget: self.budget as nat,
            stopped: self.stopped,
            warnings: self.warnings@.map_values(|w: StructureWarning| warning_view(w)),
        }
    }

    /// The path holds each object number once.
    spec fn well_formed(&self) -> bool {
        self.path@.no_duplicates()
    }

    /// Records a warning.
    fn note(&mut self, warning: StructureWarning)
        requires
            old(self).well_formed(),
        ensures
            final(self).well_formed(),
            final(self).view() == with_warning(old(self).view(), warning_view(warning)),
    {
        warn(&mut self.warnings, warning);
    }
}

/// The walk's settings as values.
pub open spec fn setting_of(graph: KGraph, role_map: Seq<(Vec<u8>, Vec<u8>)>, max_depth: u32) -> WalkSetting {
    WalkSetting { graph, role_map: map_view(role_map), max_depth: max_depth as nat }
}

/// A value with one level of indirection taken off.
fn resolve_item(graph: &KGraph, value: KItem) -> (r: KItem)
    ensures
        r == resolve(*graph, value),
{
    match value {
        KItem::Ref(reference) => {
            proof {
                lemma_key_index(graph.objects@, reference, 0);
            }
            match find_key(&graph.objects, reference) {
                Some(i) => graph.objects[i].1,
                None => KItem::Null,
            }
        },
        _ => value,
    }
}

/// Whether `path` holds `num`.
fn on_path(path: &Vec<u32>, num: u32) -> (r: bool)
    ensures
        r == path@.contains(num),
{
    let mut i: usize = 0;
    while i < path.len()
        invariant
            i <= path@.len(),
            forall|j: int| 0 <= j < i ==> path@[j] != num,
        decreases path@.len() - i,
    {
        if path[i] == num {
            return true;
        }
        i = i + 1;
    }
    false
}

/// Takes `num` off the path.
fn leave_path(path: &mut Vec<u32>, num: u32)
    requires
        old(path)@.no_duplicates(),
    ensures
        final(path)@.no_duplicates(),
        final(path)@.to_set() == old(path)@.to_set().remove(num),
{
    let mut i: usize = 0;
    while i < path.len()
        invariant
            i <= path@.len(),
            path@ == old(path)@,
            path@.no_duplicates(),
            forall|j: int| 0 <= j < i ==> path@[j] != num,
        decreases path@.len() - i,
    {
        if path[i] == num {
            let ghost was = path@;
            path.remove(i);
            proof {
                assert(path@ =~= was.remove(i as int));
                assert forall|a: int, b: int| 0 <= a < b < path@.len() implies path@[a] != path@[b] by {
                    let wa = if a < i { a } else { a + 1 };
                    let wb = if b < i { b } else { b + 1 };
                    assert(was[wa] == path@[a] && was[wb] == path@[b]);
                }
                assert forall|x: u32| path@.to_set().contains(x) == was.to_set().remove(num).contains(x) by {
                    if path@.contains(x) {
                        let k = choose|k: int| 0 <= k < path@.len() && path@[k] == x;
                        let w = if k < i { k } else { k + 1 };
                        assert(was[w] == x);
                        if x == num {
                            assert(w != i);
                        }
                    }
                    if was.contains(x) && x != num {
                        let k = choose|k: int| 0 <= k < was.len() && was[k] == x;
                        assert(k != i);
                        let at = if k < i { k } else { k - 1 };
                        assert(path@[at] == x);
                    }
                }
                assert(path@.to_set() =~= was.to_set().remove(num));
            }
            return;
        }
        i = i + 1;
    }
    proof {
        assert(!path@.contains(num));
        assert(path@.to_set() =~= path@.to_set().remove(num));
    }
}

/// A text entry, copied.
pub(crate) fn copy_text(text: &Option<String>) -> (r: Option<String>)
    ensures
        text_view(r) == text_view(*text),
{
    match text {
        Some(text) => Some(text.clone()),
        None => None,
    }
}

proof fn lemma_kids_view_push(kids: Seq<StructKid>, kid: StructKid)
    ensures
        kids_view(kids.push(kid)) == kids_view(kids).push(kid_view(kid)),
{
    assert(kids.push(kid).drop_last() =~= kids);
}

/// A kid list's values, one by one.
pub proof fn lemma_kids_view_index(kids: Seq<StructKid>)
    ensures
        kids_view(kids).len() == kids.len(),
        forall|j: int| 0 <= j < kids.len() ==> #[trigger] kids_view(kids)[j] == kid_view(kids[j]),
    decreases kids.len(),
{
    if kids.len() > 0 {
        lemma_kids_view_index(kids.drop_last());
    }
}

/// The bytes of an ASCII literal.
fn literal(text: &'static str) -> (r: &'static [u8])
    requires
        vstd::string::is_ascii(text),
    ensures
        r@ == ascii(text@),
{
    broadcast use vstd::string::is_ascii_spec_bytes;

    text.as_bytes()
}

/// Reads a `/K` value: one kid, or an array of them (14.7.2).
fn walk_kids(
    graph: &KGraph,
    role_map: &Vec<(Vec<u8>, Vec<u8>)>,
    max_depth: u32,
    state: &mut WalkState,
    value: KItem,
    parent: Option<ObjRef>,
    page: Option<u32>,
    depth: u32,
) -> (r: Vec<StructKid>)
    requires
        old(state).well_formed(),
        depth <= max_depth,
    ensures
        final(state).well_formed(),
        (final(state).view(), kids_view(r@)) == spec_kids(
            setting_of(*graph, role_map@, max_depth),
            old(state).view(),
            value,
            parent,
            page,
            depth as nat,
        ),
    decreases max_depth - depth, 3nat, 0nat,
{
    let ghost setting = setting_of(*graph, role_map@, max_depth);
    let mut out: Vec<StructKid> = Vec::new();
    match resolve_item(graph, value) {
        KItem::Array(a) => {
            if a < graph.arrays.len() {
                let items = &graph.arrays[a];
                if items.len() > MAX_KIDS {
                    match parent {
                        Some(element) => state.note(StructureWarning::KidsCapped { element, kids: items.len() }),
                        None => {},
                    }
                }
                let limit: usize = if items.len() > MAX_KIDS {
                    MAX_KIDS
                } else {
                    items.len()
                };
                let ghost noted = state.view();
                let ghost whole = spec_items(setting, noted, items@, limit as nat, 0, parent, page, depth as nat);
                let mut i: usize = 0;
                while i < limit && !state.stopped
                    invariant
                        state.well_formed(),
                        depth <= max_depth,
                        limit <= items@.len(),
                        i <= limit,
                        setting == setting_of(*graph, role_map@, max_depth),
                        whole.0 == spec_items(setting, state.view(), items@, limit as nat, i as nat, parent, page, depth as nat).0,
                        whole.1 == kids_view(out@) + spec_items(setting, state.view(), items@, limit as nat, i as nat, parent, page, depth as nat).1,
                    decreases limit - i,
                {
                    let ghost before = state.view();
                    let ghost was = out@;
                    let kid = walk_kid(graph, role_map, max_depth, state, items[i], parent, page, depth);
                    match kid {
                        Some(kid) => {
                            out.push(kid);
                            proof {
                                lemma_kids_view_push(was, kid);
                            }
                        },
                        None => {},
                    }
                    proof {
                        let (after, k) = spec_kid(setting, before, items@[i as int], parent, page, depth as nat);
                        let rest = spec_items(setting, after, items@, limit as nat, (i + 1) as nat, parent, page, depth as nat);
                        match k {
                            Some(k) => {
                                assert(kids_view(was) + (seq![k] + rest.1) =~= kids_view(out@) + rest.1);
                            },
                            None => {
                                assert(out@ == was);
                            },
                        }
                    }
                    i = i + 1;
                }
                proof {
                    assert(spec_items(setting, state.view(), items@, limit as nat, i as nat, parent, page, depth as nat).1 =~= Seq::<KidView>::empty());
                    assert(whole.1 =~= kids_view(out@));
                }
                return out;
            }
        },
        KItem::Null => {
            proof {
                assert(kids_view(out@) =~= Seq::<KidView>::empty());
            }
            return out;
        },
        _ => {},
    }
    let ghost was = out@;
    match walk_kid(graph, role_map, max_depth, state, value, parent, page, depth) {
        Some(kid) => {
            out.push(kid);
            proof {
                lemma_kids_view_push(was, kid);
                assert(kids_view(was) =~= Seq::<KidView>::empty());
            }
        },
        None => {
            proof {
                assert(kids_view(out@) =~= Seq::<KidView>::empty());
            }
        },
    }
    out
}

/// One `/K` entry, in whichever of 14.7.4's shapes it is.
fn walk_kid(
    graph: &KGraph,
    role_map: &Vec<(Vec<u8>, Vec<u8>)>,
    max_depth: u32,
    state: &mut WalkState,
    value: KItem,
    parent: Option<ObjRef>,
    page: Option<u32>,
    depth: u32,
) -> (r: Option<StructKid>)
    requires
        old(state).well_formed(),
        depth <= max_depth,
    ensures
        final(state).well_formed(),
        (final(state).view(), match r {
            Some(kid) => Some(kid_view(kid)),
            None => None,
        }) == spec_kid(setting_of(*graph, role_map@, max_depth), old(state).view(), value, parent, page, depth as nat),
    decreases max_depth - depth, 1nat, 0nat,
{
    let reference = match value {
        KItem::Ref(reference) => Some(reference),
        _ => None,
    };
    match resolve_item(graph, value) {
        KItem::Int(n) => {
            if 0 <= n && n <= 0xFFFF_FFFF {
                return Some(StructKid::Content { page, mcid: n as u32 });
            }
        },
        KItem::Dict(d) => {
            if d < graph.dicts.len() {
                let dict = &graph.dicts[d];
                proof {
                    reveal_strlit("MCR");
                    reveal_strlit("OBJR");
                }
                let is_mcr = match &dict.kind {
                    Some(kind) => crate::text::bytes_equal(kind.as_slice(), literal("MCR")),
                    None => false,
                };
                let is_objr = match &dict.kind {
                    Some(kind) => crate::text::bytes_equal(kind.as_slice(), literal("OBJR")),
                    None => false,
                };
                if is_mcr {
                    return match dict.mcid {
                        Some(mcid) => if 0 <= mcid && mcid <= 0xFFFF_FFFF {
                            let at = match dict.pg {
                                Some(pg) => Some(pg),
                                None => page,
                            };
                            Some(StructKid::Content { page: at, mcid: mcid as u32 })
                        } else {
                            None
                        },
                        None => None,
                    };
                }
                if is_objr {
                    return match dict.obj {
                        Some(object) => Some(StructKid::Object(object)),
                        None => None,
                    };
                }
                return match walk_element(graph, role_map, max_depth, state, reference, d, page, depth) {
                    Some(element) => Some(StructKid::Element(Box::new(element))),
                    None => None,
                };
            }
        },
        _ => {},
    }
    state.note(StructureWarning::UnreadableKid { element: parent });
    None
}

/// One structure element: the budget and the path checked first, then its
/// type, its page and its kids.
fn walk_element(
    graph: &KGraph,
    role_map: &Vec<(Vec<u8>, Vec<u8>)>,
    max_depth: u32,
    state: &mut WalkState,
    reference: Option<ObjRef>,
    d: usize,
    inherited: Option<u32>,
    depth: u32,
) -> (r: Option<StructElement>)
    requires
        old(state).well_formed(),
        depth <= max_depth,
        d < graph.dicts@.len(),
    ensures
        final(state).well_formed(),
        (final(state).view(), match r {
            Some(element) => Some(element_view(element)),
            None => None,
        }) == spec_element(
            setting_of(*graph, role_map@, max_depth),
            old(state).view(),
            reference,
            d as int,
            inherited,
            depth as nat,
        ),
    decreases max_depth - depth, 0nat, 0nat,
{
    let ghost setting = setting_of(*graph, role_map@, max_depth);
    let ghost start = state.view();
    if state.budget == 0 {
        state.stopped = true;
        state.note(StructureWarning::ElementCapped);
        proof {
            assert(state.view() =~= WalkView { stopped: true, ..with_warning(start, WarningView::ElementCapped) });
        }
        return None;
    }
    state.budget = state.budget - 1;
    match reference {
        Some(r) => {
            if on_path(&state.path, r.num) {
                state.note(StructureWarning::KidCycle { element: r });
                return None;
            }
            let ghost was = state.path@;
            state.path.push(r.num);
            proof {
                was.lemma_push_to_set_commute(r.num);
            }
        },
        None => {},
    }
    let dict = &graph.dicts[d];
    let raw: Vec<u8> = match &dict.s {
        Some(s) => s.clone(),
        None => {
            match reference {
                Some(r) => state.note(StructureWarning::UntypedElement { element: r }),
                None => {},
            }
            Vec::new()
        },
    };
    let (standard, looped) = resolve_role_bytes(role_map, raw.as_slice());
    if looped {
        state.note(StructureWarning::RoleMapLoop { role: text_of(raw.as_slice()) });
    }
    let page = match dict.pg {
        Some(pg) => Some(pg),
        None => inherited,
    };
    let kids = if depth >= max_depth {
        match reference {
            Some(r) => state.note(StructureWarning::DepthCapped { element: r }),
            None => {},
        }
        Vec::new()
    } else {
        walk_kids(graph, role_map, max_depth, state, dict.k, reference, page, depth + 1)
    };
    match reference {
        Some(r) => leave_path(&mut state.path, r.num),
        None => {},
    }
    let element = StructElement {
        reference,
        raw_type: text_of(raw.as_slice()),
        standard_type: text_of(standard.as_slice()),
        title: copy_text(&dict.title),
        lang: copy_text(&dict.lang),
        alt: copy_text(&dict.alt),
        actual_text: copy_text(&dict.actual_text),
        expansion: copy_text(&dict.expansion),
        page,
        kids,
    };
    Some(element)
}


// ---- Counting --------------------------------------------------------------------------

/// Which shape of kid a count is of.
#[derive(Clone, Copy, Debug, PartialEq, Eq, Structural)]
pub enum KidKind {
    /// Structure elements.
    Element,
    /// Marked-content references.
    Content,
    /// Whole-object references.
    Object,
}

/// Whether a kid is of the shape counted.
pub open spec fn is_kind(kid: KidView, kind: KidKind) -> bool {
    match kid {
        KidView::Element(_) => kind == KidKind::Element,
        KidView::Content(_, _) => kind == KidKind::Content,
        KidView::Object(_) => kind == KidKind::Object,
    }
}

/// How many kids of one shape a kid list holds, at every depth.
pub open spec fn spec_count(kids: Seq<KidView>, kind: KidKind) -> nat
    decreases kids,
{
    if kids.len() == 0 {
        0
    } else {
        let last = kids.last();
        let own: nat = if is_kind(last, kind) {
            1
        } else {
            0
        };
        let inner: nat = match last {
            KidView::Element(element) => {
                proof {
                    assert(decreases_to!(kids => kids[kids.len() - 1]));
                }
                spec_count(element.kids, kind)
            },
            _ => 0,
        };
        spec_count(kids.drop_last(), kind) + own + inner
    }
}

/// Counting two lists one after the other counts each.
pub proof fn lemma_count_concat(a: Seq<KidView>, b: Seq<KidView>, kind: KidKind)
    ensures
        spec_count(a + b, kind) == spec_count(a, kind) + spec_count(b, kind),
    decreases b.len(),
{
    if b.len() == 0 {
        assert(a + b =~= a);
    } else {
        assert((a + b).drop_last() =~= a + b.drop_last());
        assert((a + b).last() == b.last());
        lemma_count_concat(a, b.drop_last(), kind);
    }
}

/// A count that stops at `usize::MAX`.
pub open spec fn capped(n: nat) -> usize {
    if n > usize::MAX {
        usize::MAX
    } else {
        n as usize
    }
}

/// How many kids of one shape `kids` holds, at every depth; `usize::MAX` when
/// there are more than that.
pub fn count_kids(kids: &Vec<StructKid>, kind: KidKind) -> (r: usize)
    ensures
        r == capped(spec_count(kids_view(kids@), kind)),
    decreases kids@,
{
    let mut total: usize = 0;
    let mut i: usize = 0;
    while i < kids.len()
        invariant
            i <= kids@.len(),
            total == capped(spec_count(kids_view(kids@.take(i as int)), kind)),
        decreases kids@.len() - i,
    {
        let kid = &kids[i];
        let own: usize = match kid {
            StructKid::Element(_) => if kind == KidKind::Element { 1 } else { 0 },
            StructKid::Content { .. } => if kind == KidKind::Content { 1 } else { 0 },
            StructKid::Object(_) => if kind == KidKind::Object { 1 } else { 0 },
        };
        let inner: usize = match kid {
            StructKid::Element(element) => {
                proof {
                    assert(decreases_to!(kids@ => kids@[i as int]));
                }
                count_kids(&element.kids, kind)
            },
            _ => 0,
        };
        proof {
            let before = kids@.take(i as int);
            let after = kids@.take(i + 1);
            assert(after =~= before.push(kids@[i as int]));
            lemma_kids_view_push(before, kids@[i as int]);
            assert(kids_view(after).drop_last() =~= kids_view(before));
        }
        total = total.saturating_add(own).saturating_add(inner);
        i = i + 1;
    }
    proof {
        assert(kids@.take(i as int) =~= kids@);
    }
    total
}


// ---- What every walk keeps ---------------------------------------------------------

/// The kids an optional kid stands for.
pub open spec fn kid_seq(kid: Option<KidView>) -> Seq<KidView> {
    match kid {
        Some(kid) => seq![kid],
        None => Seq::empty(),
    }
}

/// The elements an optional element stands for, itself among them.
pub open spec fn element_weight(element: Option<ElementView>) -> nat {
    match element {
        Some(element) => 1 + spec_count(element.kids, KidKind::Element),
        None => 0,
    }
}

proof fn lemma_count_one(kid: KidView)
    ensures
        spec_count(seq![kid], KidKind::Element) == (match kid {
            KidView::Element(element) => 1 + spec_count(element.kids, KidKind::Element),
            _ => 0,
        }),
{
    assert(seq![kid].drop_last() =~= Seq::<KidView>::empty());
    assert(seq![kid].last() == kid);
    assert(spec_count(Seq::<KidView>::empty(), KidKind::Element) == 0);
}

/// Reading a `/K` value spends a budget element for every element it yields,
/// and leaves the path as it found it.
proof fn lemma_kids_keep(
    setting: WalkSetting,
    walk: WalkView,
    value: KItem,
    parent: Option<ObjRef>,
    page: Option<u32>,
    depth: nat,
)
    ensures
        ({
            let (after, kids) = spec_kids(setting, walk, value, parent, page, depth);
            &&& after.budget + spec_count(kids, KidKind::Element) <= walk.budget
            &&& after.path == walk.path
        }),
    decreases setting.max_depth - depth, 3nat, 0nat,
{
    if depth > setting.max_depth {
        assert(spec_count(Seq::<KidView>::empty(), KidKind::Element) == 0);
    } else {
        match resolve(setting.graph, value) {
            KItem::Array(a) if a < setting.graph.arrays@.len() => {
                let items = setting.graph.arrays@[a as int]@;
                let noted = match parent {
                    Some(element) if items.len() > MAX_KIDS => with_warning(
                        walk,
                        WarningView::KidsCapped(element, items.len() as usize),
                    ),
                    _ => walk,
                };
                let limit = if items.len() > MAX_KIDS {
                    MAX_KIDS as nat
                } else {
                    items.len()
                };
                lemma_items_keep(setting, noted, items, limit, 0, parent, page, depth);
            },
            KItem::Null => {
                assert(spec_count(Seq::<KidView>::empty(), KidKind::Element) == 0);
            },
            _ => {
                lemma_kid_keep(setting, walk, value, parent, page, depth);
                let (after, kid) = spec_kid(setting, walk, value, parent, page, depth);
                match kid {
                    Some(k) => lemma_count_one(k),
                    None => assert(spec_count(Seq::<KidView>::empty(), KidKind::Element) == 0),
                }
            },
        }
    }
}

proof fn lemma_items_keep(
    setting: WalkSetting,
    walk: WalkView,
    items: Seq<KItem>,
    limit: nat,
    at: nat,
    parent: Option<ObjRef>,
    page: Option<u32>,
    depth: nat,
)
    ensures
        ({
            let (after, kids) = spec_items(setting, walk, items, limit, at, parent, page, depth);
            &&& after.budget + spec_count(kids, KidKind::Element) <= walk.budget
            &&& after.path == walk.path
        }),
    decreases setting.max_depth - depth, 2nat, limit - at,
{
    if depth > setting.max_depth || at >= limit || at >= items.len() || walk.stopped {
        assert(spec_count(Seq::<KidView>::empty(), KidKind::Element) == 0);
    } else {
        lemma_kid_keep(setting, walk, items[at as int], parent, page, depth);
        let (after, kid) = spec_kid(setting, walk, items[at as int], parent, page, depth);
        lemma_items_keep(setting, after, items, limit, at + 1, parent, page, depth);
        let (end, rest) = spec_items(setting, after, items, limit, at + 1, parent, page, depth);
        match kid {
            Some(k) => {
                lemma_count_one(k);
                lemma_count_concat(seq![k], rest, KidKind::Element);
            },
            None => {},
        }
    }
}

proof fn lemma_kid_keep(
    setting: WalkSetting,
    walk: WalkView,
    value: KItem,
    parent: Option<ObjRef>,
    page: Option<u32>,
    depth: nat,
)
    ensures
        ({
            let (after, kid) = spec_kid(setting, walk, value, parent, page, depth);
            &&& after.budget + (match kid {
                Some(KidView::Element(element)) => 1 + spec_count(element.kids, KidKind::Element),
                _ => 0,
            }) <= walk.budget
            &&& after.path == walk.path
        }),
    decreases setting.max_depth - depth, 1nat, 0nat,
{
    let reference = match value {
        KItem::Ref(reference) => Some(reference),
        _ => None,
    };
    match resolve(setting.graph, value) {
        KItem::Dict(d) if d < setting.graph.dicts@.len() => {
            lemma_element_keep(setting, walk, reference, d as int, page, depth);
        },
        _ => {},
    }
}

proof fn lemma_element_keep(
    setting: WalkSetting,
    walk: WalkView,
    reference: Option<ObjRef>,
    d: int,
    inherited: Option<u32>,
    depth: nat,
)
    ensures
        ({
            let (after, element) = spec_element(setting, walk, reference, d, inherited, depth);
            &&& after.budget + element_weight(element) <= walk.budget
            &&& after.path == walk.path
        }),
    decreases setting.max_depth - depth, 0nat, 0nat,
{
    if walk.budget > 0 {
        let spent = WalkView { budget: (walk.budget - 1) as nat, ..walk };
        match reference {
            Some(r) if spent.path.contains(r.num) => {},
            _ => {
                let dict = setting.graph.dicts@[d];
                let entered = match reference {
                    Some(r) => WalkView { path: spent.path.insert(r.num), ..spent },
                    None => spent,
                };
                let raw = match dict.s {
                    Some(s) => s@,
                    None => Seq::empty(),
                };
                let typed = match reference {
                    Some(r) if dict.s is None => with_warning(entered, WarningView::UntypedElement(r)),
                    _ => entered,
                };
                let (standard, looped) = spec_resolve_role(setting.role_map, raw);
                let mapped = if looped {
                    with_warning(typed, WarningView::RoleMapLoop(name_text(raw)))
                } else {
                    typed
                };
                let page = if dict.pg is Some {
                    dict.pg
                } else {
                    inherited
                };
                if depth < setting.max_depth {
                    lemma_kids_keep(setting, mapped, dict.k, reference, page, depth + 1);
                } else {
                    assert(spec_count(Seq::<KidView>::empty(), KidKind::Element) == 0);
                }
                match reference {
                    Some(r) => {
                        assert(spent.path.insert(r.num).remove(r.num) =~= walk.path);
                    },
                    None => {},
                }
            },
        }
    }
}


// ---- The tree ------------------------------------------------------------------------

/// A document's logical structure.
pub struct StructureTree {
    /// The structure tree root's own `/K`.
    pub kids: Vec<StructKid>,
    /// `/MarkInfo /Marked`: the document claims to be a tagged PDF.
    pub marked: bool,
    /// `/MarkInfo /Suspects`: the producer says the tagging may be wrong.
    pub suspects: bool,
    /// `/MarkInfo /UserProperties`: the tree carries user properties.
    pub user_properties: bool,
    /// What the walk had to tolerate.
    pub warnings: Vec<StructureWarning>,
    /// What the join with one page's text needs of the page tree and the
    /// parent tree.
    pub pages: TreePages,
}

/// What the join with one page's text needs beyond the `/K` walk.
pub struct TreePages {
    /// How many pages the document has: content with no page of its own
    /// belongs to a page only when there is just one.
    pub page_count: u32,
    /// The `/StructParents` key of each page that declared one, by page index.
    pub struct_parents: Vec<(u32, i64)>,
    /// How many content items each `/ParentTree` key accounts for.
    pub parent_tree: Vec<(i64, usize)>,
}

/// `/MarkInfo`'s three flags; absent means false for all three.
#[derive(Clone, Copy, Debug, PartialEq, Eq, Structural)]
pub struct MarkInfo {
    /// `/Marked`.
    pub marked: bool,
    /// `/Suspects`.
    pub suspects: bool,
    /// `/UserProperties`.
    pub user_properties: bool,
}

/// Where every walk starts: nothing on the path, the whole element budget,
/// nothing tolerated yet.
pub open spec fn walk_start() -> WalkView {
    WalkView {
        path: Set::empty(),
        budget: MAX_STRUCTURE_ELEMENTS as nat,
        stopped: false,
        warnings: Seq::empty(),
    }
}

/// The walk of a structure tree root's `/K`, as values.
pub open spec fn spec_tree(
    graph: KGraph,
    role_map: Seq<(Vec<u8>, Vec<u8>)>,
    max_depth: u32,
    root_k: KItem,
) -> (WalkView, Seq<KidView>) {
    spec_kids(setting_of(graph, role_map, max_depth), walk_start(), root_k, None, None, 0)
}

/// Reads a structure tree from its root's `/K`, as written (a reference stays
/// a reference, so the root element can be checked for cycles), with
/// `/RoleMap` and a depth cap of `max_depth` levels. `root_k` is `None` when
/// the catalog has no `/StructTreeRoot` — which is most documents — and then
/// there is no tree at all rather than an empty one; a root with no `/K`
/// gives `Some(KItem::Null)`, and an empty tree.
pub fn bind(
    graph: &KGraph,
    role_map: &Vec<(Vec<u8>, Vec<u8>)>,
    max_depth: u32,
    root_k: Option<KItem>,
    marks: MarkInfo,
    pages: TreePages,
) -> (r: Option<StructureTree>)
    ensures
        r is Some <==> root_k is Some,
        r matches Some(tree) ==> {
            let k = root_k->0;
            &&& tree.pages == pages
            &&& kids_view(tree.kids@) == spec_tree(*graph, role_map@, max_depth, k).1
            &&& tree.warnings@.map_values(|w: StructureWarning| warning_view(w)) == spec_tree(
                *graph,
                role_map@,
                max_depth,
                k,
            ).0.warnings
            &&& tree.marked == marks.marked
            &&& tree.suspects == marks.suspects
            &&& tree.user_properties == marks.user_properties
            &&& spec_count(kids_view(tree.kids@), KidKind::Element) <= MAX_STRUCTURE_ELEMENTS
        },
{
    let root_k = match root_k {
        Some(k) => k,
        None => return None,
    };
    let mut state = WalkState {
        path: Vec::new(),
        budget: MAX_STRUCTURE_ELEMENTS,
        stopped: false,
        warnings: Vec::new(),
    };
    proof {
        assert(state.view().path =~= Set::<u32>::empty());
        assert(state.view().warnings =~= Seq::<WarningView>::empty());
        assert(state.view() == walk_start());
        lemma_kids_keep(setting_of(*graph, role_map@, max_depth), walk_start(), root_k, None, None, 0);
    }
    let kids = walk_kids(graph, role_map, max_depth, &mut state, root_k, None, None, 0);
    Some(StructureTree {
        kids,
        marked: marks.marked,
        suspects: marks.suspects,
        user_properties: marks.user_properties,
        warnings: state.warnings,
        pages,
    })
}

/// However a structure tree is written, one walk yields at most
/// [`MAX_STRUCTURE_ELEMENTS`] elements, and it ends with nothing left on its
/// path.
pub proof fn lemma_the_walk_is_bounded(
    graph: KGraph,
    role_map: Seq<(Vec<u8>, Vec<u8>)>,
    max_depth: u32,
    root_k: KItem,
)
    ensures
        spec_count(spec_tree(graph, role_map, max_depth, root_k).1, KidKind::Element)
            <= MAX_STRUCTURE_ELEMENTS,
        spec_tree(graph, role_map, max_depth, root_k).0.path == Set::<u32>::empty(),
{
    lemma_kids_keep(setting_of(graph, role_map, max_depth), walk_start(), root_k, None, None, 0);
}

/// The elements of a kid list, each followed by its own, in the order the
/// file wrote them.
pub open spec fn spec_elements(kids: Seq<KidView>) -> Seq<ElementView>
    decreases kids,
{
    if kids.len() == 0 {
        Seq::empty()
    } else {
        let last = kids.last();
        let tail: Seq<ElementView> = match last {
            KidView::Element(element) => {
                proof {
                    assert(decreases_to!(kids => kids[kids.len() - 1]));
                }
                seq![element] + spec_elements(element.kids)
            },
            _ => Seq::empty(),
        };
        spec_elements(kids.drop_last()) + tail
    }
}

/// Appends the elements of `kids`, depth-first.
fn collect_elements<'a>(kids: &'a Vec<StructKid>, out: &mut Vec<&'a StructElement>)
    ensures
        final(out)@.map_values(|e: &StructElement| element_view(*e)) == old(out)@.map_values(
            |e: &StructElement| element_view(*e),
        ) + spec_elements(kids_view(kids@)),
    decreases kids@,
{
    let ghost start = out@.map_values(|e: &StructElement| element_view(*e));
    let mut i: usize = 0;
    while i < kids.len()
        invariant
            i <= kids@.len(),
            out@.map_values(|e: &StructElement| element_view(*e)) == start + spec_elements(
                kids_view(kids@.take(i as int)),
            ),
        decreases kids@.len() - i,
    {
        let ghost was = out@.map_values(|e: &StructElement| element_view(*e));
        let kid = &kids[i];
        match kid {
            StructKid::Element(element) => {
                out.push(&**element);
                proof {
                    assert(out@.map_values(|e: &StructElement| element_view(*e)) =~= was.push(
                        element_view(**element),
                    ));
                    assert(decreases_to!(kids@ => kids@[i as int]));
                }
                collect_elements(&element.kids, out);
            },
            _ => {},
        }
        proof {
            let before = kids@.take(i as int);
            let after = kids@.take(i + 1);
            assert(after =~= before.push(kids@[i as int]));
            lemma_kids_view_push(before, kids@[i as int]);
            assert(kids_view(after).drop_last() =~= kids_view(before));
            match kid {
                StructKid::Element(element) => {
                    assert(start + spec_elements(kids_view(after)) =~= was + (seq![element_view(**element)]
                        + spec_elements(element_view(**element).kids)));
                },
                _ => {
                    assert(start + spec_elements(kids_view(after)) =~= was);
                },
            }
        }
        i = i + 1;
    }
    proof {
        assert(kids@.take(i as int) =~= kids@);
    }
}

impl StructureTree {
    /// How many structure elements the tree holds; `usize::MAX` when there
    /// are more than that.
    pub fn element_count(&self) -> (r: usize)
        ensures
            r == capped(spec_count(kids_view(self.kids@), KidKind::Element)),
    {
        count_kids(&self.kids, KidKind::Element)
    }

    /// How many marked-content references the tree holds.
    pub fn content_count(&self) -> (r: usize)
        ensures
            r == capped(spec_count(kids_view(self.kids@), KidKind::Content)),
    {
        count_kids(&self.kids, KidKind::Content)
    }

    /// How many `/OBJR` object references the tree holds.
    pub fn object_count(&self) -> (r: usize)
        ensures
            r == capped(spec_count(kids_view(self.kids@), KidKind::Object)),
    {
        count_kids(&self.kids, KidKind::Object)
    }

    /// Every element in the tree, depth-first: reading order.
    pub fn elements(&self) -> (r: Vec<&StructElement>)
        ensures
            r@.map_values(|e: &StructElement| element_view(*e)) == spec_elements(kids_view(self.kids@)),
    {
        let mut out: Vec<&StructElement> = Vec::new();
        proof {
            assert(out@.map_values(|e: &StructElement| element_view(*e)) =~= Seq::<ElementView>::empty());
        }
        collect_elements(&self.kids, &mut out);
        proof {
            assert(Seq::<ElementView>::empty() + spec_elements(kids_view(self.kids@)) =~= spec_elements(
                kids_view(self.kids@),
            ));
        }
        out
    }
}


// ---- No element inside itself ------------------------------------------------------

/// The object numbers above a kid, with `reference`'s added.
pub open spec fn with_above(above: Set<u32>, reference: Option<ObjRef>) -> Set<u32> {
    match reference {
        Some(r) => above.insert(r.num),
        None => above,
    }
}

/// Whether no element at or below `kid` has an object number in `above`, or
/// one of an element above it within the kid.
pub open spec fn kid_acyclic(kid: KidView, above: Set<u32>) -> bool
    decreases kid, 0nat,
{
    match kid {
        KidView::Element(element) => element_acyclic(element, above),
        _ => true,
    }
}

/// The same, for an element.
pub open spec fn element_acyclic(element: ElementView, above: Set<u32>) -> bool
    decreases element, 1nat,
{
    &&& (element.reference matches Some(r) ==> !above.contains(r.num))
    &&& kids_acyclic(element.kids, with_above(above, element.reference))
}

/// The same, for every kid of a list.
pub open spec fn kids_acyclic(kids: Seq<KidView>, above: Set<u32>) -> bool
    decreases kids, 2nat,
{
    if kids.len() == 0 {
        true
    } else {
        proof {
            assert(decreases_to!(kids => kids[kids.len() - 1]));
        }
        kids_acyclic(kids.drop_last(), above) && kid_acyclic(kids.last(), above)
    }
}

proof fn lemma_acyclic_concat(a: Seq<KidView>, b: Seq<KidView>, above: Set<u32>)
    requires
        kids_acyclic(a, above),
        kids_acyclic(b, above),
    ensures
        kids_acyclic(a + b, above),
    decreases b.len(),
{
    if b.len() == 0 {
        assert(a + b =~= a);
    } else {
        assert((a + b).drop_last() =~= a + b.drop_last());
        assert((a + b).last() == b.last());
        lemma_acyclic_concat(a, b.drop_last(), above);
    }
}

proof fn lemma_acyclic_one(kid: KidView, above: Set<u32>)
    requires
        kid_acyclic(kid, above),
    ensures
        kids_acyclic(seq![kid], above),
{
    assert(seq![kid].drop_last() =~= Seq::<KidView>::empty());
    assert(seq![kid].last() == kid);
    assert(kids_acyclic(Seq::<KidView>::empty(), above));
}

proof fn lemma_kids_acyclic(
    setting: WalkSetting,
    walk: WalkView,
    value: KItem,
    parent: Option<ObjRef>,
    page: Option<u32>,
    depth: nat,
)
    ensures
        kids_acyclic(spec_kids(setting, walk, value, parent, page, depth).1, walk.path),
    decreases setting.max_depth - depth, 3nat, 0nat,
{
    if depth <= setting.max_depth {
        match resolve(setting.graph, value) {
            KItem::Array(a) if a < setting.graph.arrays@.len() => {
                let items = setting.graph.arrays@[a as int]@;
                let noted = match parent {
                    Some(element) if items.len() > MAX_KIDS => with_warning(
                        walk,
                        WarningView::KidsCapped(element, items.len() as usize),
                    ),
                    _ => walk,
                };
                let limit = if items.len() > MAX_KIDS {
                    MAX_KIDS as nat
                } else {
                    items.len()
                };
                lemma_items_acyclic(setting, noted, items, limit, 0, parent, page, depth);
            },
            KItem::Null => {},
            _ => {
                lemma_kid_acyclic(setting, walk, value, parent, page, depth);
                let (after, kid) = spec_kid(setting, walk, value, parent, page, depth);
                match kid {
                    Some(k) => lemma_acyclic_one(k, walk.path),
                    None => {},
                }
            },
        }
    }
}

proof fn lemma_items_acyclic(
    setting: WalkSetting,
    walk: WalkView,
    items: Seq<KItem>,
    limit: nat,
    at: nat,
    parent: Option<ObjRef>,
    page: Option<u32>,
    depth: nat,
)
    ensures
        kids_acyclic(spec_items(setting, walk, items, limit, at, parent, page, depth).1, walk.path),
    decreases setting.max_depth - depth, 2nat, limit - at,
{
    if !(depth > setting.max_depth || at >= limit || at >= items.len() || walk.stopped) {
        lemma_kid_acyclic(setting, walk, items[at as int], parent, page, depth);
        lemma_kid_keep(setting, walk, items[at as int], parent, page, depth);
        let (after, kid) = spec_kid(setting, walk, items[at as int], parent, page, depth);
        lemma_items_acyclic(setting, after, items, limit, at + 1, parent, page, depth);
        let (end, rest) = spec_items(setting, after, items, limit, at + 1, parent, page, depth);
        match kid {
            Some(k) => {
                lemma_acyclic_one(k, walk.path);
                lemma_acyclic_concat(seq![k], rest, walk.path);
            },
            None => {},
        }
    }
}

proof fn lemma_kid_acyclic(
    setting: WalkSetting,
    walk: WalkView,
    value: KItem,
    parent: Option<ObjRef>,
    page: Option<u32>,
    depth: nat,
)
    ensures
        match spec_kid(setting, walk, value, parent, page, depth).1 {
            Some(kid) => kid_acyclic(kid, walk.path),
            None => true,
        },
    decreases setting.max_depth - depth, 1nat, 0nat,
{
    let reference = match value {
        KItem::Ref(reference) => Some(reference),
        _ => None,
    };
    match resolve(setting.graph, value) {
        KItem::Dict(d) if d < setting.graph.dicts@.len() => {
            lemma_element_acyclic(setting, walk, reference, d as int, page, depth);
        },
        _ => {},
    }
}

proof fn lemma_element_acyclic(
    setting: WalkSetting,
    walk: WalkView,
    reference: Option<ObjRef>,
    d: int,
    inherited: Option<u32>,
    depth: nat,
)
    ensures
        match spec_element(setting, walk, reference, d, inherited, depth).1 {
            Some(element) => element_acyclic(element, walk.path),
            None => true,
        },
    decreases setting.max_depth - depth, 0nat, 0nat,
{
    if walk.budget > 0 {
        let spent = WalkView { budget: (walk.budget - 1) as nat, ..walk };
        match reference {
            Some(r) if spent.path.contains(r.num) => {},
            _ => {
                let dict = setting.graph.dicts@[d];
                let entered = match reference {
                    Some(r) => WalkView { path: spent.path.insert(r.num), ..spent },
                    None => spent,
                };
                let raw = match dict.s {
                    Some(s) => s@,
                    None => Seq::empty(),
                };
                let typed = match reference {
                    Some(r) if dict.s is None => with_warning(entered, WarningView::UntypedElement(r)),
                    _ => entered,
                };
                let (standard, looped) = spec_resolve_role(setting.role_map, raw);
                let mapped = if looped {
                    with_warning(typed, WarningView::RoleMapLoop(name_text(raw)))
                } else {
                    typed
                };
                let page = if dict.pg is Some {
                    dict.pg
                } else {
                    inherited
                };
                assert(mapped.path == with_above(walk.path, reference));
                if depth < setting.max_depth {
                    lemma_kids_acyclic(setting, mapped, dict.k, reference, page, depth + 1);
                }
            },
        }
    }
}

/// However its `/K` is written, a walked tree never holds an element inside an
/// element with the same object number: a `/K` that reaches back up its own
/// path is cut where it closes.
pub proof fn lemma_no_element_inside_itself(
    graph: KGraph,
    role_map: Seq<(Vec<u8>, Vec<u8>)>,
    max_depth: u32,
    root_k: KItem,
)
    ensures
        kids_acyclic(spec_tree(graph, role_map, max_depth, root_k).1, Set::empty()),
{
    lemma_kids_acyclic(setting_of(graph, role_map, max_depth), walk_start(), root_k, None, None, 0);
}

} // verus!
