//! The colour space a resource name selects (8.6.6), read from the objects
//! the name leads to: the device families, `ICCBased` by its component count,
//! `Indexed` with its base and lookup table, `Separation` and `DeviceN` with
//! their alternate, the uncoloured `[/Pattern base]` form, and `Lab`.
//!
//! What a colour space does with its numbers — a tint transform, a `Lab`
//! range — is the renderer's floating-point work. This module reads which
//! space it is, and where those parts are to be found.

use vstd::prelude::*;
use vstd::string::*;

use crate::resources::{ascii_of, literal};
use crate::text::bytes_equal;

verus! {

/// One object a colour space is read from. Objects refer to each other by
/// their index in the list they are held in; an index past its end stands
/// for an object that is not there.
#[derive(Clone, Debug, PartialEq, Eq)]
pub enum SpaceNode {
    /// A name, by its bytes.
    Name(Vec<u8>),
    /// An array, by the objects it holds, in order.
    Array(Vec<usize>),
    /// An integer.
    Int(i64),
    /// A string, by its bytes.
    Str(Vec<u8>),
    /// A dictionary, by its `/N` when that is an integer.
    Dict { n: Option<i64> },
    /// A stream: its dictionary's `/N` when that is an integer, and its
    /// decoded bytes when they decode.
    Stream { n: Option<i64>, decoded: Option<Vec<u8>> },
    /// An indirect reference to another object.
    Ref(usize),
    /// Anything else.
    Other,
}

/// Where an `Indexed` space's lookup table is.
#[derive(Clone, Copy, Debug, PartialEq, Eq)]
pub enum Lookup {
    /// In the string at this index.
    Text(usize),
    /// In the stream this reference leads to, decoded.
    Stream(usize),
    /// Nowhere: the table is empty.
    Empty,
}

/// A colour space, as far as reading it decides.
#[derive(Debug, PartialEq, Eq)]
pub enum ColorSpace {
    DeviceGray,
    DeviceRgb,
    DeviceCmyk,
    /// A pattern space; `base` is the underlying space of the uncoloured
    /// form `[/Pattern base]`, absent for the coloured one.
    Pattern { base: Option<Box<ColorSpace>> },
    /// A space read through its component count alone (`ICCBased`).
    Approximated { components: usize },
    /// An `Indexed` space: its base, its table and its highest index.
    Indexed { base: Box<ColorSpace>, lookup: Lookup, high: u32 },
    /// `Separation` (one component) or `DeviceN`: its alternate space, and
    /// the tint transform's object with the depth it is to be read at.
    Separation { components: usize, alternate: Box<ColorSpace>, tint: Option<(usize, u32)> },
    /// A `Lab` space, with the object its parameters are in.
    Lab { params: Option<usize> },
}

/// The deepest nesting a colour space is followed to.
pub const MAX_SPACE_DEPTH: u32 = 8;

/// The object at `at`, or `Other` past the end.
pub open spec fn node_of(nodes: Seq<SpaceNode>, at: int) -> SpaceNode {
    if 0 <= at < nodes.len() {
        nodes[at]
    } else {
        SpaceNode::Other
    }
}

/// The object `at` stands for, one reference followed.
pub open spec fn resolved(nodes: Seq<SpaceNode>, at: int) -> int {
    match node_of(nodes, at) {
        SpaceNode::Ref(target) => target as int,
        _ => at,
    }
}

/// A device family a name selects on its own, with its short and calibrated
/// spellings.
pub open spec fn device_space(name: Seq<u8>) -> Option<ColorSpace> {
    if name == ascii_of("DeviceGray"@) || name == ascii_of("G"@) || name == ascii_of("CalGray"@) {
        Some(ColorSpace::DeviceGray)
    } else if name == ascii_of("DeviceRGB"@) || name == ascii_of("RGB"@) || name == ascii_of(
        "CalRGB"@,
    ) {
        Some(ColorSpace::DeviceRgb)
    } else if name == ascii_of("DeviceCMYK"@) || name == ascii_of("CMYK"@) {
        Some(ColorSpace::DeviceCmyk)
    } else if name == ascii_of("Pattern"@) {
        Some(ColorSpace::Pattern { base: None })
    } else {
        None
    }
}

/// The `/N` of an `ICCBased` stream, 3 where it gives none.
pub open spec fn icc_components(node: SpaceNode) -> int {
    let n = match node {
        SpaceNode::Dict { n } => n,
        SpaceNode::Stream { n, .. } => n,
        _ => None,
    };
    match n {
        Some(v) => if v < 1 {
            1
        } else if v > 4 {
            4
        } else {
            v as int
        },
        None => 3,
    }
}

/// Where the table of an `Indexed` array with elements `items` is: a string,
/// or else the stream its fourth element refers to.
pub open spec fn spec_lookup(nodes: Seq<SpaceNode>, items: Seq<usize>) -> Lookup {
    if items.len() < 4 {
        Lookup::Empty
    } else {
        let value = resolved(nodes, items[3] as int);
        match node_of(nodes, value) {
            SpaceNode::Str(_) => Lookup::Text(value as usize),
            _ => match node_of(nodes, items[3] as int) {
                SpaceNode::Ref(target) => Lookup::Stream(target),
                _ => Lookup::Empty,
            },
        }
    }
}

/// The bytes of a lookup table: the string's, the stream's when it decodes,
/// and none otherwise.
pub open spec fn spec_lookup_table(nodes: Seq<SpaceNode>, lookup: Lookup) -> Seq<u8> {
    match lookup {
        Lookup::Text(at) => match node_of(nodes, at as int) {
            SpaceNode::Str(bytes) => bytes@,
            _ => Seq::empty(),
        },
        Lookup::Stream(at) => match node_of(nodes, at as int) {
            SpaceNode::Stream { decoded: Some(bytes), .. } => bytes@,
            _ => Seq::empty(),
        },
        Lookup::Empty => Seq::empty(),
    }
}

/// The colour space the object at `at` describes, read `depth` levels below
/// the resource entry; nothing past `MAX_SPACE_DEPTH`, and nothing for an
/// object that names no space this reader knows.
pub open spec fn spec_space(nodes: Seq<SpaceNode>, at: int, depth: int) -> Option<ColorSpace>
    decreases 9 - depth,
{
    if depth > 8 || depth < 0 {
        None
    } else {
        match node_of(nodes, resolved(nodes, at)) {
            SpaceNode::Name(bytes) => device_space(bytes@),
            SpaceNode::Array(elements) => {
                let items = elements@;
                if items.len() == 0 {
                    None
                } else {
                    match node_of(nodes, items[0] as int) {
                        SpaceNode::Name(family_bytes) => {
                            let family = family_bytes@;
                            if family == ascii_of("ICCBased"@) {
                                if items.len() < 2 {
                                    None
                                } else {
                                    Some(
                                        ColorSpace::Approximated {
                                            components: icc_components(
                                                node_of(nodes, resolved(nodes, items[1] as int)),
                                            ) as usize,
                                        },
                                    )
                                }
                            } else if family == ascii_of("Indexed"@) || family == ascii_of("I"@) {
                                if items.len() < 3 {
                                    None
                                } else {
                                    match spec_space(nodes, items[1] as int, depth + 1) {
                                        None => None,
                                        Some(base) => match node_of(
                                            nodes,
                                            resolved(nodes, items[2] as int),
                                        ) {
                                            SpaceNode::Int(high) => Some(
                                                ColorSpace::Indexed {
                                                    base: Box::new(base),
                                                    lookup: spec_lookup(nodes, items),
                                                    high: (if high < 0 {
                                                        0
                                                    } else if high > 255 {
                                                        255
                                                    } else {
                                                        high
                                                    }) as u32,
                                                },
                                            ),
                                            _ => None,
                                        },
                                    }
                                }
                            } else if family == ascii_of("Separation"@) || family == ascii_of(
                                "DeviceN"@,
                            ) {
                                if items.len() < 3 {
                                    None
                                } else {
                                    let components: int = if family == ascii_of("Separation"@) {
                                        1
                                    } else {
                                        match node_of(nodes, resolved(nodes, items[1] as int)) {
                                            SpaceNode::Array(inks) => inks@.len() as int,
                                            _ => 1,
                                        }
                                    };
                                    match spec_space(nodes, items[2] as int, depth + 1) {
                                        None => None,
                                        Some(alternate) => Some(
                                            ColorSpace::Separation {
                                                components: components as usize,
                                                alternate: Box::new(alternate),
                                                tint: if items.len() > 3 {
                                                    Some((items[3], (depth + 1) as u32))
                                                } else {
                                                    None
                                                },
                                            },
                                        ),
                                    }
                                }
                            } else if family == ascii_of("Pattern"@) {
                                Some(
                                    ColorSpace::Pattern {
                                        base: if items.len() < 2 {
                                            None
                                        } else {
                                            match spec_space(nodes, items[1] as int, depth + 1) {
                                                Some(base) => Some(Box::new(base)),
                                                None => None,
                                            }
                                        },
                                    },
                                )
                            } else if family == ascii_of("CalGray"@) {
                                Some(ColorSpace::DeviceGray)
                            } else if family == ascii_of("CalRGB"@) {
                                Some(ColorSpace::DeviceRgb)
                            } else if family == ascii_of("Lab"@) {
                                Some(
                                    ColorSpace::Lab {
                                        params: if items.len() < 2 {
                                            None
                                        } else {
                                            Some(resolved(nodes, items[1] as int) as usize)
                                        },
                                    },
                                )
                            } else {
                                None
                            }
                        },
                        _ => None,
                    }
                }
            },
            _ => None,
        }
    }
}

/// How many spaces deep a colour space is nested: an `Indexed` space, a
/// `Separation` or an uncoloured pattern space sits one level above the space
/// it is built on.
pub open spec fn nesting(space: ColorSpace) -> nat
    decreases space,
{
    match space {
        ColorSpace::Pattern { base: Some(base) } => 1 + nesting(*base),
        ColorSpace::Indexed { base, .. } => 1 + nesting(*base),
        ColorSpace::Separation { alternate, .. } => 1 + nesting(*alternate),
        _ => 0,
    }
}

/// Whatever the objects hold, reference loops included, a space read
/// `depth` levels below its resource entry is nested no deeper than the
/// levels `MAX_SPACE_DEPTH` leaves.
pub proof fn lemma_nesting_is_bounded(nodes: Seq<SpaceNode>, at: int, depth: int)
    requires
        0 <= depth,
        spec_space(nodes, at, depth) is Some,
    ensures
        nesting(spec_space(nodes, at, depth)->0) + depth <= MAX_SPACE_DEPTH,
    decreases 9 - depth,
{
    if depth <= 8 {
        match node_of(nodes, resolved(nodes, at)) {
            SpaceNode::Array(elements) => {
                let items = elements@;
                if items.len() >= 2 && spec_space(nodes, items[1] as int, depth + 1) is Some {
                    lemma_nesting_is_bounded(nodes, items[1] as int, depth + 1);
                }
                if items.len() >= 3 && spec_space(nodes, items[2] as int, depth + 1) is Some {
                    lemma_nesting_is_bounded(nodes, items[2] as int, depth + 1);
                }
            },
            _ => {},
        }
    }
}

/// The colour space the resource name `name` selects, where `entry` is the
/// object its page's `/ColorSpace` dictionary gives for it, if any.
pub open spec fn spec_color_space(name: Seq<u8>, nodes: Seq<SpaceNode>, entry: Option<usize>) -> Option<ColorSpace> {
    match device_space(name) {
        Some(space) => Some(space),
        None => match entry {
            Some(at) => spec_space(nodes, at as int, 0),
            None => None,
        },
    }
}

/// The object `at` stands for, one reference followed.
fn resolve(nodes: &Vec<SpaceNode>, at: usize) -> (r: usize)
    ensures
        r == resolved(nodes@, at as int),
{
    if at < nodes.len() {
        match &nodes[at] {
            SpaceNode::Ref(target) => *target,
            _ => at,
        }
    } else {
        at
    }
}

/// The object at `at`, or `None` past the end.
fn node(nodes: &Vec<SpaceNode>, at: usize) -> (r: Option<&SpaceNode>)
    ensures
        match r {
            Some(n) => at < nodes@.len() && *n == nodes@[at as int],
            None => at >= nodes@.len(),
        },
{
    if at < nodes.len() {
        Some(&nodes[at])
    } else {
        None
    }
}

/// The device family `name` selects on its own, if it does.
fn device_space_of(name: &[u8]) -> (r: Option<ColorSpace>)
    ensures
        r == device_space(name@),
{
    proof {
        reveal_strlit("DeviceGray");
        reveal_strlit("G");
        reveal_strlit("CalGray");
        reveal_strlit("DeviceRGB");
        reveal_strlit("RGB");
        reveal_strlit("CalRGB");
        reveal_strlit("DeviceCMYK");
        reveal_strlit("CMYK");
        reveal_strlit("Pattern");
    }
    if bytes_equal(name, literal("DeviceGray")) || bytes_equal(name, literal("G")) || bytes_equal(
        name,
        literal("CalGray"),
    ) {
        Some(ColorSpace::DeviceGray)
    } else if bytes_equal(name, literal("DeviceRGB")) || bytes_equal(name, literal("RGB"))
        || bytes_equal(name, literal("CalRGB")) {
        Some(ColorSpace::DeviceRgb)
    } else if bytes_equal(name, literal("DeviceCMYK")) || bytes_equal(name, literal("CMYK")) {
        Some(ColorSpace::DeviceCmyk)
    } else if bytes_equal(name, literal("Pattern")) {
        Some(ColorSpace::Pattern { base: None })
    } else {
        None
    }
}

/// The component count an `ICCBased` space's stream gives.
fn icc_components_of(node: Option<&SpaceNode>) -> (r: usize)
    ensures
        r as int == icc_components(
            match node {
                Some(n) => *n,
                None => SpaceNode::Other,
            },
        ),
{
    let n = match node {
        Some(SpaceNode::Dict { n }) => *n,
        Some(SpaceNode::Stream { n, .. }) => *n,
        _ => None,
    };
    match n {
        Some(v) => if v < 1 {
            1
        } else if v > 4 {
            4
        } else {
            v as usize
        },
        None => 3,
    }
}

/// Where the lookup table of an `Indexed` array with elements `items` is.
pub fn lookup_of(nodes: &Vec<SpaceNode>, items: &Vec<usize>) -> (r: Lookup)
    ensures
        r == spec_lookup(nodes@, items@),
{
    if items.len() < 4 {
        return Lookup::Empty;
    }
    let value = resolve(nodes, items[3]);
    match node(nodes, value) {
        Some(SpaceNode::Str(_)) => Lookup::Text(value),
        _ => match node(nodes, items[3]) {
            Some(SpaceNode::Ref(target)) => Lookup::Stream(*target),
            _ => Lookup::Empty,
        },
    }
}

/// The bytes of a lookup table: the string's, the stream's when it decodes,
/// and none otherwise.
pub fn lookup_table(nodes: &Vec<SpaceNode>, lookup: Lookup) -> (r: Vec<u8>)
    ensures
        r@ == spec_lookup_table(nodes@, lookup),
{
    match lookup {
        Lookup::Text(at) => match node(nodes, at) {
            Some(SpaceNode::Str(bytes)) => bytes.clone(),
            _ => Vec::new(),
        },
        Lookup::Stream(at) => match node(nodes, at) {
            Some(SpaceNode::Stream { decoded: Some(bytes), .. }) => bytes.clone(),
            _ => Vec::new(),
        },
        Lookup::Empty => Vec::new(),
    }
}

/// The colour space the object at `at` describes, read `depth` levels below
/// the resource entry (8.6.6).
///
/// A space nested past `MAX_SPACE_DEPTH` — an `Indexed` whose base is an
/// `Indexed` whose base is one, and so on, or a reference loop — reads as
/// nothing, as does any family this reader does not know.
pub fn parse_space(nodes: &Vec<SpaceNode>, at: usize, depth: u32) -> (r: Option<ColorSpace>)
    ensures
        r == spec_space(nodes@, at as int, depth as int),
    decreases 9 - depth,
{
    proof {
        reveal_strlit("ICCBased");
        reveal_strlit("Indexed");
        reveal_strlit("I");
        reveal_strlit("Separation");
        reveal_strlit("DeviceN");
        reveal_strlit("Pattern");
        reveal_strlit("CalGray");
        reveal_strlit("CalRGB");
        reveal_strlit("Lab");
    }
    if depth > MAX_SPACE_DEPTH {
        return None;
    }
    let target = resolve(nodes, at);
    let items = match node(nodes, target) {
        Some(SpaceNode::Name(bytes)) => {
            return device_space_of(bytes.as_slice());
        },
        Some(SpaceNode::Array(items)) => items,
        _ => {
            return None;
        },
    };
    if items.len() == 0 {
        return None;
    }
    let family = match node(nodes, items[0]) {
        Some(SpaceNode::Name(bytes)) => bytes.as_slice(),
        _ => {
            return None;
        },
    };
    if bytes_equal(family, literal("ICCBased")) {
        if items.len() < 2 {
            return None;
        }
        let stream = resolve(nodes, items[1]);
        Some(ColorSpace::Approximated { components: icc_components_of(node(nodes, stream)) })
    } else if bytes_equal(family, literal("Indexed")) || bytes_equal(family, literal("I")) {
        if items.len() < 3 {
            return None;
        }
        let base = match parse_space(nodes, items[1], depth + 1) {
            Some(base) => base,
            None => {
                return None;
            },
        };
        let high_at = resolve(nodes, items[2]);
        match node(nodes, high_at) {
            Some(SpaceNode::Int(high)) => {
                let high: i64 = *high;
                let clamped: u32 = if high < 0 {
                    0
                } else if high > 255 {
                    255
                } else {
                    high as u32
                };
                Some(
                    ColorSpace::Indexed {
                        base: Box::new(base),
                        lookup: lookup_of(nodes, items),
                        high: clamped,
                    },
                )
            },
            _ => None,
        }
    } else if bytes_equal(family, literal("Separation")) || bytes_equal(family, literal("DeviceN")) {
        if items.len() < 3 {
            return None;
        }
        let components: usize = if bytes_equal(family, literal("Separation")) {
            1
        } else {
            let inks_at = resolve(nodes, items[1]);
            match node(nodes, inks_at) {
                Some(SpaceNode::Array(inks)) => inks.len(),
                _ => 1,
            }
        };
        let alternate = match parse_space(nodes, items[2], depth + 1) {
            Some(alternate) => alternate,
            None => {
                return None;
            },
        };
        let tint = if items.len() > 3 {
            Some((items[3], depth + 1))
        } else {
            None
        };
        Some(ColorSpace::Separation { components, alternate: Box::new(alternate), tint })
    } else if bytes_equal(family, literal("Pattern")) {
        let base = if items.len() < 2 {
            None
        } else {
            match parse_space(nodes, items[1], depth + 1) {
                Some(base) => Some(Box::new(base)),
                None => None,
            }
        };
        Some(ColorSpace::Pattern { base })
    } else if bytes_equal(family, literal("CalGray")) {
        Some(ColorSpace::DeviceGray)
    } else if bytes_equal(family, literal("CalRGB")) {
        Some(ColorSpace::DeviceRgb)
    } else if bytes_equal(family, literal("Lab")) {
        let params = if items.len() < 2 {
            None
        } else {
            Some(resolve(nodes, items[1]))
        };
        Some(ColorSpace::Lab { params })
    } else {
        None
    }
}

/// The colour space a resource name selects (8.6.6): a device family named
/// directly needs no `/ColorSpace` entry at all; any other name reads the
/// object `entry` its page's `/ColorSpace` dictionary gives for it.
pub fn color_space(name: &[u8], nodes: &Vec<SpaceNode>, entry: Option<usize>) -> (r: Option<ColorSpace>)
    ensures
        r == spec_color_space(name@, nodes@, entry),
{
    match device_space_of(name) {
        Some(space) => Some(space),
        None => match entry {
            Some(at) => parse_space(nodes, at, 0),
            None => None,
        },
    }
}

} // verus!
