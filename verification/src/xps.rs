//! An XPS package opens as the fixed document it is.
//!
//! ECMA-388 E.3's discrimination, step by step, decides whether an archive
//! that opened as a ZIP is an XPS at all — and a comic archive that happens
//! to carry a `[Content_Types].xml` is still a comic archive. Two dialects
//! spell the one vocabulary, and the namespace is the only discriminator
//! there is. The spine — `FixedDocumentSequence` to `FixedDocument` to
//! `FixedPage` — is planned here page by page, each page either drawing its
//! own markup or standing as a placeholder with its reason named; painting
//! the markup is the page builder's.

use vstd::prelude::*;

use crate::text::same_text;

verus! {

// ---- The two dialects -------------------------------------------------------

/// XPS 1.0's namespace, which is what every Microsoft serialiser writes.
pub const XPS_1_0_NAMESPACE: &'static str = "http://schemas.microsoft.com/xps/2005/06";

/// ECMA-388 Table D-2's OpenXPS namespace.
pub const OPENXPS_NAMESPACE: &'static str = "http://schemas.openxps.org/oxps/v1.0";

/// XPS 1.0's fixed-representation relationship type.
pub const XPS_1_0_FIXED_REPRESENTATION: &'static str =
    "http://schemas.microsoft.com/xps/2005/06/fixedrepresentation";

/// OpenXPS's fixed-representation relationship type.
pub const OPENXPS_FIXED_REPRESENTATION: &'static str =
    "http://schemas.openxps.org/oxps/v1.0/fixedrepresentation";

/// XPS 1.0's required-resource relationship type.
pub const XPS_1_0_REQUIRED_RESOURCE: &'static str =
    "http://schemas.microsoft.com/xps/2005/06/required-resource";

/// OpenXPS's required-resource relationship type.
pub const OPENXPS_REQUIRED_RESOURCE: &'static str =
    "http://schemas.openxps.org/oxps/v1.0/required-resource";

/// ECMA-388 Table D-4's media type for a `FixedDocumentSequence` part, which
/// both dialects carry.
pub const FIXED_DOCUMENT_SEQUENCE_MEDIA_TYPE: &'static str =
    "application/vnd.ms-package.xps-fixeddocumentsequence+xml";

/// Table D-4's media type for a `FixedDocument` part, in both dialects.
pub const FIXED_DOCUMENT_MEDIA_TYPE: &'static str =
    "application/vnd.ms-package.xps-fixeddocument+xml";

/// Table D-4's media type for a `FixedPage` part, in both dialects.
pub const FIXED_PAGE_MEDIA_TYPE: &'static str = "application/vnd.ms-package.xps-fixedpage+xml";

/// Which spelling of the one vocabulary a package used — read from the
/// **namespace** and never from the content type.
#[derive(Clone, Copy, Debug, PartialEq, Eq, Structural, Hash)]
pub enum Dialect {
    /// `http://schemas.microsoft.com/xps/2005/06`.
    Xps1,
    /// `http://schemas.openxps.org/oxps/v1.0`.
    OpenXps,
}

/// The element namespace a dialect uses.
pub open spec fn spec_namespace(dialect: Dialect) -> Seq<char> {
    match dialect {
        Dialect::Xps1 => XPS_1_0_NAMESPACE@,
        Dialect::OpenXps => OPENXPS_NAMESPACE@,
    }
}

/// The fixed-representation relationship type a dialect uses.
pub open spec fn spec_fixed_representation(dialect: Dialect) -> Seq<char> {
    match dialect {
        Dialect::Xps1 => XPS_1_0_FIXED_REPRESENTATION@,
        Dialect::OpenXps => OPENXPS_FIXED_REPRESENTATION@,
    }
}

/// The required-resource relationship type a dialect uses.
pub open spec fn spec_required_resource(dialect: Dialect) -> Seq<char> {
    match dialect {
        Dialect::Xps1 => XPS_1_0_REQUIRED_RESOURCE@,
        Dialect::OpenXps => OPENXPS_REQUIRED_RESOURCE@,
    }
}

impl Dialect {
    /// The element namespace this dialect uses.
    pub fn namespace(self) -> (r: &'static str)
        ensures
            r@ == spec_namespace(self),
    {
        match self {
            Dialect::Xps1 => XPS_1_0_NAMESPACE,
            Dialect::OpenXps => OPENXPS_NAMESPACE,
        }
    }

    /// The fixed-representation relationship type this dialect uses.
    pub fn fixed_representation(self) -> (r: &'static str)
        ensures
            r@ == spec_fixed_representation(self),
    {
        match self {
            Dialect::Xps1 => XPS_1_0_FIXED_REPRESENTATION,
            Dialect::OpenXps => OPENXPS_FIXED_REPRESENTATION,
        }
    }

    /// The required-resource relationship type this dialect uses.
    pub fn required_resource(self) -> (r: &'static str)
        ensures
            r@ == spec_required_resource(self),
    {
        match self {
            Dialect::Xps1 => XPS_1_0_REQUIRED_RESOURCE,
            Dialect::OpenXps => OPENXPS_REQUIRED_RESOURCE,
        }
    }
}

/// The dialect an element namespace names, if either.
pub open spec fn spec_dialect_of(namespace: Option<Seq<char>>) -> Option<Dialect> {
    match namespace {
        Some(text) => if text == XPS_1_0_NAMESPACE@ {
            Some(Dialect::Xps1)
        } else if text == OPENXPS_NAMESPACE@ {
            Some(Dialect::OpenXps)
        } else {
            None
        },
        None => None,
    }
}

/// The dialect a relationship type names as a fixed representation, if
/// either.
pub open spec fn spec_fixed_representation_dialect(kind: Seq<char>) -> Option<Dialect> {
    if kind == XPS_1_0_FIXED_REPRESENTATION@ {
        Some(Dialect::Xps1)
    } else if kind == OPENXPS_FIXED_REPRESENTATION@ {
        Some(Dialect::OpenXps)
    } else {
        None
    }
}

/// Whether an element namespace is one of the two dialects.
pub fn dialect_of(namespace: Option<&str>) -> (r: Option<Dialect>)
    ensures
        r == spec_dialect_of(
            match namespace {
                Some(text) => Some(text@),
                None => None,
            },
        ),
{
    match namespace {
        Some(text) => if same_text(text, XPS_1_0_NAMESPACE) {
            Some(Dialect::Xps1)
        } else if same_text(text, OPENXPS_NAMESPACE) {
            Some(Dialect::OpenXps)
        } else {
            None
        },
        None => None,
    }
}

/// Whether a relationship type is one of the two fixed-representation types.
pub fn fixed_representation_dialect(kind: &str) -> (r: Option<Dialect>)
    ensures
        r == spec_fixed_representation_dialect(kind@),
{
    if same_text(kind, XPS_1_0_FIXED_REPRESENTATION) {
        Some(Dialect::Xps1)
    } else if same_text(kind, OPENXPS_FIXED_REPRESENTATION) {
        Some(Dialect::OpenXps)
    } else {
        None
    }
}

/// Each dialect reads back from its own namespace and its own
/// fixed-representation type, and the two spellings never meet: a name is
/// one dialect's or the other's, never both.
pub proof fn lemma_dialects_read_back(dialect: Dialect)
    ensures
        spec_dialect_of(Some(spec_namespace(dialect))) == Some(dialect),
        spec_fixed_representation_dialect(spec_fixed_representation(dialect)) == Some(dialect),
        spec_namespace(Dialect::Xps1) != spec_namespace(Dialect::OpenXps),
        spec_fixed_representation(Dialect::Xps1) != spec_fixed_representation(Dialect::OpenXps),
{
    reveal_strlit("http://schemas.microsoft.com/xps/2005/06");
    reveal_strlit("http://schemas.openxps.org/oxps/v1.0");
    reveal_strlit("http://schemas.microsoft.com/xps/2005/06/fixedrepresentation");
    reveal_strlit("http://schemas.openxps.org/oxps/v1.0/fixedrepresentation");
    assert(XPS_1_0_NAMESPACE@[15] != OPENXPS_NAMESPACE@[15]);
    assert(XPS_1_0_FIXED_REPRESENTATION@[15] != OPENXPS_FIXED_REPRESENTATION@[15]);
}

/// A namespace that reads as a dialect is that dialect's namespace.
pub proof fn lemma_dialect_of_is_exact(namespace: Seq<char>, dialect: Dialect)
    requires
        spec_dialect_of(Some(namespace)) == Some(dialect),
    ensures
        namespace == spec_namespace(dialect),
{
    lemma_dialects_read_back(dialect);
}

// ---- Page-level and element-level degradation ---------------------------------

/// Why a synthesised fixed page is not the picture the package holds.
///
/// **A page that draws carries none of these**; an element that could not be
/// drawn reports through [`XpsElementDefect`] instead.
#[derive(Clone, Copy, Debug, PartialEq, Eq, Structural, Hash)]
#[non_exhaustive]
pub enum XpsPageDefect {
    /// A `PageContent` whose `Source` did not resolve to a part in the package.
    ///
    /// The page is kept anyway and **keeps its number**: a `FixedDocument` that
    /// references ten pages and resolves nine would otherwise produce a
    /// nine-page document with no gap anywhere in it.
    SourceUnresolved,
    /// A `DocumentReference` whose `Source` did not resolve, or whose document
    /// part would not read. One placeholder page stands for it: a document
    /// that vanished silently takes an unknown number of pages with it.
    DocumentUnresolved,
    /// The fixed page part will not read, or its root element is not a
    /// `FixedPage` in either dialect's namespace.
    Unreadable,
    /// The root element read and states a size, and the markup **under** it
    /// does not read. The page keeps the size the file stated and is the
    /// neutral placeholder.
    ContentUnreadable,
    /// `Width` or `Height` is absent, unparseable or outside what a page can
    /// be, so the page took the book's own size instead.
    SizeUnusable,
    /// The reference named a part the package holds and **its media type is
    /// not the one Table D-4 fixes for it**. The page is kept and keeps its
    /// number.
    MediaTypeMismatch,
    /// A `ContentBox` or `BleedBox` was stated and would not read as four
    /// usable numbers, so the page carries no `/CropBox` or `/BleedBox`.
    PageBoxUnusable,
}

/// The sentence each defect reads as.
pub open spec fn spec_page_defect_message(defect: XpsPageDefect) -> Seq<char> {
    match defect {
        XpsPageDefect::SourceUnresolved => "a `PageContent` naming no part"@,
        XpsPageDefect::DocumentUnresolved => "a `DocumentReference` naming no readable part"@,
        XpsPageDefect::Unreadable => "the fixed page part is not a readable `FixedPage`"@,
        XpsPageDefect::ContentUnreadable => "the fixed page's markup will not read"@,
        XpsPageDefect::SizeUnusable => "the fixed page states no usable size"@,
        XpsPageDefect::MediaTypeMismatch => "a reference naming a part whose media type is not the payload's"@,
        XpsPageDefect::PageBoxUnusable => "a `ContentBox` or `BleedBox` that will not read"@,
    }
}

impl XpsPageDefect {
    /// The defect as a sentence a person reads.
    pub fn message(&self) -> (r: String)
        ensures
            r@ == spec_page_defect_message(*self),
    {
        match self {
            XpsPageDefect::SourceUnresolved => "a `PageContent` naming no part".to_owned(),
            XpsPageDefect::DocumentUnresolved => "a `DocumentReference` naming no readable part".to_owned(),
            XpsPageDefect::Unreadable => "the fixed page part is not a readable `FixedPage`".to_owned(),
            XpsPageDefect::ContentUnreadable => "the fixed page's markup will not read".to_owned(),
            XpsPageDefect::SizeUnusable => "the fixed page states no usable size".to_owned(),
            XpsPageDefect::MediaTypeMismatch => "a reference naming a part whose media type is not the payload's".to_owned(),
            XpsPageDefect::PageBoxUnusable => "a `ContentBox` or `BleedBox` that will not read".to_owned(),
        }
    }
}

/// Why one element of a fixed page is not the picture the markup describes:
/// geometry unreadable is not painted, paint unreadable is painted in the
/// neutral placeholder grey, and a transform, clip or opacity unreadable
/// refuses the element and everything under it.
#[derive(Clone, Copy, Debug, PartialEq, Eq, Structural, Hash)]
#[non_exhaustive]
pub enum XpsElementDefect {
    /// A `Data` that is absent or will not parse as 11.2's geometry. **Not
    /// painted.**
    GeometryUnreadable,
    /// A `RenderTransform` or `Transform` that is not 14.4.1's six numbers.
    /// **The element and its descendants are refused.**
    TransformUnreadable,
    /// A `Clip` that will not parse. **Refused**, because a shape that failed
    /// to be a clip draws everything the clip was there to hide.
    ClipUnreadable,
    /// An `Opacity` that is not a number in `[0, 1]`. **Refused.**
    OpacityUnreadable,
    /// An `OpacityMask`, which this build does not apply (14.3). **Refused.**
    OpacityMaskUnsupported,
    /// A `{StaticResource}` naming a key no dictionary in scope holds.
    /// **Painted grey.**
    BrushUnresolved,
    /// A `{StaticResource}` chain that returns to a key it already passed
    /// through. **Painted grey**, and refused rather than recursed.
    BrushCyclic,
    /// A `{StaticResource}` chain longer than the depth cap. **Painted grey.**
    /// Not the same as a cycle and never reported as one.
    BrushTooDeep,
    /// A brush this build does not paint: an `ImageBrush` or a `VisualBrush`, a
    /// `ContextColor` naming an ICC profile, or a gradient asked to stroke.
    /// **Painted grey.**
    BrushUnsupported,
    /// A colour or a gradient that is not 15's syntax. **Painted grey.**
    BrushUnreadable,
    /// The brush reached the page and not exactly: gradient stops whose alphas
    /// differ, or a `ColorInterpolationMode` this build does not interpolate
    /// in.
    BrushApproximated,
    /// A `ResourceDictionary` with a `Source`, naming another part (14.2.4).
    ResourceDictionaryRemote,
    /// A `Glyphs` run. **Not painted**, and named.
    GlyphsNotDrawn,
    /// Markup this build does not draw: an element from another vocabulary, a
    /// property element nothing here reads, a dictionary entry with no
    /// `x:Key`.
    ElementUnknown,
}

/// The sentence each defect reads as.
pub open spec fn spec_element_defect_message(defect: XpsElementDefect) -> Seq<char> {
    match defect {
        XpsElementDefect::GeometryUnreadable => "a `Data` that is not 11.2's geometry"@,
        XpsElementDefect::TransformUnreadable => "a transform that is not six numbers"@,
        XpsElementDefect::ClipUnreadable => "a `Clip` that is not 11.2's geometry"@,
        XpsElementDefect::OpacityUnreadable => "an `Opacity` that is not a number in [0, 1]"@,
        XpsElementDefect::OpacityMaskUnsupported => "an `OpacityMask` this build cannot apply"@,
        XpsElementDefect::BrushUnresolved => "a `{StaticResource}` naming no resource"@,
        XpsElementDefect::BrushCyclic => "a `{StaticResource}` chain that returns to itself"@,
        XpsElementDefect::BrushTooDeep => "a `{StaticResource}` chain past the depth cap"@,
        XpsElementDefect::BrushUnsupported => "a brush this build does not paint"@,
        XpsElementDefect::BrushUnreadable => "a colour or gradient that is not 15's syntax"@,
        XpsElementDefect::BrushApproximated => "a brush that reached the page approximately"@,
        XpsElementDefect::ResourceDictionaryRemote => "a `ResourceDictionary` in another part"@,
        XpsElementDefect::GlyphsNotDrawn => "a `Glyphs` run, which is not drawn yet"@,
        XpsElementDefect::ElementUnknown => "markup this build does not draw"@,
    }
}

impl XpsElementDefect {
    /// The defect as a sentence a person reads.
    pub fn message(&self) -> (r: String)
        ensures
            r@ == spec_element_defect_message(*self),
    {
        match self {
            XpsElementDefect::GeometryUnreadable => "a `Data` that is not 11.2's geometry".to_owned(),
            XpsElementDefect::TransformUnreadable => "a transform that is not six numbers".to_owned(),
            XpsElementDefect::ClipUnreadable => "a `Clip` that is not 11.2's geometry".to_owned(),
            XpsElementDefect::OpacityUnreadable => "an `Opacity` that is not a number in [0, 1]".to_owned(),
            XpsElementDefect::OpacityMaskUnsupported => "an `OpacityMask` this build cannot apply".to_owned(),
            XpsElementDefect::BrushUnresolved => "a `{StaticResource}` naming no resource".to_owned(),
            XpsElementDefect::BrushCyclic => "a `{StaticResource}` chain that returns to itself".to_owned(),
            XpsElementDefect::BrushTooDeep => "a `{StaticResource}` chain past the depth cap".to_owned(),
            XpsElementDefect::BrushUnsupported => "a brush this build does not paint".to_owned(),
            XpsElementDefect::BrushUnreadable => "a colour or gradient that is not 15's syntax".to_owned(),
            XpsElementDefect::BrushApproximated => "a brush that reached the page approximately".to_owned(),
            XpsElementDefect::ResourceDictionaryRemote => "a `ResourceDictionary` in another part".to_owned(),
            XpsElementDefect::GlyphsNotDrawn => "a `Glyphs` run, which is not drawn yet".to_owned(),
            XpsElementDefect::ElementUnknown => "markup this build does not draw".to_owned(),
        }
    }
}

// ---- Recognition: ECMA-388 E.3 ----------------------------------------------------

/// One relationship of the package relationships part, and where its target
/// leads.
pub struct RelationshipFacts {
    /// Its relationship type.
    pub kind: String,
    /// `TargetMode="External"`: it names something outside the package.
    pub external: bool,
    /// Its target resolved against the package root (6.5.2) as an absolute
    /// part name, when it is one.
    pub resolved: Option<String>,
    /// Whether the package holds that part.
    pub present: bool,
    /// That part's media type by OPC 7.2.3.5, when the content-types item
    /// reads and gives it one.
    pub media_type: Option<String>,
}

/// What E.3's steps read of an archive that opened as a ZIP.
pub struct PackageFacts {
    /// Whether an item named `[Content_Types].xml` exists.
    pub has_content_types: bool,
    /// Whether the package relationships part `_rels/.rels` exists.
    pub has_package_relationships: bool,
    /// The package relationships, in document order, or `None` when the part
    /// will not read.
    pub relationships: Option<Vec<RelationshipFacts>>,
}

/// What E.3's three steps decided.
#[derive(Debug, PartialEq, Eq)]
pub enum Recognition {
    /// An XPS, with its fixed document sequence part and the dialect the
    /// relationship type was spelled in.
    Xps {
        /// The `FixedDocumentSequence` part's name.
        sequence: String,
        /// The dialect of the fixed-representation relationship.
        dialect: Dialect,
    },
    /// Not an XPS: the comic path takes it, unchanged.
    NotXps,
    /// An XPS whose own structure will not read, refused as an unreadable
    /// package.
    Broken,
}

/// The first relationship, from `from` on, whose type is a fixed
/// representation in either dialect.
pub open spec fn first_fixed(relationships: Seq<RelationshipFacts>, from: int) -> Option<int>
    decreases relationships.len() - from,
{
    if from < 0 || from >= relationships.len() {
        None
    } else if spec_fixed_representation_dialect(relationships[from].kind@) is Some {
        Some(from)
    } else {
        first_fixed(relationships, from + 1)
    }
}

/// ECMA-388 E.3 over what was read.
pub open spec fn spec_recognise(facts: PackageFacts) -> Recognition {
    if !facts.has_content_types || !facts.has_package_relationships {
        Recognition::NotXps
    } else {
        match facts.relationships {
            None => Recognition::Broken,
            Some(relationships) => match first_fixed(relationships@, 0) {
                None => Recognition::NotXps,
                Some(i) => {
                    let relationship = relationships@[i];
                    if relationship.external || relationship.resolved is None || !relationship.present {
                        Recognition::Broken
                    } else {
                        match relationship.media_type {
                            Some(media) if media@ == FIXED_DOCUMENT_SEQUENCE_MEDIA_TYPE@ => Recognition::Xps {
                                sequence: relationship.resolved->0,
                                dialect: spec_fixed_representation_dialect(relationship.kind@)->0,
                            },
                            _ => Recognition::Broken,
                        }
                    }
                },
            },
        }
    }
}

proof fn lemma_first_fixed_is(relationships: Seq<RelationshipFacts>, from: int, at: int)
    requires
        0 <= from <= at < relationships.len(),
        spec_fixed_representation_dialect(relationships[at].kind@) is Some,
        forall|j: int| from <= j < at ==> spec_fixed_representation_dialect(#[trigger] relationships[j].kind@) is None,
    ensures
        first_fixed(relationships, from) == Some(at),
    decreases at - from,
{
    if from < at {
        lemma_first_fixed_is(relationships, from + 1, at);
    }
}

/// A package carrying both OPC items whose first fixed-representation
/// relationship — in either dialect — is internal, resolves to a part the
/// package holds, and has the sequence's media type, is an XPS: its sequence
/// is that part and its dialect the one the relationship type is spelt in.
pub proof fn lemma_a_sound_package_is_xps_in_either_dialect(facts: PackageFacts, at: int, dialect: Dialect)
    requires
        facts.has_content_types,
        facts.has_package_relationships,
        facts.relationships is Some,
        0 <= at < facts.relationships->0@.len(),
        facts.relationships->0@[at].kind@ == spec_fixed_representation(dialect),
        forall|j: int|
            0 <= j < at ==> spec_fixed_representation_dialect(
                #[trigger] facts.relationships->0@[j].kind@,
            ) is None,
        !facts.relationships->0@[at].external,
        facts.relationships->0@[at].resolved is Some,
        facts.relationships->0@[at].present,
        facts.relationships->0@[at].media_type is Some,
        facts.relationships->0@[at].media_type->0@ == FIXED_DOCUMENT_SEQUENCE_MEDIA_TYPE@,
    ensures
        spec_recognise(facts) == (Recognition::Xps {
            sequence: facts.relationships->0@[at].resolved->0,
            dialect,
        }),
{
    lemma_dialects_read_back(dialect);
    lemma_first_fixed_is(facts.relationships->0@, 0, at);
}

proof fn lemma_no_fixed_from(relationships: Seq<RelationshipFacts>, from: int)
    requires
        0 <= from,
        forall|j: int|
            from <= j < relationships.len() ==> spec_fixed_representation_dialect(
                #[trigger] relationships[j].kind@,
            ) is None,
    ensures
        first_fixed(relationships, from) is None,
    decreases relationships.len() - from,
{
    if from < relationships.len() {
        lemma_no_fixed_from(relationships, from + 1);
    }
}

/// An archive missing either OPC item is not an XPS, and neither is an OPC
/// package with no fixed-representation relationship at all; one whose
/// relationships will not read is a broken XPS.
pub proof fn lemma_what_is_not_an_xps(facts: PackageFacts)
    ensures
        !facts.has_content_types || !facts.has_package_relationships ==> spec_recognise(facts)
            == Recognition::NotXps,
        facts.has_content_types && facts.has_package_relationships && facts.relationships is None
            ==> spec_recognise(facts) == Recognition::Broken,
        facts.has_content_types && facts.has_package_relationships && facts.relationships is Some && (
        forall|j: int|
            0 <= j < facts.relationships->0@.len() ==> spec_fixed_representation_dialect(
                #[trigger] facts.relationships->0@[j].kind@,
            ) is None) ==> spec_recognise(facts) == Recognition::NotXps,
{
    if facts.relationships is Some {
        let relationships = facts.relationships->0@;
        if forall|j: int|
            0 <= j < relationships.len() ==> spec_fixed_representation_dialect(
                #[trigger] relationships[j].kind@,
            ) is None {
            lemma_no_fixed_from(relationships, 0);
        }
    }
}

/// ECMA-388 E.3, step by step.
///
/// Step 2 costs no read: a ZIP with no `[Content_Types].xml` item or no
/// `_rels/.rels` item is not an OPC package, which is every comic archive
/// there has ever been. From step 3 on the archive carries OPC's own two
/// parts, so a failure is a broken package rather than a comic — except an
/// OPC package with no fixed representation at all, a `.docx` or an `.odf`,
/// which is not an XPS. A target outside the package, a target that names no
/// part it holds, and a part whose media type is not the sequence's are an
/// XPS that is broken.
pub fn recognise(facts: &PackageFacts) -> (r: Recognition)
    ensures
        r == spec_recognise(*facts),
{
    if !facts.has_content_types {
        return Recognition::NotXps;
    }
    if !facts.has_package_relationships {
        return Recognition::NotXps;
    }
    let relationships = match &facts.relationships {
        Some(relationships) => relationships,
        None => return Recognition::Broken,
    };
    let mut i: usize = 0;
    while i < relationships.len()
        invariant
            facts.has_content_types && facts.has_package_relationships,
            facts.relationships == Some(*relationships),
            i <= relationships@.len(),
            first_fixed(relationships@, 0) == first_fixed(relationships@, i as int),
        decreases relationships@.len() - i,
    {
        let relationship = &relationships[i];
        match fixed_representation_dialect(relationship.kind.as_str()) {
            None => {},
            Some(dialect) => {
                if relationship.external {
                    return Recognition::Broken;
                }
                let sequence = match &relationship.resolved {
                    Some(sequence) => sequence,
                    None => return Recognition::Broken,
                };
                if !relationship.present {
                    return Recognition::Broken;
                }
                return match &relationship.media_type {
                    Some(media) => if same_text(media.as_str(), FIXED_DOCUMENT_SEQUENCE_MEDIA_TYPE) {
                        Recognition::Xps { sequence: sequence.clone(), dialect }
                    } else {
                        Recognition::Broken
                    },
                    None => Recognition::Broken,
                };
            },
        }
        i = i + 1;
    }
    Recognition::NotXps
}

// ---- Synthesis: the spine, page by page ----------------------------------------------

/// Why no document could be synthesised from a package that is an XPS.
#[derive(Clone, Copy, Debug, PartialEq, Eq, Structural, Hash)]
pub enum SynthesisRefusal {
    /// The sequence names no fixed page at all, or will not read.
    NoFixedPages,
    /// A count or a size went past what this build will synthesise.
    TooLarge,
}

/// What a fixed page's root element said about its own geometry.
#[derive(Clone, Copy, Debug, PartialEq, Eq, Structural)]
pub struct GeometryFacts {
    /// `Width` and `Height` are both present and usable.
    pub size_stated: bool,
    /// A `ContentBox` or `BleedBox` was there and would not read.
    pub box_unusable: bool,
}

/// One `PageContent` of a fixed document, and where its `Source` leads.
pub struct PageFacts {
    /// The `Source` attribute, as written.
    pub source: Option<String>,
    /// The source resolved against the document part, when it resolves.
    pub resolved: Option<String>,
    /// Whether the package holds that part.
    pub present: bool,
    /// Whether that part's media type is [`FIXED_PAGE_MEDIA_TYPE`].
    pub media_ok: bool,
    /// The part's root element geometry, when it reads as a `FixedPage` in
    /// either dialect.
    pub geometry: Option<GeometryFacts>,
}

/// One `DocumentReference` of the sequence, and where its `Source` leads.
pub struct DocumentFacts {
    /// The `Source` attribute, as written.
    pub source: Option<String>,
    /// The source resolved against the sequence part, when it resolves.
    pub resolved: Option<String>,
    /// Whether the package holds that part.
    pub present: bool,
    /// Whether that part's media type is [`FIXED_DOCUMENT_MEDIA_TYPE`].
    pub media_ok: bool,
    /// The document's `PageContent` children in markup order, when its part
    /// reads as a `FixedDocument`.
    pub pages: Option<Vec<PageFacts>>,
}

/// One page, decided but not yet written.
#[derive(Debug, PartialEq, Eq)]
pub struct PagePlan {
    /// The part name, or the reference that did not resolve to one, for the
    /// report.
    pub name: String,
    /// Whether the page draws its own markup; otherwise it is a placeholder.
    pub draws: bool,
    /// Why this page is a placeholder, or `None` for a page that draws.
    pub defect: Option<XpsPageDefect>,
    /// A second warning beside `defect`: a page that draws may still have
    /// stated a box that would not read.
    pub extra: Option<XpsPageDefect>,
}

/// A page plan as values.
pub struct PlanView {
    /// The name the report carries.
    pub name: Seq<char>,
    /// Whether the page draws its own markup.
    pub draws: bool,
    /// Why the page is a placeholder.
    pub defect: Option<XpsPageDefect>,
    /// The second warning.
    pub extra: Option<XpsPageDefect>,
}

impl View for PagePlan {
    type V = PlanView;

    open spec fn view(&self) -> PlanView {
        PlanView { name: self.name@, draws: self.draws, defect: self.defect, extra: self.extra }
    }
}

/// The part name a plan reports, or the reference that did not become one.
pub open spec fn spec_reference_name(resolved: Option<String>, source: Option<String>) -> Seq<char> {
    match resolved {
        Some(name) => name@,
        None => match source {
            Some(text) => text@,
            None => Seq::empty(),
        },
    }
}

/// The part name a plan reports, or the reference that did not become one.
pub fn reference_name(resolved: &Option<String>, source: &Option<String>) -> (r: String)
    ensures
        r@ == spec_reference_name(*resolved, *source),
{
    match resolved {
        Some(name) => name.clone(),
        None => match source {
            Some(text) => text.clone(),
            None => String::new(),
        },
    }
}

/// A placeholder page with its reason.
pub open spec fn placeholder(name: Seq<char>, defect: XpsPageDefect) -> PlanView {
    PlanView { name, draws: false, defect: Some(defect), extra: None }
}

/// What one `PageContent` becomes.
pub open spec fn spec_plan_page(page: PageFacts) -> PlanView {
    let name = spec_reference_name(page.resolved, page.source);
    if page.resolved is None || !page.present {
        placeholder(name, XpsPageDefect::SourceUnresolved)
    } else if !page.media_ok {
        placeholder(name, XpsPageDefect::MediaTypeMismatch)
    } else {
        match page.geometry {
            None => placeholder(name, XpsPageDefect::Unreadable),
            Some(geometry) => if geometry.size_stated {
                PlanView {
                    name,
                    draws: true,
                    defect: None,
                    extra: if geometry.box_unusable {
                        Some(XpsPageDefect::PageBoxUnusable)
                    } else {
                        None
                    },
                }
            } else {
                placeholder(name, XpsPageDefect::SizeUnusable)
            },
        }
    }
}

/// What one `PageContent` becomes.
///
/// A reference that does not resolve, or names no part, keeps its number as a
/// placeholder. A part whose media type is not a fixed page's is not read as
/// one on the strength of what its name ends in. A `FixedPage` whose size is
/// missing or unusable is still a page, at the book's own size, and carries no
/// boxes — `SizeUnusable` already says why.
pub fn plan_page(page: &PageFacts) -> (r: PagePlan)
    ensures
        r@ == spec_plan_page(*page),
{
    let name = reference_name(&page.resolved, &page.source);
    if page.resolved.is_none() || !page.present {
        return PagePlan { name, draws: false, defect: Some(XpsPageDefect::SourceUnresolved), extra: None };
    }
    if !page.media_ok {
        return PagePlan { name, draws: false, defect: Some(XpsPageDefect::MediaTypeMismatch), extra: None };
    }
    match page.geometry {
        None => PagePlan { name, draws: false, defect: Some(XpsPageDefect::Unreadable), extra: None },
        Some(geometry) => if geometry.size_stated {
            let extra = if geometry.box_unusable {
                Some(XpsPageDefect::PageBoxUnusable)
            } else {
                None
            };
            PagePlan { name, draws: true, defect: None, extra }
        } else {
            PagePlan { name, draws: false, defect: Some(XpsPageDefect::SizeUnusable), extra: None }
        },
    }
}

/// Whether a document reference leads to a fixed document whose pages read.
pub open spec fn document_reads(document: DocumentFacts) -> bool {
    document.resolved is Some && document.present && document.media_ok && document.pages is Some
}

/// What one `DocumentReference` becomes: its pages, or one placeholder that
/// stands for a document that vanished with an unknown number of pages.
pub open spec fn spec_document_plans(document: DocumentFacts) -> Seq<PlanView> {
    if document_reads(document) {
        document.pages->0@.map_values(|page: PageFacts| spec_plan_page(page))
    } else {
        let named = document.resolved is Some && document.present;
        seq![
            placeholder(
                spec_reference_name(document.resolved, document.source),
                if named && !document.media_ok {
                    XpsPageDefect::MediaTypeMismatch
                } else {
                    XpsPageDefect::DocumentUnresolved
                },
            ),
        ]
    }
}

/// Every page the first `count` documents plan, in markup order.
pub open spec fn spec_spine(documents: Seq<DocumentFacts>, count: int) -> Seq<PlanView>
    decreases count,
{
    if count <= 0 {
        Seq::empty()
    } else {
        spec_spine(documents, count - 1) + spec_document_plans(documents[count - 1])
    }
}

/// What synthesis may spend.
#[derive(Clone, Copy, Debug, PartialEq, Eq, Structural)]
pub struct PlanLimits {
    /// Fixed pages synthesised.
    pub max_pages: usize,
    /// What the document undertakes before any page.
    pub document_overhead: usize,
    /// What each page undertakes.
    pub page_overhead: usize,
    /// Bytes of the document handed to the parser.
    pub max_synthesised: usize,
}

/// Whether `pages` pages fit the synthesis budget: the document's overhead
/// plus each page's, the product saturating, must not overflow and must not
/// pass the cap.
pub open spec fn budget_fits(pages: int, limits: PlanLimits) -> bool {
    let product = pages * limits.page_overhead;
    let charged = if product > usize::MAX { usize::MAX as int } else { product };
    limits.document_overhead + charged <= usize::MAX && limits.document_overhead + charged
        <= limits.max_synthesised
}

/// How a sequence's documents plan out, or why they refuse.
pub open spec fn spine_outcome(documents: Option<Seq<DocumentFacts>>, limits: PlanLimits, r: Result<
    Vec<PagePlan>,
    SynthesisRefusal,
>) -> bool {
    match documents {
        None => r == Err::<Vec<PagePlan>, SynthesisRefusal>(SynthesisRefusal::NoFixedPages),
        Some(documents) => {
            let spine = spec_spine(documents, documents.len() as int);
            if documents.len() == 0 {
                r == Err::<Vec<PagePlan>, SynthesisRefusal>(SynthesisRefusal::NoFixedPages)
            } else if documents.len() > limits.max_pages || spine.len() > limits.max_pages {
                r == Err::<Vec<PagePlan>, SynthesisRefusal>(SynthesisRefusal::TooLarge)
            } else if spine.len() == 0 {
                r == Err::<Vec<PagePlan>, SynthesisRefusal>(SynthesisRefusal::NoFixedPages)
            } else if !budget_fits(spine.len() as int, limits) {
                r == Err::<Vec<PagePlan>, SynthesisRefusal>(SynthesisRefusal::TooLarge)
            } else {
                r matches Ok(plans) && plans@.map_values(|plan: PagePlan| plan@) == spine
            }
        },
    }
}

/// Adds one page's plan, or refuses because the page cap is spent.
pub fn push_plan<T>(plans: &mut Vec<T>, plan: T, max_pages: usize) -> (r: Result<(), SynthesisRefusal>)
    ensures
        old(plans)@.len() >= max_pages ==> r == Err::<(), SynthesisRefusal>(SynthesisRefusal::TooLarge)
            && final(plans)@ == old(plans)@,
        old(plans)@.len() < max_pages ==> r is Ok && final(plans)@ == old(plans)@.push(plan),
{
    if plans.len() >= max_pages {
        return Err(SynthesisRefusal::TooLarge);
    }
    plans.push(plan);
    Ok(())
}

proof fn lemma_spine_grows(documents: Seq<DocumentFacts>, i: int, j: int)
    requires
        0 <= i <= j,
    ensures
        spec_spine(documents, i).len() <= spec_spine(documents, j).len(),
    decreases j - i,
{
    if i < j {
        lemma_spine_grows(documents, i, j - 1);
    }
}

/// Plans every page of the sequence's documents, in markup order.
///
/// A sequence naming no documents, or one that will not read, has no page to
/// degrade *to*. A sequence naming more documents than the page cap is
/// refused before any of them is resolved: a reference is not a page, so the
/// page cap does not bound the walk on its own. Each document contributes its
/// pages, or one placeholder when it will not read. The budget is charged on
/// what the pages have undertaken to contribute, before anything is built.
#[verifier::loop_isolation(false)]
pub fn plan_spine(documents: Option<Vec<DocumentFacts>>, limits: PlanLimits) -> (r: Result<
    Vec<PagePlan>,
    SynthesisRefusal,
>)
    ensures
        spine_outcome(
            match documents {
                Some(documents) => Some(documents@),
                None => None,
            },
            limits,
            r,
        ),
{
    let documents = match documents {
        Some(documents) => documents,
        None => return Err(SynthesisRefusal::NoFixedPages),
    };
    if documents.len() == 0 {
        return Err(SynthesisRefusal::NoFixedPages);
    }
    if documents.len() > limits.max_pages {
        return Err(SynthesisRefusal::TooLarge);
    }
    let ghost whole = spec_spine(documents@, documents@.len() as int);
    let mut plans: Vec<PagePlan> = Vec::new();
    let mut d: usize = 0;
    while d < documents.len()
        invariant
            d <= documents@.len(),
            whole == spec_spine(documents@, documents@.len() as int),
            plans@.map_values(|plan: PagePlan| plan@) == spec_spine(documents@, d as int),
            plans@.len() <= limits.max_pages,
        decreases documents@.len() - d,
    {
        let document = &documents[d];
        let readable = document.resolved.is_some() && document.present && document.media_ok
            && document.pages.is_some();
        let ghost before = plans@.map_values(|plan: PagePlan| plan@);
        if !readable {
            let named = document.resolved.is_some() && document.present;
            let defect = if named && !document.media_ok {
                XpsPageDefect::MediaTypeMismatch
            } else {
                XpsPageDefect::DocumentUnresolved
            };
            let plan = PagePlan {
                name: reference_name(&document.resolved, &document.source),
                draws: false,
                defect: Some(defect),
                extra: None,
            };
            let ghost view = plan@;
            let pushed = push_plan(&mut plans, plan, limits.max_pages);
            if pushed.is_err() {
                proof {
                    assert(spec_spine(documents@, d + 1).len() > limits.max_pages);
                    lemma_spine_grows(documents@, d + 1, documents@.len() as int);
                }
                return Err(SynthesisRefusal::TooLarge);
            }
            assert(plans@.map_values(|plan: PagePlan| plan@) =~= before.push(view));
            assert(spec_document_plans(documents@[d as int]) =~= seq![view]);
        } else {
            let pages = match &document.pages {
                Some(pages) => pages,
                None => {
                    return Err(SynthesisRefusal::NoFixedPages);
                },
            };
            let mut p: usize = 0;
            while p < pages.len()
                invariant
                    d < documents@.len(),
                    document == &documents@[d as int],
                    document_reads(*document),
                    document.pages == Some(*pages),
                    p <= pages@.len(),
                    whole == spec_spine(documents@, documents@.len() as int),
                    before == spec_spine(documents@, d as int),
                    plans@.map_values(|plan: PagePlan| plan@) == before + pages@.subrange(0, p as int).map_values(
                        |page: PageFacts| spec_plan_page(page),
                    ),
                    plans@.len() <= limits.max_pages,
                decreases pages@.len() - p,
            {
                let plan = plan_page(&pages[p]);
                let ghost view = plan@;
                let ghost was = plans@.map_values(|plan: PagePlan| plan@);
                let pushed = push_plan(&mut plans, plan, limits.max_pages);
                if pushed.is_err() {
                    proof {
                        let mine = pages@.map_values(|page: PageFacts| spec_plan_page(page));
                        assert(spec_document_plans(documents@[d as int]) == mine);
                        assert(pages@.subrange(0, p as int).map_values(|page: PageFacts| spec_plan_page(page)).len() == p);
                        assert(spec_spine(documents@, d + 1) == before + mine);
                        assert(spec_spine(documents@, d + 1).len() > limits.max_pages);
                        lemma_spine_grows(documents@, d + 1, documents@.len() as int);
                    }
                    return Err(SynthesisRefusal::TooLarge);
                }
                proof {
                    assert(pages@.subrange(0, p + 1).map_values(|page: PageFacts| spec_plan_page(page))
                        =~= pages@.subrange(0, p as int).map_values(|page: PageFacts| spec_plan_page(page)).push(view));
                    assert(plans@.map_values(|plan: PagePlan| plan@) =~= was.push(view));
                }
                p = p + 1;
            }
            proof {
                assert(pages@.subrange(0, pages@.len() as int) =~= pages@);
            }
        }
        d = d + 1;
    }
    let count = plans.len();
    if count == 0 {
        return Err(SynthesisRefusal::NoFixedPages);
    }
    // The per-page charge saturates rather than wrapping.
    let charged = match count.checked_mul(limits.page_overhead) {
        Some(charged) => charged,
        None => usize::MAX,
    };
    match limits.document_overhead.checked_add(charged) {
        Some(total) => if total > limits.max_synthesised {
            return Err(SynthesisRefusal::TooLarge);
        },
        None => return Err(SynthesisRefusal::TooLarge),
    }
    Ok(plans)
}

// ---- The spine's markup ------------------------------------------------------------

/// One event of a part's markup, as far as reading the spine needs it.
pub enum MarkupEvent {
    /// A start tag: its local name, its namespace, and its `Source`
    /// attribute.
    Start {
        /// The element's local name.
        local: String,
        /// The element's namespace, when it has one.
        namespace: Option<String>,
        /// The element's `Source` attribute, when it carries one.
        source: Option<String>,
    },
    /// An end tag.
    End,
    /// Anything else: text, a comment, a processing instruction.
    Other,
}

/// Where a walk over a part's markup has got to.
pub struct SpineWalk {
    /// How many elements are open.
    pub depth: int,
    /// Whether the root element has been seen.
    pub seen_root: bool,
    /// Every child's `Source` so far, in markup order.
    pub sources: Seq<Option<Seq<char>>>,
    /// Whether the part has been refused.
    pub refused: bool,
}

/// A text's view, when there is one.
pub open spec fn text_view(text: Option<String>) -> Option<Seq<char>> {
    match text {
        Some(text) => Some(text@),
        None => None,
    }
}

/// One event's effect on the walk. `None` is an event that would not read.
pub open spec fn walk_step(walk: SpineWalk, event: Option<MarkupEvent>, root: Seq<char>, child: Seq<char>) -> SpineWalk {
    if walk.refused {
        walk
    } else {
        match event {
            None => SpineWalk { refused: true, ..walk },
            Some(MarkupEvent::Start { local, namespace, source }) => {
                let depth = walk.depth + 1;
                let known = spec_dialect_of(text_view(namespace)) is Some;
                if depth == 1 {
                    if local@ != root || !known {
                        SpineWalk { refused: true, ..walk }
                    } else {
                        SpineWalk { depth, seen_root: true, ..walk }
                    }
                } else if depth == 2 && local@ == child && known {
                    SpineWalk { depth, sources: walk.sources.push(text_view(source)), ..walk }
                } else {
                    SpineWalk { depth, ..walk }
                }
            },
            Some(MarkupEvent::End) => SpineWalk {
                depth: if walk.depth > 0 {
                    walk.depth - 1
                } else {
                    0
                },
                ..walk
            },
            Some(MarkupEvent::Other) => walk,
        }
    }
}

/// The walk over the first `count` events.
pub open spec fn walk_events(events: Seq<Option<MarkupEvent>>, count: int, root: Seq<char>, child: Seq<char>) -> SpineWalk
    decreases count,
{
    if count <= 0 {
        SpineWalk { depth: 0, seen_root: false, sources: Seq::empty(), refused: false }
    } else {
        walk_step(walk_events(events, count - 1, root, child), events[count - 1], root, child)
    }
}

/// Every `child` element's `Source` in markup order, from a part whose root
/// is `root` in either dialect; `None` refuses the part.
pub open spec fn spec_child_sources(events: Option<Seq<Option<MarkupEvent>>>, root: Seq<char>, child: Seq<char>) -> Option<Seq<Option<Seq<char>>>> {
    match events {
        None => None,
        Some(events) => {
            let walk = walk_events(events, events.len() as int, root, child);
            if walk.refused || !walk.seen_root {
                None
            } else {
                Some(walk.sources)
            }
        },
    }
}

proof fn lemma_walk_depth(events: Seq<Option<MarkupEvent>>, count: int, root: Seq<char>, child: Seq<char>)
    requires
        0 <= count,
    ensures
        0 <= walk_events(events, count, root, child).depth <= count,
    decreases count,
{
    if count > 0 {
        lemma_walk_depth(events, count - 1, root, child);
    }
}

/// Every `child` element's `Source`, in **markup order**, from a part whose
/// root is `root` in either dialect.
///
/// `events` is the part's markup as the reader produced it, `None` when the
/// part would not decode at all and an event `None` where the reader failed.
/// `None` refuses the part: the markup is not well formed, or its root is not
/// the element this part must hold. `Some` with a `None` inside is a child
/// that carried no `Source` at all, which is a page that cannot resolve
/// rather than a document that cannot be read.
#[verifier::loop_isolation(false)]
pub fn child_sources(events: Option<&Vec<Option<MarkupEvent>>>, root: &str, child: &str) -> (r: Option<Vec<Option<String>>>)
    ensures
        match r {
            None => spec_child_sources(
                match events {
                    Some(events) => Some(events@),
                    None => None,
                },
                root@,
                child@,
            ) is None,
            Some(sources) => spec_child_sources(
                match events {
                    Some(events) => Some(events@),
                    None => None,
                },
                root@,
                child@,
            ) == Some(sources@.map_values(|source: Option<String>| text_view(source))),
        },
{
    let events = match events {
        Some(events) => events,
        None => return None,
    };
    let mut out: Vec<Option<String>> = Vec::new();
    let mut depth: usize = 0;
    let mut seen_root = false;
    let mut k: usize = 0;
    while k < events.len()
        invariant
            k <= events@.len(),
            ({
                let walk = walk_events(events@, k as int, root@, child@);
                &&& !walk.refused
                &&& walk.depth == depth
                &&& walk.seen_root == seen_root
                &&& walk.sources == out@.map_values(|source: Option<String>| text_view(source))
            }),
        decreases events@.len() - k,
    {
        proof {
            lemma_walk_depth(events@, k as int, root@, child@);
        }
        let ghost was = out@.map_values(|source: Option<String>| text_view(source));
        match &events[k] {
            None => {
                proof {
                    lemma_refusal_sticks(events@, k + 1, events@.len() as int, root@, child@);
                }
                return None;
            },
            Some(MarkupEvent::Start { local, namespace, source }) => {
                depth = depth + 1;
                let known = match namespace {
                    Some(namespace) => dialect_of(Some(namespace.as_str())).is_some(),
                    None => dialect_of(None).is_some(),
                };
                if depth == 1 {
                    if !same_text(local.as_str(), root) || !known {
                        proof {
                            lemma_refusal_sticks(events@, k + 1, events@.len() as int, root@, child@);
                        }
                        return None;
                    }
                    seen_root = true;
                } else if depth == 2 && same_text(local.as_str(), child) && known {
                    let kept = match source {
                        Some(source) => Some(source.clone()),
                        None => None,
                    };
                    let ghost view = text_view(kept);
                    out.push(kept);
                    assert(out@.map_values(|source: Option<String>| text_view(source)) =~= was.push(view));
                }
            },
            Some(MarkupEvent::End) => {
                depth = if depth > 0 {
                    depth - 1
                } else {
                    0
                };
            },
            Some(MarkupEvent::Other) => {},
        }
        k = k + 1;
    }
    if !seen_root {
        return None;
    }
    Some(out)
}

proof fn lemma_refusal_sticks(events: Seq<Option<MarkupEvent>>, from: int, to: int, root: Seq<char>, child: Seq<char>)
    requires
        0 <= from <= to,
        walk_events(events, from, root, child).refused,
    ensures
        walk_events(events, to, root, child).refused,
    decreases to - from,
{
    if from < to {
        lemma_refusal_sticks(events, from, to - 1, root, child);
    }
}

/// Every reference keeps its place: a document that reads contributes one
/// plan per `PageContent`, in markup order, and one that does not
/// contributes exactly one placeholder — so a page that did not resolve
/// never shifts the pages after it.
pub proof fn lemma_every_reference_keeps_its_place(document: DocumentFacts)
    ensures
        document_reads(document) ==> spec_document_plans(document).len() == document.pages->0@.len()
            && forall|i: int|
            0 <= i < document.pages->0@.len() ==> #[trigger] spec_document_plans(document)[i]
                == spec_plan_page(document.pages->0@[i]),
        !document_reads(document) ==> spec_document_plans(document).len() == 1 && !spec_document_plans(
            document,
        )[0].draws,
{
}

/// A page draws exactly when it carries no defect of its own: a placeholder
/// always says why, and a page that draws is never called a placeholder.
pub proof fn lemma_a_page_draws_iff_it_names_no_defect(page: PageFacts)
    ensures
        spec_plan_page(page).draws <==> spec_plan_page(page).defect is None,
        spec_plan_page(page).extra is Some ==> spec_plan_page(page).draws,
{
}

} // verus!
