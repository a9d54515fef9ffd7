//! Font subsetting: cutting every embedded font program down to the glyphs the
//! document draws, and saying which programs went through whole and why.
//!
//! Whole-document, and it has to be: a font used on page two must keep page
//! two's glyphs however thoroughly page one was redacted. The walk over the
//! content and the subsetter itself are the interpreter's and the font
//! layer's; what is here is the bookkeeping between them — which program each
//! font names, which reason a program is left whole for, which name a cut
//! program is written back with — and the report the caller reads.

use vstd::prelude::*;

use crate::text::{push_decimal, push_text, spec_decimal};

verus! {

/// An indirect object's number and generation (7.3.10).
#[derive(Clone, Copy, Debug, PartialEq, Eq, Structural, Hash, PartialOrd, Ord)]
pub struct ObjRef {
    /// The object number.
    pub num: u32,
    /// The generation number.
    pub gen: u16,
}

/// Why a font's program was written through whole.
#[derive(Clone, Copy, Debug, PartialEq, Eq, Structural, Hash)]
pub enum UntouchedReason {
    /// The subsetter would not rebuild the program: a Type 1 program, a CFF
    /// whose charstrings cannot be renumbered without guessing, or bytes that
    /// are neither an sfnt nor a CFF.
    ProgramNotRebuildable,
    /// The subset came out no smaller than the face, so the face — which is
    /// both smaller and the one the producer tested — is what goes in.
    SubsetNotSmaller,
    /// Some code shown through this font resolved to a glyph only by 9.6.6.4's
    /// closing guess, so which glyphs the file needs is not something this
    /// build can state.
    CodeNotMapped,
    /// A form field's `/DA` may draw this font at any character the field is
    /// ever given (12.7.3.3), so there is no set of glyphs to bound.
    FieldResource,
    /// No walked resource dictionary named this font, so nothing was measured
    /// about it.
    ScopeNotWalked,
    /// A Type 3 font's own `/Resources` names this font (9.6.5), and glyphs
    /// shown through it would be credited to the wrong font.
    Type3Resource,
    /// The font is written directly into a resource dictionary rather than by
    /// reference, so there is no object for a rewrite to address.
    NotAnObject,
}

/// The sentence each reason reads as.
pub open spec fn spec_reason_message(reason: UntouchedReason) -> Seq<char> {
    match reason {
        UntouchedReason::ProgramNotRebuildable => "the font program cannot be rebuilt"@,
        UntouchedReason::SubsetNotSmaller => "the subset is no smaller than the face"@,
        UntouchedReason::CodeNotMapped => "a code shown through it selects a glyph only by guess (9.6.6.4)"@,
        UntouchedReason::FieldResource => "a form field's /DA may draw it at any character (12.7.3.3)"@,
        UntouchedReason::ScopeNotWalked => "no walked resource dictionary names it"@,
        UntouchedReason::Type3Resource => "a Type 3 font's own /Resources names it (9.6.5)"@,
        UntouchedReason::NotAnObject => "it is written directly into a resource dictionary"@,
    }
}

impl UntouchedReason {
    /// The reason as a sentence a person reads.
    pub fn message(&self) -> (r: String)
        ensures
            r@ == spec_reason_message(*self),
    {
        match self {
            UntouchedReason::ProgramNotRebuildable => "the font program cannot be rebuilt".to_owned(),
            UntouchedReason::SubsetNotSmaller => "the subset is no smaller than the face".to_owned(),
            UntouchedReason::CodeNotMapped => "a code shown through it selects a glyph only by guess (9.6.6.4)".to_owned(),
            UntouchedReason::FieldResource => "a form field's /DA may draw it at any character (12.7.3.3)".to_owned(),
            UntouchedReason::ScopeNotWalked => "no walked resource dictionary names it".to_owned(),
            UntouchedReason::Type3Resource => "a Type 3 font's own /Resources names it (9.6.5)".to_owned(),
            UntouchedReason::NotAnObject => "it is written directly into a resource dictionary".to_owned(),
        }
    }
}

/// One font program written through whole, and why.
#[derive(Clone, Debug, PartialEq, Eq, Hash)]
pub struct Untouched {
    /// The stream the program is in.
    pub program: ObjRef,
    /// The `/BaseFont` of the first font dictionary that names it, as written.
    pub base_font: String,
    /// How many bytes the program carries, which is the size a subset would
    /// have been measured against.
    pub bytes: usize,
    /// Why.
    pub reason: UntouchedReason,
}

impl Untouched {
    /// The entry as a sentence a person reads: `/{base_font} left whole
    /// ({bytes} bytes): {reason}`.
    pub fn message(&self) -> (r: String)
        ensures
            r@ == "/"@ + self.base_font@ + " left whole ("@ + spec_decimal(self.bytes as nat)
                + " bytes): "@ + spec_reason_message(self.reason),
    {
        let mut out = String::new();
        push_text(&mut out, "/");
        push_text(&mut out, self.base_font.as_str());
        push_text(&mut out, " left whole (");
        push_decimal(&mut out, self.bytes);
        push_text(&mut out, " bytes): ");
        let reason = self.reason.message();
        push_text(&mut out, reason.as_str());
        out
    }
}

/// One font program that was cut down.
#[derive(Clone, Debug, PartialEq, Eq, Hash)]
pub struct Subsetted {
    /// The stream the program is in.
    pub program: ObjRef,
    /// The `/BaseFont` it is now written with, subset tag included.
    pub base_font: String,
    /// How many bytes the program carried before.
    pub before: usize,
    /// How many it carries now.
    pub after: usize,
    /// How many glyphs were asked for, before the subsetter's own closure over
    /// composite components and `.notdef`.
    pub glyphs: usize,
}

/// What a subsetting pass did.
#[derive(Clone, Debug, PartialEq, Eq)]
pub struct SubsetReport {
    /// Every program cut down, in object order.
    pub subsetted: Vec<Subsetted>,
    /// Every program written through whole, in object order.
    ///
    /// **Not an error list.** A document of standard-14 fonts embeds nothing
    /// and reports nothing here; a document whose every face is already a
    /// tight subset reports every one of them, and is right to.
    pub untouched: Vec<Untouched>,
}

/// The bytes the first `count` cut programs carried before.
pub open spec fn sum_before(subsetted: Seq<Subsetted>, count: int) -> int
    decreases count,
{
    if count <= 0 {
        0
    } else {
        sum_before(subsetted, count - 1) + subsetted[count - 1].before
    }
}

/// The bytes the first `count` cut programs carry now.
pub open spec fn sum_after(subsetted: Seq<Subsetted>, count: int) -> int
    decreases count,
{
    if count <= 0 {
        0
    } else {
        sum_after(subsetted, count - 1) + subsetted[count - 1].after
    }
}

/// The bytes the first `count` whole programs carry.
pub open spec fn sum_untouched(untouched: Seq<Untouched>, count: int) -> int
    decreases count,
{
    if count <= 0 {
        0
    } else {
        sum_untouched(untouched, count - 1) + untouched[count - 1].bytes
    }
}

impl SubsetReport {
    /// How many bytes of font program the document carried before.
    pub open spec fn spec_bytes_before(&self) -> int {
        sum_before(self.subsetted@, self.subsetted@.len() as int) + sum_untouched(
            self.untouched@,
            self.untouched@.len() as int,
        )
    }

    /// How many it carries now.
    pub open spec fn spec_bytes_after(&self) -> int {
        sum_after(self.subsetted@, self.subsetted@.len() as int) + sum_untouched(
            self.untouched@,
            self.untouched@.len() as int,
        )
    }

    /// How many bytes of font program the document carried before.
    pub fn bytes_before(&self) -> (r: usize)
        requires
            self.spec_bytes_before() <= usize::MAX,
        ensures
            r == self.spec_bytes_before(),
    {
        proof {
            lemma_sums_grow(self.subsetted@, self.untouched@, 0, self.subsetted@.len() as int);
            lemma_sums_grow(self.subsetted@, self.untouched@, 0, self.untouched@.len() as int);
        }
        let cut = sum_of_before(&self.subsetted);
        let whole = sum_of_untouched(&self.untouched);
        cut + whole
    }

    /// How many it carries now.
    pub fn bytes_after(&self) -> (r: usize)
        requires
            self.spec_bytes_after() <= usize::MAX,
        ensures
            r == self.spec_bytes_after(),
    {
        proof {
            lemma_sums_grow(self.subsetted@, self.untouched@, 0, self.subsetted@.len() as int);
            lemma_sums_grow(self.subsetted@, self.untouched@, 0, self.untouched@.len() as int);
        }
        let cut = sum_of_after(&self.subsetted);
        let whole = sum_of_untouched(&self.untouched);
        cut + whole
    }
}

proof fn lemma_sums_grow(subsetted: Seq<Subsetted>, untouched: Seq<Untouched>, i: int, j: int)
    requires
        0 <= i <= j,
    ensures
        j <= subsetted.len() ==> sum_before(subsetted, i) <= sum_before(subsetted, j),
        j <= subsetted.len() ==> sum_after(subsetted, i) <= sum_after(subsetted, j),
        j <= untouched.len() ==> sum_untouched(untouched, i) <= sum_untouched(untouched, j),
    decreases j - i,
{
    if i < j {
        lemma_sums_grow(subsetted, untouched, i, j - 1);
    }
}

fn sum_of_before(subsetted: &Vec<Subsetted>) -> (r: usize)
    requires
        sum_before(subsetted@, subsetted@.len() as int) <= usize::MAX,
    ensures
        r == sum_before(subsetted@, subsetted@.len() as int),
{
    let mut total: usize = 0;
    let mut i: usize = 0;
    while i < subsetted.len()
        invariant
            i <= subsetted@.len(),
            total == sum_before(subsetted@, i as int),
            sum_before(subsetted@, subsetted@.len() as int) <= usize::MAX,
        decreases subsetted@.len() - i,
    {
        proof {
            lemma_sums_grow(subsetted@, Seq::empty(), i + 1, subsetted@.len() as int);
        }
        total = total + subsetted[i].before;
        i = i + 1;
    }
    total
}

fn sum_of_after(subsetted: &Vec<Subsetted>) -> (r: usize)
    requires
        sum_after(subsetted@, subsetted@.len() as int) <= usize::MAX,
    ensures
        r == sum_after(subsetted@, subsetted@.len() as int),
{
    let mut total: usize = 0;
    let mut i: usize = 0;
    while i < subsetted.len()
        invariant
            i <= subsetted@.len(),
            total == sum_after(subsetted@, i as int),
            sum_after(subsetted@, subsetted@.len() as int) <= usize::MAX,
        decreases subsetted@.len() - i,
    {
        proof {
            lemma_sums_grow(subsetted@, Seq::empty(), i + 1, subsetted@.len() as int);
        }
        total = total + subsetted[i].after;
        i = i + 1;
    }
    total
}

fn sum_of_untouched(untouched: &Vec<Untouched>) -> (r: usize)
    requires
        sum_untouched(untouched@, untouched@.len() as int) <= usize::MAX,
    ensures
        r == sum_untouched(untouched@, untouched@.len() as int),
{
    let mut total: usize = 0;
    let mut i: usize = 0;
    while i < untouched.len()
        invariant
            i <= untouched@.len(),
            total == sum_untouched(untouched@, i as int),
            sum_untouched(untouched@, untouched@.len() as int) <= usize::MAX,
        decreases untouched@.len() - i,
    {
        proof {
            lemma_sums_grow(Seq::empty(), untouched@, i + 1, untouched@.len() as int);
        }
        total = total + untouched[i].bytes;
        i = i + 1;
    }
    total
}

impl Default for SubsetReport {
    fn default() -> (r: SubsetReport)
        ensures
            r.subsetted@.len() == 0,
            r.untouched@.len() == 0,
    {
        SubsetReport { subsetted: Vec::new(), untouched: Vec::new() }
    }
}

/// A pass never adds font bytes: when every cut program is smaller than it
/// was, the document carries no more after than before, and strictly less
/// once anything was cut.
pub proof fn lemma_a_pass_only_shrinks(report: SubsetReport)
    requires
        forall|i: int| 0 <= i < report.subsetted@.len() ==> #[trigger] report.subsetted@[i].after
            < report.subsetted@[i].before,
    ensures
        report.spec_bytes_after() <= report.spec_bytes_before(),
        report.subsetted@.len() > 0 ==> report.spec_bytes_after() < report.spec_bytes_before(),
{
    lemma_cut_sums(report.subsetted@, report.subsetted@.len() as int);
}

proof fn lemma_cut_sums(subsetted: Seq<Subsetted>, count: int)
    requires
        0 <= count <= subsetted.len(),
        forall|i: int| 0 <= i < subsetted.len() ==> #[trigger] subsetted[i].after < subsetted[i].before,
    ensures
        sum_after(subsetted, count) <= sum_before(subsetted, count),
        count > 0 ==> sum_after(subsetted, count) < sum_before(subsetted, count),
    decreases count,
{
    if count > 0 {
        lemma_cut_sums(subsetted, count - 1);
    }
}

// ---- 9.6.4: subset tags -------------------------------------------------------

/// Whether a byte is an ASCII upper-case letter.
pub open spec fn is_upper(byte: u8) -> bool {
    0x41 <= byte <= 0x5A
}

/// Whether a name starts with 9.6.4's tag — six upper-case letters then a
/// plus — and has something after it.
pub open spec fn is_tagged(base_font: Seq<u8>) -> bool {
    &&& base_font.len() > 7
    &&& base_font[6] == 0x2B
    &&& forall|i: int| 0 <= i < 6 ==> is_upper(#[trigger] base_font[i])
}

/// A `/BaseFont` with any 9.6.4 subset tag taken off.
pub open spec fn spec_strip_tag(base_font: Seq<u8>) -> Seq<u8> {
    if is_tagged(base_font) {
        base_font.subrange(7, base_font.len() as int)
    } else {
        base_font
    }
}

/// A `/BaseFont` with any 9.6.4 subset tag taken off.
///
/// The tag names *a set of glyphs*, so one already there named the set the
/// producer kept and says nothing true about the set this pass kept. Stacking
/// a second tag in front of it would produce `ABCDEF+GHIJKL+Times`, which is
/// not a name 9.6.4 describes.
///
/// The shape is exact — six upper-case letters then a plus — because anything
/// looser eats a real name: `A+B` is a font called `A+B`.
pub fn strip_tag(base_font: &[u8]) -> (r: &[u8])
    ensures
        r@ == spec_strip_tag(base_font@),
{
    if base_font.len() > 7 && base_font[6] == 0x2B {
        let mut i: usize = 0;
        while i < 6
            invariant
                base_font@.len() > 7,
                i <= 6,
                forall|j: int| 0 <= j < i ==> is_upper(#[trigger] base_font@[j]),
            decreases 6 - i,
        {
            if !(0x41 <= base_font[i] && base_font[i] <= 0x5A) {
                return base_font;
            }
            i = i + 1;
        }
        return vstd::slice::slice_subrange(base_font, 7, base_font.len());
    }
    base_font
}

/// A tag written in front of a stripped name comes off again: renaming a
/// program replaces the tag it carried rather than stacking a second one.
pub proof fn lemma_a_tag_is_replaced_not_stacked(tag: Seq<u8>, base_font: Seq<u8>)
    requires
        tag.len() == 7,
        tag[6] == 0x2B,
        forall|i: int| 0 <= i < 6 ==> is_upper(#[trigger] tag[i]),
        spec_strip_tag(base_font).len() > 0,
    ensures
        spec_strip_tag(tag + spec_strip_tag(base_font)) == spec_strip_tag(base_font),
{
    let named = tag + spec_strip_tag(base_font);
    assert forall|i: int| 0 <= i < 6 implies is_upper(#[trigger] named[i]) by {
        assert(named[i] == tag[i]);
    }
    assert(named.subrange(7, named.len() as int) =~= spec_strip_tag(base_font));
}

// ---- What the walk learned -------------------------------------------------------

/// The first entry of an association list keyed by `key`.
pub open spec fn key_index<V>(entries: Seq<(ObjRef, V)>, key: ObjRef, from: int) -> Option<int>
    decreases entries.len() - from,
{
    if from < 0 || from >= entries.len() {
        None
    } else if entries[from].0 == key {
        Some(from)
    } else {
        key_index(entries, key, from + 1)
    }
}

pub(crate) proof fn lemma_key_index<V>(entries: Seq<(ObjRef, V)>, key: ObjRef, from: int)
    requires
        0 <= from <= entries.len(),
    ensures
        match key_index(entries, key, from) {
            Some(i) => from <= i < entries.len() && entries[i].0 == key && forall|j: int|
                from <= j < i ==> #[trigger] entries[j].0 != key,
            None => forall|j: int| from <= j < entries.len() ==> #[trigger] entries[j].0 != key,
        },
    decreases entries.len() - from,
{
    if from < entries.len() && entries[from].0 != key {
        lemma_key_index(entries, key, from + 1);
    }
}

/// Two association lists with the same keys in the same places find a key in
/// the same place.
proof fn lemma_key_index_same_keys<V, W>(a: Seq<(ObjRef, V)>, b: Seq<(ObjRef, W)>, key: ObjRef, from: int)
    requires
        a.len() == b.len(),
        forall|i: int| 0 <= i < a.len() ==> #[trigger] a[i].0 == b[i].0,
    ensures
        key_index(a, key, from) == key_index(b, key, from),
    decreases a.len() - from,
{
    if 0 <= from < a.len() && a[from].0 != key {
        lemma_key_index_same_keys(a, b, key, from + 1);
    }
}

proof fn lemma_key_index_first<V>(entries: Seq<(ObjRef, V)>, key: ObjRef, i: int)
    requires
        0 <= i < entries.len(),
        entries[i].0 == key,
        forall|j: int| 0 <= j < i ==> #[trigger] entries[j].0 != key,
    ensures
        key_index(entries, key, 0) == Some(i),
    decreases i,
{
    lemma_key_index_from(entries, key, 0, i);
}

proof fn lemma_key_index_from<V>(entries: Seq<(ObjRef, V)>, key: ObjRef, from: int, i: int)
    requires
        0 <= from <= i < entries.len(),
        entries[i].0 == key,
        forall|j: int| from <= j < i ==> #[trigger] entries[j].0 != key,
    ensures
        key_index(entries, key, from) == Some(i),
    decreases i - from,
{
    if from < i {
        lemma_key_index_from(entries, key, from + 1, i);
    }
}

/// The position of `key` in an association list.
pub(crate) fn find_key<V>(entries: &Vec<(ObjRef, V)>, key: ObjRef) -> (r: Option<usize>)
    ensures
        match r {
            Some(i) => key_index(entries@, key, 0) == Some(i as int),
            None => key_index(entries@, key, 0) is None,
        },
{
    let mut i: usize = 0;
    while i < entries.len()
        invariant
            i <= entries@.len(),
            key_index(entries@, key, 0) == key_index(entries@, key, i as int),
        decreases entries@.len() - i,
    {
        if entries[i].0 == key {
            return Some(i);
        }
        i = i + 1;
    }
    None
}

/// Whether an association list holds no key twice.
pub open spec fn keys_distinct<V>(entries: Seq<(ObjRef, V)>) -> bool {
    forall|i: int, j: int| 0 <= i < j < entries.len() ==> entries[i].0 != entries[j].0
}

/// `a` comes before `b` in object order: by number, then by generation.
pub open spec fn before(a: ObjRef, b: ObjRef) -> bool {
    a.num < b.num || (a.num == b.num && a.gen < b.gen)
}

/// Whether `a` comes before `b` in object order.
fn precedes(a: ObjRef, b: ObjRef) -> (r: bool)
    ensures
        r == before(a, b),
{
    a.num < b.num || (a.num == b.num && a.gen < b.gen)
}

/// Whether an association list is in strict object order.
pub open spec fn in_object_order<V>(entries: Seq<(ObjRef, V)>) -> bool {
    forall|i: int, j: int| 0 <= i < j < entries.len() ==> before(entries[i].0, entries[j].0)
}

/// Whether `fonts` holds `font`.
fn holds_font(fonts: &Vec<ObjRef>, font: ObjRef) -> (r: bool)
    ensures
        r == fonts@.contains(font),
{
    let mut i: usize = 0;
    while i < fonts.len()
        invariant
            i <= fonts@.len(),
            forall|j: int| 0 <= j < i ==> fonts@[j] != font,
        decreases fonts@.len() - i,
    {
        if fonts[i] == font {
            return true;
        }
        i = i + 1;
    }
    false
}

/// Whether `glyphs` holds `glyph`.
fn holds_glyph(glyphs: &Vec<u16>, glyph: u16) -> (r: bool)
    ensures
        r == glyphs@.contains(glyph),
{
    let mut i: usize = 0;
    while i < glyphs.len()
        invariant
            i <= glyphs@.len(),
            forall|j: int| 0 <= j < i ==> glyphs@[j] != glyph,
        decreases glyphs@.len() - i,
    {
        if glyphs[i] == glyph {
            return true;
        }
        i = i + 1;
    }
    false
}

/// What the walk over every page, form and appearance learned about the
/// document's fonts.
pub struct Usage {
    /// The glyphs shown through each font object, each glyph once.
    glyphs: Vec<(ObjRef, Vec<u16>)>,
    /// Every font object a walked resource dictionary named.
    seen: Vec<ObjRef>,
    /// Fonts this pass will not bound, and why: the first reason wins.
    unbounded: Vec<(ObjRef, UntouchedReason)>,
    /// Programs embedded by a font written **directly** into a resource
    /// dictionary, against the `/BaseFont` of the first such font, in object
    /// order. They have no object to be keyed by, which is the whole reason
    /// they cannot be cut down.
    direct: Vec<(ObjRef, Vec<u8>)>,
}

impl Usage {
    /// The association lists hold each key once, each glyph list each glyph
    /// once, and the direct programs in object order.
    pub closed spec fn well_formed(&self) -> bool {
        &&& keys_distinct(self.glyphs@)
        &&& forall|i: int| 0 <= i < self.glyphs@.len() ==> (#[trigger] self.glyphs@[i].1@).no_duplicates()
        &&& keys_distinct(self.unbounded@)
        &&& in_object_order(self.direct@)
    }

    /// The glyphs shown through `font`.
    pub closed spec fn glyphs_of(&self, font: ObjRef) -> Set<u16> {
        match key_index(self.glyphs@, font, 0) {
            Some(i) => self.glyphs@[i].1@.to_set(),
            None => Set::empty(),
        }
    }

    /// Whether a walked resource dictionary named `font`.
    pub closed spec fn has_seen(&self, font: ObjRef) -> bool {
        self.seen@.contains(font)
    }

    /// Why `font` will not be bounded, if it will not.
    pub closed spec fn reason_of(&self, font: ObjRef) -> Option<UntouchedReason> {
        match key_index(self.unbounded@, font, 0) {
            Some(i) => Some(self.unbounded@[i].1),
            None => None,
        }
    }

    /// The directly written programs, in object order, with the `/BaseFont`
    /// of the first font that named each.
    pub closed spec fn direct_programs(&self) -> Seq<(ObjRef, Seq<u8>)> {
        self.direct@.map_values(|entry: (ObjRef, Vec<u8>)| (entry.0, entry.1@))
    }

    /// Nothing learned yet.
    pub fn new() -> (r: Usage)
        ensures
            r.well_formed(),
            forall|font: ObjRef| #[trigger] r.glyphs_of(font) == Set::<u16>::empty(),
            forall|font: ObjRef| !(#[trigger] r.has_seen(font)),
            forall|font: ObjRef| #[trigger] r.reason_of(font) is None,
            r.direct_programs().len() == 0,
    {
        Usage { glyphs: Vec::new(), seen: Vec::new(), unbounded: Vec::new(), direct: Vec::new() }
    }

    /// Records that a walked resource dictionary named `font`.
    pub fn see(&mut self, font: ObjRef)
        requires
            old(self).well_formed(),
        ensures
            final(self).well_formed(),
            forall|f: ObjRef| #[trigger] final(self).has_seen(f) == (old(self).has_seen(f) || f == font),
            forall|f: ObjRef| #[trigger] final(self).glyphs_of(f) == old(self).glyphs_of(f),
            forall|f: ObjRef| #[trigger] final(self).reason_of(f) == old(self).reason_of(f),
            final(self).direct_programs() == old(self).direct_programs(),
    {
        if holds_font(&self.seen, font) {
            return;
        }
        self.seen.push(font);
        assert forall|f: ObjRef| #[trigger] self.has_seen(f) == (old(self).has_seen(f) || f == font) by {
            if old(self).has_seen(f) {
                let k = choose|k: int| 0 <= k < old(self).seen@.len() && old(self).seen@[k] == f;
                assert(self.seen@[k] == f);
            }
            if f == font {
                assert(self.seen@[self.seen@.len() - 1] == f);
            }
            if self.has_seen(f) && f != font {
                let k = choose|k: int| 0 <= k < self.seen@.len() && self.seen@[k] == f;
                assert(old(self).seen@[k] == f);
            }
        }
    }

    /// Records why `font` will not be bounded, unless a reason is already
    /// recorded: the first reason stands.
    pub fn refuse(&mut self, font: ObjRef, reason: UntouchedReason)
        requires
            old(self).well_formed(),
        ensures
            final(self).well_formed(),
            forall|f: ObjRef| #[trigger] final(self).reason_of(f) == if f == font && old(self).reason_of(f) is None {
                Some(reason)
            } else {
                old(self).reason_of(f)
            },
            forall|f: ObjRef| #[trigger] final(self).has_seen(f) == old(self).has_seen(f),
            forall|f: ObjRef| #[trigger] final(self).glyphs_of(f) == old(self).glyphs_of(f),
            final(self).direct_programs() == old(self).direct_programs(),
    {
        proof {
            lemma_key_index(self.unbounded@, font, 0);
        }
        if find_key(&self.unbounded, font).is_some() {
            return;
        }
        let ghost was = self.unbounded@;
        self.unbounded.push((font, reason));
        assert forall|f: ObjRef| #[trigger] self.reason_of(f) == if f == font && old(self).reason_of(f) is None {
            Some(reason)
        } else {
            old(self).reason_of(f)
        } by {
            lemma_key_index(was, f, 0);
            lemma_key_index(self.unbounded@, f, 0);
            if f == font {
                lemma_key_index_first(self.unbounded@, f, was.len() as int);
            } else {
                match key_index(was, f, 0) {
                    Some(i) => {
                        lemma_key_index_first(self.unbounded@, f, i);
                    },
                    None => {
                        assert(key_index(self.unbounded@, f, 0) is None);
                    },
                }
            }
        }
    }

    /// Records one glyph shown through the font object `font`, which a walked
    /// scope named.
    pub fn show(&mut self, font: ObjRef, glyph: u16)
        requires
            old(self).well_formed(),
        ensures
            final(self).well_formed(),
            forall|f: ObjRef| #[trigger] final(self).glyphs_of(f) == if f == font {
                old(self).glyphs_of(f).insert(glyph)
            } else {
                old(self).glyphs_of(f)
            },
            forall|f: ObjRef| #[trigger] final(self).has_seen(f) == (old(self).has_seen(f) || f == font),
            forall|f: ObjRef| #[trigger] final(self).reason_of(f) == old(self).reason_of(f),
            final(self).direct_programs() == old(self).direct_programs(),
    {
        self.see(font);
        let ghost mid = *self;
        proof {
            lemma_key_index(self.glyphs@, font, 0);
        }
        match find_key(&self.glyphs, font) {
            Some(i) => {
                let (key, mut set) = self.glyphs.remove(i);
                let ghost old_set = set@;
                let present = holds_glyph(&set, glyph);
                if !present {
                    set.push(glyph);
                }
                assert(set@.to_set() =~= old_set.to_set().insert(glyph)) by {
                    if !present {
                        old_set.lemma_push_to_set_commute(glyph);
                    }
                }
                self.glyphs.insert(i, (key, set));
                assert(self.glyphs@ =~= mid.glyphs@.update(i as int, (key, set)));
                assert forall|f: ObjRef| #[trigger] self.glyphs_of(f) == if f == font {
                    mid.glyphs_of(f).insert(glyph)
                } else {
                    mid.glyphs_of(f)
                } by {
                    lemma_key_index(mid.glyphs@, f, 0);
                    match key_index(mid.glyphs@, f, 0) {
                        Some(m) => {
                            lemma_key_index_first(self.glyphs@, f, m);
                        },
                        None => {
                            lemma_key_index(self.glyphs@, f, 0);
                        },
                    }
                }
            },
            None => {
                let mut set: Vec<u16> = Vec::new();
                set.push(glyph);
                assert(set@.to_set() =~= Set::<u16>::empty().insert(glyph)) by {
                    assert(set@ =~= Seq::<u16>::empty().push(glyph));
                    Seq::<u16>::empty().lemma_push_to_set_commute(glyph);
                    assert(Seq::<u16>::empty().to_set() =~= Set::<u16>::empty());
                }
                self.glyphs.push((font, set));
                assert forall|f: ObjRef| #[trigger] self.glyphs_of(f) == if f == font {
                    mid.glyphs_of(f).insert(glyph)
                } else {
                    mid.glyphs_of(f)
                } by {
                    lemma_key_index(mid.glyphs@, f, 0);
                    match key_index(mid.glyphs@, f, 0) {
                        Some(m) => {
                            lemma_key_index_first(self.glyphs@, f, m);
                        },
                        None => {
                            if f == font {
                                lemma_key_index_first(self.glyphs@, f, mid.glyphs@.len() as int);
                            } else {
                                lemma_key_index(self.glyphs@, f, 0);
                            }
                        },
                    }
                }
            },
        }
        assert(self.seen == mid.seen && self.unbounded == mid.unbounded && self.direct == mid.direct);
        assert forall|f: ObjRef| #[trigger] self.has_seen(f) == mid.has_seen(f) by {}
        assert forall|f: ObjRef| #[trigger] self.reason_of(f) == mid.reason_of(f) by {}
    }

    /// The `/BaseFont` recorded against a directly written program.
    pub closed spec fn direct_of(&self, program: ObjRef) -> Option<Seq<u8>> {
        match key_index(self.direct@, program, 0) {
            Some(i) => Some(self.direct@[i].1@),
            None => None,
        }
    }

    /// The same directly written programs record the same `/BaseFont`s.
    proof fn lemma_direct_of_follows(a: Usage, b: Usage)
        requires
            a.direct_programs() == b.direct_programs(),
        ensures
            forall|p: ObjRef| #[trigger] a.direct_of(p) == b.direct_of(p),
    {
        assert forall|p: ObjRef| #[trigger] a.direct_of(p) == b.direct_of(p) by {
            assert(a.direct@.len() == a.direct_programs().len());
            assert forall|i: int| 0 <= i < a.direct@.len() implies #[trigger] a.direct@[i].0 == b.direct@[i].0 by {
                assert(a.direct_programs()[i] == b.direct_programs()[i]);
            }
            lemma_key_index_same_keys(a.direct@, b.direct@, p, 0);
            match key_index(a.direct@, p, 0) {
                Some(i) => {
                    lemma_key_index(a.direct@, p, 0);
                    assert(a.direct_programs()[i] == b.direct_programs()[i]);
                },
                None => {},
            }
        }
    }

    /// Records a program a font written directly into a resource dictionary
    /// embeds, against that font's `/BaseFont`, unless the program is already
    /// recorded: the first font that named it stands.
    pub fn note_direct(&mut self, program: ObjRef, base_font: Vec<u8>)
        requires
            old(self).well_formed(),
        ensures
            final(self).well_formed(),
            forall|p: ObjRef| #[trigger] final(self).direct_of(p) == if p == program && old(self).direct_of(p) is None {
                Some(base_font@)
            } else {
                old(self).direct_of(p)
            },
            forall|f: ObjRef| #[trigger] final(self).has_seen(f) == old(self).has_seen(f),
            forall|f: ObjRef| #[trigger] final(self).glyphs_of(f) == old(self).glyphs_of(f),
            forall|f: ObjRef| #[trigger] final(self).reason_of(f) == old(self).reason_of(f),
    {
        let ghost was = self.direct@;
        let mut i: usize = 0;
        while i < self.direct.len() && precedes(self.direct[i].0, program)
            invariant
                self.direct@ == was,
                in_object_order(was),
                i <= was.len(),
                forall|j: int| 0 <= j < i ==> before(#[trigger] was[j].0, program),
            decreases was.len() - i,
        {
            i = i + 1;
        }
        if i < self.direct.len() && self.direct[i].0 == program {
            proof {
                lemma_key_index_first(was, program, i as int);
            }
            return;
        }
        self.direct.insert(i, (program, base_font));
        proof {
            let now = self.direct@;
            assert forall|a: int, b: int| 0 <= a < b < now.len() implies before(now[a].0, now[b].0) by {
                if b < i {
                } else if a < i && b == i {
                } else if a < i {
                    assert(now[b] == was[b - 1]);
                } else if a == i {
                    assert(now[b] == was[b - 1]);
                    assert(!before(was[i as int].0, program));
                    if b - 1 > i {
                        assert(before(was[i as int].0, was[b - 1].0));
                    }
                } else {
                    assert(now[a] == was[a - 1] && now[b] == was[b - 1]);
                }
            }
            assert forall|p: ObjRef| #[trigger] self.direct_of(p) == if p == program && old(self).direct_of(p) is None {
                Some(base_font@)
            } else {
                old(self).direct_of(p)
            } by {
                lemma_key_index(was, p, 0);
                lemma_key_index(now, p, 0);
                if p == program {
                    assert forall|j: int| 0 <= j < was.len() implies #[trigger] was[j].0 != program by {
                        if j >= i && j < was.len() {
                            if j > i {
                                assert(before(was[i as int].0, was[j].0));
                            }
                        }
                    }
                    assert forall|j: int| 0 <= j < i implies #[trigger] now[j].0 != p by {}
                    lemma_key_index_first(now, p, i as int);
                } else {
                    match key_index(was, p, 0) {
                        Some(k) => {
                            let at = if k < i { k } else { k + 1 };
                            assert(now[at] == was[k]);
                            assert forall|j: int| 0 <= j < at implies #[trigger] now[j].0 != p by {
                                if j < i {
                                    assert(now[j] == was[j]);
                                } else if j > i {
                                    assert(now[j] == was[j - 1]);
                                } else {
                                    assert(now[j].0 == program);
                                }
                            }
                            lemma_key_index_first(now, p, at);
                        },
                        None => {
                            assert forall|j: int| 0 <= j < now.len() implies #[trigger] now[j].0 != p by {
                                if j < i {
                                    assert(now[j] == was[j]);
                                } else if j > i {
                                    assert(now[j] == was[j - 1]);
                                }
                            }
                        },
                    }
                }
            }
        }
    }
}

impl Usage {
    /// The glyphs shown through `font`, each once, when any were.
    pub fn glyph_list(&self, font: ObjRef) -> (r: Option<&Vec<u16>>)
        requires
            self.well_formed(),
        ensures
            match r {
                Some(list) => list@.to_set() == self.glyphs_of(font) && list@.no_duplicates(),
                None => self.glyphs_of(font) == Set::<u16>::empty(),
            },
    {
        proof {
            lemma_key_index(self.glyphs@, font, 0);
        }
        match find_key(&self.glyphs, font) {
            Some(i) => Some(&self.glyphs[i].1),
            None => None,
        }
    }

    /// Whether a walked resource dictionary named `font`.
    pub fn seen(&self, font: ObjRef) -> (r: bool)
        ensures
            r == self.has_seen(font),
    {
        holds_font(&self.seen, font)
    }

    /// Why `font` will not be bounded, if it will not.
    pub fn reason(&self, font: ObjRef) -> (r: Option<UntouchedReason>)
        ensures
            r == self.reason_of(font),
    {
        proof {
            lemma_key_index(self.unbounded@, font, 0);
        }
        match find_key(&self.unbounded, font) {
            Some(i) => Some(self.unbounded[i].1),
            None => None,
        }
    }

    /// The directly written programs, in object order.
    pub fn direct_entries(&self) -> (r: &Vec<(ObjRef, Vec<u8>)>)
        ensures
            r@.map_values(|entry: (ObjRef, Vec<u8>)| (entry.0, entry.1@)) == self.direct_programs(),
    {
        &self.direct
    }
}

// ---- What one walk records ----------------------------------------------------------

/// Which glyph a shown code selected in its font's program, and whether the
/// font's own data stated it rather than a closing guess.
#[derive(Clone, Copy, Debug, PartialEq, Eq, Structural)]
pub struct Selection {
    /// Whether the font's own data stated the glyph.
    pub stated: bool,
    /// The glyph.
    pub glyph: u16,
}

/// Records one shown code against the font object the current scope names
/// for it. A font with no object of its own (`object` is `None`) is recorded
/// nowhere: its program was already noted as written directly. A glyph the
/// font's data stated is counted; one reached only by a guess refuses the
/// font; no selection at all records only that the font was walked.
pub fn record_glyph(usage: &mut Usage, object: Option<ObjRef>, selection: Option<Selection>)
    requires
        old(usage).well_formed(),
    ensures
        final(usage).well_formed(),
        forall|f: ObjRef| #[trigger] final(usage).has_seen(f) == (old(usage).has_seen(f) || object == Some(f)),
        forall|f: ObjRef| #[trigger] final(usage).glyphs_of(f) == match (object, selection) {
            (Some(o), Some(chosen)) if o == f && chosen.stated => old(usage).glyphs_of(f).insert(chosen.glyph),
            _ => old(usage).glyphs_of(f),
        },
        forall|f: ObjRef| #[trigger] final(usage).reason_of(f) == match (object, selection) {
            (Some(o), Some(chosen)) if o == f && !chosen.stated && old(usage).reason_of(f) is None => Some(
                UntouchedReason::CodeNotMapped,
            ),
            _ => old(usage).reason_of(f),
        },
        forall|p: ObjRef| #[trigger] final(usage).direct_of(p) == old(usage).direct_of(p),
{
    let ghost start = *usage;
    let object = match object {
        Some(object) => object,
        None => return,
    };
    usage.see(object);
    match selection {
        Some(chosen) => if chosen.stated {
            usage.show(object, chosen.glyph);
        } else {
            usage.refuse(object, UntouchedReason::CodeNotMapped);
        },
        None => {},
    }
    proof {
        Usage::lemma_direct_of_follows(*usage, start);
    }
}

/// One font object a walked scope names, with the fonts its own `/Resources`
/// names when it is a Type 3 font.
pub struct ScopeFont {
    /// The font object.
    pub font: ObjRef,
    /// The fonts a Type 3 font's `/Resources` names; empty for any other.
    pub type3_fonts: Vec<ObjRef>,
}

/// Whether one of `fonts` is `font`.
pub open spec fn names_font(fonts: Seq<ScopeFont>, font: ObjRef) -> bool {
    exists|i: int| 0 <= i < fonts.len() && fonts[i].font == font
}

/// Whether a Type 3 font among `fonts` names `font` in its own resources.
pub open spec fn names_inside(fonts: Seq<ScopeFont>, font: ObjRef) -> bool {
    exists|i: int, j: int| 0 <= i < fonts.len() && 0 <= j < fonts[i].type3_fonts@.len() && fonts[i].type3_fonts@[j] == font
}

/// The first `/BaseFont` `direct` gives for `program`.
pub open spec fn first_direct(direct: Seq<(ObjRef, Vec<u8>)>, program: ObjRef) -> Option<Seq<u8>>
    decreases direct.len(),
{
    if direct.len() == 0 {
        None
    } else {
        match first_direct(direct.drop_last(), program) {
            Some(name) => Some(name),
            None => if direct.last().0 == program {
                Some(direct.last().1@)
            } else {
                None
            },
        }
    }
}

/// Records that a scope was walked: every font object it names was seen, a
/// font a Type 3 font's own resources name is refused (the interpreter does
/// not enter a glyph procedure under them, so its glyphs would be credited to
/// the wrong font), and each program a directly written font embeds is noted
/// against that font's `/BaseFont`.
pub fn note_scope(usage: &mut Usage, fonts: &Vec<ScopeFont>, direct: &Vec<(ObjRef, Vec<u8>)>)
    requires
        old(usage).well_formed(),
    ensures
        final(usage).well_formed(),
        forall|f: ObjRef| #[trigger] final(usage).has_seen(f) == (old(usage).has_seen(f) || names_font(fonts@, f)),
        forall|f: ObjRef| #[trigger] final(usage).glyphs_of(f) == old(usage).glyphs_of(f),
        forall|f: ObjRef| #[trigger] final(usage).reason_of(f) == if old(usage).reason_of(f) is None && names_inside(fonts@, f) {
            Some(UntouchedReason::Type3Resource)
        } else {
            old(usage).reason_of(f)
        },
        forall|p: ObjRef| #[trigger] final(usage).direct_of(p) == if old(usage).direct_of(p) is None {
            first_direct(direct@, p)
        } else {
            old(usage).direct_of(p)
        },
{
    let mut i: usize = 0;
    while i < fonts.len()
        invariant
            i <= fonts@.len(),
            usage.well_formed(),
            forall|f: ObjRef| #[trigger] usage.has_seen(f) == (old(usage).has_seen(f) || names_font(fonts@.take(i as int), f)),
            forall|f: ObjRef| #[trigger] usage.glyphs_of(f) == old(usage).glyphs_of(f),
            forall|f: ObjRef| #[trigger] usage.reason_of(f) == if old(usage).reason_of(f) is None && names_inside(fonts@.take(i as int), f) {
                Some(UntouchedReason::Type3Resource)
            } else {
                old(usage).reason_of(f)
            },
            forall|p: ObjRef| #[trigger] usage.direct_of(p) == old(usage).direct_of(p),
        decreases fonts@.len() - i,
    {
        let ghost before = *usage;
        let entry = &fonts[i];
        usage.see(entry.font);
        proof {
            Usage::lemma_direct_of_follows(*usage, before);
        }
        let inner = &entry.type3_fonts;
        let mut j: usize = 0;
        while j < inner.len()
            invariant
                i < fonts@.len(),
                j <= inner@.len(),
                inner == fonts@[i as int].type3_fonts,
                usage.well_formed(),
                forall|f: ObjRef| #[trigger] usage.has_seen(f) == (before.has_seen(f) || f == fonts@[i as int].font),
                forall|f: ObjRef| #[trigger] usage.glyphs_of(f) == old(usage).glyphs_of(f),
                forall|f: ObjRef| #[trigger] usage.reason_of(f) == if before.reason_of(f) is None && inner@.take(j as int).contains(f) {
                    Some(UntouchedReason::Type3Resource)
                } else {
                    before.reason_of(f)
                },
                forall|p: ObjRef| #[trigger] usage.direct_of(p) == old(usage).direct_of(p),
            decreases inner@.len() - j,
        {
            proof {
                assert(inner@.take(j + 1) =~= inner@.take(j as int).push(inner@[j as int]));
            }
            let ghost was = *usage;
            assert(forall|f: ObjRef| #[trigger] was.reason_of(f) == if before.reason_of(f) is None
                && inner@.take(j as int).contains(f) {
                Some(UntouchedReason::Type3Resource)
            } else {
                before.reason_of(f)
            });
            usage.refuse(inner[j], UntouchedReason::Type3Resource);
            proof {
                Usage::lemma_direct_of_follows(*usage, was);
                assert forall|f: ObjRef| #[trigger] usage.reason_of(f) == if before.reason_of(f) is None
                    && inner@.take(j + 1).contains(f) {
                    Some(UntouchedReason::Type3Resource)
                } else {
                    before.reason_of(f)
                } by {
                    let grown = inner@.take(j + 1);
                    if f == inner@[j as int] {
                        assert(grown[j as int] == f);
                    }
                    if grown.contains(f) && !inner@.take(j as int).contains(f) {
                        let m = choose|m: int| 0 <= m < grown.len() && grown[m] == f;
                        if m < j {
                            assert(inner@.take(j as int)[m] == f);
                        }
                        assert(f == inner@[j as int]);
                    }
                    if inner@.take(j as int).contains(f) {
                        let m = choose|m: int| 0 <= m < j && inner@.take(j as int)[m] == f;
                        assert(inner@.take(j + 1)[m] == f);
                    }
                }
            }
            j = j + 1;
        }
        proof {
            assert(inner@.take(j as int) =~= inner@);
            let next = fonts@.take(i + 1);
            assert(next =~= fonts@.take(i as int).push(fonts@[i as int]));
            assert forall|f: ObjRef| names_font(next, f) == (names_font(fonts@.take(i as int), f) || f == fonts@[i as int].font) by {
                if names_font(next, f) {
                    let k = choose|k: int| 0 <= k < next.len() && next[k].font == f;
                    if k < i {
                        assert(fonts@.take(i as int)[k] == next[k]);
                    }
                }
                if f == fonts@[i as int].font {
                    assert(next[i as int].font == f);
                }
                if names_font(fonts@.take(i as int), f) {
                    let k = choose|k: int| 0 <= k < i && fonts@.take(i as int)[k].font == f;
                    assert(next[k] == fonts@.take(i as int)[k]);
                }
            }
            assert forall|f: ObjRef| names_inside(next, f) == (names_inside(fonts@.take(i as int), f) || inner@.contains(f)) by {
                if names_inside(next, f) {
                    let (k, m) = choose|k: int, m: int| 0 <= k < next.len() && 0 <= m < next[k].type3_fonts@.len() && next[k].type3_fonts@[m] == f;
                    if k < i {
                        assert(fonts@.take(i as int)[k] == next[k]);
                    } else {
                        assert(inner@[m] == f);
                    }
                }
                if inner@.contains(f) {
                    let m = choose|m: int| 0 <= m < inner@.len() && inner@[m] == f;
                    assert(next[i as int].type3_fonts@[m] == f);
                }
                if names_inside(fonts@.take(i as int), f) {
                    let (k, m) = choose|k: int, m: int| 0 <= k < i && 0 <= m < fonts@.take(i as int)[k].type3_fonts@.len() && fonts@.take(i as int)[k].type3_fonts@[m] == f;
                    assert(next[k] == fonts@.take(i as int)[k]);
                }
            }
        }
        i = i + 1;
    }
    proof {
        assert(fonts@.take(i as int) =~= fonts@);
    }
    let mut k: usize = 0;
    while k < direct.len()
        invariant
            k <= direct@.len(),
            usage.well_formed(),
            forall|f: ObjRef| #[trigger] usage.has_seen(f) == (old(usage).has_seen(f) || names_font(fonts@, f)),
            forall|f: ObjRef| #[trigger] usage.glyphs_of(f) == old(usage).glyphs_of(f),
            forall|f: ObjRef| #[trigger] usage.reason_of(f) == if old(usage).reason_of(f) is None && names_inside(fonts@, f) {
                Some(UntouchedReason::Type3Resource)
            } else {
                old(usage).reason_of(f)
            },
            forall|p: ObjRef| #[trigger] usage.direct_of(p) == if old(usage).direct_of(p) is None {
                first_direct(direct@.take(k as int), p)
            } else {
                old(usage).direct_of(p)
            },
        decreases direct@.len() - k,
    {
        proof {
            assert(direct@.take(k + 1).drop_last() =~= direct@.take(k as int));
        }
        usage.note_direct(direct[k].0, direct[k].1.clone());
        k = k + 1;
    }
    proof {
        assert(direct@.take(k as int) =~= direct@);
    }
}

/// The stack of scopes a content walk is inside: the page's own at the
/// bottom, then one per form being drawn. Scopes are named by the caller's
/// numbers for them.
pub struct ScopeStack {
    stack: Vec<usize>,
}

impl ScopeStack {
    /// The page's own scope is always at the bottom.
    #[verifier::type_invariant]
    spec fn never_empty(&self) -> bool {
        self.stack@.len() > 0
    }

    /// The scopes, bottom first.
    pub closed spec fn scopes(&self) -> Seq<usize> {
        self.stack@
    }

    /// A walk starting in scope `root`.
    pub fn new(root: usize) -> (r: ScopeStack)
        ensures
            r.scopes() == seq![root],
    {
        let mut stack: Vec<usize> = Vec::new();
        stack.push(root);
        ScopeStack { stack }
    }

    /// The scope a glyph shown now is relative to: the innermost one.
    pub fn current(&self) -> (r: usize)
        ensures
            self.scopes().len() > 0,
            r == self.scopes().last(),
    {
        proof {
            use_type_invariant(self);
        }
        self.stack[self.stack.len() - 1]
    }

    /// A form was begun. When the interpreter entered it, the walk is now
    /// inside the form's own scope, or, for a form with no `/Resources` of its
    /// own, still inside the scope that invoked it; a form it did not enter
    /// changes nothing.
    pub fn enter(&mut self, entered: bool, scope: Option<usize>)
        ensures
            final(self).scopes() == spec_enter(old(self).scopes(), entered, scope),
    {
        if !entered {
            return;
        }
        let next = match scope {
            Some(scope) => scope,
            None => self.current(),
        };
        let mut stack = self.stack.clone();
        stack.push(next);
        self.stack = stack;
    }

    /// A form ended: back to the scope that invoked it. The page's own scope
    /// is never left.
    pub fn leave(&mut self)
        ensures
            final(self).scopes() == spec_leave(old(self).scopes()),
    {
        proof {
            use_type_invariant(&*self);
        }
        if self.stack.len() > 1 {
            let mut stack = self.stack.clone();
            stack.pop();
            self.stack = stack;
        }
    }
}

/// The scopes after a form begins.
pub open spec fn spec_enter(scopes: Seq<usize>, entered: bool, scope: Option<usize>) -> Seq<usize> {
    if !entered {
        scopes
    } else {
        scopes.push(
            match scope {
                Some(s) => s,
                None => scopes.last(),
            },
        )
    }
}

/// The scopes after a form ends.
pub open spec fn spec_leave(scopes: Seq<usize>) -> Seq<usize> {
    if scopes.len() > 1 {
        scopes.drop_last()
    } else {
        scopes
    }
}

/// Ending a form the walk entered returns it to exactly the scopes it was in
/// before the form began; and however forms begin and end, the page's own
/// scope stays at the bottom.
pub proof fn lemma_a_form_returns_to_its_caller(scopes: Seq<usize>, scope: Option<usize>)
    requires
        scopes.len() > 0,
    ensures
        spec_leave(spec_enter(scopes, true, scope)) == scopes,
        spec_enter(scopes, true, scope)[0] == scopes[0],
        spec_leave(scopes).len() > 0,
        spec_leave(scopes)[0] == scopes[0],
{
    assert(spec_enter(scopes, true, scope).drop_last() =~= scopes);
}

// ---- Which program is cut, and which is left whole ----------------------------------

/// One font dictionary that embeds a program: the dictionary a resource name
/// points at, the program stream its descriptor names, and its `/BaseFont`
/// as written.
pub struct Site {
    /// The font dictionary.
    pub font: ObjRef,
    /// The program stream its descriptor points at.
    pub program: ObjRef,
    /// `/BaseFont`, as written.
    pub base_font: Vec<u8>,
}

/// How many objects the font sweep will look at: a cross-reference table
/// that claims millions of objects must still be swept in bounded time.
pub const MAX_SWEPT_OBJECTS: usize = 2097152;

/// What the sweep reads of one font dictionary.
pub struct SweptFont {
    /// The font dictionary, as a resource name would point at it.
    pub font: ObjRef,
    /// `/BaseFont`, as written; empty when there is none.
    pub base_font: Vec<u8>,
    /// For a Type 0 font, the first entry of `/DescendantFonts`, when it is a
    /// reference.
    pub descendant: Option<ObjRef>,
    /// The program stream named by the descriptor that holds the face: the
    /// descendant's for a Type 0 font, the font's own otherwise. `None` when
    /// that dictionary, its descriptor or its `/FontFile*` entry is missing.
    pub program: Option<ObjRef>,
}

/// The object numbers the Type 0 fonts among `swept` name as descendants.
pub open spec fn descendants_of(swept: Seq<Option<SweptFont>>) -> Set<u32>
    decreases swept.len(),
{
    if swept.len() == 0 {
        Set::empty()
    } else {
        let rest = descendants_of(swept.drop_last());
        match swept.last() {
            Some(font) => match font.descendant {
                Some(descendant) => rest.insert(descendant.num),
                None => rest,
            },
            None => rest,
        }
    }
}

/// The sites among `swept`, in sweep order, with every font that is some
/// Type 0 font's descendant left out: a descendant is no font a resource
/// dictionary names, and keeping it would leave every composite font's
/// program unmeasured.
pub open spec fn kept_sites(swept: Seq<Option<SweptFont>>, descendants: Set<u32>) -> Seq<(
    ObjRef,
    ObjRef,
    Seq<u8>,
)>
    decreases swept.len(),
{
    if swept.len() == 0 {
        Seq::empty()
    } else {
        let rest = kept_sites(swept.drop_last(), descendants);
        match swept.last() {
            Some(font) => match font.program {
                Some(program) if !descendants.contains(font.font.num) => rest.push(
                    (font.font, program, font.base_font@),
                ),
                _ => rest,
            },
            None => rest,
        }
    }
}

/// What the sweep makes of the objects it looked at, the first
/// [`MAX_SWEPT_OBJECTS`] of them.
pub open spec fn spec_sweep(objects: Seq<Option<SweptFont>>) -> Seq<(ObjRef, ObjRef, Seq<u8>)> {
    let swept = if objects.len() > MAX_SWEPT_OBJECTS {
        objects.take(MAX_SWEPT_OBJECTS as int)
    } else {
        objects
    };
    kept_sites(swept, descendants_of(swept))
}

/// A site as values.
pub open spec fn site_view(site: Site) -> (ObjRef, ObjRef, Seq<u8>) {
    (site.font, site.program, site.base_font@)
}

/// Every font dictionary in the document that embeds a program, from what
/// the sweep of the cross-reference table read of each object, in table
/// order: `None` for an object that is no font dictionary.
pub fn sweep(objects: &Vec<Option<SweptFont>>) -> (r: Vec<Site>)
    ensures
        r@.map_values(|site: Site| site_view(site)) == spec_sweep(objects@),
{
    broadcast use vstd::std_specs::hash::group_hash_axioms;

    let count: usize = if objects.len() > MAX_SWEPT_OBJECTS {
        MAX_SWEPT_OBJECTS
    } else {
        objects.len()
    };
    let ghost swept = if objects@.len() > MAX_SWEPT_OBJECTS {
        objects@.take(MAX_SWEPT_OBJECTS as int)
    } else {
        objects@
    };
    let mut descendants: std::collections::HashSet<u32> = std::collections::HashSet::new();
    let mut i: usize = 0;
    while i < count
        invariant
            i <= count,
            count == swept.len(),
            count <= objects@.len(),
            swept == objects@.take(count as int),
            descendants@ == descendants_of(swept.take(i as int)),
        decreases count - i,
    {
        proof {
            assert(swept.take(i + 1).drop_last() =~= swept.take(i as int));
        }
        match &objects[i] {
            Some(font) => match font.descendant {
                Some(descendant) => {
                    descendants.insert(descendant.num);
                },
                None => {},
            },
            None => {},
        }
        i = i + 1;
    }
    proof {
        assert(swept.take(count as int) =~= swept);
    }
    let mut sites: Vec<Site> = Vec::new();
    let mut j: usize = 0;
    while j < count
        invariant
            j <= count,
            count == swept.len(),
            count <= objects@.len(),
            swept == objects@.take(count as int),
            descendants@ == descendants_of(swept),
            sites@.map_values(|site: Site| site_view(site)) == kept_sites(
                swept.take(j as int),
                descendants_of(swept),
            ),
        decreases count - j,
    {
        proof {
            assert(swept.take(j + 1).drop_last() =~= swept.take(j as int));
        }
        let ghost was = sites@.map_values(|site: Site| site_view(site));
        match &objects[j] {
            Some(font) => match font.program {
                Some(program) => {
                    if !descendants.contains(&font.font.num) {
                        sites.push(Site { font: font.font, program, base_font: font.base_font.clone() });
                        proof {
                            assert(sites@.map_values(|site: Site| site_view(site)) =~= was.push(
                                (font.font, program, font.base_font@),
                            ));
                        }
                    }
                },
                None => {},
            },
            None => {},
        }
        j = j + 1;
    }
    proof {
        assert(swept.take(count as int) =~= swept);
    }
    sites
}

/// One program stream, with what every font that names it needs kept.
pub struct Job {
    /// The program stream.
    pub program: ObjRef,
    /// The `/BaseFont` of the first font that names it.
    pub base_font: Vec<u8>,
    /// Every glyph shown through any font that names it, each once.
    pub glyphs: Vec<u16>,
    /// Why it is left whole, when it is: the first reason any of its fonts
    /// gives, then `NotAnObject` when a directly written font shares it.
    pub refused: Option<UntouchedReason>,
}

/// The jobs, in object order, and the programs only directly written fonts
/// embed, which have no job and are named solely so the report can say so.
pub struct JobPlan {
    /// One job per program, in object order.
    pub jobs: Vec<Job>,
    /// Programs only a directly written font embeds, in object order, with
    /// that font's `/BaseFont`.
    pub direct_only: Vec<(ObjRef, Vec<u8>)>,
}

/// Why one font will not let its program be bounded: the walk's own reason,
/// or, for a font no walked scope named, that nothing was measured.
pub open spec fn site_reason(font: ObjRef, usage: Usage) -> Option<UntouchedReason> {
    match usage.reason_of(font) {
        Some(reason) => Some(reason),
        None => if !usage.has_seen(font) {
            Some(UntouchedReason::ScopeNotWalked)
        } else {
            None
        },
    }
}

/// The first of the first `count` sites that names `program`.
pub open spec fn first_site(sites: Seq<Site>, program: ObjRef, count: int) -> Option<int>
    decreases count,
{
    if count <= 0 {
        None
    } else {
        match first_site(sites, program, count - 1) {
            Some(k) => Some(k),
            None => if sites[count - 1].program == program {
                Some(count - 1)
            } else {
                None
            },
        }
    }
}

/// The first reason any of the first `count` sites naming `program` gives.
pub open spec fn reason_upto(sites: Seq<Site>, program: ObjRef, usage: Usage, count: int) -> Option<UntouchedReason>
    decreases count,
{
    if count <= 0 {
        None
    } else {
        match reason_upto(sites, program, usage, count - 1) {
            Some(reason) => Some(reason),
            None => if sites[count - 1].program == program {
                site_reason(sites[count - 1].font, usage)
            } else {
                None
            },
        }
    }
}

/// Every glyph shown through any of the first `count` sites naming `program`.
pub open spec fn glyphs_upto(sites: Seq<Site>, program: ObjRef, usage: Usage, count: int) -> Set<u16>
    decreases count,
{
    if count <= 0 {
        Set::empty()
    } else {
        glyphs_upto(sites, program, usage, count - 1).union(
            if sites[count - 1].program == program {
                usage.glyphs_of(sites[count - 1].font)
            } else {
                Set::empty()
            },
        )
    }
}

/// Why a program is left whole before anything is measured: its fonts' first
/// reason, then `NotAnObject` when a directly written font shares it.
pub open spec fn job_refusal(sites: Seq<Site>, program: ObjRef, usage: Usage) -> Option<UntouchedReason> {
    match reason_upto(sites, program, usage, sites.len() as int) {
        Some(reason) => Some(reason),
        None => if usage.direct_of(program) is Some {
            Some(UntouchedReason::NotAnObject)
        } else {
            None
        },
    }
}

/// The directly written programs no site names, in order.
pub open spec fn direct_only_upto(sites: Seq<Site>, direct: Seq<(ObjRef, Seq<u8>)>, count: int) -> Seq<(ObjRef, Seq<u8>)>
    decreases count,
{
    if count <= 0 {
        Seq::empty()
    } else {
        let rest = direct_only_upto(sites, direct, count - 1);
        if first_site(sites, direct[count - 1].0, sites.len() as int) is Some {
            rest
        } else {
            rest.push(direct[count - 1])
        }
    }
}

/// Whether job `job` is what the first `count` sites make of its program.
pub open spec fn job_matches(job: Job, sites: Seq<Site>, usage: Usage, count: int) -> bool {
    &&& first_site(sites, job.program, count) matches Some(k) && job.base_font@ == sites[k].base_font@
    &&& job.glyphs@.to_set() == glyphs_upto(sites, job.program, usage, count)
    &&& job.glyphs@.no_duplicates()
}

/// Whether a list of jobs is in strict object order by program.
pub open spec fn jobs_in_order(jobs: Seq<Job>) -> bool {
    forall|i: int, j: int| 0 <= i < j < jobs.len() ==> before(jobs[i].program, jobs[j].program)
}

/// The plan the sites and the walk lead to.
pub open spec fn plan_outcome(sites: Seq<Site>, usage: Usage, plan: JobPlan) -> bool {
    let jobs = plan.jobs@;
    &&& jobs_in_order(jobs)
    &&& forall|i: int| 0 <= i < jobs.len() ==> job_matches(#[trigger] jobs[i], sites, usage, sites.len() as int)
        && jobs[i].refused == job_refusal(sites, jobs[i].program, usage)
    &&& forall|program: ObjRef| (exists|i: int| 0 <= i < jobs.len() && #[trigger] jobs[i].program == program)
        <==> first_site(sites, program, sites.len() as int) is Some
    &&& plan.direct_only@.map_values(|entry: (ObjRef, Vec<u8>)| (entry.0, entry.1@)) == direct_only_upto(
        sites,
        usage.direct_programs(),
        usage.direct_programs().len() as int,
    )
}

proof fn lemma_upto_other(sites: Seq<Site>, program: ObjRef, usage: Usage, count: int)
    requires
        0 <= count < sites.len(),
        sites[count].program != program,
    ensures
        first_site(sites, program, count + 1) == first_site(sites, program, count),
        reason_upto(sites, program, usage, count + 1) == reason_upto(sites, program, usage, count),
        glyphs_upto(sites, program, usage, count + 1) == glyphs_upto(sites, program, usage, count),
{
    assert(glyphs_upto(sites, program, usage, count + 1) =~= glyphs_upto(sites, program, usage, count));
}

proof fn lemma_first_site_some(sites: Seq<Site>, program: ObjRef, count: int)
    requires
        0 <= count <= sites.len(),
    ensures
        first_site(sites, program, count) matches Some(k) ==> 0 <= k < count && sites[k].program == program,
        first_site(sites, program, count) is None ==> forall|k: int| 0 <= k < count ==> #[trigger] sites[k].program != program,
    decreases count,
{
    if count > 0 {
        lemma_first_site_some(sites, program, count - 1);
    }
}

/// Adds `extra`'s glyphs to `glyphs`, each once.
fn add_glyphs(glyphs: &mut Vec<u16>, extra: &Vec<u16>)
    requires
        old(glyphs)@.no_duplicates(),
    ensures
        final(glyphs)@.no_duplicates(),
        final(glyphs)@.to_set() == old(glyphs)@.to_set().union(extra@.to_set()),
{
    let mut k: usize = 0;
    while k < extra.len()
        invariant
            k <= extra@.len(),
            glyphs@.no_duplicates(),
            glyphs@.to_set() == old(glyphs)@.to_set().union(extra@.subrange(0, k as int).to_set()),
        decreases extra@.len() - k,
    {
        let glyph = extra[k];
        let ghost was = glyphs@;
        if !holds_glyph(glyphs, glyph) {
            glyphs.push(glyph);
            proof {
                was.lemma_push_to_set_commute(glyph);
            }
        }
        proof {
            extra@.subrange(0, k as int).lemma_push_to_set_commute(glyph);
            assert(extra@.subrange(0, k + 1) =~= extra@.subrange(0, k as int).push(glyph));
            assert(glyphs@.to_set() =~= old(glyphs)@.to_set().union(extra@.subrange(0, k + 1).to_set()));
        }
        k = k + 1;
    }
    assert(extra@.subrange(0, extra@.len() as int) =~= extra@);
}

/// Whether `job` is `planned` once the first `count` directly written
/// programs have refused the jobs they share.
pub open spec fn job_after(job: Job, planned: Job, direct: Seq<(ObjRef, Seq<u8>)>, count: int) -> bool {
    &&& job.program == planned.program
    &&& job.base_font == planned.base_font
    &&& job.glyphs == planned.glyphs
    &&& job.refused == match planned.refused {
        Some(reason) => Some(reason),
        None => if direct_names(direct, planned.program, count) {
            Some(UntouchedReason::NotAnObject)
        } else {
            None
        },
    }
}

/// Whether `direct`'s first `count` entries name `program`.
pub open spec fn direct_names(direct: Seq<(ObjRef, Seq<u8>)>, program: ObjRef, count: int) -> bool {
    exists|e: int| 0 <= e < count && #[trigger] direct[e].0 == program
}

/// Groups the sites by the program they name, in object order, and says for
/// each program what every font that names it needs kept and why it is left
/// whole, if it is.
///
/// A program a directly written font embeds is refused when some other font
/// reaches it by reference — cutting it to the other font's glyphs would drop
/// the direct font's, which were never counted — and otherwise has no job at
/// all and is named on its own, so the report can say so.
pub fn plan_jobs(sites: &Vec<Site>, usage: &Usage) -> (r: JobPlan)
    requires
        usage.well_formed(),
    ensures
        plan_outcome(sites@, *usage, r),
{
    let mut jobs: Vec<Job> = Vec::new();
    let mut n: usize = 0;
    while n < sites.len()
        invariant
            usage.well_formed(),
            n <= sites@.len(),
            jobs_in_order(jobs@),
            forall|i: int| 0 <= i < jobs@.len() ==> job_matches(#[trigger] jobs@[i], sites@, *usage, n as int)
                && jobs@[i].refused == reason_upto(sites@, jobs@[i].program, *usage, n as int),
            forall|program: ObjRef| (exists|i: int| 0 <= i < jobs@.len() && #[trigger] jobs@[i].program == program)
                <==> first_site(sites@, program, n as int) is Some,
        decreases sites@.len() - n,
    {
        let site = &sites[n];
        let program = site.program;
        let ghost was = jobs@;
        let mut i: usize = 0;
        while i < jobs.len() && precedes(jobs[i].program, program)
            invariant
                jobs@ == was,
                jobs_in_order(was),
                i <= was.len(),
                forall|j: int| 0 <= j < i ==> before(#[trigger] was[j].program, program),
            decreases was.len() - i,
        {
            i = i + 1;
        }
        let reason = match usage.reason(site.font) {
            Some(reason) => Some(reason),
            None => if !usage.seen(site.font) {
                Some(UntouchedReason::ScopeNotWalked)
            } else {
                None
            },
        };
        proof {
            lemma_first_site_some(sites@, program, n as int);
            lemma_first_site_some(sites@, program, n + 1);
        }
        if i < jobs.len() && jobs[i].program == program {
            let mut job = jobs.remove(i);
            if job.refused.is_none() {
                job.refused = reason;
            }
            let ghost old_glyphs = job.glyphs@;
            match usage.glyph_list(site.font) {
                Some(list) => add_glyphs(&mut job.glyphs, list),
                None => {
                    assert(old_glyphs.to_set().union(usage.glyphs_of(site.font)) =~= old_glyphs.to_set());
                },
            }
            assert(job.glyphs@.to_set() == old_glyphs.to_set().union(usage.glyphs_of(site.font)));
            jobs.insert(i, job);
            proof {
                let now = jobs@;
                assert(now =~= was.update(i as int, job));
                assert(first_site(sites@, program, n as int) is Some);
                assert(glyphs_upto(sites@, program, *usage, n + 1) =~= glyphs_upto(sites@, program, *usage, n as int).union(usage.glyphs_of(site.font)));
                assert forall|k: int| 0 <= k < now.len() implies job_matches(#[trigger] now[k], sites@, *usage, n + 1)
                    && now[k].refused == reason_upto(sites@, now[k].program, *usage, n + 1) by {
                    if k != i {
                        assert(now[k] == was[k]);
                        if was[k].program == program {
                            if k < i {
                                assert(before(was[k].program, was[i as int].program));
                            } else {
                                assert(before(was[i as int].program, was[k].program));
                            }
                        }
                        lemma_upto_other(sites@, now[k].program, *usage, n as int);
                    }
                }
                let m: int = n + 1;
                assert forall|p: ObjRef| (exists|k: int| 0 <= k < now.len() && #[trigger] now[k].program == p)
                    <==> #[trigger] first_site(sites@, p, m) is Some by {
                    if p != program {
                        lemma_upto_other(sites@, p, *usage, n as int);
                        if exists|k: int| 0 <= k < now.len() && #[trigger] now[k].program == p {
                            let k = choose|k: int| 0 <= k < now.len() && #[trigger] now[k].program == p;
                            assert(was[k].program == p);
                        }
                        if first_site(sites@, p, n as int) is Some {
                            let k = choose|k: int| 0 <= k < was.len() && #[trigger] was[k].program == p;
                            assert(now[k].program == p);
                        }
                    } else {
                        assert(now[i as int].program == p);
                    }
                }
            }
        } else {
            let mut glyphs: Vec<u16> = Vec::new();
            assert(glyphs@.to_set() =~= Set::<u16>::empty());
            match usage.glyph_list(site.font) {
                Some(list) => add_glyphs(&mut glyphs, list),
                None => {},
            }
            assert(glyphs@.to_set() =~= Set::<u16>::empty().union(usage.glyphs_of(site.font)));
            let job = Job { program, base_font: site.base_font.clone(), glyphs, refused: reason };
            jobs.insert(i, job);
            proof {
                let now = jobs@;
                assert forall|k: int| 0 <= k < was.len() implies #[trigger] was[k].program != program by {
                    if k >= i {
                        if k > i {
                            assert(before(was[i as int].program, was[k].program));
                        }
                    }
                }
                assert(first_site(sites@, program, n as int) is None);
                assert(glyphs_upto(sites@, program, *usage, n as int) =~= Set::<u16>::empty()) by {
                    lemma_glyphs_none(sites@, program, *usage, n as int);
                }
                assert(reason_upto(sites@, program, *usage, n as int) is None) by {
                    lemma_glyphs_none(sites@, program, *usage, n as int);
                }
                assert(glyphs_upto(sites@, program, *usage, n + 1) =~= Set::<u16>::empty().union(usage.glyphs_of(site.font)));
                assert(Seq::<u16>::empty().to_set() =~= Set::<u16>::empty());
                assert forall|a: int, b: int| 0 <= a < b < now.len() implies before(now[a].program, now[b].program) by {
                    if b < i {
                    } else if a < i && b == i {
                    } else if a < i {
                        assert(now[b] == was[b - 1]);
                    } else if a == i {
                        assert(now[b] == was[b - 1]);
                        assert(!before(was[i as int].program, program));
                        assert(was[i as int].program != program);
                        if b - 1 > i {
                            assert(before(was[i as int].program, was[b - 1].program));
                        }
                    } else {
                        assert(now[a] == was[a - 1] && now[b] == was[b - 1]);
                    }
                }
                assert forall|k: int| 0 <= k < now.len() implies job_matches(#[trigger] now[k], sites@, *usage, n + 1)
                    && now[k].refused == reason_upto(sites@, now[k].program, *usage, n + 1) by {
                    if k != i {
                        let w = if k < i { k } else { k - 1 };
                        assert(now[k] == was[w]);
                        lemma_upto_other(sites@, now[k].program, *usage, n as int);
                    }
                }
                let m: int = n + 1;
                assert forall|p: ObjRef| (exists|k: int| 0 <= k < now.len() && #[trigger] now[k].program == p)
                    <==> #[trigger] first_site(sites@, p, m) is Some by {
                    if p != program {
                        lemma_upto_other(sites@, p, *usage, n as int);
                        if exists|k: int| 0 <= k < now.len() && #[trigger] now[k].program == p {
                            let k = choose|k: int| 0 <= k < now.len() && #[trigger] now[k].program == p;
                            let w = if k < i { k } else { k - 1 };
                            assert(was[w].program == p);
                        }
                        if first_site(sites@, p, n as int) is Some {
                            let k = choose|k: int| 0 <= k < was.len() && #[trigger] was[k].program == p;
                            let at = if k < i { k } else { k + 1 };
                            assert(now[at].program == p);
                        }
                    } else {
                        assert(now[i as int].program == p);
                    }
                }
            }
        }
        n = n + 1;
    }
    let ghost sited = jobs@;
    let direct = usage.direct_entries();
    let ghost entries = usage.direct_programs();
    let mut direct_only: Vec<(ObjRef, Vec<u8>)> = Vec::new();
    let mut d: usize = 0;
    while d < direct.len()
        invariant
            usage.well_formed(),
            entries == usage.direct_programs(),
            direct@.map_values(|entry: (ObjRef, Vec<u8>)| (entry.0, entry.1@)) == entries,
            d <= direct@.len(),
            jobs@.len() == sited.len(),
            jobs_in_order(jobs@),
            forall|i: int| 0 <= i < jobs@.len() ==> job_after(#[trigger] jobs@[i], sited[i], entries, d as int),
            forall|i: int| 0 <= i < sited.len() ==> job_matches(#[trigger] sited[i], sites@, *usage, sites@.len() as int)
                && sited[i].refused == reason_upto(sites@, sited[i].program, *usage, sites@.len() as int),
            forall|program: ObjRef| (exists|i: int| 0 <= i < sited.len() && #[trigger] sited[i].program == program)
                <==> first_site(sites@, program, sites@.len() as int) is Some,
            direct_only@.map_values(|entry: (ObjRef, Vec<u8>)| (entry.0, entry.1@)) == direct_only_upto(
                sites@,
                entries,
                d as int,
            ),
        decreases direct@.len() - d,
    {
        let program = direct[d].0;
        let ghost entry = entries[d as int];
        assert(entry.0 == program);
        let mut i: usize = 0;
        while i < jobs.len() && jobs[i].program != program
            invariant
                i <= jobs@.len(),
                forall|j: int| 0 <= j < i ==> #[trigger] jobs@[j].program != program,
            decreases jobs@.len() - i,
        {
            i = i + 1;
        }
        let ghost was = jobs@;
        let ghost only = direct_only@.map_values(|entry: (ObjRef, Vec<u8>)| (entry.0, entry.1@));
        if i < jobs.len() {
            if jobs[i].refused.is_none() {
                let mut job = jobs.remove(i);
                job.refused = Some(UntouchedReason::NotAnObject);
                jobs.insert(i, job);
                assert(jobs@ =~= was.update(i as int, job));
            }
            proof {
                let now = jobs@;
                assert(sited[i as int].program == program);
                assert(first_site(sites@, program, sites@.len() as int) is Some);
                assert(direct_only_upto(sites@, entries, d + 1) == only);
                assert(direct_names(entries, program, d + 1)) by {
                    assert(entries[d as int].0 == program);
                }
                assert(now[i as int].refused == Some(UntouchedReason::NotAnObject) || now[i as int].refused
                    == sited[i as int].refused);
                assert(job_after(now[i as int], sited[i as int], entries, d + 1));
                assert forall|k: int| 0 <= k < now.len() && k != i implies job_after(#[trigger] now[k], sited[k], entries, d + 1) by {
                    assert(now[k] == was[k]);
                    if k < i {
                        assert(before(was[k].program, was[i as int].program));
                    } else {
                        assert(before(was[i as int].program, was[k].program));
                    }
                    if direct_names(entries, sited[k].program, d + 1) {
                        let e = choose|e: int| 0 <= e < d + 1 && #[trigger] entries[e].0 == sited[k].program;
                        assert(e != d);
                        assert(direct_names(entries, sited[k].program, d as int));
                    }
                    if direct_names(entries, sited[k].program, d as int) {
                        let e = choose|e: int| 0 <= e < d && #[trigger] entries[e].0 == sited[k].program;
                        assert(direct_names(entries, sited[k].program, d + 1));
                    }
                }
            }
        } else {
            let base = direct[d].1.clone();
            direct_only.push((program, base));
            proof {
                assert(forall|k: int| 0 <= k < sited.len() ==> #[trigger] sited[k].program != program) by {
                    assert forall|k: int| 0 <= k < sited.len() implies #[trigger] sited[k].program != program by {
                        assert(jobs@[k].program == sited[k].program);
                    }
                }
                assert(first_site(sites@, program, sites@.len() as int) is None);
                assert(direct@[d as int].1@ == entry.1);
                assert(direct_only@.map_values(|entry: (ObjRef, Vec<u8>)| (entry.0, entry.1@)) =~= only.push(entry));
                assert forall|k: int| 0 <= k < jobs@.len() implies job_after(#[trigger] jobs@[k], sited[k], entries, d + 1) by {
                    assert(sited[k].program != program);
                    assert(jobs@[k] == was[k]);
                    if direct_names(entries, sited[k].program, d + 1) {
                        let e = choose|e: int| 0 <= e < d + 1 && #[trigger] entries[e].0 == sited[k].program;
                        assert(e != d);
                        assert(direct_names(entries, sited[k].program, d as int));
                    }
                    if direct_names(entries, sited[k].program, d as int) {
                        let e = choose|e: int| 0 <= e < d && #[trigger] entries[e].0 == sited[k].program;
                        assert(direct_names(entries, sited[k].program, d + 1));
                    }
                }
            }
        }
        d = d + 1;
    }
    proof {
        assert forall|i: int| 0 <= i < jobs@.len() implies job_matches(#[trigger] jobs@[i], sites@, *usage, sites@.len() as int)
            && jobs@[i].refused == job_refusal(sites@, jobs@[i].program, *usage) by {
            assert(job_matches(sited[i], sites@, *usage, sites@.len() as int));
            lemma_direct_of_names(*usage, jobs@[i].program);
        }
        assert forall|p: ObjRef| (exists|i: int| 0 <= i < jobs@.len() && #[trigger] jobs@[i].program == p)
            <==> first_site(sites@, p, sites@.len() as int) is Some by {
            if exists|i: int| 0 <= i < jobs@.len() && #[trigger] jobs@[i].program == p {
                let i = choose|i: int| 0 <= i < jobs@.len() && #[trigger] jobs@[i].program == p;
                assert(sited[i].program == p);
            }
            if first_site(sites@, p, sites@.len() as int) is Some {
                let i = choose|i: int| 0 <= i < sited.len() && #[trigger] sited[i].program == p;
                assert(jobs@[i].program == p);
            }
        }
    }
    JobPlan { jobs, direct_only }
}

proof fn lemma_glyphs_none(sites: Seq<Site>, program: ObjRef, usage: Usage, count: int)
    requires
        0 <= count <= sites.len(),
        first_site(sites, program, count) is None,
    ensures
        glyphs_upto(sites, program, usage, count) == Set::<u16>::empty(),
        reason_upto(sites, program, usage, count) is None,
    decreases count,
{
    if count > 0 {
        lemma_glyphs_none(sites, program, usage, count - 1);
        assert(glyphs_upto(sites, program, usage, count) =~= Set::<u16>::empty());
    }
}

proof fn lemma_direct_of_names(usage: Usage, program: ObjRef)
    ensures
        usage.direct_of(program) is Some <==> direct_names(
            usage.direct_programs(),
            program,
            usage.direct_programs().len() as int,
        ),
{
    lemma_key_index(usage.direct@, program, 0);
    let entries = usage.direct_programs();
    if usage.direct_of(program) is Some {
        let i = key_index(usage.direct@, program, 0)->0;
        assert(entries[i].0 == program);
    }
    if direct_names(entries, program, entries.len() as int) {
        let e = choose|e: int| 0 <= e < entries.len() && #[trigger] entries[e].0 == program;
        assert(usage.direct@[e].0 == program);
    }
}

// ---- The report ------------------------------------------------------------------

/// What becomes of one job's program.
#[derive(Clone, Copy, Debug, PartialEq, Eq, Structural)]
pub enum JobOutcome {
    /// Written through whole, for this reason.
    Leave(UntouchedReason),
    /// Cut down to the subset.
    Cut,
}

/// What becomes of a program of `before` bytes: left whole for the reason
/// its fonts gave, left whole when the subsetter would not rebuild it
/// (`reduced` is `None`) or rebuilt it no smaller, and cut otherwise.
pub fn job_outcome(refused: Option<UntouchedReason>, before: usize, reduced: Option<usize>) -> (r: JobOutcome)
    ensures
        r == match refused {
            Some(reason) => JobOutcome::Leave(reason),
            None => match reduced {
                None => JobOutcome::Leave(UntouchedReason::ProgramNotRebuildable),
                Some(after) => if after >= before {
                    JobOutcome::Leave(UntouchedReason::SubsetNotSmaller)
                } else {
                    JobOutcome::Cut
                },
            },
        },
{
    match refused {
        Some(reason) => JobOutcome::Leave(reason),
        None => match reduced {
            None => JobOutcome::Leave(UntouchedReason::ProgramNotRebuildable),
            Some(after) => if after >= before {
                JobOutcome::Leave(UntouchedReason::SubsetNotSmaller)
            } else {
                JobOutcome::Cut
            },
        },
    }
}

/// The name a cut program's fonts are written back with: 9.6.4's tag in
/// front of the `/BaseFont` with any tag it carried taken off.
pub fn tagged_name(tag: &[u8], base_font: &[u8]) -> (r: Vec<u8>)
    ensures
        r@ == tag@ + spec_strip_tag(base_font@),
{
    let mut named = vstd::slice::slice_to_vec(tag);
    let mut rest = vstd::slice::slice_to_vec(strip_tag(base_font));
    named.append(&mut rest);
    named
}

/// One job's entry in the report, in object order.
pub enum JobDone {
    /// Written through whole.
    Whole(Untouched),
    /// Cut down.
    Cut(Subsetted),
}

/// The whole programs among `done`, in order.
pub open spec fn wholes(done: Seq<JobDone>) -> Seq<Untouched>
    decreases done.len(),
{
    if done.len() == 0 {
        Seq::empty()
    } else {
        let rest = wholes(done.drop_last());
        match done.last() {
            JobDone::Whole(entry) => rest.push(entry),
            JobDone::Cut(_) => rest,
        }
    }
}

/// The cut programs among `done`, in order.
pub open spec fn cuts(done: Seq<JobDone>) -> Seq<Subsetted>
    decreases done.len(),
{
    if done.len() == 0 {
        Seq::empty()
    } else {
        let rest = cuts(done.drop_last());
        match done.last() {
            JobDone::Cut(entry) => rest.push(entry),
            JobDone::Whole(_) => rest,
        }
    }
}

/// Whether every cut among `done` left its program smaller than it was,
/// which is the only way [`job_outcome`] calls for a cut.
pub open spec fn cuts_shrink(done: Seq<JobDone>) -> bool {
    forall|i: int|
        0 <= i < done.len() ==> match #[trigger] done[i] {
            JobDone::Cut(entry) => entry.after < entry.before,
            JobDone::Whole(_) => true,
        }
}

proof fn lemma_cuts_shrink(done: Seq<JobDone>)
    requires
        cuts_shrink(done),
    ensures
        forall|i: int| 0 <= i < cuts(done).len() ==> #[trigger] cuts(done)[i].after < cuts(done)[i].before,
    decreases done.len(),
{
    if done.len() > 0 {
        let rest = done.drop_last();
        assert forall|i: int| 0 <= i < rest.len() implies match #[trigger] rest[i] {
            JobDone::Cut(entry) => entry.after < entry.before,
            JobDone::Whole(_) => true,
        } by {
            assert(rest[i] == done[i]);
        }
        lemma_cuts_shrink(rest);
        let last = done[done.len() - 1];
        assert(last == done.last());
        match last {
            JobDone::Cut(entry) => {
                assert(entry.after < entry.before);
                assert(cuts(done) == cuts(rest).push(entry));
                assert forall|i: int| 0 <= i < cuts(done).len() implies #[trigger] cuts(done)[i].after
                    < cuts(done)[i].before by {
                    if i < cuts(rest).len() {
                        assert(cuts(done)[i] == cuts(rest)[i]);
                    }
                }
            },
            JobDone::Whole(_) => {
                assert(cuts(done) == cuts(rest));
            },
        }
    }
}

/// Two lists each in object order, merged by object number, the first's
/// entry going first where the numbers tie.
pub open spec fn merge_by_number(a: Seq<Untouched>, b: Seq<Untouched>) -> Seq<Untouched>
    decreases a.len() + b.len(),
{
    if a.len() == 0 {
        b
    } else if b.len() == 0 {
        a
    } else if a[0].program.num <= b[0].program.num {
        seq![a[0]] + merge_by_number(a.drop_first(), b)
    } else {
        seq![b[0]] + merge_by_number(a, b.drop_first())
    }
}

/// Two lists each in object order, merged by object number.
fn merge_untouched(first: Vec<Untouched>, second: Vec<Untouched>) -> (r: Vec<Untouched>)
    ensures
        r@ == merge_by_number(first@, second@),
{
    let ghost whole = merge_by_number(first@, second@);
    let mut a = first;
    let mut b = second;
    let mut out: Vec<Untouched> = Vec::new();
    while a.len() > 0 && b.len() > 0
        invariant
            whole == out@ + merge_by_number(a@, b@),
        decreases a@.len() + b@.len(),
    {
        let ghost was = out@;
        if a[0].program.num <= b[0].program.num {
            let ghost rest = a@.drop_first();
            let entry = a.remove(0);
            assert(a@ =~= rest);
            out.push(entry);
            assert(out@ =~= was + seq![entry]);
        } else {
            let ghost rest = b@.drop_first();
            let entry = b.remove(0);
            assert(b@ =~= rest);
            out.push(entry);
            assert(out@ =~= was + seq![entry]);
        }
    }
    out.append(&mut a);
    out.append(&mut b);
    out
}

/// The report: every cut program in the order the jobs ran, which is object
/// order, and every whole program — those only a directly written font
/// embeds, then the jobs' — sorted by object number, the direct ones first
/// where a number ties.
///
/// A job is only cut when its program came out smaller, so the report never
/// counts more bytes after the pass than before it, and counts strictly fewer
/// exactly when something was cut.
pub fn report_from(direct_only: Vec<Untouched>, done: Vec<JobDone>) -> (r: SubsetReport)
    requires
        cuts_shrink(done@),
    ensures
        r.subsetted@ == cuts(done@),
        r.untouched@ == merge_by_number(direct_only@, wholes(done@)),
        r.spec_bytes_after() <= r.spec_bytes_before(),
        r.spec_bytes_after() == r.spec_bytes_before() <==> r.subsetted@.len() == 0,
{
    let ghost all = done@;
    let mut rest = done;
    let ghost mut taken: Seq<JobDone> = Seq::empty();
    let mut subsetted: Vec<Subsetted> = Vec::new();
    let mut whole: Vec<Untouched> = Vec::new();
    while rest.len() > 0
        invariant
            all == taken + rest@,
            subsetted@ == cuts(taken),
            whole@ == wholes(taken),
        decreases rest@.len(),
    {
        let ghost tail = rest@.drop_first();
        let item = rest.remove(0);
        assert(rest@ =~= tail);
        proof {
            assert(taken.push(item).drop_last() =~= taken);
        }
        match item {
            JobDone::Whole(entry) => whole.push(entry),
            JobDone::Cut(entry) => subsetted.push(entry),
        }
        proof {
            taken = taken.push(item);
            assert(all =~= taken + rest@);
        }
    }
    assert(taken =~= all);
    let report = SubsetReport { subsetted, untouched: merge_untouched(direct_only, whole) };
    proof {
        lemma_cuts_shrink(all);
        lemma_a_pass_only_shrinks(report);
    }
    report
}

} // verus!
