//! Redaction: the content is **gone**, not covered.
//!
//! The content stream itself is rewritten: every text-showing operator whose
//! glyphs fall inside a redaction rectangle has those glyphs removed and is
//! re-emitted with a displacement in their place. Which glyphs a rectangle
//! covers is page-space geometry over the text and transformation matrices,
//! and stays with the content layer; what is here is what the rewrite writes
//! and what it tells the caller — the bytes a cut run is re-emitted with, and
//! the warnings for runs it could not measure and therefore left whole.
//!
//! A redaction that silently fails to redact is worse than one that refuses:
//! the caller believes the content is gone and distributes the file. So a run
//! this module cannot *measure* is left whole and named, and warnings of the
//! same cause in the same font are merged so that a page of vertical text
//! yields one entry per font rather than one per operator.

use vstd::prelude::*;

use crate::text::bytes_equal;

verus! {

/// A run redaction left whole because it could not measure it.
///
/// Every variant names the resource name of the font in force and how many
/// bytes of showing operand were left in place. `bytes` rather than glyphs: a
/// run whose font is unknown cannot be decoded into glyphs at all.
#[derive(Clone, Debug, PartialEq, Eq)]
pub enum RedactionWarning {
    /// The `Tf` in force named a font that the resource dictionary in scope
    /// does not contain. `font` is empty when no `Tf` preceded the showing
    /// operator.
    UnknownFont {
        /// The resource name the `Tf` named.
        font: Vec<u8>,
        /// How many bytes of showing operand were left in place.
        bytes: usize,
    },
    /// The font's writing mode is vertical (9.7.5), whose displacement is a
    /// different formula over different entries rather than a different
    /// matrix.
    VerticalRun {
        /// The resource name of the font.
        font: Vec<u8>,
        /// How many bytes of showing operand were left in place.
        bytes: usize,
    },
    /// 9.6.5: a Type 3 font whose `/FontMatrix` is not the 1/1000 default,
    /// so every advance would be wrong by exactly that matrix.
    RescaledType3Font {
        /// The resource name of the font.
        font: Vec<u8>,
        /// How many bytes of showing operand were left in place.
        bytes: usize,
    },
    /// The text rendering matrix carries a non-finite entry, or the pen has
    /// run away to a position that is no longer a number.
    UnmeasurableFrame {
        /// The resource name of the font.
        font: Vec<u8>,
        /// How many bytes of showing operand were left in place.
        bytes: usize,
    },
}

/// Which of the four causes a warning is.
pub open spec fn cause(warning: RedactionWarning) -> int {
    match warning {
        RedactionWarning::UnknownFont { .. } => 0,
        RedactionWarning::VerticalRun { .. } => 1,
        RedactionWarning::RescaledType3Font { .. } => 2,
        RedactionWarning::UnmeasurableFrame { .. } => 3,
    }
}

/// The resource name of the font a warning names.
pub open spec fn spec_font(warning: RedactionWarning) -> Seq<u8> {
    match warning {
        RedactionWarning::UnknownFont { font, .. } => font@,
        RedactionWarning::VerticalRun { font, .. } => font@,
        RedactionWarning::RescaledType3Font { font, .. } => font@,
        RedactionWarning::UnmeasurableFrame { font, .. } => font@,
    }
}

/// How many bytes of showing operand a warning accounts for.
pub open spec fn spec_bytes(warning: RedactionWarning) -> usize {
    match warning {
        RedactionWarning::UnknownFont { bytes, .. } => bytes,
        RedactionWarning::VerticalRun { bytes, .. } => bytes,
        RedactionWarning::RescaledType3Font { bytes, .. } => bytes,
        RedactionWarning::UnmeasurableFrame { bytes, .. } => bytes,
    }
}

/// Whether two warnings are the same cause in the same font.
pub open spec fn spec_same_cause(a: RedactionWarning, b: RedactionWarning) -> bool {
    cause(a) == cause(b) && spec_font(a) == spec_font(b)
}

/// A warning with another run's operand length added, saturating.
pub open spec fn spec_absorbed(warning: RedactionWarning, more: usize) -> RedactionWarning {
    match warning {
        RedactionWarning::UnknownFont { font, bytes } => RedactionWarning::UnknownFont {
            font,
            bytes: bytes.saturating_add(more),
        },
        RedactionWarning::VerticalRun { font, bytes } => RedactionWarning::VerticalRun {
            font,
            bytes: bytes.saturating_add(more),
        },
        RedactionWarning::RescaledType3Font { font, bytes } => RedactionWarning::RescaledType3Font {
            font,
            bytes: bytes.saturating_add(more),
        },
        RedactionWarning::UnmeasurableFrame { font, bytes } => RedactionWarning::UnmeasurableFrame {
            font,
            bytes: bytes.saturating_add(more),
        },
    }
}

impl RedactionWarning {
    /// The resource name of the font the run was showing in.
    pub fn font(&self) -> (r: &[u8])
        ensures
            r@ == spec_font(*self),
    {
        match self {
            RedactionWarning::UnknownFont { font, .. } => font.as_slice(),
            RedactionWarning::VerticalRun { font, .. } => font.as_slice(),
            RedactionWarning::RescaledType3Font { font, .. } => font.as_slice(),
            RedactionWarning::UnmeasurableFrame { font, .. } => font.as_slice(),
        }
    }

    /// How many bytes of showing operand this warning accounts for.
    pub fn bytes(&self) -> (r: usize)
        ensures
            r == spec_bytes(*self),
    {
        match self {
            RedactionWarning::UnknownFont { bytes, .. } => *bytes,
            RedactionWarning::VerticalRun { bytes, .. } => *bytes,
            RedactionWarning::RescaledType3Font { bytes, .. } => *bytes,
            RedactionWarning::UnmeasurableFrame { bytes, .. } => *bytes,
        }
    }

    /// Which of the four causes this is.
    fn cause(&self) -> (r: u8)
        ensures
            r as int == cause(*self),
    {
        match self {
            RedactionWarning::UnknownFont { .. } => 0,
            RedactionWarning::VerticalRun { .. } => 1,
            RedactionWarning::RescaledType3Font { .. } => 2,
            RedactionWarning::UnmeasurableFrame { .. } => 3,
        }
    }

    /// Whether two warnings are the same cause in the same font.
    pub fn same_cause(&self, other: &RedactionWarning) -> (r: bool)
        ensures
            r == spec_same_cause(*self, *other),
    {
        self.cause() == other.cause() && bytes_equal(self.font(), other.font())
    }

    /// Adds another run's operand length to this warning, saturating.
    pub fn absorb(&mut self, more: usize)
        ensures
            *final(self) == spec_absorbed(*old(self), more),
    {
        match self {
            RedactionWarning::UnknownFont { bytes, .. } => {
                *bytes = bytes.saturating_add(more);
            },
            RedactionWarning::VerticalRun { bytes, .. } => {
                *bytes = bytes.saturating_add(more);
            },
            RedactionWarning::RescaledType3Font { bytes, .. } => {
                *bytes = bytes.saturating_add(more);
            },
            RedactionWarning::UnmeasurableFrame { bytes, .. } => {
                *bytes = bytes.saturating_add(more);
            },
        }
    }
}

/// How many distinct warnings one redaction keeps: four causes times the
/// fonts on a page, and the bytes of the ones past it are lost rather than
/// the list growing with the file.
pub const MAX_WARNINGS: usize = 64;

/// The first warning, from `from` on, of the same cause and font as
/// `warning`.
pub open spec fn first_same(warnings: Seq<RedactionWarning>, warning: RedactionWarning, from: int) -> Option<int>
    decreases warnings.len() - from,
{
    if from < 0 || from >= warnings.len() {
        None
    } else if spec_same_cause(warnings[from], warning) {
        Some(from)
    } else {
        first_same(warnings, warning, from + 1)
    }
}

/// The warnings once `warning` is recorded: merged into the first of the
/// same cause and font, else appended while there is room, else dropped.
pub open spec fn spec_note(warnings: Seq<RedactionWarning>, warning: RedactionWarning) -> Seq<RedactionWarning> {
    match first_same(warnings, warning, 0) {
        Some(i) => warnings.update(i, spec_absorbed(warnings[i], spec_bytes(warning))),
        None => if warnings.len() < MAX_WARNINGS {
            warnings.push(warning)
        } else {
            warnings
        },
    }
}

proof fn lemma_first_same(warnings: Seq<RedactionWarning>, warning: RedactionWarning, from: int)
    requires
        0 <= from <= warnings.len(),
    ensures
        match first_same(warnings, warning, from) {
            Some(i) => from <= i < warnings.len() && spec_same_cause(warnings[i], warning),
            None => forall|j: int| from <= j < warnings.len() ==> !spec_same_cause(#[trigger] warnings[j], warning),
        },
    decreases warnings.len() - from,
{
    if from < warnings.len() && !spec_same_cause(warnings[from], warning) {
        lemma_first_same(warnings, warning, from + 1);
    }
}

/// Records a warning, merging it into one with the same cause and font.
pub fn note(warnings: &mut Vec<RedactionWarning>, warning: RedactionWarning)
    ensures
        final(warnings)@ == spec_note(old(warnings)@, warning),
{
    let ghost before = warnings@;
    let mut i: usize = 0;
    while i < warnings.len()
        invariant
            warnings@ == before,
            before == old(warnings)@,
            i <= before.len(),
            first_same(before, warning, 0) == first_same(before, warning, i as int),
        decreases before.len() - i,
    {
        if warnings[i].same_cause(&warning) {
            let more = warning.bytes();
            let mut existing = warnings.remove(i);
            existing.absorb(more);
            warnings.insert(i, existing);
            assert(warnings@ =~= before.update(i as int, spec_absorbed(before[i as int], more)));
            return;
        }
        i = i + 1;
    }
    if warnings.len() < MAX_WARNINGS {
        warnings.push(warning);
    }
}

/// No two warnings of a redaction name the same cause in the same font.
pub open spec fn causes_distinct(warnings: Seq<RedactionWarning>) -> bool {
    forall|i: int, j: int|
        0 <= i < j < warnings.len() ==> !spec_same_cause(#[trigger] warnings[i], #[trigger] warnings[j])
}

/// Recording keeps the list one entry per cause and font, never longer than
/// [`MAX_WARNINGS`], and a warning that merges loses none of its bytes short
/// of saturation.
pub proof fn lemma_note_keeps_one_entry_per_cause(warnings: Seq<RedactionWarning>, warning: RedactionWarning)
    requires
        causes_distinct(warnings),
        warnings.len() <= MAX_WARNINGS,
    ensures
        causes_distinct(spec_note(warnings, warning)),
        spec_note(warnings, warning).len() <= MAX_WARNINGS,
        first_same(warnings, warning, 0) matches Some(i) ==> spec_bytes(spec_note(warnings, warning)[i])
            == (if spec_bytes(warnings[i]) + spec_bytes(warning) > usize::MAX {
                usize::MAX as int
            } else {
                spec_bytes(warnings[i]) + spec_bytes(warning)
            }),
{
    lemma_first_same(warnings, warning, 0);
    let noted = spec_note(warnings, warning);
    match first_same(warnings, warning, 0) {
        Some(k) => {
            assert forall|i: int, j: int| 0 <= i < j < noted.len() implies !spec_same_cause(
                #[trigger] noted[i],
                #[trigger] noted[j],
            ) by {
                assert(cause(noted[i]) == cause(warnings[i]) && spec_font(noted[i]) == spec_font(warnings[i]));
                assert(cause(noted[j]) == cause(warnings[j]) && spec_font(noted[j]) == spec_font(warnings[j]));
            }
        },
        None => {
            if warnings.len() < MAX_WARNINGS {
                assert forall|i: int, j: int| 0 <= i < j < noted.len() implies !spec_same_cause(
                    #[trigger] noted[i],
                    #[trigger] noted[j],
                ) by {
                    if j == warnings.len() {
                        assert(!spec_same_cause(warnings[i], warning));
                    }
                }
            }
        },
    }
}

/// What a redaction did.
#[derive(Clone, Debug, PartialEq, Eq)]
pub struct RedactionReport {
    /// How many text-showing operations had glyphs removed.
    pub operations: usize,
    /// How many glyphs were removed in total.
    pub glyphs: usize,
    /// How many images were scrubbed: an image goes whole when a redaction
    /// touches it at all.
    pub images: usize,
    /// Runs this redaction could not measure and therefore left whole.
    ///
    /// Empty is the answer a caller wants. A non-empty list means some text on
    /// the page was never tested against the rectangles at all.
    pub warnings: Vec<RedactionWarning>,
}

impl Default for RedactionReport {
    fn default() -> (r: RedactionReport)
        ensures
            r.operations == 0 && r.glyphs == 0 && r.images == 0 && r.warnings@.len() == 0,
    {
        RedactionReport { operations: 0, glyphs: 0, images: 0, warnings: Vec::new() }
    }
}

// ---- What a cut run is re-emitted with ------------------------------------------

/// How many bytes a code of `width` takes: the width clamped to one to four.
pub open spec fn code_width(width: u8) -> int {
    if width < 1 {
        1
    } else if width > 4 {
        4
    } else {
        width as int
    }
}

/// `code`'s low `count` bytes, most significant first.
pub open spec fn spec_code_bytes(code: u32, count: int) -> Seq<u8>
    decreases count,
{
    if count <= 0 {
        Seq::empty()
    } else {
        seq![((code >> (((count - 1) * 8) as u32)) & 0xFF) as u8] + spec_code_bytes(code, count - 1)
    }
}

/// Bytes read as one big-endian number.
pub open spec fn big_endian_value(bytes: Seq<u8>) -> nat
    decreases bytes.len(),
{
    if bytes.len() == 0 {
        0
    } else {
        big_endian_value(bytes.drop_last()) * 256 + bytes.last() as nat
    }
}

/// The bytes a code is written with read back, big-endian, as the code's low
/// bytes: `code mod 256^w` for the clamped width `w`.
pub proof fn lemma_code_bytes_value(code: u32, width: u8)
    ensures
        spec_code_bytes(code, code_width(width)).len() == code_width(width),
        big_endian_value(spec_code_bytes(code, code_width(width))) == code as int
            % vstd::arithmetic::power2::pow2((8 * code_width(width)) as nat) as int,
{
    vstd::arithmetic::power2::lemma2_to64();
    let w = code_width(width);
    let b0 = ((code >> 0u32) & 0xFF) as u8;
    let b1 = ((code >> 8u32) & 0xFF) as u8;
    let b2 = ((code >> 16u32) & 0xFF) as u8;
    let b3 = ((code >> 24u32) & 0xFF) as u8;
    assert(spec_code_bytes(code, 0) =~= Seq::<u8>::empty());
    let one = spec_code_bytes(code, 1);
    assert(one =~= seq![b0]);
    let two = spec_code_bytes(code, 2);
    assert(two =~= seq![b1, b0]);
    let three = spec_code_bytes(code, 3);
    assert(three =~= seq![b2, b1, b0]);
    let four = spec_code_bytes(code, 4);
    assert(four =~= seq![b3, b2, b1, b0]);
    assert(b0 as int == code as int % 256) by (bit_vector)
        requires
            b0 == ((code >> 0u32) & 0xFF) as u8,
    ;
    assert(b1 as int * 256 + b0 as int == code as int % 65536) by (bit_vector)
        requires
            b0 == ((code >> 0u32) & 0xFF) as u8,
            b1 == ((code >> 8u32) & 0xFF) as u8,
    ;
    assert(b2 as int * 65536 + b1 as int * 256 + b0 as int == code as int % 16777216) by (bit_vector)
        requires
            b0 == ((code >> 0u32) & 0xFF) as u8,
            b1 == ((code >> 8u32) & 0xFF) as u8,
            b2 == ((code >> 16u32) & 0xFF) as u8,
    ;
    assert(b3 as int * 16777216 + b2 as int * 65536 + b1 as int * 256 + b0 as int == code as int
        % 4294967296) by (bit_vector)
        requires
            b0 == ((code >> 0u32) & 0xFF) as u8,
            b1 == ((code >> 8u32) & 0xFF) as u8,
            b2 == ((code >> 16u32) & 0xFF) as u8,
            b3 == ((code >> 24u32) & 0xFF) as u8,
    ;
    lemma_value_push(Seq::empty(), b0);
    lemma_value_push(Seq::empty(), b1);
    lemma_value_push(Seq::empty(), b2);
    lemma_value_push(Seq::empty(), b3);
    lemma_value_push(seq![b1], b0);
    lemma_value_push(seq![b2], b1);
    lemma_value_push(seq![b3], b2);
    lemma_value_push(seq![b2, b1], b0);
    lemma_value_push(seq![b3, b2], b1);
    lemma_value_push(seq![b3, b2, b1], b0);
    assert(seq![b0] == Seq::<u8>::empty().push(b0));
    assert(seq![b1, b0] == seq![b1].push(b0));
    assert(seq![b2, b1, b0] == seq![b2, b1].push(b0));
    assert(seq![b2, b1] == seq![b2].push(b1));
    assert(seq![b3, b2, b1, b0] == seq![b3, b2, b1].push(b0));
    assert(seq![b3, b2, b1] == seq![b3, b2].push(b1));
    assert(seq![b3, b2] == seq![b3].push(b2));
    assert(seq![b1] == Seq::<u8>::empty().push(b1));
    assert(seq![b2] == Seq::<u8>::empty().push(b2));
    assert(seq![b3] == Seq::<u8>::empty().push(b3));
}

proof fn lemma_value_push(bytes: Seq<u8>, byte: u8)
    ensures
        big_endian_value(bytes.push(byte)) == big_endian_value(bytes) * 256 + byte as nat,
{
    assert(bytes.push(byte).drop_last() =~= bytes);
    assert(big_endian_value(Seq::<u8>::empty()) == 0);
}

/// A character code as a string operand spells it: `width` bytes (clamped to
/// one to four), big-endian.
pub fn encode_code(out: &mut Vec<u8>, code: u32, width: u8)
    ensures
        final(out)@ == old(out)@ + spec_code_bytes(code, code_width(width)),
{
    let width: u8 = if width < 1 {
        1
    } else if width > 4 {
        4
    } else {
        width
    };
    let mut shift: u8 = width;
    while shift > 0
        invariant
            1 <= width <= 4,
            shift <= width,
            old(out)@ + spec_code_bytes(code, width as int) == out@ + spec_code_bytes(code, shift as int),
        decreases shift,
    {
        shift = shift - 1;
        let byte = ((code >> ((shift as u32) * 8)) & 0xFF) as u8;
        let ghost before = out@;
        out.push(byte);
        assert(spec_code_bytes(code, shift + 1) == seq![byte] + spec_code_bytes(code, shift as int));
        assert(before + (seq![byte] + spec_code_bytes(code, shift as int)) =~= out@ + spec_code_bytes(code, shift as int));
    }
    assert(spec_code_bytes(code, 0) =~= Seq::<u8>::empty());
    assert(out@ =~= old(out)@ + spec_code_bytes(code, width as int));
}

/// Whether a byte needs a backslash in a literal string: `(`, `)` or `\`.
pub open spec fn needs_escape(byte: u8) -> bool {
    byte == 0x28 || byte == 0x29 || byte == 0x5C
}

/// A byte string as a literal string operand spells it (7.3.4.2): each of
/// `(`, `)` and `\` behind a backslash, everything else as it is.
pub open spec fn spec_escape_literal(bytes: Seq<u8>) -> Seq<u8>
    decreases bytes.len(),
{
    if bytes.len() == 0 {
        Seq::empty()
    } else {
        (if needs_escape(bytes[0]) {
            seq![0x5Cu8, bytes[0]]
        } else {
            seq![bytes[0]]
        }) + spec_escape_literal(bytes.subrange(1, bytes.len() as int))
    }
}

/// How a reader takes a literal string of the shape `escape_into` writes
/// back off (7.3.4.2): a backslash before `(`, `)` or `\` stands for that
/// byte, an unescaped end of line — CR, LF or CR LF — reads as one LF, and
/// anything else is itself. The other escapes of 7.3.4.2 start with a
/// backslash before some other byte, which such a string never holds.
pub open spec fn spec_read_literal(spelt: Seq<u8>) -> Seq<u8>
    decreases spelt.len(),
{
    if spelt.len() == 0 {
        Seq::empty()
    } else if spelt[0] == 0x5C && spelt.len() >= 2 && needs_escape(spelt[1]) {
        seq![spelt[1]] + spec_read_literal(spelt.subrange(2, spelt.len() as int))
    } else if spelt[0] == 0x0D && spelt.len() >= 2 && spelt[1] == 0x0A {
        seq![0x0Au8] + spec_read_literal(spelt.subrange(2, spelt.len() as int))
    } else if spelt[0] == 0x0D {
        seq![0x0Au8] + spec_read_literal(spelt.subrange(1, spelt.len() as int))
    } else {
        seq![spelt[0]] + spec_read_literal(spelt.subrange(1, spelt.len() as int))
    }
}

proof fn lemma_escape_literal_concat(a: Seq<u8>, b: Seq<u8>)
    ensures
        spec_escape_literal(a + b) == spec_escape_literal(a) + spec_escape_literal(b),
    decreases a.len(),
{
    if a.len() == 0 {
        assert(a + b =~= b);
        assert(spec_escape_literal(a) + spec_escape_literal(b) =~= spec_escape_literal(b));
    } else {
        let rest = a.subrange(1, a.len() as int);
        assert((a + b).subrange(1, (a + b).len() as int) =~= rest + b);
        lemma_escape_literal_concat(rest, b);
        let head = if needs_escape(a[0]) {
            seq![0x5Cu8, a[0]]
        } else {
            seq![a[0]]
        };
        assert(spec_escape_literal(a + b) =~= head + (spec_escape_literal(rest) + spec_escape_literal(b)));
    }
}

/// A literal string reads back as the bytes it was written from when they
/// hold no carriage return: what the rewrite re-emits is what the run showed,
/// with nothing added and nothing lost to an unbalanced parenthesis. A CR is
/// written as it is, as the run had it, and a reader takes it (or CR LF) as
/// one LF.
pub proof fn lemma_literal_reads_back(bytes: Seq<u8>)
    requires
        !bytes.contains(0x0Du8),
    ensures
        spec_read_literal(spec_escape_literal(bytes)) == bytes,
    decreases bytes.len(),
{
    if bytes.len() > 0 {
        let rest = bytes.subrange(1, bytes.len() as int);
        assert(bytes[0] != 0x0D);
        assert(!rest.contains(0x0Du8)) by {
            if rest.contains(0x0Du8) {
                let k = choose|k: int| 0 <= k < rest.len() && rest[k] == 0x0Du8;
                assert(bytes[k + 1] == 0x0Du8);
            }
        }
        lemma_literal_reads_back(rest);
        let spelt = spec_escape_literal(bytes);
        if needs_escape(bytes[0]) {
            assert(spelt.subrange(2, spelt.len() as int) =~= spec_escape_literal(rest));
        } else {
            assert(spelt.subrange(1, spelt.len() as int) =~= spec_escape_literal(rest));
        }
        assert(seq![bytes[0]] + rest =~= bytes);
    }
}

/// Appends `bytes` as a literal string operand spells them, without the
/// enclosing parentheses.
pub fn escape_into(out: &mut Vec<u8>, bytes: &[u8])
    ensures
        final(out)@ == old(out)@ + spec_escape_literal(bytes@),
{
    let mut i: usize = 0;
    while i < bytes.len()
        invariant
            i <= bytes@.len(),
            out@ == old(out)@ + spec_escape_literal(bytes@.subrange(0, i as int)),
        decreases bytes@.len() - i,
    {
        let byte = bytes[i];
        let ghost before = out@;
        if byte == 0x28 || byte == 0x29 || byte == 0x5C {
            out.push(0x5C);
        }
        out.push(byte);
        proof {
            let done = bytes@.subrange(0, i as int);
            lemma_escape_literal_concat(done, seq![byte]);
            assert(bytes@.subrange(0, i + 1) =~= done + seq![byte]);
            assert(seq![byte].subrange(1, 1) =~= Seq::<u8>::empty());
            assert(spec_escape_literal(Seq::<u8>::empty()) == Seq::<u8>::empty());
            let head = if needs_escape(byte) {
                seq![0x5Cu8, byte]
            } else {
                seq![byte]
            };
            assert(spec_escape_literal(seq![byte]) =~= head);
            assert(out@ =~= old(out)@ + spec_escape_literal(bytes@.subrange(0, i + 1)));
        }
        i = i + 1;
    }
    assert(bytes@.subrange(0, bytes@.len() as int) =~= bytes@);
}

// ---- Cutting one string ------------------------------------------------------------

/// Why a showing operand is left whole before anything is measured, in the
/// order the checks run: with no rectangle there is nothing to be uncertain
/// about and no warning; then a font not in scope, a vertical writing mode, a
/// rescaled Type 3 glyph space, and a frame or glyph box that is not finite.
/// `None` is a run that is measured and cut.
pub open spec fn spec_leave_whole(
    font: Seq<u8>,
    bytes: usize,
    has_areas: bool,
    font_known: bool,
    vertical: bool,
    rescaled_type3: bool,
    measurable: bool,
) -> Option<Option<(int, Seq<u8>, usize)>> {
    if !has_areas {
        Some(None)
    } else if !font_known {
        Some(Some((0, font, bytes)))
    } else if vertical {
        Some(Some((1, font, bytes)))
    } else if rescaled_type3 {
        Some(Some((2, font, bytes)))
    } else if !measurable {
        Some(Some((3, font, bytes)))
    } else {
        None
    }
}

/// Under a rectangle, a run in a known font that writes vertically is left
/// whole as a vertical run (cause 1), whether or not its frame could be
/// measured and whatever its font's glyph space; a run is measured and cut
/// only when it is horizontal, in a known font, not a rescaled Type 3 font and
/// measurable; and with no rectangle nothing is measured or reported.
pub proof fn lemma_only_a_plain_horizontal_run_is_cut(
    font: Seq<u8>,
    bytes: usize,
    has_areas: bool,
    font_known: bool,
    vertical: bool,
    rescaled_type3: bool,
    measurable: bool,
)
    ensures
        has_areas && font_known && vertical ==> spec_leave_whole(
            font,
            bytes,
            has_areas,
            font_known,
            vertical,
            rescaled_type3,
            measurable,
        ) == Some(Some((1int, font, bytes))),
        has_areas && !font_known ==> spec_leave_whole(
            font,
            bytes,
            has_areas,
            font_known,
            vertical,
            rescaled_type3,
            measurable,
        ) == Some(Some((0int, font, bytes))),
        spec_leave_whole(font, bytes, has_areas, font_known, vertical, rescaled_type3, measurable) is None
            <==> (has_areas && font_known && !vertical && !rescaled_type3 && measurable),
        !has_areas ==> spec_leave_whole(
            font,
            bytes,
            has_areas,
            font_known,
            vertical,
            rescaled_type3,
            measurable,
        ) == Some(None::<(int, Seq<u8>, usize)>),
{
}

/// A warning as its cause, font and bytes.
pub open spec fn warning_parts(warning: RedactionWarning) -> (int, Seq<u8>, usize) {
    (cause(warning), spec_font(warning), spec_bytes(warning))
}

/// Whether a run of `bytes` bytes of operand, showing in the font named
/// `font`, is left whole — and with which warning — rather than measured.
///
/// A warning says the run was **not measured**, not that it was covered, so
/// one is raised only when there is at least one rectangle to fall under.
pub fn leave_whole(
    font: &Vec<u8>,
    bytes: usize,
    has_areas: bool,
    font_known: bool,
    vertical: bool,
    rescaled_type3: bool,
    measurable: bool,
) -> (r: Option<Option<RedactionWarning>>)
    ensures
        match spec_leave_whole(font@, bytes, has_areas, font_known, vertical, rescaled_type3, measurable) {
            None => r is None,
            Some(None) => r == Some(None::<RedactionWarning>),
            Some(Some(parts)) => r matches Some(Some(warning)) && warning_parts(warning) == parts,
        },
{
    if !has_areas {
        return Some(None);
    }
    let font = font.clone();
    if !font_known {
        return Some(Some(RedactionWarning::UnknownFont { font, bytes }));
    }
    if vertical {
        return Some(Some(RedactionWarning::VerticalRun { font, bytes }));
    }
    if rescaled_type3 {
        return Some(Some(RedactionWarning::RescaledType3Font { font, bytes }));
    }
    if !measurable {
        return Some(Some(RedactionWarning::UnmeasurableFrame { font, bytes }));
    }
    None
}

/// One character code of a string, and how many bytes it was written in.
#[derive(Clone, Copy, Debug, PartialEq, Eq, Structural)]
pub struct Code {
    /// The code.
    pub code: u32,
    /// Its width in bytes.
    pub width: u8,
}

/// A piece of a rewritten showing operation.
#[derive(Clone, Debug, PartialEq, Eq)]
pub enum Piece {
    /// The codes of consecutive surviving glyphs, as string bytes.
    Text(Vec<u8>),
    /// Consecutive removed glyphs, `from..to`, whose advances the gap holds.
    Gap {
        /// The first removed glyph.
        from: usize,
        /// One past the last.
        to: usize,
    },
}

/// A piece as values.
pub enum PieceView {
    /// Surviving bytes.
    Text(Seq<u8>),
    /// Removed glyphs `from..to`.
    Gap(int, int),
}

/// The string bytes of codes `from..to`.
pub open spec fn codes_bytes(codes: Seq<Code>, from: int, to: int) -> Seq<u8>
    decreases to - from,
{
    if to <= from {
        Seq::empty()
    } else {
        codes_bytes(codes, from, to - 1) + spec_code_bytes(codes[to - 1].code, code_width(codes[to - 1].width))
    }
}

/// Where the run of glyphs from `from` that share `from`'s fate ends.
pub open spec fn run_end(inside: Seq<bool>, from: int) -> int
    decreases inside.len() - from,
{
    if from + 1 >= inside.len() || inside[from + 1] != inside[from] {
        from + 1
    } else {
        run_end(inside, from + 1)
    }
}

/// The pieces glyphs `from..` cut into: each maximal run of surviving glyphs
/// one text piece, each maximal run of removed glyphs one gap.
pub open spec fn spec_pieces(codes: Seq<Code>, inside: Seq<bool>, from: int) -> Seq<PieceView>
    decreases inside.len() - from,
{
    if from < 0 || from >= inside.len() {
        Seq::empty()
    } else {
        let end = run_end(inside, from);
        proof {
            lemma_run_end(inside, from);
        }
        let piece = if inside[from] {
            PieceView::Gap(from, end)
        } else {
            PieceView::Text(codes_bytes(codes, from, end))
        };
        seq![piece] + spec_pieces(codes, inside, end)
    }
}

/// A run ends after it starts, and not past the string.
pub proof fn lemma_run_end(inside: Seq<bool>, from: int)
    requires
        0 <= from < inside.len(),
    ensures
        from < run_end(inside, from) <= inside.len(),
        forall|k: int| from <= k < run_end(inside, from) ==> #[trigger] inside[k] == inside[from],
        run_end(inside, from) < inside.len() ==> inside[run_end(inside, from)] != inside[from],
    decreases inside.len() - from,
{
    if !(from + 1 >= inside.len() || inside[from + 1] != inside[from]) {
        lemma_run_end(inside, from + 1);
    }
}

/// How many glyphs are removed.
pub open spec fn count_inside(inside: Seq<bool>, count: int) -> int
    decreases count,
{
    if count <= 0 {
        0
    } else {
        count_inside(inside, count - 1) + if inside[count - 1] {
            1int
        } else {
            0
        }
    }
}

/// A piece's values.
pub open spec fn piece_view(piece: Piece) -> PieceView {
    match piece {
        Piece::Text(bytes) => PieceView::Text(bytes@),
        Piece::Gap { from, to } => PieceView::Gap(from as int, to as int),
    }
}

/// Cuts one string: every glyph whose box meets a rectangle (`inside`) is
/// removed and leaves a gap holding its advance, and the surviving glyphs'
/// codes are re-emitted as they were written. Returns the pieces, in order,
/// and how many glyphs were removed.
///
/// A glyph the rectangle covers **partly** is removed: a content stream can
/// show a glyph or not show it, and of removing a partly visible glyph and
/// leaving a partly covered one only the second can leak.
pub fn cut_string(codes: &Vec<Code>, inside: &Vec<bool>) -> (r: (Vec<Piece>, usize))
    requires
        codes@.len() == inside@.len(),
    ensures
        r.0@.map_values(|piece: Piece| piece_view(piece)) == spec_pieces(codes@, inside@, 0),
        r.1 == count_inside(inside@, inside@.len() as int),
{
    let mut pieces: Vec<Piece> = Vec::new();
    let mut removed: usize = 0;
    let mut at: usize = 0;
    let ghost whole = spec_pieces(codes@, inside@, 0);
    while at < inside.len()
        invariant
            codes@.len() == inside@.len(),
            at <= inside@.len(),
            whole == spec_pieces(codes@, inside@, 0),
            whole == pieces@.map_values(|piece: Piece| piece_view(piece)) + spec_pieces(codes@, inside@, at as int),
            removed == count_inside(inside@, at as int),
            removed <= at,
        decreases inside@.len() - at,
    {
        let start = at;
        let fate = inside[at];
        proof {
            lemma_run_end(inside@, start as int);
        }
        let ghost end = run_end(inside@, start as int);
        let mut kept: Vec<u8> = Vec::new();
        while at < inside.len() && inside[at] == fate
            invariant
                codes@.len() == inside@.len(),
                start < inside@.len(),
                fate == inside@[start as int],
                end == run_end(inside@, start as int),
                start <= at <= end,
                at == start || at <= inside@.len(),
                forall|k: int| start <= k < end ==> #[trigger] inside@[k] == fate,
                end < inside@.len() ==> inside@[end] != fate,
                end <= inside@.len(),
                !fate ==> kept@ == codes_bytes(codes@, start as int, at as int),
                removed == count_inside(inside@, at as int),
                removed <= at,
            decreases inside@.len() - at,
        {
            if fate {
                removed = removed + 1;
            } else {
                let ghost before = kept@;
                encode_code(&mut kept, codes[at].code, codes[at].width);
            }
            at = at + 1;
        }
        let ghost was = pieces@.map_values(|piece: Piece| piece_view(piece));
        let piece = if fate {
            Piece::Gap { from: start, to: at }
        } else {
            Piece::Text(kept)
        };
        pieces.push(piece);
        proof {
            assert(at == end);
            assert(pieces@.map_values(|piece: Piece| piece_view(piece)) =~= was.push(piece_view(piece)));
            assert(spec_pieces(codes@, inside@, start as int) == seq![piece_view(piece)] + spec_pieces(codes@, inside@, end));
            assert(was + spec_pieces(codes@, inside@, start as int) =~= was.push(piece_view(piece)) + spec_pieces(codes@, inside@, end));
        }
    }
    proof {
        assert(pieces@.map_values(|piece: Piece| piece_view(piece)) + Seq::<PieceView>::empty() =~= pieces@.map_values(|piece: Piece| piece_view(piece)));
    }
    (pieces, removed)
}

/// The bytes of the surviving glyphs among `from..to`, in order.
pub open spec fn kept_bytes(codes: Seq<Code>, inside: Seq<bool>, from: int, to: int) -> Seq<u8>
    decreases to - from,
{
    if to <= from {
        Seq::empty()
    } else {
        kept_bytes(codes, inside, from, to - 1) + if inside[to - 1] {
            Seq::empty()
        } else {
            spec_code_bytes(codes[to - 1].code, code_width(codes[to - 1].width))
        }
    }
}

/// Every byte the text pieces re-emit, in order.
pub open spec fn text_of_pieces(pieces: Seq<PieceView>) -> Seq<u8>
    decreases pieces.len(),
{
    if pieces.len() == 0 {
        Seq::empty()
    } else {
        (match pieces[0] {
            PieceView::Text(bytes) => bytes,
            PieceView::Gap(_, _) => Seq::empty(),
        }) + text_of_pieces(pieces.drop_first())
    }
}

proof fn lemma_kept_split(codes: Seq<Code>, inside: Seq<bool>, from: int, mid: int, to: int)
    requires
        from <= mid <= to,
    ensures
        kept_bytes(codes, inside, from, to) == kept_bytes(codes, inside, from, mid) + kept_bytes(codes, inside, mid, to),
    decreases to - mid,
{
    if to > mid {
        lemma_kept_split(codes, inside, from, mid, to - 1);
    } else {
        assert(kept_bytes(codes, inside, mid, to) =~= Seq::<u8>::empty());
        assert(kept_bytes(codes, inside, from, mid) + Seq::<u8>::empty() =~= kept_bytes(codes, inside, from, mid));
    }
}

proof fn lemma_kept_run(codes: Seq<Code>, inside: Seq<bool>, from: int, to: int, fate: bool)
    requires
        from <= to,
        forall|k: int| from <= k < to ==> #[trigger] inside[k] == fate,
    ensures
        kept_bytes(codes, inside, from, to) == if fate {
            Seq::<u8>::empty()
        } else {
            codes_bytes(codes, from, to)
        },
    decreases to - from,
{
    if to > from {
        lemma_kept_run(codes, inside, from, to - 1, fate);
        if fate {
            assert(kept_bytes(codes, inside, from, to) =~= Seq::<u8>::empty());
        }
    }
}

/// What a cut string re-emits is exactly the surviving glyphs' codes, in
/// order: no code of a removed glyph comes back, and no surviving one is
/// lost or moved.
pub proof fn lemma_only_survivors_are_written(codes: Seq<Code>, inside: Seq<bool>, from: int)
    requires
        0 <= from <= inside.len(),
    ensures
        text_of_pieces(spec_pieces(codes, inside, from)) == kept_bytes(codes, inside, from, inside.len() as int),
    decreases inside.len() - from,
{
    if from == inside.len() {
        assert(spec_pieces(codes, inside, from) =~= Seq::<PieceView>::empty());
    } else {
        lemma_run_end(inside, from);
        let end = run_end(inside, from);
        lemma_only_survivors_are_written(codes, inside, end);
        lemma_kept_split(codes, inside, from, end, inside.len() as int);
        lemma_kept_run(codes, inside, from, end, inside[from]);
        let pieces = spec_pieces(codes, inside, from);
        assert(pieces.drop_first() =~= spec_pieces(codes, inside, end));
    }
}

} // verus!
