//! Digital signatures, read (12.8): what a `/ByteRange` covers once it is
//! checked against the file, and the `/Contents` bytes taken from the gap it
//! leaves.
//!
//! `/ByteRange` is four numbers a producer wrote, and a reader that trusts
//! them has already lost. Every span is checked against the file it claims to
//! describe and the answer is a [`Coverage`]: `WholeFile` for the one honest
//! shape, `Revision` for a signature over an earlier revision, and
//! `Suspicious` with the reason named for everything else.
//!
//! The gap between the two spans is *defined* to be the `/Contents` string, so
//! it is read from there rather than from the object model: that is the only
//! reading that can disagree with a lying `/ByteRange`.

use std::ops::Range;
use vstd::prelude::*;
use vstd::slice::slice_subrange;

use crate::text::bytes_equal;

verus! {

/// How a signature dictionary was reached, which is part of what it means.
#[derive(Clone, Debug, PartialEq, Eq)]
pub enum Anchor {
    /// The `/V` of a `/FT /Sig` form field (12.7.4.5).
    Field,
    /// The field dictionary *is* the signature dictionary: `/ByteRange` and
    /// `/FT /Sig` are siblings and there is no `/V`.
    MergedField,
    /// A catalog `/Perms` entry (12.8.4), by its key. `/DocMDP` certifies the
    /// document; `/UR3` and `/UR` grant usage rights and say nothing about
    /// the content.
    Permissions(String),
}

/// What a signature's `/ByteRange` covers, after checking it against the file.
#[derive(Clone, Copy, Debug, PartialEq, Eq, Structural)]
pub enum Coverage {
    /// Every byte of the file except the one gap holding `/Contents`.
    WholeFile,
    /// Every byte up to the end of revision `index` (newest first), with
    /// later revisions outside it.
    Revision {
        /// Index into the document's revisions, newest first.
        index: usize,
    },
    /// Anything else, with the reason named.
    Suspicious(CoverageDefect),
}

/// Why a `/ByteRange` could not be read as honest coverage.
#[derive(Clone, Copy, Debug, PartialEq, Eq, Structural)]
pub enum CoverageDefect {
    /// No `/ByteRange` at all.
    Missing,
    /// `/ByteRange` is not four numbers (12.8.1 fixes the count at four).
    NotFourNumbers {
        /// How many entries were present.
        count: usize,
    },
    /// A start or a length was not a non-negative integer that fits a file
    /// offset.
    NotAnOffset,
    /// The first span does not start at byte zero.
    DoesNotStartAtZero {
        /// Where the first span does start.
        first: u64,
    },
    /// The second span starts before the first one ends.
    SpansOverlap,
    /// A span runs past the end of the file.
    PastEndOfFile {
        /// Where the coverage claims to end.
        end: u64,
        /// How long the file actually is.
        file: u64,
    },
    /// The gap between the spans is not a hexadecimal string.
    GapIsNotContents,
    /// Coverage stops before the end of the file at a place that is not a
    /// revision boundary.
    EndsMidFile {
        /// The last byte offset the signature covers.
        covered_to: u64,
    },
}

/// Something read leniently, or not read at all, while inventorying one
/// signature.
#[derive(Clone, Debug, PartialEq, Eq)]
pub enum SignatureWarning {
    /// The field's `/V` is present but is not a dictionary.
    ValueNotADictionary,
    /// `/Contents` is absent from the dictionary.
    ContentsMissing,
    /// The gap held characters that are neither hexadecimal digits nor
    /// whitespace.
    ContentsNotHexadecimal,
    /// The gap held an odd number of hexadecimal digits; the last is padded
    /// with zero (7.3.4.3).
    ContentsOddDigitCount,
    /// The gap holds the digits but not the `<` and `>` around them, so the
    /// signature covers its own delimiters.
    ContentsGapExcludesDelimiters,
    /// `/SubFilter` names a scheme this build does not know how to verify.
    SubFilterUnknown(String),
    /// `/SubFilter` is absent.
    SubFilterMissing,
}

/// The `/SubFilter` schemes 12.8.3 defines.
#[derive(Clone, Copy, Debug, PartialEq, Eq, Structural)]
pub enum SubFilter {
    /// `adbe.pkcs7.detached` (12.8.3.3.2).
    Pkcs7Detached,
    /// `adbe.pkcs7.sha1` (12.8.3.3.1), the legacy shape.
    Pkcs7Sha1,
    /// `adbe.x509.rsa_sha1` (12.8.3.2).
    X509RsaSha1,
    /// `ETSI.CAdES.detached`, the PAdES profile.
    EtsiCadesDetached,
    /// `ETSI.RFC3161`, a document timestamp.
    EtsiRfc3161,
}

/// The `/SubFilter` name a scheme stands for.
pub open spec fn sub_filter_name(filter: SubFilter) -> Seq<char> {
    match filter {
        SubFilter::Pkcs7Detached => "adbe.pkcs7.detached"@,
        SubFilter::Pkcs7Sha1 => "adbe.pkcs7.sha1"@,
        SubFilter::X509RsaSha1 => "adbe.x509.rsa_sha1"@,
        SubFilter::EtsiCadesDetached => "ETSI.CAdES.detached"@,
        SubFilter::EtsiRfc3161 => "ETSI.RFC3161"@,
    }
}

/// The bytes a `/SubFilter` name is written with.
pub open spec fn sub_filter_bytes(filter: SubFilter) -> Seq<u8> {
    vstd::utf8::encode_utf8(sub_filter_name(filter))
}

impl SubFilter {
    /// The `/SubFilter` name this stands for.
    pub fn name(self) -> (r: &'static str)
        ensures
            r@ == sub_filter_name(self),
    {
        match self {
            SubFilter::Pkcs7Detached => "adbe.pkcs7.detached",
            SubFilter::Pkcs7Sha1 => "adbe.pkcs7.sha1",
            SubFilter::X509RsaSha1 => "adbe.x509.rsa_sha1",
            SubFilter::EtsiCadesDetached => "ETSI.CAdES.detached",
            SubFilter::EtsiRfc3161 => "ETSI.RFC3161",
        }
    }

    /// The scheme a `/SubFilter` name's bytes spell, if it is one of the five.
    pub fn from_bytes(bytes: &[u8]) -> (r: Option<SubFilter>)
        ensures
            r matches Some(filter) ==> bytes@ == sub_filter_bytes(filter),
            r is None ==> forall|filter: SubFilter| bytes@ != sub_filter_bytes(filter),
    {
        let candidates = [
            SubFilter::Pkcs7Detached,
            SubFilter::Pkcs7Sha1,
            SubFilter::X509RsaSha1,
            SubFilter::EtsiCadesDetached,
            SubFilter::EtsiRfc3161,
        ];
        let mut i: usize = 0;
        while i < 5
            invariant
                i <= 5,
                candidates@ == seq![
                    SubFilter::Pkcs7Detached,
                    SubFilter::Pkcs7Sha1,
                    SubFilter::X509RsaSha1,
                    SubFilter::EtsiCadesDetached,
                    SubFilter::EtsiRfc3161,
                ],
                forall|j: int| 0 <= j < i ==> bytes@ != sub_filter_bytes(#[trigger] candidates@[j]),
            decreases 5 - i,
        {
            let filter = candidates[i];
            if bytes_equal(bytes, filter.name().as_bytes()) {
                return Some(filter);
            }
            i = i + 1;
        }
        proof {
            assert forall|filter: SubFilter| bytes@ != sub_filter_bytes(filter) by {
                match filter {
                    SubFilter::Pkcs7Detached => assert(candidates@[0] == filter),
                    SubFilter::Pkcs7Sha1 => assert(candidates@[1] == filter),
                    SubFilter::X509RsaSha1 => assert(candidates@[2] == filter),
                    SubFilter::EtsiCadesDetached => assert(candidates@[3] == filter),
                    SubFilter::EtsiRfc3161 => assert(candidates@[4] == filter),
                }
            }
        }
        None
    }
}


// ---- The `/Contents` gap ----------------------------------------------------

/// What the gap between the spans turned out to hold.
#[derive(Clone, Copy, Debug, PartialEq, Eq, Structural)]
pub enum Gap {
    /// `<` hex `>`, the delimiters inside the gap.
    Delimited,
    /// The hexadecimal digits alone, with `<` and `>` covered by the
    /// signature.
    Tight,
    /// Anything else, which means `/ByteRange` does not point at `/Contents`.
    Elsewhere,
}

/// ASCII white space as Rust's `u8::is_ascii_whitespace` reads it: space, tab,
/// line feed, form feed and carriage return.
pub open spec fn is_space(byte: u8) -> bool {
    byte == 0x20 || byte == 0x09 || byte == 0x0A || byte == 0x0C || byte == 0x0D
}

fn space(byte: u8) -> (r: bool)
    ensures
        r == is_space(byte),
{
    byte == 0x20 || byte == 0x09 || byte == 0x0A || byte == 0x0C || byte == 0x0D
}

/// `bytes` without its leading white space.
pub open spec fn trim_front(bytes: Seq<u8>) -> Seq<u8>
    decreases bytes.len(),
{
    if bytes.len() > 0 && is_space(bytes[0]) {
        trim_front(bytes.drop_first())
    } else {
        bytes
    }
}

/// `bytes` without its trailing white space.
pub open spec fn trim_back(bytes: Seq<u8>) -> Seq<u8>
    decreases bytes.len(),
{
    if bytes.len() > 0 && is_space(bytes.last()) {
        trim_back(bytes.drop_last())
    } else {
        bytes
    }
}

/// `bytes` with white space taken off both ends.
pub open spec fn spec_trim(bytes: Seq<u8>) -> Seq<u8> {
    trim_back(trim_front(bytes))
}

proof fn lemma_trim_front(bytes: Seq<u8>, start: int)
    requires
        0 <= start <= bytes.len(),
        forall|i: int| 0 <= i < start ==> is_space(bytes[i]),
        start == bytes.len() || !is_space(bytes[start]),
    ensures
        trim_front(bytes) == bytes.subrange(start, bytes.len() as int),
    decreases start,
{
    if start == 0 {
        assert(bytes.subrange(0, bytes.len() as int) =~= bytes);
    } else {
        let rest = bytes.drop_first();
        assert forall|i: int| 0 <= i < start - 1 implies is_space(rest[i]) by {
            assert(rest[i] == bytes[i + 1]);
        }
        lemma_trim_front(rest, start - 1);
        assert(rest.subrange(start - 1, rest.len() as int) =~= bytes.subrange(
            start,
            bytes.len() as int,
        ));
    }
}

proof fn lemma_trim_back(bytes: Seq<u8>, end: int)
    requires
        0 <= end <= bytes.len(),
        forall|i: int| end <= i < bytes.len() ==> is_space(bytes[i]),
        end == 0 || !is_space(bytes[end - 1]),
    ensures
        trim_back(bytes) == bytes.subrange(0, end),
    decreases bytes.len() - end,
{
    if end == bytes.len() {
        assert(bytes.subrange(0, end) =~= bytes);
    } else {
        let rest = bytes.drop_last();
        lemma_trim_back(rest, end);
        assert(rest.subrange(0, end) =~= bytes.subrange(0, end));
    }
}

/// The index of the first byte at or after `from` that is not white space,
/// or the length when there is none.
pub open spec fn first_kept(bytes: Seq<u8>, from: int) -> int
    decreases bytes.len() - from,
{
    if 0 <= from < bytes.len() && is_space(bytes[from]) {
        first_kept(bytes, from + 1)
    } else {
        from
    }
}

/// One past the last byte before `end` and not before `start` that is not
/// white space, or `start` when there is none.
pub open spec fn end_kept(bytes: Seq<u8>, start: int, end: int) -> int
    decreases end - start,
{
    if start < end && 0 < end <= bytes.len() && is_space(bytes[end - 1]) {
        end_kept(bytes, start, end - 1)
    } else {
        end
    }
}

proof fn lemma_first_kept(bytes: Seq<u8>, from: int)
    requires
        0 <= from <= bytes.len(),
    ensures
        from <= first_kept(bytes, from) <= bytes.len(),
        forall|i: int| from <= i < first_kept(bytes, from) ==> is_space(#[trigger] bytes[i]),
        first_kept(bytes, from) == bytes.len() || !is_space(bytes[first_kept(bytes, from)]),
    decreases bytes.len() - from,
{
    if from < bytes.len() && is_space(bytes[from]) {
        lemma_first_kept(bytes, from + 1);
    }
}

proof fn lemma_end_kept(bytes: Seq<u8>, start: int, end: int)
    requires
        0 <= start <= end <= bytes.len(),
    ensures
        start <= end_kept(bytes, start, end) <= end,
        forall|i: int| end_kept(bytes, start, end) <= i < end ==> is_space(#[trigger] bytes[i]),
        end_kept(bytes, start, end) == start || !is_space(bytes[end_kept(bytes, start, end) - 1]),
    decreases end - start,
{
    if start < end && is_space(bytes[end - 1]) {
        lemma_end_kept(bytes, start, end - 1);
    }
}

/// Trimming keeps exactly the bytes from the first one that is not white
/// space to the last one that is not: what is left neither starts nor ends
/// with white space, and trimming it again changes nothing.
pub proof fn lemma_trim_keeps_the_middle(bytes: Seq<u8>)
    ensures
        spec_trim(bytes) == bytes.subrange(
            first_kept(bytes, 0),
            end_kept(bytes, first_kept(bytes, 0), bytes.len() as int),
        ),
        spec_trim(bytes).len() > 0 ==> !is_space(spec_trim(bytes)[0]) && !is_space(
            spec_trim(bytes).last(),
        ),
        spec_trim(spec_trim(bytes)) == spec_trim(bytes),
{
    let start = first_kept(bytes, 0);
    lemma_first_kept(bytes, 0);
    let end = end_kept(bytes, start, bytes.len() as int);
    lemma_end_kept(bytes, start, bytes.len() as int);
    lemma_trim_front(bytes, start);
    let front = bytes.subrange(start, bytes.len() as int);
    assert forall|i: int| end - start <= i < front.len() implies is_space(front[i]) by {
        assert(front[i] == bytes[start + i]);
    }
    if end > start {
        assert(front[end - start - 1] == bytes[end - 1]);
    }
    lemma_trim_back(front, end - start);
    let kept = bytes.subrange(start, end);
    assert(front.subrange(0, end - start) =~= kept);
    if kept.len() > 0 {
        assert(kept[0] == bytes[start]);
        assert(kept.last() == bytes[end - 1]);
        lemma_trim_front(kept, 0);
        assert(kept.subrange(0, kept.len() as int) =~= kept);
        lemma_trim_back(kept, kept.len() as int);
    } else {
        lemma_trim_front(kept, 0);
        lemma_trim_back(kept, 0);
        assert(kept.subrange(0, 0) =~= kept);
    }
}

/// `bytes` with ASCII white space taken off both ends.
pub fn trim(bytes: &[u8]) -> (r: &[u8])
    ensures
        r@ == spec_trim(bytes@),
{
    let len = bytes.len();
    let mut start: usize = 0;
    while start < len && space(bytes[start])
        invariant
            len == bytes@.len(),
            start <= len,
            forall|i: int| 0 <= i < start ==> is_space(bytes@[i]),
        decreases len - start,
    {
        start = start + 1;
    }
    let mut end: usize = len;
    while end > start && space(bytes[end - 1])
        invariant
            len == bytes@.len(),
            start <= end <= len,
            forall|i: int| end <= i < len ==> is_space(bytes@[i]),
        decreases end - start,
    {
        end = end - 1;
    }
    proof {
        lemma_trim_front(bytes@, start as int);
        let front = bytes@.subrange(start as int, len as int);
        assert forall|i: int| end - start <= i < front.len() implies is_space(front[i]) by {
            assert(front[i] == bytes@[start + i]);
        }
        if end > start {
            assert(front[end - start - 1] == bytes@[end - 1]);
        }
        lemma_trim_back(front, end - start);
        assert(front.subrange(0, end - start) =~= bytes@.subrange(start as int, end as int));
    }
    slice_subrange(bytes, start, end)
}

/// The value of one hexadecimal digit, in either case.
pub open spec fn spec_hex_value(byte: u8) -> Option<u8> {
    if 0x30 <= byte <= 0x39 {
        Some((byte - 0x30) as u8)
    } else if 0x61 <= byte <= 0x66 {
        Some((byte - 0x61 + 10) as u8)
    } else if 0x41 <= byte <= 0x46 {
        Some((byte - 0x41 + 10) as u8)
    } else {
        None
    }
}

/// The value of one hexadecimal digit, in either case.
pub fn hex_value(byte: u8) -> (r: Option<u8>)
    ensures
        r == spec_hex_value(byte),
        r matches Some(v) ==> v < 16,
{
    if 0x30 <= byte && byte <= 0x39 {
        Some(byte - 0x30)
    } else if 0x61 <= byte && byte <= 0x66 {
        Some(byte - 0x61 + 10)
    } else if 0x41 <= byte && byte <= 0x46 {
        Some(byte - 0x41 + 10)
    } else {
        None
    }
}

/// The digit values of a hexadecimal string, white space skipped, or `None`
/// when it holds anything that is neither.
pub open spec fn spec_nibbles(digits: Seq<u8>) -> Option<Seq<u8>>
    decreases digits.len(),
{
    if digits.len() == 0 {
        Some(Seq::empty())
    } else {
        match spec_nibbles(digits.drop_last()) {
            None => None,
            Some(before) => if is_space(digits.last()) {
                Some(before)
            } else {
                match spec_hex_value(digits.last()) {
                    Some(value) => Some(before.push(value)),
                    None => None,
                }
            },
        }
    }
}

/// Digit values taken two at a time, high nibble first.
pub open spec fn spec_pack(nibbles: Seq<u8>) -> Seq<u8> {
    Seq::new((nibbles.len() / 2) as nat, |i: int| (nibbles[2 * i] * 16 + nibbles[2 * i + 1]) as u8)
}

/// The bytes a hexadecimal string decodes to (7.3.4.3): a trailing odd digit
/// is padded with zero.
pub open spec fn spec_decode_hex(nibbles: Seq<u8>) -> Seq<u8> {
    if nibbles.len() % 2 == 1 {
        spec_pack(nibbles.push(0))
    } else {
        spec_pack(nibbles)
    }
}

/// What reading the `/Contents` gap yields: the decoded bytes, the gap's
/// range, its shape, and the warnings raised on the way.
pub struct ContentsRead {
    /// The decoded `/Contents` bytes.
    pub contents: Seq<u8>,
    /// The byte range of the gap, when the spans leave one.
    pub at: Option<Range<u64>>,
    /// What the gap held.
    pub gap: Gap,
    /// What was read leniently.
    pub warnings: Seq<SignatureWarning>,
}

/// Where the digits of the gap `start..end` sit and which shape it has, or
/// `None` when it is neither shape.
pub open spec fn gap_digits(bytes: Seq<u8>, start: int, end: int) -> Option<(Seq<u8>, Gap)> {
    let trimmed = spec_trim(bytes.subrange(start, end));
    if trimmed.len() >= 2 && trimmed[0] == 0x3C && trimmed.last() == 0x3E {
        Some((trimmed.subrange(1, trimmed.len() - 1), Gap::Delimited))
    } else if start > 0 && bytes[start - 1] == 0x3C && end < bytes.len() && bytes[end] == 0x3E {
        Some((trimmed, Gap::Tight))
    } else {
        None
    }
}

/// The `/Contents` bytes, taken from the gap the spans leave.
pub open spec fn spec_read_contents(bytes: Seq<u8>, spans: Seq<Range<u64>>) -> ContentsRead {
    let nothing = ContentsRead { contents: Seq::empty(), at: None, gap: Gap::Elsewhere, warnings: Seq::empty() };
    if spans.len() != 2 {
        nothing
    } else {
        let start = spans[0].end;
        let end = spans[1].start;
        let at = Range { start: start, end: end };
        if start > usize::MAX || end > usize::MAX || start > end || end > bytes.len() {
            nothing
        } else {
            let elsewhere = ContentsRead { contents: Seq::empty(), at: Some(at), gap: Gap::Elsewhere, warnings: Seq::empty() };
            match gap_digits(bytes, start as int, end as int) {
                None => elsewhere,
                Some((digits, shape)) => {
                    let shaped: Seq<SignatureWarning> = if shape == Gap::Tight {
                        seq![SignatureWarning::ContentsGapExcludesDelimiters]
                    } else {
                        Seq::empty()
                    };
                    match spec_nibbles(digits) {
                        None => ContentsRead {
                            contents: Seq::empty(),
                            at: Some(at),
                            gap: Gap::Elsewhere,
                            warnings: shaped.push(SignatureWarning::ContentsNotHexadecimal),
                        },
                        Some(nibbles) => ContentsRead {
                            contents: spec_decode_hex(nibbles),
                            at: Some(at),
                            gap: shape,
                            warnings: if nibbles.len() % 2 == 1 {
                                shaped.push(SignatureWarning::ContentsOddDigitCount)
                            } else {
                                shaped
                            },
                        },
                    }
                },
            }
        }
    }
}

/// The values of the hexadecimal digits in `digits`, white space skipped, or
/// `None` when it holds anything else.
fn nibbles_of(digits: &[u8]) -> (r: Option<Vec<u8>>)
    ensures
        r matches Some(v) ==> spec_nibbles(digits@) == Some(v@),
        r is None ==> spec_nibbles(digits@) is None,
        r matches Some(v) ==> forall|i: int| 0 <= i < v@.len() ==> v@[i] < 16,
{
    let mut nibbles: Vec<u8> = Vec::new();
    let mut clean = true;
    let mut i: usize = 0;
    while i < digits.len()
        invariant
            i <= digits@.len(),
            clean ==> spec_nibbles(digits@.subrange(0, i as int)) == Some(nibbles@),
            !clean ==> spec_nibbles(digits@.subrange(0, i as int)) is None,
            forall|j: int| 0 <= j < nibbles@.len() ==> nibbles@[j] < 16,
        decreases digits@.len() - i,
    {
        let byte = digits[i];
        proof {
            let next = digits@.subrange(0, i + 1);
            assert(next.drop_last() =~= digits@.subrange(0, i as int));
            assert(next.last() == byte);
        }
        if !space(byte) {
            match hex_value(byte) {
                Some(value) => nibbles.push(value),
                None => clean = false,
            }
        }
        i = i + 1;
    }
    assert(digits@.subrange(0, digits@.len() as int) =~= digits@);
    if clean {
        Some(nibbles)
    } else {
        None
    }
}

/// Digit values packed two to a byte, high nibble first.
fn pack(nibbles: &Vec<u8>) -> (r: Vec<u8>)
    requires
        nibbles@.len() % 2 == 0,
        forall|i: int| 0 <= i < nibbles@.len() ==> nibbles@[i] < 16,
    ensures
        r@ == spec_pack(nibbles@),
{
    let mut out: Vec<u8> = Vec::new();
    let mut i: usize = 0;
    while i < nibbles.len() / 2
        invariant
            nibbles@.len() % 2 == 0,
            forall|k: int| 0 <= k < nibbles@.len() ==> nibbles@[k] < 16,
            i <= nibbles@.len() / 2,
            out@.len() == i,
            forall|k: int| 0 <= k < i ==> out@[k] == (nibbles@[2 * k] * 16 + nibbles@[2 * k + 1]) as u8,
        decreases nibbles@.len() / 2 - i,
    {
        let high = nibbles[2 * i];
        let low = nibbles[2 * i + 1];
        assert((high << 4u8) | low == high * 16 + low) by (bit_vector)
            requires
                high < 16,
                low < 16,
        ;
        out.push((high << 4u8) | low);
        i = i + 1;
    }
    assert(out@ =~= spec_pack(nibbles@));
    out
}

/// Whether `digits` spells `contents` in hexadecimal, two digits a byte,
/// high first, in either case.
pub open spec fn spells_in_hex(digits: Seq<u8>, contents: Seq<u8>) -> bool {
    &&& digits.len() == 2 * contents.len()
    &&& forall|i: int|
        0 <= i < contents.len() ==> spec_hex_value(#[trigger] digits[2 * i]) == Some(
            (contents[i] / 16) as u8,
        ) && spec_hex_value(digits[2 * i + 1]) == Some((contents[i] % 16) as u8)
}

proof fn lemma_nibbles_of_digits(digits: Seq<u8>)
    requires
        forall|j: int| 0 <= j < digits.len() ==> spec_hex_value(#[trigger] digits[j]) is Some,
    ensures
        spec_nibbles(digits) == Some(
            Seq::new(digits.len(), |j: int| spec_hex_value(digits[j])->0),
        ),
    decreases digits.len(),
{
    if digits.len() > 0 {
        let before = digits.drop_last();
        assert forall|j: int| 0 <= j < before.len() implies spec_hex_value(#[trigger] before[j]) is Some by {
            assert(before[j] == digits[j]);
        }
        lemma_nibbles_of_digits(before);
        assert(spec_hex_value(digits.last()) is Some);
        assert(!is_space(digits.last()));
        assert(Seq::new(before.len(), |j: int| spec_hex_value(before[j])->0).push(
            spec_hex_value(digits.last())->0,
        ) =~= Seq::new(digits.len(), |j: int| spec_hex_value(digits[j])->0));
    }
}

/// A gap written `<` digits `>` between the two spans reads back as the bytes
/// the digits spell, delimited, with nothing to warn about.
pub proof fn lemma_delimited_contents_read_back(
    prefix: Seq<u8>,
    digits: Seq<u8>,
    suffix: Seq<u8>,
    contents: Seq<u8>,
    spans: Seq<Range<u64>>,
)
    requires
        spells_in_hex(digits, contents),
        prefix.len() + digits.len() + 2 + suffix.len() <= usize::MAX,
        spans.len() == 2,
        spans[0].end == prefix.len(),
        spans[1].start == prefix.len() + digits.len() + 2,
    ensures
        ({
            let read = spec_read_contents(prefix + seq![0x3Cu8] + digits + seq![0x3Eu8] + suffix, spans);
            &&& read.contents == contents
            &&& read.at == Some((Range { start: spans[0].end, end: spans[1].start }))
            &&& read.gap == Gap::Delimited
            &&& read.warnings == Seq::<SignatureWarning>::empty()
        }),
{
    let bytes = prefix + seq![0x3Cu8] + digits + seq![0x3Eu8] + suffix;
    let start = prefix.len() as int;
    let end = start + digits.len() + 2;
    let gap = bytes.subrange(start, end);
    assert(gap =~= seq![0x3Cu8] + digits + seq![0x3Eu8]);
    lemma_trim_front(gap, 0);
    assert(gap.subrange(0, gap.len() as int) =~= gap);
    lemma_trim_back(gap, gap.len() as int);
    assert(spec_trim(gap) == gap);
    assert(gap.subrange(1, gap.len() - 1) =~= digits);
    assert forall|j: int| 0 <= j < digits.len() implies spec_hex_value(#[trigger] digits[j]) is Some by {
        let i = j / 2;
        assert(0 <= i < contents.len());
        assert(spec_hex_value(digits[2 * i]) == Some((contents[i] / 16) as u8));
        assert(spec_hex_value(digits[2 * i + 1]) == Some((contents[i] % 16) as u8));
        if j % 2 == 0 {
            assert(j == 2 * i);
        } else {
            assert(j == 2 * i + 1);
        }
    }
    lemma_nibbles_of_digits(digits);
    let nibbles = Seq::new(digits.len(), |j: int| spec_hex_value(digits[j])->0);
    assert(nibbles.len() % 2 == 0);
    assert forall|i: int| 0 <= i < contents.len() implies #[trigger] spec_pack(nibbles)[i] == contents[i] by {
        assert(spec_hex_value(digits[2 * i]) == Some((contents[i] / 16) as u8));
        assert(nibbles[2 * i] == (contents[i] / 16) as u8);
        assert(nibbles[2 * i + 1] == (contents[i] % 16) as u8);
    }
    assert(spec_pack(nibbles) =~= contents);
}

/// The `/Contents` bytes, taken from the gap the spans leave.
///
/// Both conventions the files use are read: the `<` and `>` inside the gap,
/// and the digits alone with the delimiters just outside it — the second is
/// named, because two bytes inside or outside a digest is a different digest.
pub fn read_contents(
    bytes: &[u8],
    spans: &[Range<u64>],
    warnings: &mut Vec<SignatureWarning>,
) -> (r: (Vec<u8>, Option<Range<u64>>, Gap))
    ensures
        r.0@ == spec_read_contents(bytes@, spans@).contents,
        r.1 == spec_read_contents(bytes@, spans@).at,
        r.2 == spec_read_contents(bytes@, spans@).gap,
        final(warnings)@ == old(warnings)@ + spec_read_contents(bytes@, spans@).warnings,
{
    let ghost old_warnings = warnings@;
    if spans.len() != 2 {
        assert(warnings@ =~= old_warnings + Seq::<SignatureWarning>::empty());
        return (Vec::new(), None, Gap::Elsewhere);
    }
    let first_end = spans[0].end;
    let second_start = spans[1].start;
    if first_end > usize::MAX as u64 || second_start > usize::MAX as u64 {
        assert(warnings@ =~= old_warnings + Seq::<SignatureWarning>::empty());
        return (Vec::new(), None, Gap::Elsewhere);
    }
    let start = first_end as usize;
    let end = second_start as usize;
    if start > end || end > bytes.len() {
        assert(warnings@ =~= old_warnings + Seq::<SignatureWarning>::empty());
        return (Vec::new(), None, Gap::Elsewhere);
    }
    let at = first_end..second_start;
    let gap = slice_subrange(bytes, start, end);
    let trimmed = trim(gap);
    let tlen = trimmed.len();
    let digits: &[u8];
    let shape: Gap;
    if tlen >= 2 && trimmed[0] == 0x3C && trimmed[tlen - 1] == 0x3E {
        digits = slice_subrange(trimmed, 1, tlen - 1);
        shape = Gap::Delimited;
    } else if start > 0 && bytes[start - 1] == 0x3C && end < bytes.len() && bytes[end] == 0x3E {
        warnings.push(SignatureWarning::ContentsGapExcludesDelimiters);
        digits = trimmed;
        shape = Gap::Tight;
    } else {
        assert(warnings@ =~= old_warnings + Seq::<SignatureWarning>::empty());
        return (Vec::new(), Some(at), Gap::Elsewhere);
    }
    let ghost shaped: Seq<SignatureWarning> = if shape == Gap::Tight {
        seq![SignatureWarning::ContentsGapExcludesDelimiters]
    } else {
        Seq::empty()
    };
    assert(warnings@ =~= old_warnings + shaped);
    match nibbles_of(digits) {
        None => {
            warnings.push(SignatureWarning::ContentsNotHexadecimal);
            assert(warnings@ =~= old_warnings + shaped.push(SignatureWarning::ContentsNotHexadecimal));
            (Vec::new(), Some(at), Gap::Elsewhere)
        },
        Some(nibbles) => {
            let mut nibbles = nibbles;
            if nibbles.len() % 2 == 1 {
                warnings.push(SignatureWarning::ContentsOddDigitCount);
                assert(warnings@ =~= old_warnings + shaped.push(SignatureWarning::ContentsOddDigitCount));
                nibbles.push(0);
            }
            let decoded = pack(&nibbles);
            (decoded, Some(at), shape)
        },
    }
}

// ---- What the spans cover ---------------------------------------------------

/// The checks on `/ByteRange` that are arithmetic on its four numbers and
/// hold whatever the document is.
///
/// `entries` is the array as the dictionary holds it, each entry as the
/// integer it resolves to when it is one; `None` when `/ByteRange` is absent
/// or is not an array.
pub open spec fn spec_byte_range(entries: Option<Seq<Option<i64>>>, file_len: u64) -> (Seq<Range<u64>>, Result<(), CoverageDefect>) {
    match entries {
        None => (Seq::empty(), Err(CoverageDefect::Missing)),
        Some(items) => if items.len() != 4 {
            (Seq::empty(), Err(CoverageDefect::NotFourNumbers { count: items.len() as usize }))
        } else if exists|i: int| 0 <= i < 4 && !offset_entry(#[trigger] items[i]) {
            (Seq::empty(), Err(CoverageDefect::NotAnOffset))
        } else {
            let first_at = items[0]->0 as int;
            let first_len = items[1]->0 as int;
            let second_at = items[2]->0 as int;
            let second_len = items[3]->0 as int;
            if first_at + first_len > u64::MAX || second_at + second_len > u64::MAX {
                (Seq::empty(), Err(CoverageDefect::NotAnOffset))
            } else if first_at != 0 {
                (Seq::empty(), Err(CoverageDefect::DoesNotStartAtZero { first: first_at as u64 }))
            } else if second_at < first_at + first_len {
                (Seq::empty(), Err(CoverageDefect::SpansOverlap))
            } else if second_at + second_len > file_len {
                (Seq::empty(), Err(CoverageDefect::PastEndOfFile {
                    end: (second_at + second_len) as u64,
                    file: file_len,
                }))
            } else {
                (seq![
                    Range { start: first_at as u64, end: (first_at + first_len) as u64 },
                    Range { start: second_at as u64, end: (second_at + second_len) as u64 },
                ], Ok(()))
            }
        },
    }
}

/// Whether a `/ByteRange` entry is a non-negative integer.
pub open spec fn offset_entry(entry: Option<i64>) -> bool {
    entry matches Some(v) && v >= 0
}

/// The abstract contents of an optional array of entries.
pub open spec fn entries_view(entries: Option<&[Option<i64>]>) -> Option<Seq<Option<i64>>> {
    match entries {
        Some(items) => Some(items@),
        None => None,
    }
}

/// `/ByteRange` as spans, with the checks that do not need the file's
/// revisions.
///
/// `entries` is the array as the dictionary holds it, each entry as the
/// integer it resolves to when it is one; `None` when the entry is absent or
/// is not an array.
pub fn read_byte_range(entries: Option<&[Option<i64>]>, file_len: u64) -> (r: (
    Vec<Range<u64>>,
    Result<(), CoverageDefect>,
))
    ensures
        r.0@ == spec_byte_range(entries_view(entries), file_len).0,
        r.1 == spec_byte_range(entries_view(entries), file_len).1,
{
    let array = match entries {
        Some(array) => array,
        None => {
            return (Vec::new(), Err(CoverageDefect::Missing));
        },
    };
    if array.len() != 4 {
        return (Vec::new(), Err(CoverageDefect::NotFourNumbers { count: array.len() }));
    }
    let mut numbers: [u64; 4] = [0, 0, 0, 0];
    let mut i: usize = 0;
    while i < 4
        invariant
            entries_view(entries) == Some(array@),
            array@.len() == 4,
            i <= 4,
            forall|j: int| 0 <= j < i ==> offset_entry(#[trigger] array@[j]) && numbers@[j] == array@[j]->0,
        decreases 4 - i,
    {
        let entry = array[i];
        if entry.is_none() || entry.unwrap() < 0 {
            assert(!offset_entry(array@[i as int]));
            return (Vec::new(), Err(CoverageDefect::NotAnOffset));
        }
        numbers[i] = entry.unwrap() as u64;
        i = i + 1;
    }
    let first_at = numbers[0];
    let first_len = numbers[1];
    let second_at = numbers[2];
    let second_len = numbers[3];
    if first_len > u64::MAX - first_at || second_len > u64::MAX - second_at {
        return (Vec::new(), Err(CoverageDefect::NotAnOffset));
    }
    let first_end = first_at + first_len;
    let second_end = second_at + second_len;
    if first_at != 0 {
        return (Vec::new(), Err(CoverageDefect::DoesNotStartAtZero { first: first_at }));
    }
    if second_at < first_end {
        return (Vec::new(), Err(CoverageDefect::SpansOverlap));
    }
    if second_end > file_len {
        return (Vec::new(), Err(CoverageDefect::PastEndOfFile { end: second_end, file: file_len }));
    }
    let mut spans: Vec<Range<u64>> = Vec::new();
    spans.push(first_at..first_end);
    spans.push(second_at..second_end);
    (spans, Ok(()))
}

/// Whether coverage ending at `covered` reaches `boundary`, allowing for the
/// end-of-line marker after `%%EOF`: at most two bytes, and only carriage
/// returns or line feeds that really are in the file.
pub open spec fn spec_reaches(bytes: Seq<u8>, covered: u64, boundary: u64) -> bool {
    covered == boundary || (
        boundary <= covered
        && covered - boundary <= 2
        && covered <= usize::MAX
        && covered <= bytes.len()
        && forall|i: int| boundary <= i < covered ==> (bytes[i] == 0x0D || bytes[i] == 0x0A)
    )
}

/// Whether coverage ending at `covered` reaches `boundary`, allowing for the
/// end-of-line marker after `%%EOF` (7.5.5).
pub fn reaches(bytes: &[u8], covered: u64, boundary: u64) -> (r: bool)
    ensures
        r == spec_reaches(bytes@, covered, boundary),
{
    if covered == boundary {
        return true;
    }
    if covered < boundary {
        return false;
    }
    let extra = covered - boundary;
    if extra > 2 {
        return false;
    }
    if covered > usize::MAX as u64 {
        return false;
    }
    let from = boundary as usize;
    let to = covered as usize;
    if to > bytes.len() {
        return false;
    }
    let mut i = from;
    while i < to
        invariant
            from == boundary,
            to == covered,
            from <= i <= to <= bytes@.len(),
            forall|k: int| from <= k < i ==> (bytes@[k] == 0x0D || bytes@[k] == 0x0A),
        decreases to - i,
    {
        if bytes[i] != 0x0D && bytes[i] != 0x0A {
            return false;
        }
        i = i + 1;
    }
    true
}

/// The first of `boundaries` that coverage ending at `covered` reaches.
pub open spec fn first_reached(bytes: Seq<u8>, covered: u64, boundaries: Seq<u64>) -> Option<int>
    decreases boundaries.len(),
{
    if boundaries.len() == 0 {
        None
    } else {
        match first_reached(bytes, covered, boundaries.drop_last()) {
            Some(index) => Some(index),
            None => if spec_reaches(bytes, covered, boundaries.last()) {
                Some(boundaries.len() - 1)
            } else {
                None
            },
        }
    }
}

proof fn lemma_first_reached(bytes: Seq<u8>, covered: u64, boundaries: Seq<u64>)
    ensures
        first_reached(bytes, covered, boundaries) matches Some(index) ==> 0 <= index < boundaries.len()
            && spec_reaches(bytes, covered, boundaries[index])
            && forall|j: int| 0 <= j < index ==> !spec_reaches(bytes, covered, #[trigger] boundaries[j]),
        first_reached(bytes, covered, boundaries) is None ==> forall|j: int|
            0 <= j < boundaries.len() ==> !spec_reaches(bytes, covered, #[trigger] boundaries[j]),
    decreases boundaries.len(),
{
    if boundaries.len() > 0 {
        let before = boundaries.drop_last();
        lemma_first_reached(bytes, covered, before);
        assert forall|j: int| 0 <= j < before.len() implies before[j] == boundaries[j] by {}
    }
}

/// A first hit found in a prefix is the first hit of the whole.
proof fn lemma_first_prefix(bytes: Seq<u8>, covered: u64, boundaries: Seq<u64>, i: int)
    requires
        0 <= i < boundaries.len(),
        first_reached(bytes, covered, boundaries.subrange(0, i)) is None,
        spec_reaches(bytes, covered, boundaries[i]),
    ensures
        first_reached(bytes, covered, boundaries) == Some(i),
    decreases boundaries.len() - i,
{
    if i == boundaries.len() - 1 {
        assert(boundaries.drop_last() =~= boundaries.subrange(0, i));
    } else {
        let shorter = boundaries.drop_last();
        assert(shorter.subrange(0, i) =~= boundaries.subrange(0, i));
        lemma_first_prefix(bytes, covered, shorter, i);
    }
}

/// What the spans amount to, once the file's revision boundaries are known:
/// `revision_ends` holds where each revision of the file ends, newest first.
pub open spec fn spec_classify(
    bytes: Seq<u8>,
    spans: Seq<Range<u64>>,
    gap: Gap,
    revision_ends: Seq<u64>,
) -> Coverage {
    if gap == Gap::Elsewhere {
        Coverage::Suspicious(CoverageDefect::GapIsNotContents)
    } else if spans.len() == 0 {
        Coverage::Suspicious(CoverageDefect::Missing)
    } else {
        let end = spans.last().end;
        if end == bytes.len() || spec_reaches(bytes, bytes.len() as u64, end) {
            Coverage::WholeFile
        } else {
            match first_reached(bytes, end, revision_ends) {
                Some(index) => Coverage::Revision { index: index as usize },
                None => Coverage::Suspicious(CoverageDefect::EndsMidFile { covered_to: end }),
            }
        }
    }
}

/// What the spans amount to, once the file's revision boundaries are known.
///
/// `revision_ends` is where each revision of the file ends, newest first —
/// the order the document's revisions are counted in, so a `Revision`'s
/// index names the same revision there.
pub fn classify(bytes: &[u8], spans: &[Range<u64>], gap: Gap, revision_ends: &[u64]) -> (r: Coverage)
    ensures
        r == spec_classify(bytes@, spans@, gap, revision_ends@),
        r matches Coverage::Revision { index } ==> index < revision_ends@.len()
            && spec_reaches(bytes@, spans@.last().end, revision_ends@[index as int])
            && forall|j: int| 0 <= j < index ==> !spec_reaches(bytes@, spans@.last().end, revision_ends@[j]),
{
    if gap == Gap::Elsewhere {
        return Coverage::Suspicious(CoverageDefect::GapIsNotContents);
    }
    if spans.len() == 0 {
        return Coverage::Suspicious(CoverageDefect::Missing);
    }
    let end = spans[spans.len() - 1].end;
    let file_len = bytes.len() as u64;
    if end == file_len || reaches(bytes, file_len, end) {
        return Coverage::WholeFile;
    }
    let mut i: usize = 0;
    while i < revision_ends.len()
        invariant
            i <= revision_ends@.len(),
            spans@.len() > 0,
            gap != Gap::Elsewhere,
            end == spans@.last().end,
            file_len == bytes@.len(),
            !(end == file_len || spec_reaches(bytes@, file_len, end)),
            first_reached(bytes@, end, revision_ends@.subrange(0, i as int)) is None,
        decreases revision_ends@.len() - i,
    {
        let hit = reaches(bytes, end, revision_ends[i]);
        proof {
            let next = revision_ends@.subrange(0, i + 1);
            assert(next.drop_last() =~= revision_ends@.subrange(0, i as int));
        }
        if hit {
            proof {
                assert(revision_ends@.subrange(0, i + 1) =~= revision_ends@.subrange(0, i + 1));
                lemma_first_prefix(bytes@, end, revision_ends@, i as int);
                lemma_first_reached(bytes@, end, revision_ends@);
            }
            return Coverage::Revision { index: i };
        }
        i = i + 1;
    }
    proof {
        assert(revision_ends@.subrange(0, i as int) =~= revision_ends@);
        lemma_first_reached(bytes@, end, revision_ends@);
    }
    Coverage::Suspicious(CoverageDefect::EndsMidFile { covered_to: end })
}

/// Law: every scheme's name reads back as that scheme and as no other, so
/// `SubFilter::from_bytes(filter.name().as_bytes())` is `Some(filter)`.
pub proof fn lemma_sub_filter_names_round_trip(filter: SubFilter, other: SubFilter)
    ensures
        sub_filter_bytes(other) == sub_filter_bytes(filter) <==> other == filter,
{
    if sub_filter_bytes(other) == sub_filter_bytes(filter) {
        vstd::utf8::encode_utf8_decode_utf8(sub_filter_name(filter));
        vstd::utf8::encode_utf8_decode_utf8(sub_filter_name(other));
        reveal_strlit("adbe.pkcs7.detached");
        reveal_strlit("adbe.pkcs7.sha1");
        reveal_strlit("adbe.x509.rsa_sha1");
        reveal_strlit("ETSI.CAdES.detached");
        reveal_strlit("ETSI.RFC3161");
        assert(sub_filter_name(other) == sub_filter_name(filter));
        if other != filter {
            let a = sub_filter_name(other);
            let b = sub_filter_name(filter);
            assert(a.len() != b.len() || a[0] != b[0] || a[5] != b[5]);
        }
    }
}


// ---- One signature ---------------------------------------------------------------------

/// One signature dictionary, as far as it is plain values: how it was reached,
/// what it names, what its `/ByteRange` covers and the `/Contents` bytes read
/// from the gap. The signing time and the `/Reference` transforms are read
/// alongside it by the document layer.
pub struct Signature {
    /// How the dictionary was reached, which is part of what it claims.
    pub anchor: Anchor,
    /// The fully qualified name of the field holding it, when it was reached
    /// through one.
    pub field: Option<String>,
    /// The field object, when there was one.
    pub field_ref: Option<crate::subset::ObjRef>,
    /// The signature dictionary's own object, when it is an indirect one.
    pub value_ref: Option<crate::subset::ObjRef>,
    /// `/Filter`: the handler that produced it.
    pub filter: Option<String>,
    /// `/SubFilter`, recognised.
    pub sub_filter: Option<SubFilter>,
    /// `/SubFilter` exactly as written, recognised or not.
    pub sub_filter_name: Option<String>,
    /// The spans `/ByteRange` names, as offsets into the file; empty when
    /// `/ByteRange` was missing or unreadable.
    pub spans: Vec<Range<u64>>,
    /// What those spans amount to, checked against the file.
    pub coverage: Coverage,
    /// The stored `/Contents` bytes, read from the gap between the spans.
    pub contents: Vec<u8>,
    /// The byte range of the gap the spans leave.
    pub contents_at: Option<Range<u64>>,
    /// `/Reason`.
    pub reason: Option<String>,
    /// `/Location`.
    pub location: Option<String>,
    /// `/Name`, the signer's own claim about who they are.
    pub name: Option<String>,
    /// `/ContactInfo`.
    pub contact: Option<String>,
    /// What was read leniently, or not at all.
    pub warnings: Vec<SignatureWarning>,
}

/// Whether every byte of `bytes` is zero.
pub open spec fn all_zero(bytes: Seq<u8>) -> bool {
    forall|i: int| 0 <= i < bytes.len() ==> bytes[i] == 0
}

/// `/Contents` with the reservation's trailing zero fill removed, given the
/// length the outer DER structure declares, when one could be read.
pub open spec fn spec_cms(contents: Seq<u8>, declared: Option<usize>) -> Seq<u8> {
    match declared {
        Some(n) if n <= contents.len() && all_zero(contents.subrange(n as int, contents.len() as int)) => {
            contents.subrange(0, n as int)
        },
        _ => contents,
    }
}

/// Whether a `/Perms` key grants usage rights.
pub open spec fn is_rights_key(key: Seq<char>) -> bool {
    key == "UR"@ || key == "UR3"@
}

impl Signature {
    /// Whether the signature covers every byte of the file it was read from.
    pub fn covers_whole_file(&self) -> (r: bool)
        ensures
            r == (self.coverage == Coverage::WholeFile),
    {
        match self.coverage {
            Coverage::WholeFile => true,
            _ => false,
        }
    }

    /// [`Signature::contents`] with the reservation's trailing fill removed,
    /// which is what a CMS parser must be handed. `declared` is the length of
    /// the outer DER structure the contents begin with, when one could be
    /// read.
    ///
    /// Only zeros are trimmed: when the bytes after the declared length are
    /// anything else they are not fill, and the whole reservation is returned
    /// so the parser refuses it. With no declared length there is nothing to
    /// trust, and the whole of `contents` is returned too.
    pub fn cms(&self, declared: Option<usize>) -> (r: &[u8])
        ensures
            r@ == spec_cms(self.contents@, declared),
            r@ == self.contents@ || (r@ == self.contents@.subrange(0, r@.len() as int) && all_zero(
                self.contents@.subrange(r@.len() as int, self.contents@.len() as int),
            )),
    {
        let contents = self.contents.as_slice();
        match declared {
            Some(n) => {
                if n <= contents.len() {
                    let mut i: usize = n;
                    while i < contents.len()
                        invariant
                            n <= i <= contents@.len(),
                            declared == Some(n),
                            contents@ == self.contents@,
                            forall|j: int| n <= j < i ==> contents@[j] == 0,
                        decreases contents@.len() - i,
                    {
                        if contents[i] != 0 {
                            proof {
                                assert(contents@.subrange(n as int, contents@.len() as int)[i - n] != 0);
                                assert(!all_zero(contents@.subrange(n as int, contents@.len() as int)));
                            }
                            return contents;
                        }
                        i = i + 1;
                    }
                    proof {
                        assert(all_zero(contents@.subrange(n as int, contents@.len() as int)));
                    }
                    return slice_subrange(contents, 0, n);
                }
                contents
            },
            None => contents,
        }
    }

    /// Whether this is a usage-rights signature, which grants a reader
    /// capabilities and makes no claim about the document's content.
    pub fn is_usage_rights(&self) -> (r: bool)
        ensures
            r == (self.anchor matches Anchor::Permissions(key) && is_rights_key(key@)),
    {
        match &self.anchor {
            Anchor::Permissions(key) => {
                proof {
                    reveal_strlit("UR");
                    reveal_strlit("UR3");
                }
                crate::text::same_text(key.as_str(), "UR") || crate::text::same_text(key.as_str(), "UR3")
            },
            _ => false,
        }
    }
}


// ---- Which dictionaries are signatures -----------------------------------------------

/// Which dictionary a signature is read from.
#[derive(Clone, Copy, Debug, PartialEq, Eq, Structural)]
pub enum Holder {
    /// The value: a field's `/V`, or a `/Perms` entry.
    Value,
    /// The field dictionary itself, which carries `/ByteRange` beside `/FT /Sig`.
    Field,
    /// None: the field's `/V` is not a dictionary, and the signature is read
    /// from an empty one.
    Nothing,
}

/// One signature dictionary and how it was reached, before it is read.
pub struct Candidate {
    /// How it was reached.
    pub anchor: Anchor,
    /// The fully qualified name of the field, when it was reached through one.
    pub field: Option<String>,
    /// The field object, when there was one.
    pub field_ref: Option<crate::subset::ObjRef>,
    /// The signature dictionary's own object, when it is an indirect one.
    pub value_ref: Option<crate::subset::ObjRef>,
    /// Which dictionary it is read from.
    pub holder: Holder,
    /// What was already found wrong.
    pub warnings: Vec<SignatureWarning>,
}

/// What the inventory reads of one signature form field.
pub struct SigField {
    /// Its fully qualified name.
    pub name: String,
    /// The field object.
    pub reference: crate::subset::ObjRef,
    /// `/V`, when it is a reference.
    pub value_ref: Option<crate::subset::ObjRef>,
    /// Whether `/V`, resolved, is a dictionary.
    pub value_is_dict: bool,
    /// Whether the field has a `/V` at all.
    pub has_value: bool,
    /// Whether the field dictionary itself carries `/ByteRange`.
    pub has_byte_range: bool,
}

/// What the inventory reads of one catalog `/Perms` entry.
pub struct PermEntry {
    /// The entry's key.
    pub label: Vec<u8>,
    /// The value, when it is a reference.
    pub value_ref: Option<crate::subset::ObjRef>,
    /// Whether the value resolves to a dictionary carrying `/ByteRange`.
    pub signs: bool,
}

/// How a candidate was reached, as values.
pub enum AnchorView {
    /// A field's `/V`.
    Field,
    /// The field dictionary itself.
    MergedField,
    /// A `/Perms` entry, by its key.
    Permissions(Seq<char>),
}

/// A candidate as values.
pub struct CandidateView {
    /// How it was reached.
    pub anchor: AnchorView,
    /// The field's name.
    pub field: Option<Seq<char>>,
    /// The field object.
    pub field_ref: Option<crate::subset::ObjRef>,
    /// The dictionary's own object.
    pub value_ref: Option<crate::subset::ObjRef>,
    /// Which dictionary it is read from.
    pub holder: Holder,
    /// What was already found wrong.
    pub warnings: Seq<SignatureWarning>,
}

/// A candidate's values.
pub open spec fn candidate_view(c: Candidate) -> CandidateView {
    CandidateView {
        anchor: match c.anchor {
            Anchor::Field => AnchorView::Field,
            Anchor::MergedField => AnchorView::MergedField,
            Anchor::Permissions(key) => AnchorView::Permissions(key@),
        },
        field: match c.field {
            Some(name) => Some(name@),
            None => None,
        },
        field_ref: c.field_ref,
        value_ref: c.value_ref,
        holder: c.holder,
        warnings: c.warnings@,
    }
}

/// Whether a dictionary reached through `reference` is new to `seen`: a
/// direct one always is, since it has no identity to be met twice by.
pub open spec fn is_new(seen: Set<crate::subset::ObjRef>, reference: Option<crate::subset::ObjRef>) -> bool {
    match reference {
        Some(r) => !seen.contains(r),
        None => true,
    }
}

/// `seen` with `reference` remembered.
pub open spec fn remembered(
    seen: Set<crate::subset::ObjRef>,
    reference: Option<crate::subset::ObjRef>,
) -> Set<crate::subset::ObjRef> {
    match reference {
        Some(r) => seen.insert(r),
        None => seen,
    }
}

/// One signature field: its `/V` when that is a dictionary; else the field
/// itself when it carries `/ByteRange`; else, when it has a `/V` that is no
/// dictionary, a candidate that says so; else nothing. A dictionary already
/// met is not read twice.
pub open spec fn field_step(seen: Set<crate::subset::ObjRef>, f: SigField) -> (Set<crate::subset::ObjRef>, Option<CandidateView>) {
    if f.value_is_dict {
        if is_new(seen, f.value_ref) {
            (
                remembered(seen, f.value_ref),
                Some(CandidateView {
                    anchor: AnchorView::Field,
                    field: Some(f.name@),
                    field_ref: Some(f.reference),
                    value_ref: f.value_ref,
                    holder: Holder::Value,
                    warnings: Seq::empty(),
                }),
            )
        } else {
            (seen, None)
        }
    } else if f.has_byte_range {
        if is_new(seen, Some(f.reference)) {
            (
                seen.insert(f.reference),
                Some(CandidateView {
                    anchor: AnchorView::MergedField,
                    field: Some(f.name@),
                    field_ref: Some(f.reference),
                    value_ref: Some(f.reference),
                    holder: Holder::Field,
                    warnings: Seq::empty(),
                }),
            )
        } else {
            (seen, None)
        }
    } else if f.has_value {
        (
            seen,
            Some(CandidateView {
                anchor: AnchorView::Field,
                field: Some(f.name@),
                field_ref: Some(f.reference),
                value_ref: f.value_ref,
                holder: Holder::Nothing,
                warnings: seq![SignatureWarning::ValueNotADictionary],
            }),
        )
    } else {
        (seen, None)
    }
}

/// One `/Perms` entry: a signature when its value is a dictionary carrying
/// `/ByteRange` that was not already met.
pub open spec fn perm_step(seen: Set<crate::subset::ObjRef>, p: PermEntry) -> (Set<crate::subset::ObjRef>, Option<CandidateView>) {
    if p.signs && is_new(seen, p.value_ref) {
        (
            remembered(seen, p.value_ref),
            Some(CandidateView {
                anchor: AnchorView::Permissions(crate::text::name_text(p.label@)),
                field: None,
                field_ref: None,
                value_ref: p.value_ref,
                holder: Holder::Value,
                warnings: Seq::empty(),
            }),
        )
    } else {
        (seen, None)
    }
}

/// The candidates the first `n` fields give, and the dictionaries met.
pub open spec fn fields_upto(fields: Seq<SigField>, n: int) -> (Set<crate::subset::ObjRef>, Seq<CandidateView>)
    decreases n,
{
    if n <= 0 || n > fields.len() {
        (Set::empty(), Seq::empty())
    } else {
        let (seen, found) = fields_upto(fields, n - 1);
        let (next, candidate) = field_step(seen, fields[n - 1]);
        (
            next,
            match candidate {
                Some(c) => found.push(c),
                None => found,
            },
        )
    }
}

/// The candidates the first `n` `/Perms` entries add, after the fields.
pub open spec fn perms_upto(
    start: Set<crate::subset::ObjRef>,
    perms: Seq<PermEntry>,
    n: int,
) -> (Set<crate::subset::ObjRef>, Seq<CandidateView>)
    decreases n,
{
    if n <= 0 || n > perms.len() {
        (start, Seq::empty())
    } else {
        let (seen, found) = perms_upto(start, perms, n - 1);
        let (next, candidate) = perm_step(seen, perms[n - 1]);
        (
            next,
            match candidate {
                Some(c) => found.push(c),
                None => found,
            },
        )
    }
}

/// Every signature in the document: field signatures first, then `/Perms`.
pub open spec fn spec_candidates(fields: Seq<SigField>, perms: Seq<PermEntry>) -> Seq<CandidateView> {
    let (seen, found) = fields_upto(fields, fields.len() as int);
    found + perms_upto(seen, perms, perms.len() as int).1
}

/// Remembers `reference`, saying whether it was new.
fn remember(seen: &mut Vec<crate::subset::ObjRef>, reference: crate::subset::ObjRef) -> (fresh: bool)
    ensures
        fresh == !old(seen)@.to_set().contains(reference),
        final(seen)@.to_set() == old(seen)@.to_set().insert(reference),
{
    let mut i: usize = 0;
    while i < seen.len()
        invariant
            i <= seen@.len(),
            seen@ == old(seen)@,
            forall|j: int| 0 <= j < i ==> seen@[j] != reference,
        decreases seen@.len() - i,
    {
        if seen[i] == reference {
            proof {
                assert(seen@.to_set().contains(reference));
                assert(seen@.to_set().insert(reference) =~= seen@.to_set());
            }
            return false;
        }
        i = i + 1;
    }
    proof {
        seen@.lemma_push_to_set_commute(reference);
    }
    seen.push(reference);
    true
}

/// The signature dictionaries of a document, from its signature fields and its
/// catalog `/Perms` entries, in that order, each dictionary reached by
/// reference read once.
pub fn candidates(fields: &Vec<SigField>, perms: &Vec<PermEntry>) -> (r: Vec<Candidate>)
    ensures
        r@.map_values(|c: Candidate| candidate_view(c)) == spec_candidates(fields@, perms@),
{
    let mut seen: Vec<crate::subset::ObjRef> = Vec::new();
    proof {
        assert(seen@.to_set() =~= Set::<crate::subset::ObjRef>::empty());
    }
    let mut out: Vec<Candidate> = Vec::new();
    let mut i: usize = 0;
    while i < fields.len()
        invariant
            i <= fields@.len(),
            (seen@.to_set(), out@.map_values(|c: Candidate| candidate_view(c))) == fields_upto(fields@, i as int),
        decreases fields@.len() - i,
    {
        let f = &fields[i];
        let ghost found = out@.map_values(|c: Candidate| candidate_view(c));
        let ghost step = field_step(seen@.to_set(), *f);
        let made: Option<Candidate> = if f.value_is_dict {
            let fresh = match f.value_ref {
                Some(r) => remember(&mut seen, r),
                None => true,
            };
            if fresh {
                Some(Candidate {
                    anchor: Anchor::Field,
                    field: Some(f.name.clone()),
                    field_ref: Some(f.reference),
                    value_ref: f.value_ref,
                    holder: Holder::Value,
                    warnings: Vec::new(),
                })
            } else {
                None
            }
        } else if f.has_byte_range {
            if remember(&mut seen, f.reference) {
                Some(Candidate {
                    anchor: Anchor::MergedField,
                    field: Some(f.name.clone()),
                    field_ref: Some(f.reference),
                    value_ref: Some(f.reference),
                    holder: Holder::Field,
                    warnings: Vec::new(),
                })
            } else {
                None
            }
        } else if f.has_value {
            let mut warnings: Vec<SignatureWarning> = Vec::new();
            warnings.push(SignatureWarning::ValueNotADictionary);
            Some(Candidate {
                anchor: Anchor::Field,
                field: Some(f.name.clone()),
                field_ref: Some(f.reference),
                value_ref: f.value_ref,
                holder: Holder::Nothing,
                warnings,
            })
        } else {
            None
        };
        proof {
            assert(seen@.to_set() == step.0);
        }
        match made {
            Some(c) => {
                out.push(c);
                proof {
                    assert(out@.map_values(|c: Candidate| candidate_view(c)) =~= found.push(candidate_view(c)));
                    assert(candidate_view(c) == step.1->0);
                }
            },
            None => {},
        }
        i = i + 1;
    }
    let ghost after_fields = seen@.to_set();
    let ghost field_part = out@.map_values(|c: Candidate| candidate_view(c));
    let mut k: usize = 0;
    while k < perms.len()
        invariant
            k <= perms@.len(),
            (seen@.to_set(), out@.map_values(|c: Candidate| candidate_view(c))) == (
                perms_upto(after_fields, perms@, k as int).0,
                field_part + perms_upto(after_fields, perms@, k as int).1,
            ),
        decreases perms@.len() - k,
    {
        let p = &perms[k];
        let ghost found = out@.map_values(|c: Candidate| candidate_view(c));
        let ghost before = perms_upto(after_fields, perms@, k as int);
        let ghost step = perm_step(seen@.to_set(), *p);
        if p.signs {
            let fresh = match p.value_ref {
                Some(r) => remember(&mut seen, r),
                None => true,
            };
            if fresh {
                let c = Candidate {
                    anchor: Anchor::Permissions(crate::text::text_of(p.label.as_slice())),
                    field: None,
                    field_ref: None,
                    value_ref: p.value_ref,
                    holder: Holder::Value,
                    warnings: Vec::new(),
                };
                out.push(c);
                proof {
                    assert(out@.map_values(|c: Candidate| candidate_view(c)) =~= found.push(candidate_view(c)));
                    assert(field_part + before.1.push(candidate_view(c)) =~= (field_part + before.1).push(
                        candidate_view(c),
                    ));
                }
            }
        }
        proof {
            assert(seen@.to_set() == step.0);
        }
        k = k + 1;
    }
    proof {
        assert(fields_upto(fields@, fields@.len() as int).1 == field_part);
    }
    out
}

/// Whether the candidates read through a reference each read a different
/// dictionary.
pub open spec fn read_once(found: Seq<CandidateView>) -> bool {
    forall|i: int, j: int|
        0 <= i < j < found.len() && found[i].holder != Holder::Nothing && found[j].holder != Holder::Nothing
            && found[i].value_ref is Some ==> found[i].value_ref != found[j].value_ref
}

/// The references a candidate list read through.
pub open spec fn met(found: Seq<CandidateView>) -> Set<crate::subset::ObjRef> {
    Set::new(|r: crate::subset::ObjRef| exists|i: int| 0 <= i < found.len() && found[i].holder != Holder::Nothing && found[i].value_ref == Some(r))
}

proof fn lemma_fields_read_once(fields: Seq<SigField>, n: int)
    ensures
        read_once(fields_upto(fields, n).1),
        met(fields_upto(fields, n).1).subset_of(fields_upto(fields, n).0),
    decreases n,
{
    if 0 < n <= fields.len() {
        lemma_fields_read_once(fields, n - 1);
        let (seen, found) = fields_upto(fields, n - 1);
        let (next, candidate) = field_step(seen, fields[n - 1]);
        let now = fields_upto(fields, n).1;
        assert forall|r: crate::subset::ObjRef| met(now).contains(r) implies next.contains(r) by {
            let i = choose|i: int| 0 <= i < now.len() && now[i].holder != Holder::Nothing && now[i].value_ref == Some(r);
            if i < found.len() {
                assert(now[i] == found[i]);
                assert(met(found).contains(r));
            }
        }
        assert forall|i: int, j: int|
            0 <= i < j < now.len() && now[i].holder != Holder::Nothing && now[j].holder != Holder::Nothing
                && now[i].value_ref is Some implies now[i].value_ref != now[j].value_ref by {
            if j < found.len() {
                assert(now[i] == found[i] && now[j] == found[j]);
            } else {
                assert(now[i] == found[i]);
                assert(met(found).contains(now[i].value_ref->0));
            }
        }
    }
}

proof fn lemma_perms_read_once(start: Set<crate::subset::ObjRef>, perms: Seq<PermEntry>, n: int)
    ensures
        read_once(perms_upto(start, perms, n).1),
        met(perms_upto(start, perms, n).1).subset_of(perms_upto(start, perms, n).0),
        start.subset_of(perms_upto(start, perms, n).0),
        forall|i: int| 0 <= i < perms_upto(start, perms, n).1.len() && (#[trigger] perms_upto(start, perms, n).1[i]).value_ref is Some
            ==> !start.contains(perms_upto(start, perms, n).1[i].value_ref->0),
    decreases n,
{
    if 0 < n <= perms.len() {
        lemma_perms_read_once(start, perms, n - 1);
        let (seen, found) = perms_upto(start, perms, n - 1);
        let now = perms_upto(start, perms, n).1;
        let next = perms_upto(start, perms, n).0;
        assert forall|r: crate::subset::ObjRef| met(now).contains(r) implies next.contains(r) by {
            let i = choose|i: int| 0 <= i < now.len() && now[i].holder != Holder::Nothing && now[i].value_ref == Some(r);
            if i < found.len() {
                assert(now[i] == found[i]);
                assert(met(found).contains(r));
            }
        }
        assert forall|i: int, j: int|
            0 <= i < j < now.len() && now[i].holder != Holder::Nothing && now[j].holder != Holder::Nothing
                && now[i].value_ref is Some implies now[i].value_ref != now[j].value_ref by {
            if j < found.len() {
                assert(now[i] == found[i] && now[j] == found[j]);
            } else {
                assert(now[i] == found[i]);
                assert(met(found).contains(now[i].value_ref->0));
            }
        }
        assert forall|i: int| 0 <= i < now.len() && (#[trigger] now[i]).value_ref is Some implies !start.contains(now[i].value_ref->0) by {
            if i < found.len() {
                assert(now[i] == found[i]);
            }
        }
    }
}

/// However many fields and `/Perms` entries name it, a signature dictionary
/// reached by reference is read once: no two candidates read through a
/// reference read the same one.
pub proof fn lemma_each_dictionary_is_read_once(fields: Seq<SigField>, perms: Seq<PermEntry>)
    ensures
        read_once(spec_candidates(fields, perms)),
{
    lemma_fields_read_once(fields, fields.len() as int);
    let (seen, found) = fields_upto(fields, fields.len() as int);
    lemma_perms_read_once(seen, perms, perms.len() as int);
    let rest = perms_upto(seen, perms, perms.len() as int).1;
    let all = found + rest;
    assert forall|i: int, j: int|
        0 <= i < j < all.len() && all[i].holder != Holder::Nothing && all[j].holder != Holder::Nothing
            && all[i].value_ref is Some implies all[i].value_ref != all[j].value_ref by {
        if j < found.len() {
            assert(all[i] == found[i] && all[j] == found[j]);
        } else if i >= found.len() {
            assert(all[i] == rest[i - found.len()] && all[j] == rest[j - found.len()]);
        } else {
            assert(all[i] == found[i] && all[j] == rest[j - found.len()]);
            assert(met(found).contains(all[i].value_ref->0));
        }
    }
}


/// What a signature's `/SubFilter` says: the scheme it names when this build
/// knows it, the name exactly as written, and the warning owed when it is
/// missing or unknown.
pub fn read_sub_filter(name: Option<&[u8]>) -> (r: (Option<SubFilter>, Option<String>, Option<SignatureWarning>))
    ensures
        match name {
            None => r.0 is None && r.1 is None && r.2 == Some(SignatureWarning::SubFilterMissing),
            Some(bytes) => {
                &&& (r.0 matches Some(filter) ==> bytes@ == sub_filter_bytes(filter))
                &&& (r.0 is None ==> forall|filter: SubFilter| bytes@ != sub_filter_bytes(filter))
                &&& r.1 matches Some(written) && written@ == crate::text::name_text(bytes@)
                &&& (r.0 is Some ==> r.2 is None)
                &&& (r.0 is None ==> (r.2 matches Some(SignatureWarning::SubFilterUnknown(w)) && w@ == crate::text::name_text(bytes@)))
            },
        },
{
    match name {
        None => (None, None, Some(SignatureWarning::SubFilterMissing)),
        Some(bytes) => {
            let recognised = SubFilter::from_bytes(bytes);
            let written = crate::text::text_of(bytes);
            let warning = match recognised {
                Some(_) => None,
                None => Some(SignatureWarning::SubFilterUnknown(crate::text::text_of(bytes))),
            };
            (recognised, Some(written), warning)
        },
    }
}


// ---- What a signature restricts --------------------------------------------------------

/// The form fields a `/FieldMDP` signature locks against later change.
#[derive(Clone, Debug, PartialEq, Eq)]
pub enum FieldLockRule {
    /// Every field.
    All,
    /// The fields named.
    Include(Vec<String>),
    /// Every field but those named.
    Exclude(Vec<String>),
}

/// One entry of a signature's `/Reference` array that is a dictionary with a
/// `/TransformMethod` and a `/TransformParams` dictionary.
pub struct TransformEntry {
    /// `/TransformMethod`'s name.
    pub method: Vec<u8>,
    /// `/TransformParams /P`, when it is an integer.
    pub p: Option<i64>,
    /// `/TransformParams /Action`'s name, when there is one.
    pub action: Option<Vec<u8>>,
    /// `/TransformParams /Fields`, decoded, the strings among its entries.
    pub fields: Vec<String>,
}

/// The bytes of an ASCII text.
pub open spec fn ascii_bytes(text: Seq<char>) -> Seq<u8> {
    Seq::new(text.len(), |i: int| text[i] as u8)
}

/// What an `/Action` locks, as values: `None` for an action outside the
/// three defined, which locks nothing.
pub open spec fn spec_field_lock(action: Option<Seq<u8>>, fields: Seq<String>) -> Option<(u8, Seq<Seq<char>>)> {
    let named = fields.map_values(|f: String| f@);
    match action {
        Some(a) => if a == ascii_bytes("All"@) {
            Some((0u8, Seq::empty()))
        } else if a == ascii_bytes("Include"@) {
            Some((1u8, named))
        } else if a == ascii_bytes("Exclude"@) {
            Some((2u8, named))
        } else {
            None
        },
        None => None,
    }
}

/// A rule as values: its kind and the names it carries.
pub open spec fn lock_view(rule: Option<FieldLockRule>) -> Option<(u8, Seq<Seq<char>>)> {
    match rule {
        Some(FieldLockRule::All) => Some((0u8, Seq::empty())),
        Some(FieldLockRule::Include(names)) => Some((1u8, names@.map_values(|f: String| f@))),
        Some(FieldLockRule::Exclude(names)) => Some((2u8, names@.map_values(|f: String| f@))),
        None => None,
    }
}

fn copy_names(fields: &Vec<String>) -> (r: Vec<String>)
    ensures
        r@.map_values(|f: String| f@) == fields@.map_values(|f: String| f@),
{
    let mut out: Vec<String> = Vec::new();
    let mut i: usize = 0;
    while i < fields.len()
        invariant
            i <= fields@.len(),
            out@.map_values(|f: String| f@) == fields@.take(i as int).map_values(|f: String| f@),
        decreases fields@.len() - i,
    {
        out.push(fields[i].clone());
        proof {
            assert(fields@.take(i + 1).map_values(|f: String| f@) =~= fields@.take(i as int).map_values(
                |f: String| f@,
            ).push(fields@[i as int]@));
        }
        i = i + 1;
    }
    proof {
        assert(fields@.take(i as int) =~= fields@);
    }
    out
}

fn ascii_literal(text: &'static str) -> (r: &'static [u8])
    requires
        vstd::string::is_ascii(text),
    ensures
        r@ == ascii_bytes(text@),
{
    broadcast use vstd::string::is_ascii_spec_bytes;

    text.as_bytes()
}

/// The fields a `/FieldMDP` signature locks: `/All`, `/Include` the fields
/// named, `/Exclude` them; any other action, or none, locks nothing rather
/// than inventing a restriction the file did not ask for.
pub fn field_lock(action: Option<&[u8]>, fields: &Vec<String>) -> (r: Option<FieldLockRule>)
    ensures
        lock_view(r) == spec_field_lock(
            match action {
                Some(a) => Some(a@),
                None => None,
            },
            fields@,
        ),
{
    proof {
        reveal_strlit("All");
        reveal_strlit("Include");
        reveal_strlit("Exclude");
    }
    match action {
        Some(a) => if bytes_equal(a, ascii_literal("All")) {
            Some(FieldLockRule::All)
        } else if bytes_equal(a, ascii_literal("Include")) {
            Some(FieldLockRule::Include(copy_names(fields)))
        } else if bytes_equal(a, ascii_literal("Exclude")) {
            Some(FieldLockRule::Exclude(copy_names(fields)))
        } else {
            None
        },
        None => None,
    }
}

/// What the first `n` entries leave: the `/P` of the last `/DocMDP` entry
/// (`None` when there was none), and the lock of the last `/FieldMDP` entry.
pub open spec fn transforms_upto(entries: Seq<TransformEntry>, n: int) -> (Option<Option<i64>>, Option<(u8, Seq<Seq<char>>)>)
    decreases n,
{
    if n <= 0 || n > entries.len() {
        (None, None)
    } else {
        let (level, lock) = transforms_upto(entries, n - 1);
        let e = entries[n - 1];
        if e.method@ == ascii_bytes("DocMDP"@) {
            (Some(e.p), lock)
        } else if e.method@ == ascii_bytes("FieldMDP"@) {
            (
                level,
                spec_field_lock(
                    match e.action {
                        Some(a) => Some(a@),
                        None => None,
                    },
                    e.fields@,
                ),
            )
        } else {
            (level, lock)
        }
    }
}

/// A signature's `/Reference` transforms, read in one pass: the `/P` the last
/// `/DocMDP` entry gives, which says how far the document is certified, and
/// the fields the last `/FieldMDP` entry locks. A later entry of a method
/// replaces an earlier one, even one that says nothing.
pub fn transforms(entries: &Vec<TransformEntry>) -> (r: (Option<Option<i64>>, Option<FieldLockRule>))
    ensures
        (r.0, lock_view(r.1)) == transforms_upto(entries@, entries@.len() as int),
{
    let mut level: Option<Option<i64>> = None;
    let mut lock: Option<FieldLockRule> = None;
    let mut i: usize = 0;
    while i < entries.len()
        invariant
            i <= entries@.len(),
            (level, lock_view(lock)) == transforms_upto(entries@, i as int),
        decreases entries@.len() - i,
    {
        proof {
            reveal_strlit("DocMDP");
            reveal_strlit("FieldMDP");
        }
        let e = &entries[i];
        if bytes_equal(e.method.as_slice(), ascii_literal("DocMDP")) {
            level = Some(e.p);
        } else if bytes_equal(e.method.as_slice(), ascii_literal("FieldMDP")) {
            let action: Option<&[u8]> = match &e.action {
                Some(a) => Some(a.as_slice()),
                None => None,
            };
            lock = field_lock(action, &e.fields);
        }
        i = i + 1;
    }
    (level, lock)
}

} // verus!
