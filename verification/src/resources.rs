//! What a page's resources decode to, where the decoding is this crate's own
//! rule rather than a filter's or a colour space's: the long spellings an
//! inline image's dictionary abbreviates (8.9.7, Table 93), and the bit
//! reader image samples are read through.

use vstd::prelude::*;
use vstd::slice::slice_to_vec;
use vstd::string::*;

use crate::text::bytes_equal;

verus! {

/// An ASCII text's bytes.
pub open spec fn ascii_of(text: Seq<char>) -> Seq<u8> {
    Seq::new(text.len(), |i: int| text[i] as u8)
}

/// The bytes of an ASCII literal.
pub(crate) fn literal(text: &'static str) -> (r: &'static [u8])
    requires
        is_ascii(text),
    ensures
        r@ == ascii_of(text@),
{
    broadcast use is_ascii_spec_bytes;

    text.as_bytes()
}

/// The long spelling of a name Table 93 or Table 6 abbreviates — keys and
/// values both: `/CS /G` is a colour space named the short way, and `/F
/// /AHx` a filter — and any other name as it is.
pub open spec fn spec_long_name(name: Seq<u8>) -> Seq<u8> {
    if name == ascii_of("BPC"@) {
        ascii_of("BitsPerComponent"@)
    } else if name == ascii_of("CS"@) {
        ascii_of("ColorSpace"@)
    } else if name == ascii_of("D"@) {
        ascii_of("Decode"@)
    } else if name == ascii_of("DP"@) {
        ascii_of("DecodeParms"@)
    } else if name == ascii_of("F"@) {
        ascii_of("Filter"@)
    } else if name == ascii_of("H"@) {
        ascii_of("Height"@)
    } else if name == ascii_of("IM"@) {
        ascii_of("ImageMask"@)
    } else if name == ascii_of("I"@) {
        ascii_of("Interpolate"@)
    } else if name == ascii_of("W"@) {
        ascii_of("Width"@)
    } else if name == ascii_of("G"@) {
        ascii_of("DeviceGray"@)
    } else if name == ascii_of("RGB"@) {
        ascii_of("DeviceRGB"@)
    } else if name == ascii_of("CMYK"@) {
        ascii_of("DeviceCMYK"@)
    } else if name == ascii_of("AHx"@) {
        ascii_of("ASCIIHexDecode"@)
    } else if name == ascii_of("A85"@) {
        ascii_of("ASCII85Decode"@)
    } else if name == ascii_of("LZW"@) {
        ascii_of("LZWDecode"@)
    } else if name == ascii_of("Fl"@) {
        ascii_of("FlateDecode"@)
    } else if name == ascii_of("RL"@) {
        ascii_of("RunLengthDecode"@)
    } else if name == ascii_of("CCF"@) {
        ascii_of("CCITTFaxDecode"@)
    } else if name == ascii_of("DCT"@) {
        ascii_of("DCTDecode"@)
    } else {
        name
    }
}

/// The long spelling of `name`, or `name` itself.
fn long_name(name: &[u8]) -> (r: Vec<u8>)
    ensures
        r@ == spec_long_name(name@),
{
    proof {
        reveal_strlit("BPC");
        reveal_strlit("BitsPerComponent");
        reveal_strlit("CS");
        reveal_strlit("ColorSpace");
        reveal_strlit("D");
        reveal_strlit("Decode");
        reveal_strlit("DP");
        reveal_strlit("DecodeParms");
        reveal_strlit("F");
        reveal_strlit("Filter");
        reveal_strlit("H");
        reveal_strlit("Height");
        reveal_strlit("IM");
        reveal_strlit("ImageMask");
        reveal_strlit("I");
        reveal_strlit("Interpolate");
        reveal_strlit("W");
        reveal_strlit("Width");
        reveal_strlit("G");
        reveal_strlit("DeviceGray");
        reveal_strlit("RGB");
        reveal_strlit("DeviceRGB");
        reveal_strlit("CMYK");
        reveal_strlit("DeviceCMYK");
        reveal_strlit("AHx");
        reveal_strlit("ASCIIHexDecode");
        reveal_strlit("A85");
        reveal_strlit("ASCII85Decode");
        reveal_strlit("LZW");
        reveal_strlit("LZWDecode");
        reveal_strlit("Fl");
        reveal_strlit("FlateDecode");
        reveal_strlit("RL");
        reveal_strlit("RunLengthDecode");
        reveal_strlit("CCF");
        reveal_strlit("CCITTFaxDecode");
        reveal_strlit("DCT");
        reveal_strlit("DCTDecode");
    }
    if bytes_equal(name, literal("BPC")) {
        return slice_to_vec(literal("BitsPerComponent"));
    }
    if bytes_equal(name, literal("CS")) {
        return slice_to_vec(literal("ColorSpace"));
    }
    if bytes_equal(name, literal("D")) {
        return slice_to_vec(literal("Decode"));
    }
    if bytes_equal(name, literal("DP")) {
        return slice_to_vec(literal("DecodeParms"));
    }
    if bytes_equal(name, literal("F")) {
        return slice_to_vec(literal("Filter"));
    }
    if bytes_equal(name, literal("H")) {
        return slice_to_vec(literal("Height"));
    }
    if bytes_equal(name, literal("IM")) {
        return slice_to_vec(literal("ImageMask"));
    }
    if bytes_equal(name, literal("I")) {
        return slice_to_vec(literal("Interpolate"));
    }
    if bytes_equal(name, literal("W")) {
        return slice_to_vec(literal("Width"));
    }
    if bytes_equal(name, literal("G")) {
        return slice_to_vec(literal("DeviceGray"));
    }
    if bytes_equal(name, literal("RGB")) {
        return slice_to_vec(literal("DeviceRGB"));
    }
    if bytes_equal(name, literal("CMYK")) {
        return slice_to_vec(literal("DeviceCMYK"));
    }
    if bytes_equal(name, literal("AHx")) {
        return slice_to_vec(literal("ASCIIHexDecode"));
    }
    if bytes_equal(name, literal("A85")) {
        return slice_to_vec(literal("ASCII85Decode"));
    }
    if bytes_equal(name, literal("LZW")) {
        return slice_to_vec(literal("LZWDecode"));
    }
    if bytes_equal(name, literal("Fl")) {
        return slice_to_vec(literal("FlateDecode"));
    }
    if bytes_equal(name, literal("RL")) {
        return slice_to_vec(literal("RunLengthDecode"));
    }
    if bytes_equal(name, literal("CCF")) {
        return slice_to_vec(literal("CCITTFaxDecode"));
    }
    if bytes_equal(name, literal("DCT")) {
        return slice_to_vec(literal("DCTDecode"));
    }
    slice_to_vec(name)
}

/// A name carrying a `#` escape is no abbreviation: it comes back exactly as
/// it went in.
pub proof fn lemma_escaped_name_is_kept(name: Seq<u8>)
    requires
        name.contains(0x23u8),
    ensures
        spec_long_name(name) == name,
{
    reveal_strlit("BPC");
    reveal_strlit("CS");
    reveal_strlit("D");
    reveal_strlit("DP");
    reveal_strlit("F");
    reveal_strlit("H");
    reveal_strlit("IM");
    reveal_strlit("I");
    reveal_strlit("W");
    reveal_strlit("G");
    reveal_strlit("RGB");
    reveal_strlit("CMYK");
    reveal_strlit("AHx");
    reveal_strlit("A85");
    reveal_strlit("LZW");
    reveal_strlit("Fl");
    reveal_strlit("RL");
    reveal_strlit("CCF");
    reveal_strlit("DCT");
    assert(name != ascii_of("BPC"@)) by { assert(!ascii_of("BPC"@).contains(0x23u8)); }
    assert(name != ascii_of("CS"@)) by { assert(!ascii_of("CS"@).contains(0x23u8)); }
    assert(name != ascii_of("D"@)) by { assert(!ascii_of("D"@).contains(0x23u8)); }
    assert(name != ascii_of("DP"@)) by { assert(!ascii_of("DP"@).contains(0x23u8)); }
    assert(name != ascii_of("F"@)) by { assert(!ascii_of("F"@).contains(0x23u8)); }
    assert(name != ascii_of("H"@)) by { assert(!ascii_of("H"@).contains(0x23u8)); }
    assert(name != ascii_of("IM"@)) by { assert(!ascii_of("IM"@).contains(0x23u8)); }
    assert(name != ascii_of("I"@)) by { assert(!ascii_of("I"@).contains(0x23u8)); }
    assert(name != ascii_of("W"@)) by { assert(!ascii_of("W"@).contains(0x23u8)); }
    assert(name != ascii_of("G"@)) by { assert(!ascii_of("G"@).contains(0x23u8)); }
    assert(name != ascii_of("RGB"@)) by { assert(!ascii_of("RGB"@).contains(0x23u8)); }
    assert(name != ascii_of("CMYK"@)) by { assert(!ascii_of("CMYK"@).contains(0x23u8)); }
    assert(name != ascii_of("AHx"@)) by { assert(!ascii_of("AHx"@).contains(0x23u8)); }
    assert(name != ascii_of("A85"@)) by { assert(!ascii_of("A85"@).contains(0x23u8)); }
    assert(name != ascii_of("LZW"@)) by { assert(!ascii_of("LZW"@).contains(0x23u8)); }
    assert(name != ascii_of("Fl"@)) by { assert(!ascii_of("Fl"@).contains(0x23u8)); }
    assert(name != ascii_of("RL"@)) by { assert(!ascii_of("RL"@).contains(0x23u8)); }
    assert(name != ascii_of("CCF"@)) by { assert(!ascii_of("CCF"@).contains(0x23u8)); }
    assert(name != ascii_of("DCT"@)) by { assert(!ascii_of("DCT"@).contains(0x23u8)); }
}

/// ASCII white space as `u8::is_ascii_whitespace` has it: space, tab, line
/// feed, form feed and carriage return.
pub open spec fn is_ascii_whitespace(byte: u8) -> bool {
    byte == 0x20 || byte == 0x09 || byte == 0x0A || byte == 0x0C || byte == 0x0D
}

/// A delimiter of 7.2.2: `( ) < > [ ] { } / %`.
pub open spec fn is_delimiter(byte: u8) -> bool {
    ||| byte == 0x28 || byte == 0x29
    ||| byte == 0x3C || byte == 0x3E
    ||| byte == 0x5B || byte == 0x5D
    ||| byte == 0x7B || byte == 0x7D
    ||| byte == 0x2F || byte == 0x25
}

/// A byte that continues a name: anything but white space, NUL and a
/// delimiter — `#` included, so an escaped name is read whole, matches no
/// abbreviation and comes back out exactly as it went in.
pub open spec fn continues_name(byte: u8) -> bool {
    !is_ascii_whitespace(byte) && byte != 0 && !is_delimiter(byte)
}

/// Where the name that starts at `at` ends: the first byte from `at` on that
/// does not continue it, or the end of the dictionary.
pub open spec fn name_end(dict: Seq<u8>, at: int) -> int
    decreases dict.len() - at,
{
    if at < 0 || at >= dict.len() || !continues_name(dict[at]) {
        at
    } else {
        name_end(dict, at + 1)
    }
}

/// A name ends where it starts or later, and never past the dictionary.
pub proof fn lemma_name_end(dict: Seq<u8>, at: int)
    requires
        0 <= at <= dict.len(),
    ensures
        at <= name_end(dict, at) <= dict.len(),
    decreases dict.len() - at,
{
    if at < dict.len() && continues_name(dict[at]) {
        lemma_name_end(dict, at + 1);
    }
}

/// The dictionary from `at` on, with every name spelt long. No separator is
/// added: whatever ended the short name — white space, a delimiter or the end
/// of the dictionary — ends the long one too.
pub open spec fn spec_expand_from(dict: Seq<u8>, at: int) -> Seq<u8>
    decreases dict.len() - at,
{
    if at < 0 || at >= dict.len() {
        Seq::empty()
    } else if dict[at] != 0x2F {
        seq![dict[at]] + spec_expand_from(dict, at + 1)
    } else {
        let end = name_end(dict, at + 1);
        proof {
            lemma_name_end(dict, at + 1);
        }
        seq![0x2Fu8] + spec_long_name(dict.subrange(at + 1, end)) + spec_expand_from(dict, end)
    }
}

/// An inline image's dictionary with every abbreviated name spelt long,
/// between `<< ` and ` >>`.
pub open spec fn spec_expand(dict: Seq<u8>) -> Seq<u8> {
    ascii_of("<< "@) + spec_expand_from(dict, 0) + ascii_of(" >>"@)
}

/// Rewrites an inline image's dictionary into the long spellings the shared
/// image path reads (8.9.7, Table 93).
///
/// Name by name rather than by text substitution. A search for `"/Fl "` finds
/// neither `/F/Fl` nor `[/AHx/Fl]`, and both are ordinary PDF — 7.2.2 makes
/// the `/` its own delimiter, so no producer is obliged to write the space
/// that search depends on.
pub fn expand_inline_abbreviations(dict: &[u8]) -> (r: Vec<u8>)
    ensures
        r@ == spec_expand(dict@),
{
    proof {
        reveal_strlit("<< ");
        reveal_strlit(" >>");
    }
    let mut out: Vec<u8> = slice_to_vec(literal("<< "));
    let ghost whole = spec_expand_from(dict@, 0);
    let mut i: usize = 0;
    while i < dict.len()
        invariant
            i <= dict@.len(),
            whole == spec_expand_from(dict@, 0),
            ascii_of("<< "@) + whole == out@ + spec_expand_from(dict@, i as int),
        decreases dict@.len() - i,
    {
        let byte = dict[i];
        if byte != 0x2F {
            let ghost rest = spec_expand_from(dict@, i + 1);
            let ghost before = out@;
            out.push(byte);
            assert(spec_expand_from(dict@, i as int) == seq![byte] + rest);
            assert(before + (seq![byte] + rest) =~= out@ + rest);
            i = i + 1;
            continue;
        }
        let start = i + 1;
        let mut end = start;
        while end < dict.len() && !(dict[end] == 0x20 || dict[end] == 0x09 || dict[end] == 0x0A
            || dict[end] == 0x0C || dict[end] == 0x0D || dict[end] == 0 || dict[end] == 0x28
            || dict[end] == 0x29 || dict[end] == 0x3C || dict[end] == 0x3E || dict[end] == 0x5B
            || dict[end] == 0x5D || dict[end] == 0x7B || dict[end] == 0x7D || dict[end] == 0x2F
            || dict[end] == 0x25)
            invariant
                start == i + 1,
                i < dict@.len(),
                start <= end <= dict@.len(),
                name_end(dict@, start as int) == name_end(dict@, end as int),
            decreases dict@.len() - end,
        {
            end = end + 1;
        }
        proof {
            lemma_name_end(dict@, start as int);
        }
        let name = vstd::slice::slice_subrange(dict, start, end);
        let mut long = long_name(name);
        let ghost before = out@;
        out.push(0x2F);
        out.append(&mut long);
        proof {
            assert(end as int == name_end(dict@, start as int));
            assert(spec_expand_from(dict@, i as int) == seq![0x2Fu8] + spec_long_name(
                dict@.subrange(start as int, end as int),
            ) + spec_expand_from(dict@, end as int));
            assert(out@ =~= before + seq![0x2Fu8] + spec_long_name(dict@.subrange(start as int, end as int)));
        }
        i = end;
    }
    let mut close = slice_to_vec(literal(" >>"));
    out.append(&mut close);
    out
}


/// Whether every byte of `bytes` continues a name.
pub open spec fn all_continue(bytes: Seq<u8>) -> bool {
    forall|i: int| 0 <= i < bytes.len() ==> continues_name(#[trigger] bytes[i])
}

/// Whether every name in `dict` is already spelt long.
pub open spec fn names_are_long(dict: Seq<u8>) -> bool {
    forall|at: int|
        0 <= at < dict.len() && #[trigger] dict[at] == 0x2F ==> spec_long_name(
            dict.subrange(at + 1, name_end(dict, at + 1)),
        ) == dict.subrange(at + 1, name_end(dict, at + 1))
}

proof fn lemma_long_name_of_long(name: Seq<u8>)
    requires
        name.len() >= 5,
    ensures
        spec_long_name(name) == name,
{
    reveal_strlit("BPC");
    reveal_strlit("CS");
    reveal_strlit("D");
    reveal_strlit("DP");
    reveal_strlit("F");
    reveal_strlit("H");
    reveal_strlit("IM");
    reveal_strlit("I");
    reveal_strlit("W");
    reveal_strlit("G");
    reveal_strlit("RGB");
    reveal_strlit("CMYK");
    reveal_strlit("AHx");
    reveal_strlit("A85");
    reveal_strlit("LZW");
    reveal_strlit("Fl");
    reveal_strlit("RL");
    reveal_strlit("CCF");
    reveal_strlit("DCT");
}

proof fn lemma_long_name_settles(name: Seq<u8>)
    requires
        all_continue(name),
    ensures
        all_continue(spec_long_name(name)),
        spec_long_name(spec_long_name(name)) == spec_long_name(name),
{
    reveal_strlit("BPC");
    reveal_strlit("CS");
    reveal_strlit("D");
    reveal_strlit("DP");
    reveal_strlit("F");
    reveal_strlit("H");
    reveal_strlit("IM");
    reveal_strlit("I");
    reveal_strlit("W");
    reveal_strlit("G");
    reveal_strlit("RGB");
    reveal_strlit("CMYK");
    reveal_strlit("AHx");
    reveal_strlit("A85");
    reveal_strlit("LZW");
    reveal_strlit("Fl");
    reveal_strlit("RL");
    reveal_strlit("CCF");
    reveal_strlit("DCT");
    reveal_strlit("BitsPerComponent");
    reveal_strlit("ColorSpace");
    reveal_strlit("Decode");
    reveal_strlit("DecodeParms");
    reveal_strlit("Filter");
    reveal_strlit("Height");
    reveal_strlit("ImageMask");
    reveal_strlit("Interpolate");
    reveal_strlit("Width");
    reveal_strlit("DeviceGray");
    reveal_strlit("DeviceRGB");
    reveal_strlit("DeviceCMYK");
    reveal_strlit("ASCIIHexDecode");
    reveal_strlit("ASCII85Decode");
    reveal_strlit("LZWDecode");
    reveal_strlit("FlateDecode");
    reveal_strlit("RunLengthDecode");
    reveal_strlit("CCITTFaxDecode");
    reveal_strlit("DCTDecode");
    assert(all_continue(ascii_of("BitsPerComponent"@)));
    assert(all_continue(ascii_of("ColorSpace"@)));
    assert(all_continue(ascii_of("Decode"@)));
    assert(all_continue(ascii_of("DecodeParms"@)));
    assert(all_continue(ascii_of("Filter"@)));
    assert(all_continue(ascii_of("Height"@)));
    assert(all_continue(ascii_of("ImageMask"@)));
    assert(all_continue(ascii_of("Interpolate"@)));
    assert(all_continue(ascii_of("Width"@)));
    assert(all_continue(ascii_of("DeviceGray"@)));
    assert(all_continue(ascii_of("DeviceRGB"@)));
    assert(all_continue(ascii_of("DeviceCMYK"@)));
    assert(all_continue(ascii_of("ASCIIHexDecode"@)));
    assert(all_continue(ascii_of("ASCII85Decode"@)));
    assert(all_continue(ascii_of("LZWDecode"@)));
    assert(all_continue(ascii_of("FlateDecode"@)));
    assert(all_continue(ascii_of("RunLengthDecode"@)));
    assert(all_continue(ascii_of("CCITTFaxDecode"@)));
    assert(all_continue(ascii_of("DCTDecode"@)));
    lemma_long_name_of_long(ascii_of("BitsPerComponent"@));
    lemma_long_name_of_long(ascii_of("ColorSpace"@));
    lemma_long_name_of_long(ascii_of("Decode"@));
    lemma_long_name_of_long(ascii_of("DecodeParms"@));
    lemma_long_name_of_long(ascii_of("Filter"@));
    lemma_long_name_of_long(ascii_of("Height"@));
    lemma_long_name_of_long(ascii_of("ImageMask"@));
    lemma_long_name_of_long(ascii_of("Interpolate"@));
    lemma_long_name_of_long(ascii_of("Width"@));
    lemma_long_name_of_long(ascii_of("DeviceGray"@));
    lemma_long_name_of_long(ascii_of("DeviceRGB"@));
    lemma_long_name_of_long(ascii_of("DeviceCMYK"@));
    lemma_long_name_of_long(ascii_of("ASCIIHexDecode"@));
    lemma_long_name_of_long(ascii_of("ASCII85Decode"@));
    lemma_long_name_of_long(ascii_of("LZWDecode"@));
    lemma_long_name_of_long(ascii_of("FlateDecode"@));
    lemma_long_name_of_long(ascii_of("RunLengthDecode"@));
    lemma_long_name_of_long(ascii_of("CCITTFaxDecode"@));
    lemma_long_name_of_long(ascii_of("DCTDecode"@));
}

proof fn lemma_name_end_shift(p: Seq<u8>, r: Seq<u8>, k: int)
    requires
        0 <= k <= r.len(),
    ensures
        name_end(p + r, p.len() + k) == p.len() + name_end(r, k),
    decreases r.len() - k,
{
    if k < r.len() {
        assert((p + r)[p.len() + k] == r[k]);
        if continues_name(r[k]) {
            lemma_name_end_shift(p, r, k + 1);
        }
    }
}

proof fn lemma_expand_shift(p: Seq<u8>, r: Seq<u8>, k: int)
    requires
        0 <= k <= r.len(),
    ensures
        spec_expand_from(p + r, p.len() + k) == spec_expand_from(r, k),
    decreases r.len() - k,
{
    if k < r.len() {
        assert((p + r)[p.len() + k] == r[k]);
        if r[k] != 0x2F {
            lemma_expand_shift(p, r, k + 1);
        } else {
            lemma_name_end_shift(p, r, k + 1);
            lemma_name_end(r, k + 1);
            let e = name_end(r, k + 1);
            assert((p + r).subrange(p.len() + k + 1, p.len() + e) =~= r.subrange(k + 1, e));
            lemma_expand_shift(p, r, e);
        }
    }
}

proof fn lemma_name_end_through(s: Seq<u8>, from: int, to: int)
    requires
        0 <= from <= to <= s.len(),
        forall|i: int| from <= i < to ==> continues_name(#[trigger] s[i]),
        to == s.len() || !continues_name(s[to]),
    ensures
        name_end(s, from) == to,
    decreases to - from,
{
    if from < to {
        lemma_name_end_through(s, from + 1, to);
    }
}

proof fn lemma_name_bytes_continue(dict: Seq<u8>, at: int)
    requires
        0 <= at <= dict.len(),
    ensures
        all_continue(dict.subrange(at, name_end(dict, at))),
        name_end(dict, at) == dict.len() || !continues_name(dict[name_end(dict, at)]),
    decreases dict.len() - at,
{
    lemma_name_end(dict, at);
    if at < dict.len() && continues_name(dict[at]) {
        lemma_name_bytes_continue(dict, at + 1);
        let e = name_end(dict, at);
        assert forall|i: int| 0 <= i < e - at implies continues_name(
            #[trigger] dict.subrange(at, e)[i],
        ) by {
            if i > 0 {
                assert(dict.subrange(at, e)[i] == dict.subrange(at + 1, e)[i - 1]);
            }
        }
    }
}

proof fn lemma_expand_from_first(dict: Seq<u8>, at: int)
    requires
        0 <= at < dict.len(),
    ensures
        spec_expand_from(dict, at).len() > 0,
        spec_expand_from(dict, at)[0] == dict[at],
{
    lemma_name_end(dict, at + 1);
}

proof fn lemma_expand_settles(dict: Seq<u8>, at: int)
    requires
        0 <= at <= dict.len(),
    ensures
        spec_expand_from(spec_expand_from(dict, at), 0) == spec_expand_from(dict, at),
    decreases dict.len() - at,
{
    if at < dict.len() {
        if dict[at] != 0x2F {
            let rest = spec_expand_from(dict, at + 1);
            lemma_expand_settles(dict, at + 1);
            let whole = seq![dict[at]] + rest;
            assert(spec_expand_from(dict, at) == whole);
            lemma_expand_shift(seq![dict[at]], rest, 0);
            assert(spec_expand_from(whole, 0) == seq![dict[at]] + spec_expand_from(whole, 1));
        } else {
            let end = name_end(dict, at + 1);
            lemma_name_end(dict, at + 1);
            lemma_name_bytes_continue(dict, at + 1);
            let name = dict.subrange(at + 1, end);
            lemma_long_name_settles(name);
            let long = spec_long_name(name);
            let rest = spec_expand_from(dict, end);
            lemma_expand_settles(dict, end);
            let head = seq![0x2Fu8] + long;
            let whole = head + rest;
            assert(spec_expand_from(dict, at) == whole);
            if end < dict.len() {
                lemma_expand_from_first(dict, end);
                assert(whole[head.len() as int] == rest[0]);
            }
            assert forall|i: int| 1 <= i < head.len() implies continues_name(#[trigger] whole[i]) by {
                assert(whole[i] == long[i - 1]);
            }
            lemma_name_end_through(whole, 1, head.len() as int);
            assert(whole.subrange(1, head.len() as int) =~= long);
            lemma_expand_shift(head, rest, 0);
            assert(whole[0] == 0x2F);
        }
    }
}

/// Expanding an expansion changes nothing: every long spelling is already
/// its own long spelling, and each name still ends where the short one did.
pub proof fn lemma_expansion_settles(dict: Seq<u8>)
    ensures
        spec_expand(spec_expand_from(dict, 0)) == spec_expand(dict),
{
    lemma_expand_settles(dict, 0);
}

proof fn lemma_expand_long_from(dict: Seq<u8>, at: int)
    requires
        names_are_long(dict),
        0 <= at <= dict.len(),
    ensures
        spec_expand_from(dict, at) == dict.subrange(at, dict.len() as int),
    decreases dict.len() - at,
{
    if at == dict.len() {
        assert(dict.subrange(at, at) =~= Seq::<u8>::empty());
    } else if dict[at] != 0x2F {
        lemma_expand_long_from(dict, at + 1);
        assert(seq![dict[at]] + dict.subrange(at + 1, dict.len() as int) =~= dict.subrange(
            at,
            dict.len() as int,
        ));
    } else {
        let end = name_end(dict, at + 1);
        lemma_name_end(dict, at + 1);
        lemma_expand_long_from(dict, end);
        assert(seq![0x2Fu8] + dict.subrange(at + 1, end) + dict.subrange(end, dict.len() as int)
            =~= dict.subrange(at, dict.len() as int));
    }
}

/// A dictionary none of whose names is abbreviated comes back as it was,
/// between `<< ` and ` >>`.
pub proof fn lemma_long_names_are_untouched(dict: Seq<u8>)
    requires
        names_are_long(dict),
    ensures
        spec_expand(dict) == ascii_of("<< "@) + dict + ascii_of(" >>"@),
{
    lemma_expand_long_from(dict, 0);
    assert(dict.subrange(0, dict.len() as int) =~= dict);
}

// ---- Samples ------------------------------------------------------------------

/// The bit at bit offset `index` of `data`, counting from the most
/// significant bit of the first byte; a bit past the data reads as zero.
pub open spec fn bit_at(data: Seq<u8>, index: int) -> u32 {
    if 0 <= index && index / 8 < data.len() {
        ((data[index / 8] >> ((7 - index % 8) as u8)) & 1u8) as u32
    } else {
        0
    }
}

/// The first `count` bits from bit offset `at`, read as a big-endian number.
pub open spec fn spec_read_bits(data: Seq<u8>, at: int, count: nat) -> int
    decreases count,
{
    if count == 0 {
        0
    } else {
        2 * spec_read_bits(data, at, (count - 1) as nat) + bit_at(data, at + count - 1)
    }
}

proof fn lemma_read_bits_bound(data: Seq<u8>, at: int, count: nat)
    requires
        count <= 16,
    ensures
        0 <= spec_read_bits(data, at, count) < vstd::arithmetic::power2::pow2(count),
    decreases count,
{
    vstd::arithmetic::power2::lemma2_to64();
    if count > 0 {
        lemma_read_bits_bound(data, at, (count - 1) as nat);
        let index = at + count - 1;
        if 0 <= index && index / 8 < data.len() {
            let byte = data[index / 8];
            let shift = (7 - index % 8) as u8;
            assert((byte >> shift) & 1u8 <= 1u8) by (bit_vector);
        }
        vstd::arithmetic::power2::lemma_pow2_unfold(count);
    }
}

/// The first `count` bits from bit offset `at`, each weighted by its place
/// in an `n`-bit number: bit `i` counts `2^(n - 1 - i)`.
pub open spec fn weighted_bits(data: Seq<u8>, at: int, n: nat, count: nat) -> int
    decreases count,
{
    if count == 0 {
        0
    } else {
        weighted_bits(data, at, n, (count - 1) as nat) + bit_at(data, at + count - 1)
            * vstd::arithmetic::power2::pow2((n - count) as nat)
    }
}

proof fn lemma_weighted_prefix(data: Seq<u8>, at: int, n: nat, count: nat)
    requires
        count <= n,
    ensures
        spec_read_bits(data, at, count) * vstd::arithmetic::power2::pow2((n - count) as nat)
            == weighted_bits(data, at, n, count),
    decreases count,
{
    if count > 0 {
        lemma_weighted_prefix(data, at, n, (count - 1) as nat);
        let low = vstd::arithmetic::power2::pow2((n - count) as nat);
        let high = vstd::arithmetic::power2::pow2((n - count + 1) as nat);
        vstd::arithmetic::power2::lemma_pow2_unfold((n - count + 1) as nat);
        assert(high == 2 * low);
        let before = spec_read_bits(data, at, (count - 1) as nat);
        let bit = bit_at(data, at + count - 1) as int;
        assert((2 * before + bit) * low == before * high + bit * low) by (nonlinear_arith)
            requires
                high == 2 * low,
        ;
    }
}

/// Reading `n` bits is the sum of each bit weighted by its place, most
/// significant first, with bits past the end of the data reading as zero; the
/// result is under `2^n`.
pub proof fn lemma_read_bits_is_the_weighted_sum(data: Seq<u8>, at: int, n: nat)
    requires
        n <= 16,
    ensures
        spec_read_bits(data, at, n) == weighted_bits(data, at, n, n),
        0 <= spec_read_bits(data, at, n) < vstd::arithmetic::power2::pow2(n),
{
    lemma_weighted_prefix(data, at, n, n);
    vstd::arithmetic::power2::lemma2_to64();
    lemma_read_bits_bound(data, at, n);
}

/// Reads `bits` bits (at most sixteen) starting at bit offset `at`,
/// big-endian, reading zero past the end of `data`.
pub fn read_bits(data: &[u8], at: usize, bits: u32) -> (r: u32)
    requires
        at + (if bits < 16 { bits as int } else { 16 }) <= usize::MAX + 1,
    ensures
        r == spec_read_bits(data@, at as int, if bits < 16 { bits as nat } else { 16 }),
{
    let count: u32 = if bits < 16 { bits } else { 16 };
    let mut value: u32 = 0;
    let mut i: u32 = 0;
    while i < count
        invariant
            count <= 16,
            i <= count,
            at + count <= usize::MAX + 1,
            value == spec_read_bits(data@, at as int, i as nat),
        decreases count - i,
    {
        proof {
            lemma_read_bits_bound(data@, at as int, i as nat);
            vstd::arithmetic::power2::lemma_pow2_strictly_increases(i as nat, 16);
            vstd::arithmetic::power2::lemma2_to64();
        }
        let index = at + i as usize;
        // A bit past the data reads as zero.
        let bit: u8 = if index / 8 < data.len() {
            (data[index / 8] >> (7 - (index % 8)) as u8) & 1
        } else {
            0
        };
        proof {
            if index / 8 < data.len() {
                let byte = data@[(index / 8) as int];
                let k = (7 - index % 8) as u8;
                assert((byte >> k) & 1u8 <= 1u8) by (bit_vector);
            }
        }
        value = value * 2 + bit as u32;
        i = i + 1;
    }
    value
}

// ---- Image geometry and codec routing ------------------------------------------------

/// A number clamped into `lo..=hi`.
pub open spec fn clamped(value: int, lo: int, hi: int) -> int {
    if value < lo {
        lo
    } else if value > hi {
        hi
    } else {
        value
    }
}

/// An image's width, height and bits per component, as the sample reader
/// takes them: the dimensions clamped to `0..=65536` and the depth to
/// `1..=16` — one for a mask or a bilevel codec, whatever the dictionary
/// claims — and no image at all when either dimension comes to zero.
pub open spec fn spec_image_layout(width: i64, height: i64, bits: i64, one_bit: bool) -> Option<(u32, u32, u32)> {
    let w = clamped(width as int, 0, 65536);
    let h = clamped(height as int, 0, 65536);
    if w == 0 || h == 0 {
        None
    } else {
        Some((w as u32, h as u32, if one_bit { 1u32 } else { clamped(bits as int, 1, 16) as u32 }))
    }
}

/// An image's width, height and bits per component, as the sample reader
/// takes them, from what its dictionary says (absent numbers read as zero).
///
/// 8.9.6.2: a mask is one bit per sample whatever `/BitsPerComponent`
/// claims, and 7.4.6 and 7.4.7 make both bilevel codecs produce one bit per
/// pixel too.
pub fn image_layout(width: i64, height: i64, bits: i64, one_bit: bool) -> (r: Option<(u32, u32, u32)>)
    ensures
        r == spec_image_layout(width, height, bits, one_bit),
{
    let w: i64 = if width < 0 {
        0
    } else if width > 65536 {
        65536
    } else {
        width
    };
    let h: i64 = if height < 0 {
        0
    } else if height > 65536 {
        65536
    } else {
        height
    };
    if w == 0 || h == 0 {
        return None;
    }
    let depth: u32 = if one_bit {
        1
    } else if bits < 1 {
        1
    } else if bits > 16 {
        16
    } else {
        bits as u32
    };
    Some((w as u32, h as u32, depth))
}

/// The bit offset of component `c` of the sample at column `x` of row `y`:
/// rows start on byte boundaries (8.9.3), and within a row the samples are
/// packed `n` components of `bits` bits each.
pub open spec fn spec_sample_bit(y: int, x: int, c: int, n: int, width: int, bits: int) -> int {
    let row_bytes = (width * n * bits + 7) / 8;
    y * row_bytes * 8 + (x * n + c) * bits
}

/// The bit offset of one component of one sample, in a decoded image whose
/// rows start on byte boundaries.
pub fn sample_bit(y: usize, x: usize, c: usize, n: usize, width: usize, bits: usize) -> (r: usize)
    requires
        x < width,
        c < n,
        1 <= bits,
        width * n * bits + 7 <= usize::MAX,
        (y + 1) * ((width * n * bits + 7) / 8) * 8 <= usize::MAX,
    ensures
        r == spec_sample_bit(y as int, x as int, c as int, n as int, width as int, bits as int),
{
    proof {
        assert(width * n <= width * n * bits) by (nonlinear_arith)
            requires
                bits >= 1,
                width >= 0,
                n >= 0,
        ;
        assert(width * n * bits >= 0) by (nonlinear_arith)
            requires
                width >= 0,
                n >= 0,
                bits >= 0,
        ;
        assert((x * n + c) * bits <= width * n * bits) by (nonlinear_arith)
            requires
                x < width,
                c < n,
                bits >= 1,
        ;
        assert(x * n + c <= width * n) by (nonlinear_arith)
            requires
                x < width,
                c < n,
        ;
        assert((x * n + c) * bits <= width * n * bits) by (nonlinear_arith)
            requires
                x * n + c <= width * n,
        ;
        let row = (width * n * bits + 7) / 8;
        assert(width * n * bits <= row * 8) by (nonlinear_arith)
            requires
                row == (width * n * bits + 7) / 8,
                width * n * bits >= 0,
        ;
        assert(y * row * 8 + row * 8 == (y + 1) * row * 8) by (nonlinear_arith);
        assert(y * row * 8 >= 0 && row * 8 >= 0) by (nonlinear_arith)
            requires
                y >= 0,
                row >= 0,
        ;
        assert(x * n <= width * n) by (nonlinear_arith)
            requires
                x < width,
        ;
        assert(x * n >= 0 && (x * n + c) * bits >= 0) by (nonlinear_arith)
            requires
                x >= 0,
                n >= 0,
                c >= 0,
                bits >= 0,
        ;
    }
    let row_bits = width * n * bits;
    let row_bytes = (row_bits + 7) / 8;
    let at = x * n + c;
    y * row_bytes * 8 + at * bits
}

/// How the bytes of an image stream are read, decided by its final filter.
#[derive(Clone, Copy, Debug, PartialEq, Eq, Structural)]
pub enum ImageRoute {
    /// `DCTDecode`: still encoded, and the JPEG decoder returns its own
    /// pixels.
    Jpeg,
    /// `CCITTFaxDecode`: still coded, decoding to one-bit samples.
    Fax,
    /// `JBIG2Decode`: still coded, decoding to one-bit samples.
    Jbig2,
    /// `JPXDecode`: not decoded by this build, and named.
    Unsupported,
    /// Anything else decodes to raw samples.
    Samples,
}

/// How an image whose final filter is `last` is read.
pub open spec fn spec_route(last: Option<Seq<u8>>) -> ImageRoute {
    match last {
        None => ImageRoute::Samples,
        Some(name) => if name == ascii_of("DCTDecode"@) || name == ascii_of("DCT"@) {
            ImageRoute::Jpeg
        } else if name == ascii_of("JPXDecode"@) {
            ImageRoute::Unsupported
        } else if name == ascii_of("CCITTFaxDecode"@) || name == ascii_of("CCF"@) {
            ImageRoute::Fax
        } else if name == ascii_of("JBIG2Decode"@) {
            ImageRoute::Jbig2
        } else {
            ImageRoute::Samples
        },
    }
}

/// Each filter routes the same by its full name and by its abbreviation, and
/// only by those: a fax (`CCITTFaxDecode` or `CCF`) to the fax decoder, a JPEG
/// (`DCTDecode` or `DCT`) to the JPEG decoder, `JBIG2Decode` to JBIG2,
/// `JPXDecode` to the named refusal, and every other name, or none, to raw
/// samples.
pub proof fn lemma_a_filter_routes_by_either_spelling(name: Seq<u8>)
    ensures
        spec_route(Some(name)) == ImageRoute::Fax <==> (name == ascii_of("CCITTFaxDecode"@) || name
            == ascii_of("CCF"@)),
        spec_route(Some(name)) == ImageRoute::Jpeg <==> (name == ascii_of("DCTDecode"@) || name
            == ascii_of("DCT"@)),
        spec_route(Some(name)) == ImageRoute::Jbig2 <==> name == ascii_of("JBIG2Decode"@),
        spec_route(Some(name)) == ImageRoute::Unsupported <==> name == ascii_of("JPXDecode"@),
        spec_route(None) == ImageRoute::Samples,
{
    reveal_strlit("DCTDecode");
    reveal_strlit("DCT");
    reveal_strlit("JPXDecode");
    reveal_strlit("CCITTFaxDecode");
    reveal_strlit("CCF");
    reveal_strlit("JBIG2Decode");
    assert(ascii_of("DCTDecode"@) != ascii_of("JPXDecode"@)) by {
        assert(ascii_of("DCTDecode"@)[0] != ascii_of("JPXDecode"@)[0]);
    }
    assert(ascii_of("DCT"@) != ascii_of("CCF"@)) by {
        assert(ascii_of("DCT"@)[0] != ascii_of("CCF"@)[0]);
    }
    assert(ascii_of("DCTDecode"@).len() != ascii_of("CCITTFaxDecode"@).len());
    assert(ascii_of("DCTDecode"@).len() != ascii_of("CCF"@).len());
    assert(ascii_of("DCTDecode"@).len() != ascii_of("JBIG2Decode"@).len());
    assert(ascii_of("DCT"@).len() != ascii_of("JPXDecode"@).len());
    assert(ascii_of("DCT"@).len() != ascii_of("CCITTFaxDecode"@).len());
    assert(ascii_of("DCT"@).len() != ascii_of("JBIG2Decode"@).len());
    assert(ascii_of("JPXDecode"@).len() != ascii_of("CCITTFaxDecode"@).len());
    assert(ascii_of("JPXDecode"@).len() != ascii_of("CCF"@).len());
    assert(ascii_of("JPXDecode"@).len() != ascii_of("JBIG2Decode"@).len());
    assert(ascii_of("CCITTFaxDecode"@).len() != ascii_of("JBIG2Decode"@).len());
    assert(ascii_of("CCF"@).len() != ascii_of("JBIG2Decode"@).len());
}

/// How an image whose final filter is `last` is read: the final filter
/// decides, because every filter before it has already been applied.
pub fn route_by_last_filter(last: Option<&[u8]>) -> (r: ImageRoute)
    ensures
        r == spec_route(
            match last {
                Some(name) => Some(name@),
                None => None,
            },
        ),
{
    proof {
        reveal_strlit("DCTDecode");
        reveal_strlit("DCT");
        reveal_strlit("JPXDecode");
        reveal_strlit("CCITTFaxDecode");
        reveal_strlit("CCF");
        reveal_strlit("JBIG2Decode");
    }
    match last {
        None => ImageRoute::Samples,
        Some(name) => if bytes_equal(name, literal("DCTDecode")) || bytes_equal(name, literal("DCT")) {
            ImageRoute::Jpeg
        } else if bytes_equal(name, literal("JPXDecode")) {
            ImageRoute::Unsupported
        } else if bytes_equal(name, literal("CCITTFaxDecode")) || bytes_equal(name, literal("CCF")) {
            ImageRoute::Fax
        } else if bytes_equal(name, literal("JBIG2Decode")) {
            ImageRoute::Jbig2
        } else {
            ImageRoute::Samples
        },
    }
}

// ---- Soft masks -----------------------------------------------------------------

/// A decoded image as the soft mask reads and writes it: three bytes a
/// sample, row after row, and an optional opacity a sample.
pub struct SampledImage {
    /// Samples per row.
    pub width: u32,
    /// Rows.
    pub height: u32,
    /// Red, green and blue, a byte each, per sample.
    pub rgb: Vec<u8>,
    /// Opacity per sample, or empty for a fully opaque image.
    pub alpha: Vec<u8>,
}

/// The mask value the sample at row `y`, column `x` of an image `width` by
/// `height` takes: the nearest mask sample by position, any channel of it
/// since the mask is grey, and opaque where the mask holds no such sample.
pub open spec fn mask_value(mask: SampledImage, width: int, height: int, y: int, x: int) -> int {
    let my = y * mask.height / height;
    let mx = x * mask.width / width;
    let at = (my * mask.width + mx) * 3;
    if 0 <= at < mask.rgb@.len() {
        mask.rgb@[at] as int
    } else {
        255
    }
}

/// The opacity sample `index` already has: its own, or opaque.
pub open spec fn existing_alpha(alpha: Seq<u8>, index: int) -> int {
    if 0 <= index < alpha.len() {
        alpha[index] as int
    } else {
        255
    }
}

/// The opacities an image takes under a soft mask: each sample's own,
/// scaled by the mask's luminance at the same position.
pub open spec fn spec_masked_alpha(image: SampledImage, mask: SampledImage) -> Seq<u8> {
    let w = image.width as int;
    let h = image.height as int;
    Seq::new(
        (w * h) as nat,
        |i: int| ((existing_alpha(image.alpha@, i) * mask_value(mask, w, h, i / w, i % w)) / 255) as u8,
    )
}

/// Applies a soft mask's luminance as the image's per-sample opacity
/// (11.6.5.3).
///
/// The mask has its own dimensions and need not match the image's, so it is
/// sampled by position rather than by index — nearest neighbour, since a mask
/// is a smooth ramp far more often than not. An image that already had
/// alpha keeps the more opaque constraint of the two rather than losing one
/// of them. An empty image or an empty mask changes nothing.
pub fn apply_soft_mask(image: &mut SampledImage, mask: &SampledImage)
    requires
        old(image).width as int * old(image).height as int <= usize::MAX,
        old(image).width as int * mask.width as int <= usize::MAX,
        old(image).height as int * mask.height as int <= usize::MAX,
        mask.width as int * mask.height as int * 3 <= usize::MAX,
    ensures
        final(image).width == old(image).width,
        final(image).height == old(image).height,
        final(image).rgb == old(image).rgb,
        if old(image).width == 0 || old(image).height == 0 || mask.width == 0 || mask.height == 0 {
            final(image).alpha == old(image).alpha
        } else {
            final(image).alpha@ == spec_masked_alpha(*old(image), *mask)
        },
{
    if image.width == 0 || image.height == 0 || mask.width == 0 || mask.height == 0 {
        return;
    }
    let w = image.width as usize;
    let h = image.height as usize;
    let mw = mask.width as usize;
    let mh = mask.height as usize;
    let ghost target = spec_masked_alpha(*image, *mask);
    let mut alpha: Vec<u8> = Vec::new();
    let mut y: usize = 0;
    while y < h
        invariant
            w == image.width && h == image.height && mw == mask.width && mh == mask.height,
            w > 0 && h > 0 && mw > 0 && mh > 0,
            w * h <= usize::MAX,
            w * mw <= usize::MAX,
            h * mh <= usize::MAX,
            mw * mh * 3 <= usize::MAX,
            target == spec_masked_alpha(*image, *mask),
            target.len() == w * h,
            y <= h,
            alpha@.len() == y * w,
            forall|i: int| 0 <= i < alpha@.len() ==> alpha@[i] == #[trigger] target[i],
        decreases h - y,
    {
        proof {
            assert(y * mh <= h * mh) by (nonlinear_arith)
                requires
                    y < h,
            ;
            assert((y * mh) as int / (h as int) < mh) by (nonlinear_arith)
                requires
                    y < h,
                    h > 0,
                    mh > 0,
            ;
        }
        let my = y * mh / h;
        let mut x: usize = 0;
        while x < w
            invariant
                w == image.width && h == image.height && mw == mask.width && mh == mask.height,
                w > 0 && h > 0 && mw > 0 && mh > 0,
                w * h <= usize::MAX,
                w * mw <= usize::MAX,
                mw * mh * 3 <= usize::MAX,
                target == spec_masked_alpha(*image, *mask),
                target.len() == w * h,
                y < h,
                my == (y * mh) as int / (h as int),
                my < mh,
                x <= w,
                alpha@.len() == y * w + x,
                forall|i: int| 0 <= i < alpha@.len() ==> alpha@[i] == #[trigger] target[i],
            decreases w - x,
        {
            proof {
                assert(x * mw <= w * mw) by (nonlinear_arith)
                    requires
                        x < w,
                ;
                assert((x * mw) as int / (w as int) < mw) by (nonlinear_arith)
                    requires
                        x < w,
                        w > 0,
                        mw > 0,
                ;
                assert(y * w + x < w * h) by (nonlinear_arith)
                    requires
                        y < h,
                        x < w,
                ;
                assert(my * mw + mw <= mh * mw) by (nonlinear_arith)
                    requires
                        my < mh,
                ;
                assert((my * mw + mw) * 3 <= mw * mh * 3) by (nonlinear_arith)
                    requires
                        my * mw + mw <= mh * mw,
                ;
            }
            let mx = x * mw / w;
            let at = (my * mw + mx) * 3;
            let value: u8 = if at < mask.rgb.len() {
                mask.rgb[at]
            } else {
                255
            };
            let index = y * w + x;
            let existing: u8 = if index < image.alpha.len() {
                image.alpha[index]
            } else {
                255
            };
            proof {
                assert((existing as int) * (value as int) <= 255 * 255) by (nonlinear_arith)
                    requires
                        existing <= 255,
                        value <= 255,
                ;
                let i = index as int;
                assert(i / (w as int) == y && i % (w as int) == x) by (nonlinear_arith)
                    requires
                        i == y * w + x,
                        x < w,
                        w > 0,
                ;
            }
            let scaled = ((existing as u16) * (value as u16)) / 255;
            alpha.push(scaled as u8);
            x = x + 1;
        }
        proof {
            assert((y + 1) * w == y * w + w) by (nonlinear_arith);
        }
        y = y + 1;
    }
    proof {
        assert(h * w == w * h) by (nonlinear_arith);
        assert(alpha@.len() == target.len());
        assert(alpha@ =~= target);
    }
    image.alpha = alpha;
}


// ---- Fax and JBIG2 samples ----------------------------------------------------------

/// What a `CCITTFaxDecode` image's `/DecodeParms` come to, with the defaults
/// its table gives for what is absent.
#[derive(Clone, Copy, Debug, PartialEq, Eq, Structural)]
pub struct FaxParams {
    /// `/K`: the coding scheme.
    pub k: i32,
    /// `/Columns`, clamped to what a row can be.
    pub columns: u32,
    /// `/Rows`, or the image's own height when it is absent or not positive.
    pub rows: u32,
    /// `/BlackIs1`.
    pub black_is_1: bool,
    /// `/EncodedByteAlign`.
    pub byte_align: bool,
    /// `/EndOfLine`.
    pub end_of_line: bool,
    /// `/EndOfBlock`.
    pub end_of_block: bool,
}

/// `value` clamped to `1..=65536`.
pub open spec fn clamp_extent(value: int) -> u32 {
    if value < 1 {
        1
    } else if value > 65536 {
        65536
    } else {
        value as u32
    }
}

fn clamp_to_extent(value: i64) -> (r: u32)
    ensures
        r == clamp_extent(value as int),
{
    if value < 1 {
        1
    } else if value > 65536 {
        65536
    } else {
        value as u32
    }
}

/// The fax parameters from the entries as read: `rows` falls back to the
/// image's `height` when it is absent or not positive, `columns` to 1728, and
/// the flags to their defaults, `/EndOfBlock` being the one that defaults to
/// true.
pub fn fax_params(
    k: Option<i64>,
    columns: Option<i64>,
    rows: Option<i64>,
    height: u32,
    black_is_1: Option<bool>,
    byte_align: Option<bool>,
    end_of_line: Option<bool>,
    end_of_block: Option<bool>,
) -> (r: FaxParams)
    ensures
        r.k == (match k {
            Some(k) => k as i32,
            None => 0,
        }),
        r.columns == clamp_extent(match columns {
            Some(c) => c as int,
            None => 1728,
        }),
        r.rows == clamp_extent(match rows {
            Some(n) if n > 0 => n as int,
            _ => height as int,
        }),
        r.black_is_1 == (black_is_1 == Some(true)),
        r.byte_align == (byte_align == Some(true)),
        r.end_of_line == (end_of_line == Some(true)),
        r.end_of_block == (end_of_block != Some(false)),
{
    let rows: i64 = match rows {
        Some(n) => if n > 0 { n } else { height as i64 },
        None => height as i64,
    };
    FaxParams {
        k: match k {
            Some(k) => k as i32,
            None => 0,
        },
        columns: clamp_to_extent(match columns {
            Some(c) => c,
            None => 1728,
        }),
        rows: clamp_to_extent(rows),
        black_is_1: match black_is_1 {
            Some(b) => b,
            None => false,
        },
        byte_align: match byte_align {
            Some(b) => b,
            None => false,
        },
        end_of_line: match end_of_line {
            Some(b) => b,
            None => false,
        },
        end_of_block: match end_of_block {
            Some(b) => b,
            None => true,
        },
    }
}

/// Bytes a row of `bits` one-bit samples packs into.
pub open spec fn stride_of(bits: int) -> int {
    (bits + 7) / 8
}

/// Row `y` of the image's samples: the decoder's row `y`, as much of it as
/// both strides hold, when the decoded bytes reach that far, and white past it.
pub open spec fn fax_row(packed: Seq<u8>, coded: int, stride: int, y: int, white: u8) -> Seq<u8> {
    let run = if stride < coded {
        stride
    } else {
        coded
    };
    let copied = y * coded + run <= packed.len();
    Seq::new(stride as nat, |j: int| if j < run && copied { packed[y * coded + j] } else { white })
}

/// The image's first `rows` rows of samples.
pub open spec fn fax_rows(packed: Seq<u8>, coded: int, stride: int, rows: int, white: u8) -> Seq<u8>
    decreases rows,
{
    if rows <= 0 {
        Seq::empty()
    } else {
        fax_rows(packed, coded, stride, rows - 1, white) + fax_row(packed, coded, stride, rows - 1, white)
    }
}

/// The packed one-bit samples of a `width` by `height` image from the rows a
/// fax decoder returned for `columns` columns: each row copied as far as both
/// strides hold, and white — 1 bits, or 0 bits under `/BlackIs1` — wherever
/// the decoded bytes do not reach.
pub fn fax_samples(packed: &[u8], columns: u32, width: u32, height: u32, black_is_1: bool) -> (r: Vec<u8>)
    requires
        height as int * stride_of(width as int) <= usize::MAX,
    ensures
        r@ == fax_rows(
            packed@,
            stride_of(columns as int),
            stride_of(width as int),
            height as int,
            if black_is_1 { 0u8 } else { 0xFFu8 },
        ),
{
    let coded: usize = ((columns as u64 + 7) / 8) as usize;
    let stride: usize = ((width as u64 + 7) / 8) as usize;
    let white: u8 = if black_is_1 { 0 } else { 0xFF };
    let run: usize = if stride < coded { stride } else { coded };
    let ghost spec_white = if black_is_1 { 0u8 } else { 0xFFu8 };
    let mut out: Vec<u8> = Vec::new();
    let mut y: usize = 0;
    while y < height as usize
        invariant
            y <= height,
            coded == stride_of(columns as int),
            stride == stride_of(width as int),
            white == spec_white,
            run == if stride < coded { stride } else { coded },
            out@ == fax_rows(packed@, coded as int, stride as int, y as int, white),
        decreases height - y,
    {
        proof {
            assert(0 <= y * coded) by (nonlinear_arith);
            assert(packed@.len() == packed.len());
        }
        let from: Option<usize> = match y.checked_mul(coded) {
            Some(start) => match start.checked_add(run) {
                Some(end) => if end <= packed.len() { Some(start) } else { None },
                None => None,
            },
            None => None,
        };
        proof {
            match from {
                Some(s) => {
                    assert(s == y * coded);
                    assert(s + run <= packed@.len());
                },
                None => {
                    assert(packed@.len() == packed.len());
                    assert(y * coded + run > packed@.len());
                },
            }
        }
        let ghost row = fax_row(packed@, coded as int, stride as int, y as int, white);
        let ghost before = out@;
        let mut j: usize = 0;
        while j < stride
            invariant
                j <= stride,
                run <= stride,
                out@ == before + row.take(j as int),
                row.len() == stride,
                packed@.len() <= usize::MAX,
                match from {
                    Some(start) => start == y * coded && start + run <= packed@.len(),
                    None => y * coded + run > packed@.len(),
                },
                row == fax_row(packed@, coded as int, stride as int, y as int, white),
                run == if stride < coded { stride } else { coded },
            decreases stride - j,
        {
            let byte: u8 = match from {
                Some(start) => if j < run { packed[start + j] } else { white },
                None => white,
            };
            out.push(byte);
            proof {
                assert(row.take(j + 1) =~= row.take(j as int).push(row[j as int]));
            }
            j = j + 1;
        }
        proof {
            assert(row.take(j as int) =~= row);
        }
        y = y + 1;
    }
    out
}

/// JBIG2 codes 1 for black and a one-bit grey sample 0 for black: every bit
/// flipped, padding bits past the image's width with them.
pub fn jbig2_to_gray(samples: &mut Vec<u8>)
    ensures
        final(samples)@.len() == old(samples)@.len(),
        forall|i: int| 0 <= i < old(samples)@.len() ==> #[trigger] final(samples)@[i] == !old(samples)@[i],
{
    let mut i: usize = 0;
    while i < samples.len()
        invariant
            i <= samples@.len(),
            samples@.len() == old(samples)@.len(),
            forall|k: int| 0 <= k < i ==> #[trigger] samples@[k] == !old(samples)@[k],
            forall|k: int| i <= k < samples@.len() ==> #[trigger] samples@[k] == old(samples)@[k],
        decreases samples@.len() - i,
    {
        let flipped: u8 = !samples[i];
        samples.set(i, flipped);
        i = i + 1;
    }
}

} // verus!
