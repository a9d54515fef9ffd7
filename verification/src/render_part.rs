//! One part of a page rendered on its own: a form XObject the page names, or
//! one of its annotations.
//!
//! A render of part of a page is the page's pipeline with less in it, never a
//! second implementation: a form is painted by interpreting `/Name Do` with the
//! identity matrix, so the interpreter reaches it exactly as the page's own
//! content does. What is decided here is what comes back when a part cannot be
//! drawn — a typed [`RenderPartError`] rather than a blank bitmap, because a
//! white rectangle is a wrong answer that looks like a right one — and the one
//! line of content that names the form, spelt so that the name the interpreter
//! reads back is the name the caller gave.

use vstd::prelude::*;
use vstd::utf8::*;

use crate::text::{name_text, push_decimal, push_text, spec_decimal, text_of};

verus! {

/// Why a form or an annotation drew nothing.
#[derive(Clone, Debug, PartialEq, Eq)]
#[non_exhaustive]
pub enum RenderPartError {
    /// The page's `/Resources` have no `/XObject` of this name.
    NoSuchXObject {
        /// The name asked for, as text (lossily, if it was not UTF-8).
        name: String,
    },
    /// The XObject is not a form: an image, a PostScript XObject, or a stream
    /// with no `/Subtype` (8.8, Table 87).
    NotAForm {
        /// The name asked for.
        name: String,
        /// Its `/Subtype`, or `None` when it has none.
        subtype: Option<String>,
    },
    /// A form whose stream could not be read.
    UnreadableForm {
        /// The name asked for.
        name: String,
    },
    /// There is no entry at this index of `/Annots`.
    NoSuchAnnotation {
        /// The index asked for.
        index: usize,
        /// How many entries the page reports.
        count: usize,
    },
    /// The annotation exists and has nothing to draw.
    AnnotationNotDrawn {
        /// The index asked for.
        index: usize,
        /// Why.
        why: NotDrawn,
    },
}

/// Why an annotation that exists draws nothing — each a reason a page render
/// skips one silently, named here because a caller asked for this one.
#[derive(Clone, Copy, Debug, PartialEq, Eq, Structural)]
#[non_exhaustive]
pub enum NotDrawn {
    /// The `/Annots` entry is not a dictionary.
    NotADictionary,
    /// `/F` sets Hidden or NoView (12.5.3).
    Hidden,
    /// A `/Popup`: the window its parent opens, not a mark on the page.
    Popup,
    /// No `/Rect` that is four finite numbers enclosing some area.
    NoRect,
    /// No normal appearance: no `/AP /N`, or an `/AS` naming a state the
    /// appearance dictionary does not have (12.5.5).
    NoAppearance,
    /// An appearance stream that could not be decoded.
    UnreadableAppearance,
    /// A `/BBox` and `/Matrix` that collapse to nothing (12.5.5).
    Degenerate,
}

/// The sentence each reason reads as.
pub open spec fn spec_not_drawn_message(why: NotDrawn) -> Seq<char> {
    match why {
        NotDrawn::NotADictionary => "the entry is not a dictionary"@,
        NotDrawn::Hidden => "its flags hide it"@,
        NotDrawn::Popup => "it is a pop-up window"@,
        NotDrawn::NoRect => "it has no usable /Rect"@,
        NotDrawn::NoAppearance => "it has no normal appearance"@,
        NotDrawn::UnreadableAppearance => "its appearance stream cannot be read"@,
        NotDrawn::Degenerate => "its appearance box collapses to nothing"@,
    }
}

impl NotDrawn {
    /// The reason as a sentence a person reads.
    pub fn message(&self) -> (r: String)
        ensures
            r@ == spec_not_drawn_message(*self),
    {
        match self {
            NotDrawn::NotADictionary => "the entry is not a dictionary".to_owned(),
            NotDrawn::Hidden => "its flags hide it".to_owned(),
            NotDrawn::Popup => "it is a pop-up window".to_owned(),
            NotDrawn::NoRect => "it has no usable /Rect".to_owned(),
            NotDrawn::NoAppearance => "it has no normal appearance".to_owned(),
            NotDrawn::UnreadableAppearance => "its appearance stream cannot be read".to_owned(),
            NotDrawn::Degenerate => "its appearance box collapses to nothing".to_owned(),
        }
    }
}

/// The sentence each error reads as.
pub open spec fn spec_error_message(error: RenderPartError) -> Seq<char> {
    match error {
        RenderPartError::NoSuchXObject { name } => "the page has no XObject named /"@ + name@,
        RenderPartError::NotAForm { name, subtype: Some(subtype) } => "/"@ + name@ + " is a /"@
            + subtype@ + " XObject, not a form"@,
        RenderPartError::NotAForm { name, subtype: None } => "/"@ + name@
            + " has no /Subtype, so it is not a form"@,
        RenderPartError::UnreadableForm { name } => "the form /"@ + name@ + " could not be read"@,
        RenderPartError::NoSuchAnnotation { index, count } => "no annotation at index "@
            + spec_decimal(index as nat) + ": the page has "@ + spec_decimal(count as nat),
        RenderPartError::AnnotationNotDrawn { index, why } => "annotation "@ + spec_decimal(
            index as nat,
        ) + " draws nothing: "@ + spec_not_drawn_message(why),
    }
}

impl RenderPartError {
    /// The error as a sentence a person reads.
    pub fn message(&self) -> (r: String)
        ensures
            r@ == spec_error_message(*self),
    {
        let mut out = String::new();
        match self {
            RenderPartError::NoSuchXObject { name } => {
                push_text(&mut out, "the page has no XObject named /");
                push_text(&mut out, name.as_str());
            },
            RenderPartError::NotAForm { name, subtype } => {
                push_text(&mut out, "/");
                push_text(&mut out, name.as_str());
                match subtype {
                    Some(subtype) => {
                        push_text(&mut out, " is a /");
                        push_text(&mut out, subtype.as_str());
                        push_text(&mut out, " XObject, not a form");
                    },
                    None => push_text(&mut out, " has no /Subtype, so it is not a form"),
                }
            },
            RenderPartError::UnreadableForm { name } => {
                push_text(&mut out, "the form /");
                push_text(&mut out, name.as_str());
                push_text(&mut out, " could not be read");
            },
            RenderPartError::NoSuchAnnotation { index, count } => {
                push_text(&mut out, "no annotation at index ");
                push_decimal(&mut out, *index);
                push_text(&mut out, ": the page has ");
                push_decimal(&mut out, *count);
            },
            RenderPartError::AnnotationNotDrawn { index, why } => {
                push_text(&mut out, "annotation ");
                push_decimal(&mut out, *index);
                push_text(&mut out, " draws nothing: ");
                let reason = why.message();
                push_text(&mut out, reason.as_str());
            },
        }
        assert(out@ =~= spec_error_message(*self));
        out
    }
}

// ---- 7.3.5: names ------------------------------------------------------------

/// A byte a name may carry as itself: printable ASCII that is neither a
/// delimiter nor the escape character `#`.
pub open spec fn is_regular(byte: u8) -> bool {
    &&& 0x21 <= byte <= 0x7E
    &&& byte != 0x28 && byte != 0x29  // ( )
    &&& byte != 0x3C && byte != 0x3E  // < >
    &&& byte != 0x5B && byte != 0x5D  // [ ]
    &&& byte != 0x7B && byte != 0x7D  // { }
    &&& byte != 0x2F && byte != 0x25  // / %
    &&& byte != 0x23  // #
}

/// The upper-case hexadecimal digit for a value under sixteen.
pub open spec fn hex_digit(value: u8) -> u8 {
    if value < 10 {
        (0x30 + value) as u8
    } else {
        (0x41 + value - 10) as u8
    }
}

/// One byte as a name spells it: itself when regular, else `#` and two
/// upper-case hexadecimal digits.
pub open spec fn escape_byte(byte: u8) -> Seq<u8> {
    if is_regular(byte) {
        seq![byte]
    } else {
        seq![0x23u8, hex_digit(byte / 16), hex_digit(byte % 16)]
    }
}

/// A name's bytes as a content stream spells them.
pub open spec fn spec_escaped(name: Seq<u8>) -> Seq<u8>
    decreases name.len(),
{
    if name.len() == 0 {
        Seq::empty()
    } else {
        escape_byte(name[0]) + spec_escaped(name.subrange(1, name.len() as int))
    }
}

/// Whether a byte is a hexadecimal digit, in either case.
pub open spec fn is_hex(byte: u8) -> bool {
    (0x30 <= byte <= 0x39) || (0x41 <= byte <= 0x46) || (0x61 <= byte <= 0x66)
}

/// A hexadecimal digit's value.
pub open spec fn hex_value(byte: u8) -> int {
    if 0x30 <= byte <= 0x39 {
        byte - 0x30
    } else if 0x41 <= byte <= 0x46 {
        byte - 0x41 + 10
    } else {
        byte - 0x61 + 10
    }
}

/// How a reader turns a name's spelling back into its bytes (7.3.5): `#`
/// followed by two hexadecimal digits is the byte they spell, and anything
/// else is itself.
pub open spec fn spec_unescape(spelt: Seq<u8>) -> Seq<u8>
    decreases spelt.len(),
{
    if spelt.len() == 0 {
        Seq::empty()
    } else if spelt[0] == 0x23 && spelt.len() >= 3 && is_hex(spelt[1]) && is_hex(spelt[2]) {
        seq![(hex_value(spelt[1]) * 16 + hex_value(spelt[2])) as u8] + spec_unescape(
            spelt.subrange(3, spelt.len() as int),
        )
    } else {
        seq![spelt[0]] + spec_unescape(spelt.subrange(1, spelt.len() as int))
    }
}

proof fn lemma_escaped_concat(a: Seq<u8>, b: Seq<u8>)
    ensures
        spec_escaped(a + b) == spec_escaped(a) + spec_escaped(b),
    decreases a.len(),
{
    if a.len() == 0 {
        assert(a + b =~= b);
        assert(spec_escaped(a) + spec_escaped(b) =~= spec_escaped(b));
    } else {
        let rest = a.subrange(1, a.len() as int);
        assert((a + b).subrange(1, (a + b).len() as int) =~= rest + b);
        lemma_escaped_concat(rest, b);
        assert(spec_escaped(a + b) =~= escape_byte(a[0]) + (spec_escaped(rest) + spec_escaped(b)));
    }
}

proof fn lemma_escape_byte_reads_back(byte: u8, rest: Seq<u8>)
    ensures
        spec_unescape(escape_byte(byte) + rest) == seq![byte] + spec_unescape(rest),
{
    let spelt = escape_byte(byte) + rest;
    if is_regular(byte) {
        assert(spelt.subrange(1, spelt.len() as int) =~= rest);
    } else {
        let hi = byte / 16;
        let lo = byte % 16;
        assert(hi < 16 && lo < 16);
        assert(is_hex(hex_digit(hi)) && hex_value(hex_digit(hi)) == hi);
        assert(is_hex(hex_digit(lo)) && hex_value(hex_digit(lo)) == lo);
        assert(spelt[0] == 0x23 && spelt[1] == hex_digit(hi) && spelt[2] == hex_digit(lo));
        assert(spelt.subrange(3, spelt.len() as int) =~= rest);
        assert((hi * 16 + lo) as u8 == byte);
    }
}

/// What is spelt reads back as what was given: the interpreter that reads
/// the escaped name gets the caller's bytes.
pub proof fn lemma_escaped_reads_back(name: Seq<u8>)
    ensures
        spec_unescape(spec_escaped(name)) == name,
    decreases name.len(),
{
    if name.len() > 0 {
        let rest = name.subrange(1, name.len() as int);
        lemma_escaped_reads_back(rest);
        lemma_escape_byte_reads_back(name[0], spec_escaped(rest));
        assert(seq![name[0]] + rest =~= name);
    }
}

/// An escaped name is one token: every byte of it is regular or the escape
/// character, so no white space or delimiter ends it early.
pub proof fn lemma_escaped_is_one_token(name: Seq<u8>)
    ensures
        forall|i: int|
            0 <= i < spec_escaped(name).len() ==> is_regular(#[trigger] spec_escaped(name)[i])
                || spec_escaped(name)[i] == 0x23,
    decreases name.len(),
{
    if name.len() > 0 {
        let rest = name.subrange(1, name.len() as int);
        lemma_escaped_is_one_token(rest);
        let byte = name[0];
        assert(byte / 16 < 16 && byte % 16 < 16);
        assert forall|i: int| 0 <= i < spec_escaped(name).len() implies is_regular(
            #[trigger] spec_escaped(name)[i],
        ) || spec_escaped(name)[i] == 0x23 by {
            if i >= escape_byte(byte).len() {
                assert(spec_escaped(name)[i] == spec_escaped(rest)[i - escape_byte(byte).len()]);
            }
        }
    }
}

proof fn lemma_escaped_length(name: Seq<u8>)
    ensures
        spec_escaped(name).len() >= name.len(),
        (forall|i: int| 0 <= i < name.len() ==> is_regular(#[trigger] name[i])) ==> spec_escaped(name)
            == name,
        (exists|i: int| 0 <= i < name.len() && !is_regular(#[trigger] name[i])) ==> spec_escaped(
            name,
        ).len() > name.len(),
    decreases name.len(),
{
    if name.len() == 0 {
        assert(spec_escaped(name) =~= name);
    } else {
        let rest = name.subrange(1, name.len() as int);
        lemma_escaped_length(rest);
        if forall|i: int| 0 <= i < name.len() ==> is_regular(#[trigger] name[i]) {
            assert forall|i: int| 0 <= i < rest.len() implies is_regular(#[trigger] rest[i]) by {
                assert(rest[i] == name[i + 1]);
            }
            assert(is_regular(name[0]));
            assert(spec_escaped(name) =~= seq![name[0]] + rest);
            assert(seq![name[0]] + rest =~= name);
        }
        if exists|i: int| 0 <= i < name.len() && !is_regular(#[trigger] name[i]) {
            let i = choose|i: int| 0 <= i < name.len() && !is_regular(#[trigger] name[i]);
            if i > 0 {
                assert(rest[i - 1] == name[i]);
                assert(!is_regular(rest[i - 1]));
            }
        }
    }
}

/// A name comes through escaping unchanged exactly when every byte of it is
/// regular: printable, no delimiter and no `#`.
pub proof fn lemma_escaped_is_identity_iff_regular(name: Seq<u8>)
    ensures
        spec_escaped(name) == name <==> forall|i: int| 0 <= i < name.len() ==> is_regular(
            #[trigger] name[i],
        ),
{
    lemma_escaped_length(name);
}

/// The upper-case hexadecimal digit for a value under sixteen.
fn digit(value: u8) -> (r: u8)
    requires
        value < 16,
    ensures
        r == hex_digit(value),
{
    if value < 10 {
        0x30 + value
    } else {
        0x41 + value - 10
    }
}

/// A name's bytes as a content stream spells them (7.3.5): regular characters
/// as they are, and everything else — white space, a delimiter, `#` itself,
/// and any byte outside `!`..`~` — as `#` and two hex digits, so that the name
/// the interpreter reads back is the name the caller gave.
pub fn escaped(name: &[u8]) -> (r: Vec<u8>)
    requires
        3 * name@.len() <= usize::MAX,
    ensures
        r@ == spec_escaped(name@),
{
    let mut out: Vec<u8> = Vec::new();
    let mut i: usize = 0;
    while i < name.len()
        invariant
            i <= name@.len(),
            out@ == spec_escaped(name@.subrange(0, i as int)),
        decreases name@.len() - i,
    {
        let byte = name[i];
        let regular = 0x21 <= byte && byte <= 0x7E && byte != 0x28 && byte != 0x29 && byte != 0x3C
            && byte != 0x3E && byte != 0x5B && byte != 0x5D && byte != 0x7B && byte != 0x7D
            && byte != 0x2F && byte != 0x25 && byte != 0x23;
        if regular {
            out.push(byte);
        } else {
            out.push(0x23);
            out.push(digit(byte / 16));
            out.push(digit(byte % 16));
        }
        proof {
            let before = name@.subrange(0, i as int);
            lemma_escaped_concat(before, seq![byte]);
            assert(name@.subrange(0, i + 1) =~= before + seq![byte]);
            assert(spec_escaped(seq![byte]) =~= escape_byte(byte)) by {
                assert(seq![byte].subrange(1, 1) =~= Seq::<u8>::empty());
                assert(spec_escaped(Seq::<u8>::empty()) == Seq::<u8>::empty());
                assert(escape_byte(byte) + Seq::<u8>::empty() =~= escape_byte(byte));
            }
            assert(out@ =~= spec_escaped(before) + escape_byte(byte));
        }
        i = i + 1;
    }
    assert(name@.subrange(0, name@.len() as int) =~= name@);
    out
}

/// The one line of content that draws the form named `name` where the page
/// places it: `/`, the name as a content stream spells it, and ` Do`.
pub fn form_invocation(name: &[u8]) -> (r: Vec<u8>)
    requires
        3 * name@.len() + 4 <= usize::MAX,
    ensures
        r@ == seq![0x2Fu8] + spec_escaped(name@) + seq![0x20u8, 0x44u8, 0x6Fu8],
{
    let mut content: Vec<u8> = Vec::new();
    content.push(0x2F);
    let mut spelt = escaped(name);
    content.append(&mut spelt);
    content.push(0x20);
    content.push(0x44);
    content.push(0x6F);
    assert(content@ =~= seq![0x2Fu8] + spec_escaped(name@) + seq![0x20u8, 0x44u8, 0x6Fu8]);
    content
}

// ---- Which part, and why not ---------------------------------------------------

/// The one line of content that draws a form, or why the form named `name`
/// cannot be drawn: `r` is what the page's `/XObject` entry leads to.
pub open spec fn form_outcome(
    name: Seq<u8>,
    subtype: Option<Option<Seq<u8>>>,
    readable: bool,
    r: Result<Vec<u8>, RenderPartError>,
) -> bool {
    match subtype {
        None => r matches Err(RenderPartError::NoSuchXObject { name: text }) && text@ == name_text(
            name,
        ),
        Some(subtype) => if subtype != Some("Form"@.map_values(|c: char| c as u8)) {
            r matches Err(RenderPartError::NotAForm { name: text, subtype: named }) && text@
                == name_text(name) && match subtype {
                None => named is None,
                Some(bytes) => named matches Some(named) && named@ == name_text(bytes),
            }
        } else if !readable {
            r matches Err(RenderPartError::UnreadableForm { name: text }) && text@ == name_text(name)
        } else {
            r matches Ok(content) && content@ == seq![0x2Fu8] + spec_escaped(name) + seq![
                0x20u8,
                0x44u8,
                0x6Fu8,
            ]
        },
    }
}

/// Whether a `/Subtype` is `/Form`.
fn is_form(subtype: &Vec<u8>) -> (r: bool)
    ensures
        r == (subtype@ == "Form"@.map_values(|c: char| c as u8)),
{
    proof {
        reveal_strlit("Form");
    }
    let form: [u8; 4] = [0x46, 0x6F, 0x72, 0x6D];
    let r = crate::text::bytes_equal(subtype.as_slice(), form.as_slice());
    assert(form@ =~= "Form"@.map_values(|c: char| c as u8));
    r
}

/// One form XObject the page names, as the line of content that draws it
/// where the page places it.
///
/// `name` is the form's resource name in the page's `/XObject` dictionary,
/// without the slash and with any `#xx` escapes already decoded; `subtype` is
/// what that dictionary holds under it — `None` for no such entry, then its
/// `/Subtype` when it has one — and `readable` whether the form's stream
/// decoded. The form is drawn with the identity matrix, which is where a page
/// that says `/Fm0 Do` with no `cm` in front of it draws it.
pub fn render_form(name: &[u8], subtype: Option<Option<Vec<u8>>>, readable: bool) -> (r: Result<
    Vec<u8>,
    RenderPartError,
>)
    requires
        3 * name@.len() + 4 <= usize::MAX,
    ensures
        form_outcome(
            name@,
            match subtype {
                None => None,
                Some(None) => Some(None),
                Some(Some(bytes)) => Some(Some(bytes@)),
            },
            readable,
            r,
        ),
{
    let subtype = match subtype {
        None => {
            return Err(RenderPartError::NoSuchXObject { name: text_of(name) });
        },
        Some(subtype) => subtype,
    };
    let form = match &subtype {
        Some(bytes) => is_form(bytes),
        None => false,
    };
    if !form {
        let named = match &subtype {
            Some(bytes) => Some(text_of(bytes.as_slice())),
            None => None,
        };
        return Err(RenderPartError::NotAForm { name: text_of(name), subtype: named });
    }
    if !readable {
        return Err(RenderPartError::UnreadableForm { name: text_of(name) });
    }
    Ok(form_invocation(name))
}

/// One of the page's annotations, or why it draws nothing.
///
/// `count` is how many `/Annots` entries the page reports and `prepared` what
/// preparing the entry at `index` for drawing came to: an index past the list
/// is no annotation at all, and an entry that exists and draws nothing is
/// named with its reason.
pub fn render_annotation(index: usize, count: usize, prepared: Result<(), NotDrawn>) -> (r: Result<
    (),
    RenderPartError,
>)
    ensures
        index >= count ==> r == Err::<(), RenderPartError>(RenderPartError::NoSuchAnnotation { index, count }),
        index < count ==> r == match prepared {
            Ok(()) => Ok(()),
            Err(why) => Err(RenderPartError::AnnotationNotDrawn { index, why }),
        },
{
    if index >= count {
        return Err(RenderPartError::NoSuchAnnotation { index, count });
    }
    match prepared {
        Ok(()) => Ok(()),
        Err(why) => Err(RenderPartError::AnnotationNotDrawn { index, why }),
    }
}

} // verus!
