//! Shaped text into a document: turning a shaped run's **clusters** back into
//! the text each glyph stands for, so `/ToUnicode` and text extraction
//! survive ligatures.
//!
//! After `GSUB` has run there is nothing left of the text but the cluster: a
//! byte offset on every glyph, monotonic in the run's logical order. Two rules
//! turn that into text, and the second is the one that is easy to get wrong:
//!
//! - **A glyph stands for the text from its own cluster to the next
//!   *different* one.** A ligature's cluster is the smallest of the glyphs it
//!   replaced, so `ffi` comes back whole.
//! - **Where several glyphs share a cluster, the first takes the text and the
//!   rest take nothing.** A decomposition would otherwise put the character
//!   into the extracted text three times.

use vstd::prelude::*;
use vstd::string::StringSliceAdditionalSpecFns;
use vstd::utf8::*;

verus! {

broadcast use vstd::utf8::group_utf8_lib;

/// The first glyph from `from` on whose cluster differs from glyph `at`'s.
pub open spec fn next_different(clusters: Seq<u32>, at: int, from: int) -> Option<int>
    decreases clusters.len() - from,
{
    if from < 0 || from >= clusters.len() {
        None
    } else if clusters[from] != clusters[at] {
        Some(from)
    } else {
        next_different(clusters, at, from + 1)
    }
}

/// Where glyph `at`'s text ends: the next different cluster, or the end of
/// the run's text — and never before where it starts.
pub open spec fn cluster_end(clusters: Seq<u32>, at: int, end: int) -> int {
    let to = match next_different(clusters, at, at + 1) {
        Some(j) => clusters[j] as int,
        None => end,
    };
    if to < clusters[at] {
        clusters[at] as int
    } else {
        to
    }
}

/// The bytes glyph `at` stands for: the text from its cluster to where it
/// ends when that range falls on character boundaries, and nothing when an
/// earlier glyph of the same cluster already took it.
pub open spec fn spec_cluster_text(text: Seq<u8>, clusters: Seq<u32>, at: int, end: int) -> Seq<u8> {
    if at > 0 && clusters[at - 1] == clusters[at] {
        Seq::empty()
    } else {
        let from = clusters[at] as int;
        let to = cluster_end(clusters, at, end);
        if is_char_boundary(text, from) && is_char_boundary(text, to) {
            text.subrange(from, to)
        } else {
            Seq::empty()
        }
    }
}

/// A byte of `text` that starts a character, or its end, as
/// `str::is_char_boundary` has it.
fn boundary(text: &str, index: usize) -> (r: bool)
    ensures
        r == is_char_boundary(text.spec_bytes(), index as int),
{
    text.is_char_boundary(index)
}

proof fn lemma_prefix_boundary(bytes: Seq<u8>, to: int, from: int)
    requires
        valid_utf8(bytes),
        is_char_boundary(bytes, to),
        is_char_boundary(bytes, from),
        0 <= from <= to <= bytes.len(),
    ensures
        valid_utf8(bytes.subrange(0, to)),
        is_char_boundary(bytes.subrange(0, to), from),
{
    let head = bytes.subrange(0, to);
    valid_utf8_split(bytes, to);
    if from == to {
        is_char_boundary_start_end_of_seq(head);
    } else if from == 0 {
    } else {
        is_char_boundary_iff_not_is_continuation_byte(bytes, from);
        is_char_boundary_iff_not_is_continuation_byte(head, from);
    }
}

/// `text[from..to]`, given both are boundaries.
fn slice<'a>(text: &'a str, from: usize, to: usize) -> (r: &'a str)
    requires
        from <= to,
        is_char_boundary(text.spec_bytes(), from as int),
        is_char_boundary(text.spec_bytes(), to as int),
    ensures
        r.spec_bytes() == text.spec_bytes().subrange(from as int, to as int),
{
    proof {
        encode_utf8_valid_utf8(text@);
        if to as int > text.spec_bytes().len() {
            assert(!is_char_boundary(text.spec_bytes(), to as int));
        }
        lemma_prefix_boundary(text.spec_bytes(), to as int, from as int);
    }
    let (head, _) = text.split_at(to);
    let (_, piece) = head.split_at(from);
    assert(piece.spec_bytes() =~= text.spec_bytes().subrange(from as int, to as int));
    piece
}

/// The text each glyph of one shaped run stands for, in the run's own
/// **logical** order, one entry per glyph.
///
/// `clusters` is each glyph's cluster, a byte offset into `text` — the
/// paragraph the run was shaped from, not the run's own slice — and `end` is
/// where the run's text ends in it. The slices borrow `text`.
pub fn cluster_texts<'a>(text: &'a str, clusters: &[u32], end: usize) -> (r: Vec<&'a str>)
    ensures
        r@.len() == clusters@.len(),
        forall|at: int|
            0 <= at < clusters@.len() ==> (#[trigger] r@[at]).spec_bytes() == spec_cluster_text(
                text.spec_bytes(),
                clusters@,
                at,
                end as int,
            ),
{
    let mut out: Vec<&'a str> = Vec::new();
    let mut at: usize = 0;
    while at < clusters.len()
        invariant
            at <= clusters@.len(),
            out@.len() == at,
            forall|i: int|
                0 <= i < at ==> (#[trigger] out@[i]).spec_bytes() == spec_cluster_text(
                    text.spec_bytes(),
                    clusters@,
                    i,
                    end as int,
                ),
        decreases clusters@.len() - at,
    {
        let cluster = clusters[at];
        let first = at == 0 || clusters[at - 1] != cluster;
        let from = cluster as usize;
        let mut j: usize = at + 1;
        while j < clusters.len() && clusters[j] == cluster
            invariant
                at < clusters@.len(),
                cluster == clusters@[at as int],
                at + 1 <= j <= clusters@.len(),
                next_different(clusters@, at as int, at + 1) == next_different(clusters@, at as int, j as int),
            decreases clusters@.len() - j,
        {
            j = j + 1;
        }
        let to: usize = if j < clusters.len() {
            clusters[j] as usize
        } else {
            end
        };
        let to = if to < from {
            from
        } else {
            to
        };
        let piece: &'a str = if first && boundary(text, from) && boundary(text, to) {
            slice(text, from, to)
        } else {
            proof {
                reveal_strlit("");
            }
            ""
        };
        out.push(piece);
        at = at + 1;
    }
    out
}

} // verus!
