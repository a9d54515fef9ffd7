//! Saving a document, with the font policy attached to the save rather than
//! left to the caller's memory.
//!
//! A save subsets by **default**, and keeping the programs whole is the thing
//! a caller asks for. What the font pass did comes back as a
//! [`SubsetOutcome`] rather than a `bool`, so "nothing was asked for", "the
//! programs were cut and the originals are gone" and "the programs were cut
//! and the originals are **still in the file**" are three different values a
//! caller must match on. The third is an incremental save: an update appends
//! (7.5.6), and the original bytes — the original font programs included —
//! survive as its prefix.

use vstd::prelude::*;

use crate::subset::SubsetReport;

verus! {

/// What a save does to the document's embedded font programs.
///
/// Deliberately not a `bool`: one answer removes glyph outlines from the file
/// and the other does not, and a stray `!` in front of a `bool` is not a
/// thing that should be able to put somebody's redacted text back.
#[derive(Clone, Copy, Debug, PartialEq, Eq, Structural, Hash)]
pub enum FontPolicy {
    /// Cut every embedded program down to the glyphs the document still
    /// draws, immediately before serialising. **The default**, because the
    /// caller who needed it was the caller who forgot.
    Subset,
    /// Write every embedded program through exactly as it arrived.
    Keep,
}

impl Default for FontPolicy {
    fn default() -> (r: FontPolicy)
        ensures
            r == FontPolicy::Subset,
    {
        FontPolicy::Subset
    }
}

/// How a save lays the bytes out, as far as the font policy cares.
#[derive(Clone, Copy, Debug, PartialEq, Eq, Structural, Hash)]
pub enum WriteMode {
    /// The whole file is written afresh.
    Rewrite,
    /// An update is appended; the original bytes are the output's prefix.
    Incremental,
}

/// What the font pass did, reported by a save.
#[derive(Clone, Debug, PartialEq, Eq)]
pub enum SubsetOutcome {
    /// [`FontPolicy::Keep`]: nothing was asked for, so nothing was done and
    /// there is nothing to report.
    Kept,
    /// The pass ran and the save rewrote the file, so nothing of an old
    /// program survives except what the report says was left whole.
    Cut(SubsetReport),
    /// The programs were cut down, and the save **appended** rather than
    /// rewrote, so every original program is still in the file's prefix.
    CutButTheOriginalsRemain(SubsetReport),
}

/// Whether every embedded program in the file was cut down.
pub open spec fn spec_removed(outcome: SubsetOutcome) -> bool {
    outcome matches SubsetOutcome::Cut(report) && report.untouched@.len() == 0
}

impl SubsetOutcome {
    /// The report, when a pass ran.
    ///
    /// `None` only for [`SubsetOutcome::Kept`] — never as a stand-in for a
    /// pass that ran and found nothing, which is an empty report and says so.
    pub fn report(&self) -> (r: Option<&SubsetReport>)
        ensures
            match *self {
                SubsetOutcome::Kept => r is None,
                SubsetOutcome::Cut(report) => r == Some(&report),
                SubsetOutcome::CutButTheOriginalsRemain(report) => r == Some(&report),
            },
    {
        match self {
            SubsetOutcome::Kept => None,
            SubsetOutcome::Cut(report) => Some(report),
            SubsetOutcome::CutButTheOriginalsRemain(report) => Some(report),
        }
    }

    /// Whether **every** embedded program in this file was cut down to the
    /// glyphs the document still draws.
    ///
    /// A pass that ran and left one program whole leaves that program's every
    /// outline in the file, including the ones a redaction just removed the
    /// text of — so a non-empty `untouched` is `false` here, whatever the
    /// reason in it. False for [`SubsetOutcome::Kept`], because nothing was
    /// cut, and for [`SubsetOutcome::CutButTheOriginalsRemain`], because the
    /// originals are still there.
    pub fn removed(&self) -> (r: bool)
        ensures
            r == spec_removed(*self),
    {
        match self {
            SubsetOutcome::Cut(report) => report.untouched.len() == 0,
            _ => false,
        }
    }
}

/// A saved document, and what happened to its fonts on the way out.
#[derive(Clone, Debug, PartialEq, Eq)]
#[must_use]
pub struct Saved {
    /// The file.
    pub bytes: Vec<u8>,
    /// What the font policy asked for, and what came of it.
    pub fonts: SubsetOutcome,
}

/// Whether a save under `policy` runs the subsetting pass before it writes.
pub fn runs_the_pass(policy: FontPolicy) -> (r: bool)
    ensures
        r == (policy == FontPolicy::Subset),
{
    matches!(policy, FontPolicy::Subset)
}

/// What a save under `policy` and `mode` reports, given the report the pass
/// came back with when it ran.
pub open spec fn spec_fonts_outcome(policy: FontPolicy, mode: WriteMode, report: SubsetReport) -> SubsetOutcome {
    match policy {
        FontPolicy::Keep => SubsetOutcome::Kept,
        FontPolicy::Subset => match mode {
            WriteMode::Rewrite => SubsetOutcome::Cut(report),
            WriteMode::Incremental => SubsetOutcome::CutButTheOriginalsRemain(report),
        },
    }
}

/// What a save reports about its fonts: nothing asked for under `Keep`, and
/// otherwise the pass's report, named by whether the save appended.
///
/// `report` is what the pass came back with; a save runs the pass exactly
/// when [`runs_the_pass`] says so, and under `Keep` there is no report to
/// hand over.
pub fn fonts_outcome(policy: FontPolicy, mode: WriteMode, report: Option<SubsetReport>) -> (r:
    SubsetOutcome)
    requires
        policy == FontPolicy::Subset ==> report is Some,
    ensures
        policy == FontPolicy::Keep ==> r == SubsetOutcome::Kept,
        policy == FontPolicy::Subset ==> r == spec_fonts_outcome(policy, mode, report->0),
{
    match policy {
        FontPolicy::Keep => SubsetOutcome::Kept,
        FontPolicy::Subset => {
            let report = match report {
                Some(report) => report,
                None => SubsetReport::default(),
            };
            match mode {
                WriteMode::Rewrite => SubsetOutcome::Cut(report),
                WriteMode::Incremental => SubsetOutcome::CutButTheOriginalsRemain(report),
            }
        },
    }
}

/// An appended save never claims the disclosure is out of the file, and
/// neither does one that kept the programs: only a rewrite whose pass left
/// nothing whole does.
pub proof fn lemma_removed_needs_a_rewrite(policy: FontPolicy, mode: WriteMode, report: SubsetReport)
    ensures
        spec_removed(spec_fonts_outcome(policy, mode, report)) <==> (policy == FontPolicy::Subset
            && mode == WriteMode::Rewrite && report.untouched@.len() == 0),
{
}

} // verus!
