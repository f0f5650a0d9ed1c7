//! What processing would do to a file: which statistic a batch aligns on, whether a file is
//! skipped, and where its row stands.
use vstd::prelude::*;

use crate::codec::{codec_label, writable, Codec};
use crate::grid::{Confidence, Verdict};
use crate::settings::Bpm;
use crate::text::{chars_of, string_from};
use crate::ipc::JobStage;

verus! {

/// Which loudness statistic a batch aligns on.
#[derive(Debug, Clone, Copy, PartialEq, Eq, Structural)]
pub enum LoudnessMode {
    /// S-P95: the 95th percentile of the 3 s short-term loudness, for DJ sets.
    Dj,
    /// Integrated loudness (BS.1770-5), for streaming platforms.
    Streaming,
}

/// Why a file will not be processed.
#[derive(Debug, Clone, Copy, PartialEq, Eq, Structural)]
pub enum SkipReason {
    /// The codec is analysed but not written in this version.
    AnalyseOnly {
        /// The codec.
        codec: Codec,
    },
    /// No audio above the -70 LUFS gate, so there is no loudness to align.
    Silent,
}

/// The reason a file is skipped: an analyse-only codec first, then silence (no measured
/// statistic); none when the file can be processed.
pub open spec fn skip_for(codec: Codec, measured: bool) -> Option<SkipReason> {
    if !writable(codec) {
        Some(SkipReason::AnalyseOnly { codec })
    } else if !measured {
        Some(SkipReason::Silent)
    } else {
        None
    }
}

/// Why a file with `codec` will not be processed; `measured` says whether the statistic the
/// settings align on was measured (it is not for silence).
pub fn skip_reason(codec: Codec, measured: bool) -> (s: Option<SkipReason>)
    ensures
        s == skip_for(codec, measured),
{
    if !codec.is_writable() {
        Some(SkipReason::AnalyseOnly { codec })
    } else if !measured {
        Some(SkipReason::Silent)
    } else {
        None
    }
}

/// The action column's text for a skipped row.
pub open spec fn skip_text(s: SkipReason) -> Seq<char> {
    match s {
        SkipReason::AnalyseOnly { codec } => "Skip: "@ + codec_label(codec) + " is analyse-only"@,
        SkipReason::Silent => "Skip: silent"@,
    }
}

/// What the action column says of a skipped row: `Skip: ALAC is analyse-only`, `Skip: silent`.
pub fn skip_action(s: SkipReason) -> (t: String)
    ensures
        t@ == skip_text(s),
{
    match s {
        SkipReason::AnalyseOnly { codec } => {
            let mut v = chars_of("Skip: ");
            let mut label = chars_of(codec.label());
            let mut tail = chars_of(" is analyse-only");
            v.append(&mut label);
            v.append(&mut tail);
            string_from(&v)
        },
        SkipReason::Silent => "Skip: silent".to_owned(),
    }
}

/// Where a planned row stands.
pub open spec fn stage_for(skipped: bool, review_count: nat) -> JobStage {
    if skipped {
        JobStage::Skipped
    } else if review_count == 0 {
        JobStage::Analysed
    } else {
        JobStage::NeedsReview
    }
}

/// A plan's status: `Skipped` when the file is skipped, otherwise `Analysed` when nothing needs
/// a look and `NeedsReview` when something does.
pub fn plan_status(skipped: bool, review_count: usize) -> (stage: JobStage)
    ensures
        stage == stage_for(skipped, review_count as nat),
{
    if skipped {
        JobStage::Skipped
    } else if review_count == 0 {
        JobStage::Analysed
    } else {
        JobStage::NeedsReview
    }
}

/// A plan is only ever skipped, analysed or waiting for review, and it is skipped exactly when
/// there is a skip reason: every analyse-only codec, and every silent file, is skipped.
pub proof fn plans_are_skipped_exactly_when_there_is_a_reason(codec: Codec, measured: bool, review_count: nat)
    ensures
        ({
            let stage = stage_for(skip_for(codec, measured) is Some, review_count);
            &&& stage == JobStage::Skipped || stage == JobStage::Analysed || stage == JobStage::NeedsReview
            &&& (stage == JobStage::Skipped) == (!writable(codec) || !measured)
            &&& stage == JobStage::NeedsReview ==> review_count > 0
        }),
{
}

/// What a human should check about a row.
#[derive(Debug, Clone, Copy, PartialEq, Eq, Structural)]
pub enum ReviewReason {
    /// The grid's confidence is amber or red; the grid's own reasons say why.
    Confidence,
    /// The grid fits, but its residuals are elevated.
    CheckGrid,
    /// The tempo moves; a static grid will not fit everywhere.
    Drifts,
    /// The BPM lies outside the DJ app's range.
    OutsideBpmRange,
    /// The file's BPM tag differs from the grid by more than 2 %.
    TagBpmDisagrees {
        /// The tagged BPM.
        tag: Bpm,
    },
    /// A grid was requested but no beats were found.
    NoGrid,
}

/// What the review of a row reads from its grid: the confidence and verdict, whether the BPM
/// lies outside the DJ app's range, and the tag's BPM when the tag differs by more than 2 %.
#[derive(Debug, Clone, Copy, PartialEq, Eq, Structural)]
pub struct GridFacts {
    /// Three-state confidence.
    pub confidence: Confidence,
    /// Static, static with a warning, or drifting.
    pub verdict: Verdict,
    /// The BPM lies outside the DJ app's range.
    pub outside_range: bool,
    /// The tagged BPM, when it differs from the grid's by more than 2 %.
    pub tag_disagrees: Option<Bpm>,
}

/// What a human should check, in this order: a grid that is not green, a grid that fits with
/// elevated residuals or drifts, a BPM outside the DJ app's range, a contradicting tag; without
/// a grid, only a search that found no beats.
pub open spec fn review_for(grid: Option<GridFacts>, no_beats: bool) -> Seq<ReviewReason> {
    match grid {
        None => if no_beats { seq![ReviewReason::NoGrid] } else { Seq::empty() },
        Some(g) => {
            let a = if g.confidence != Confidence::Green { seq![ReviewReason::Confidence] } else { Seq::empty() };
            let b = match g.verdict {
                Verdict::Static => Seq::empty(),
                Verdict::StaticWarn => seq![ReviewReason::CheckGrid],
                Verdict::Drifts => seq![ReviewReason::Drifts],
            };
            let c = if g.outside_range { seq![ReviewReason::OutsideBpmRange] } else { Seq::empty() };
            let d = match g.tag_disagrees {
                Some(tag) => seq![ReviewReason::TagBpmDisagrees { tag }],
                None => Seq::empty(),
            };
            a + b + c + d
        },
    }
}

/// The review reasons of a row with `grid`; `no_beats` says whether the grid solver looked for
/// beats and found none.
pub fn review_reasons(grid: Option<GridFacts>, no_beats: bool) -> (reasons: Vec<ReviewReason>)
    ensures
        reasons@ == review_for(grid, no_beats),
{
    let mut reasons: Vec<ReviewReason> = Vec::new();
    let g = match grid {
        None => {
            if no_beats {
                reasons.push(ReviewReason::NoGrid);
            }
            assert(reasons@ =~= review_for(grid, no_beats));
            return reasons;
        },
        Some(g) => g,
    };
    if g.confidence != Confidence::Green {
        reasons.push(ReviewReason::Confidence);
    }
    match g.verdict {
        Verdict::Static => {},
        Verdict::StaticWarn => reasons.push(ReviewReason::CheckGrid),
        Verdict::Drifts => reasons.push(ReviewReason::Drifts),
    }
    if g.outside_range {
        reasons.push(ReviewReason::OutsideBpmRange);
    }
    if let Some(tag) = g.tag_disagrees {
        reasons.push(ReviewReason::TagBpmDisagrees { tag });
    }
    assert(reasons@ =~= review_for(grid, no_beats));
    reasons
}

/// Row counts, as the filter chips show them: each row is analysed, needs review or is
/// skipped; rows whose boost the ceiling held short of the target are counted besides.
#[derive(Debug, Clone, Copy, PartialEq, Eq, Structural)]
pub struct PlanCounts {
    /// Rows analysed with nothing to look at.
    pub analysed: usize,
    /// Rows that need review.
    pub review: usize,
    /// Rows skipped.
    pub skipped: usize,
    /// Rows whose boost stops short of the target.
    pub short: usize,
}

impl PlanCounts {
    /// No row counted.
    pub fn new() -> (c: Self)
        ensures
            c == (PlanCounts { analysed: 0, review: 0, skipped: 0, short: 0 }),
    {
        PlanCounts { analysed: 0, review: 0, skipped: 0, short: 0 }
    }

    /// Counts one row with `status`; `short` says whether its boost stops short of the target.
    pub fn add(&mut self, status: JobStage, short: bool)
        requires
            status != JobStage::NeedsReview && status != JobStage::Skipped ==> old(self).analysed < usize::MAX,
            status == JobStage::NeedsReview ==> old(self).review < usize::MAX,
            status == JobStage::Skipped ==> old(self).skipped < usize::MAX,
            short ==> old(self).short < usize::MAX,
        ensures
            final(self).review == old(self).review + if status == JobStage::NeedsReview { 1int } else { 0 },
            final(self).skipped == old(self).skipped + if status == JobStage::Skipped { 1int } else { 0 },
            final(self).analysed == old(self).analysed
                + if status != JobStage::NeedsReview && status != JobStage::Skipped { 1int } else { 0 },
            final(self).short == old(self).short + if short { 1int } else { 0 },
    {
        match status {
            JobStage::NeedsReview => self.review = self.review + 1,
            JobStage::Skipped => self.skipped = self.skipped + 1,
            _ => self.analysed = self.analysed + 1,
        }
        if short {
            self.short = self.short + 1;
        }
    }
}

/// A row needs review exactly when it has a review reason: a green, static grid inside the
/// range that agrees with its tag needs none, and neither does a row without a grid unless
/// its beat search came up empty.
pub proof fn review_is_empty_only_for_clean_grids(grid: Option<GridFacts>, no_beats: bool)
    ensures
        (review_for(grid, no_beats).len() == 0) <==> match grid {
            None => !no_beats,
            Some(g) => g.confidence == Confidence::Green && g.verdict == Verdict::Static
                && !g.outside_range && g.tag_disagrees is None,
        },
{
}

/// What `x + y` holds is what `x` or `y` holds.
proof fn lemma_in_concat(x: Seq<ReviewReason>, y: Seq<ReviewReason>, r: ReviewReason)
    ensures
        (x + y).contains(r) <==> (x.contains(r) || y.contains(r)),
{
    if x.contains(r) {
        let i = choose|i: int| 0 <= i < x.len() && x[i] == r;
        assert((x + y)[i] == r);
    }
    if y.contains(r) {
        let i = choose|i: int| 0 <= i < y.len() && y[i] == r;
        assert((x + y)[x.len() + i] == r);
    }
    if (x + y).contains(r) {
        let i = choose|i: int| 0 <= i < (x + y).len() && (x + y)[i] == r;
        if i < x.len() {
            assert(x[i] == r);
        } else {
            assert(y[i - x.len()] == r);
        }
    }
}

proof fn lemma_one(q: ReviewReason, r: ReviewReason)
    ensures
        seq![q].contains(r) <==> q == r,
        !Seq::<ReviewReason>::empty().contains(r),
{
    assert(seq![q][0] == q);
}

/// For a row with a grid, each review reason is given exactly when what it names holds: a
/// confidence below green (whatever the verdict), elevated residuals, a drifting tempo, a BPM
/// outside the range, a tag that disagrees (with that tag's BPM); never "no grid"; and a
/// confidence below green comes first. Without a grid, "no grid" is the only reason there can be,
/// and it is given exactly when the beat search came up empty.
pub proof fn each_review_reason_shows_exactly_when_it_applies(g: GridFacts, no_beats: bool, tag: Bpm)
    ensures
        review_for(Some(g), no_beats).contains(ReviewReason::Confidence) <==> g.confidence != Confidence::Green,
        review_for(Some(g), no_beats).contains(ReviewReason::CheckGrid) <==> g.verdict == Verdict::StaticWarn,
        review_for(Some(g), no_beats).contains(ReviewReason::Drifts) <==> g.verdict == Verdict::Drifts,
        review_for(Some(g), no_beats).contains(ReviewReason::OutsideBpmRange) <==> g.outside_range,
        review_for(Some(g), no_beats).contains(ReviewReason::TagBpmDisagrees { tag }) <==> g.tag_disagrees == Some(tag),
        !review_for(Some(g), no_beats).contains(ReviewReason::NoGrid),
        g.confidence != Confidence::Green ==> review_for(Some(g), no_beats)[0] == ReviewReason::Confidence,
        review_for(None, no_beats).contains(ReviewReason::NoGrid) <==> no_beats,
        review_for(None, no_beats).len() <= 1,
{
    let a = if g.confidence != Confidence::Green { seq![ReviewReason::Confidence] } else { Seq::empty() };
    let b = match g.verdict {
        Verdict::Static => Seq::empty(),
        Verdict::StaticWarn => seq![ReviewReason::CheckGrid],
        Verdict::Drifts => seq![ReviewReason::Drifts],
    };
    let c = if g.outside_range { seq![ReviewReason::OutsideBpmRange] } else { Seq::empty() };
    let d = match g.tag_disagrees {
        Some(t) => seq![ReviewReason::TagBpmDisagrees { tag: t }],
        None => Seq::empty(),
    };
    assert(review_for(Some(g), no_beats) == a + b + c + d);
    let rs = seq![ReviewReason::Confidence, ReviewReason::CheckGrid, ReviewReason::Drifts,
        ReviewReason::OutsideBpmRange, ReviewReason::TagBpmDisagrees { tag }, ReviewReason::NoGrid];
    assert forall|k: int| 0 <= k < 6 implies
        ((a + b + c + d).contains(#[trigger] rs[k]) <==> (a.contains(rs[k]) || b.contains(rs[k]) || c.contains(rs[k]) || d.contains(rs[k])))
        && (a.contains(rs[k]) <==> (g.confidence != Confidence::Green && rs[k] == ReviewReason::Confidence))
        && (b.contains(rs[k]) <==> ((g.verdict == Verdict::StaticWarn && rs[k] == ReviewReason::CheckGrid)
            || (g.verdict == Verdict::Drifts && rs[k] == ReviewReason::Drifts)))
        && (c.contains(rs[k]) <==> (g.outside_range && rs[k] == ReviewReason::OutsideBpmRange))
        && (d.contains(rs[k]) <==> (g.tag_disagrees matches Some(t) && rs[k] == ReviewReason::TagBpmDisagrees { tag: t })) by {
        let r = rs[k];
        lemma_in_concat(a, b, r);
        lemma_in_concat(a + b, c, r);
        lemma_in_concat(a + b + c, d, r);
        lemma_one(ReviewReason::Confidence, r);
        lemma_one(ReviewReason::CheckGrid, r);
        lemma_one(ReviewReason::Drifts, r);
        lemma_one(ReviewReason::OutsideBpmRange, r);
        if let Some(t) = g.tag_disagrees {
            lemma_one(ReviewReason::TagBpmDisagrees { tag: t }, r);
        }
    }
    assert(rs[0] == ReviewReason::Confidence && rs[1] == ReviewReason::CheckGrid && rs[2] == ReviewReason::Drifts);
    assert(rs[3] == ReviewReason::OutsideBpmRange && rs[4] == ReviewReason::TagBpmDisagrees { tag } && rs[5] == ReviewReason::NoGrid);
    if g.confidence != Confidence::Green {
        assert((a + b + c + d)[0] == a[0]);
    }
    lemma_one(ReviewReason::NoGrid, ReviewReason::NoGrid);
}

} // verus!
