//! Grid helpers on whole beats, and the tempo ranges that genres suggest.
use vstd::prelude::*;

use crate::text::{contains, has_part, lowercase, lowercase_text};

verus! {

/// How steady a grid's tempo is.
#[derive(Debug, Clone, Copy, PartialEq, Eq, Hash, Structural)]
pub enum Verdict {
    /// Residual P95 < 12 ms, max < 30 ms, local range <= 0.03 BPM, |drift| < 200 ppm.
    Static,
    /// Residual P95 < 25 ms and max < 50 ms; usable, worth a look.
    StaticWarn,
    /// The tempo moves; the audio is left untouched and the numbers are shown.
    Drifts,
}

/// Calibrated three-state confidence; never a raw score.
#[derive(Debug, Clone, Copy, PartialEq, Eq, Hash, Structural)]
pub enum Confidence {
    /// Every term at or above 0.8.
    Green,
    /// The weakest term between 0.5 and 0.8.
    Amber,
    /// The weakest term below 0.5.
    Red,
}

impl Verdict {
    /// The word a text report prints for the verdict.
    pub fn label(self) -> (s: &'static str)
        ensures
            s@ == match self {
                Verdict::Static => "static"@,
                Verdict::StaticWarn => "static (check)"@,
                Verdict::Drifts => "drifts"@,
            },
    {
        match self {
            Verdict::Static => "static",
            Verdict::StaticWarn => "static (check)",
            Verdict::Drifts => "drifts",
        }
    }
}

impl Confidence {
    /// The word a text report prints for the confidence.
    pub fn label(self) -> (s: &'static str)
        ensures
            s@ == match self {
                Confidence::Green => "green"@,
                Confidence::Amber => "amber"@,
                Confidence::Red => "red"@,
            },
    {
        match self {
            Confidence::Green => "green",
            Confidence::Amber => "amber",
            Confidence::Red => "red",
        }
    }
}

/// Why a grid is not green, shown as chips next to the confidence ring.
#[derive(Debug, Clone, Copy, PartialEq, Eq, Hash, Structural)]
pub enum Reason {
    /// Beats sit off the lattice.
    Residuals,
    /// Few beats land within 25 ms of the lattice.
    Coverage,
    /// Lattice slots without a detected beat.
    Recall,
    /// The other octave scores nearly as well.
    OctaveMargin,
    /// Another beat scores nearly as well for beat 1.
    DownbeatMargin,
    /// The runner-up meter scores nearly as well.
    MeterMargin,
    /// The file's BPM tag disagrees by more than 2 %.
    TagDisagrees,
    /// The chosen BPM lies outside the user's DJ-app range.
    OutsideRange,
    /// Too little audio for a confident fit.
    Short,
    /// The tempo drifts.
    Drifts,
    /// No kick-band energy; the anchor came from the broadband onset.
    NoKick,
}

/// The verdict on a fitted grid: it drifts when the tempo moves; otherwise it is static when
/// the residuals stay within the static bounds, static with a warning within the looser ones,
/// and drifting beyond them.
pub open spec fn verdict_for(tempo_moves: bool, within_static: bool, within_warn: bool) -> Verdict {
    if tempo_moves {
        Verdict::Drifts
    } else if within_static {
        Verdict::Static
    } else if within_warn {
        Verdict::StaticWarn
    } else {
        Verdict::Drifts
    }
}

/// The verdict of a grid: `tempo_moves` says whether the local tempo range or the drift is
/// significant, `within_static` whether the residuals' P95 and maximum are under 12 and 30 ms,
/// `within_warn` whether they are under 25 and 50 ms.
pub fn verdict_of(tempo_moves: bool, within_static: bool, within_warn: bool) -> (v: Verdict)
    ensures
        v == verdict_for(tempo_moves, within_static, within_warn),
{
    if tempo_moves {
        Verdict::Drifts
    } else if within_static {
        Verdict::Static
    } else if within_warn {
        Verdict::StaticWarn
    } else {
        Verdict::Drifts
    }
}

/// How each score term of a grid stands against the confidence thresholds (green at or above
/// 0.8, amber from 0.5): beats near the lattice, lattice slots with a beat, and the margins of
/// the octave, the downbeat and the meter over their runners-up.
#[derive(Debug, Clone, Copy, PartialEq, Eq, Structural)]
pub struct Terms {
    /// Share of beats within 25 ms of the lattice.
    pub coverage: Confidence,
    /// Share of lattice slots with a detected beat.
    pub recall: Confidence,
    /// Margin of the chosen octave over the other.
    pub octave_margin: Confidence,
    /// Margin of beat 1 over the next best beat.
    pub downbeat_margin: Confidence,
    /// Margin of the meter over the runner-up.
    pub meter_margin: Confidence,
}

/// The other facts the confidence chips speak of.
#[derive(Debug, Clone, Copy, PartialEq, Eq, Structural)]
pub struct GridChecks {
    /// Static, static with a warning, or drifting.
    pub verdict: Verdict,
    /// The BPM lies outside the user's DJ-app range.
    pub outside_range: bool,
    /// The file's BPM tag disagrees by more than 2 %.
    pub tag_disagrees: bool,
    /// The anchor came from the broadband onset, for want of kick-band energy.
    pub no_kick: bool,
    /// Too few beats for a confident fit.
    pub short: bool,
}

/// How far a band is from green: 0, 1 or 2.
pub open spec fn band_rank(c: Confidence) -> nat {
    match c {
        Confidence::Green => 0,
        Confidence::Amber => 1,
        Confidence::Red => 2,
    }
}

/// The weaker of two bands.
pub open spec fn weaker(a: Confidence, b: Confidence) -> Confidence {
    if band_rank(a) >= band_rank(b) {
        a
    } else {
        b
    }
}

/// The confidence of a grid: the weakest term's band, and at best amber for a short file.
pub open spec fn confidence_for(t: Terms, short: bool) -> Confidence {
    let w = weaker(weaker(weaker(weaker(t.coverage, t.recall), t.octave_margin), t.downbeat_margin), t.meter_margin);
    if short {
        weaker(w, Confidence::Amber)
    } else {
        w
    }
}

/// `seq![r]` when `on`, else nothing.
pub open spec fn chip(on: bool, r: Reason) -> Seq<Reason> {
    if on {
        seq![r]
    } else {
        Seq::empty()
    }
}

/// The chips next to the confidence ring, in this order: each term that is not green
/// (coverage, recall, octave, downbeat, meter), the residuals or the drift, a BPM outside the
/// range, a contradicting tag, a missing kick, and a short file.
pub open spec fn reasons_for(t: Terms, g: GridChecks) -> Seq<Reason> {
    chip(t.coverage != Confidence::Green, Reason::Coverage)
        + chip(t.recall != Confidence::Green, Reason::Recall)
        + chip(t.octave_margin != Confidence::Green, Reason::OctaveMargin)
        + chip(t.downbeat_margin != Confidence::Green, Reason::DownbeatMargin)
        + chip(t.meter_margin != Confidence::Green, Reason::MeterMargin)
        + chip(g.verdict == Verdict::StaticWarn, Reason::Residuals)
        + chip(g.verdict == Verdict::Drifts, Reason::Drifts)
        + chip(g.outside_range, Reason::OutsideRange)
        + chip(g.tag_disagrees, Reason::TagDisagrees)
        + chip(g.no_kick, Reason::NoKick)
        + chip(g.short, Reason::Short)
}

fn weaker_of(a: Confidence, b: Confidence) -> (c: Confidence)
    ensures
        c == weaker(a, b),
{
    let ra: u8 = match a {
        Confidence::Green => 0,
        Confidence::Amber => 1,
        Confidence::Red => 2,
    };
    let rb: u8 = match b {
        Confidence::Green => 0,
        Confidence::Amber => 1,
        Confidence::Red => 2,
    };
    if ra >= rb {
        a
    } else {
        b
    }
}

fn push_chip(reasons: &mut Vec<Reason>, on: bool, r: Reason)
    ensures
        final(reasons)@ == old(reasons)@ + chip(on, r),
{
    if on {
        reasons.push(r);
    }
    assert(final(reasons)@ =~= old(reasons)@ + chip(on, r));
}

/// Calibrated three-state confidence from the weakest term, and the chips explaining it.
pub fn assess(t: Terms, g: GridChecks) -> (r: (Confidence, Vec<Reason>))
    ensures
        r.0 == confidence_for(t, g.short),
        r.1@ == reasons_for(t, g),
{
    let w = weaker_of(weaker_of(weaker_of(weaker_of(t.coverage, t.recall), t.octave_margin), t.downbeat_margin), t.meter_margin);
    let confidence = if g.short {
        weaker_of(w, Confidence::Amber)
    } else {
        w
    };
    let mut reasons: Vec<Reason> = Vec::new();
    push_chip(&mut reasons, t.coverage != Confidence::Green, Reason::Coverage);
    push_chip(&mut reasons, t.recall != Confidence::Green, Reason::Recall);
    push_chip(&mut reasons, t.octave_margin != Confidence::Green, Reason::OctaveMargin);
    push_chip(&mut reasons, t.downbeat_margin != Confidence::Green, Reason::DownbeatMargin);
    push_chip(&mut reasons, t.meter_margin != Confidence::Green, Reason::MeterMargin);
    push_chip(&mut reasons, g.verdict == Verdict::StaticWarn, Reason::Residuals);
    push_chip(&mut reasons, g.verdict == Verdict::Drifts, Reason::Drifts);
    push_chip(&mut reasons, g.outside_range, Reason::OutsideRange);
    push_chip(&mut reasons, g.tag_disagrees, Reason::TagDisagrees);
    push_chip(&mut reasons, g.no_kick, Reason::NoKick);
    push_chip(&mut reasons, g.short, Reason::Short);
    (confidence, reasons)
}

/// What is in `x` or in `y` is in `x + y`.
proof fn lemma_contains_concat(x: Seq<Reason>, y: Seq<Reason>, r: Reason)
    ensures
        (x.contains(r) || y.contains(r)) ==> (x + y).contains(r),
{
    if x.contains(r) {
        let i = choose|i: int| 0 <= i < x.len() && x[i] == r;
        assert((x + y)[i] == r);
    } else if y.contains(r) {
        let i = choose|i: int| 0 <= i < y.len() && y[i] == r;
        assert((x + y)[x.len() + i] == r);
    }
}

/// What one of the chips holds, the chips one after another hold.
proof fn lemma_in_some_chip(
    c1: Seq<Reason>, c2: Seq<Reason>, c3: Seq<Reason>, c4: Seq<Reason>, c5: Seq<Reason>, c6: Seq<Reason>,
    c7: Seq<Reason>, c8: Seq<Reason>, c9: Seq<Reason>, c10: Seq<Reason>, c11: Seq<Reason>, r: Reason,
)
    ensures
        (c1.contains(r) || c2.contains(r) || c3.contains(r) || c4.contains(r) || c5.contains(r)
            || c11.contains(r)) ==> (c1 + c2 + c3 + c4 + c5 + c6 + c7 + c8 + c9 + c10 + c11).contains(r),
{
    lemma_contains_concat(c1, c2, r);
    lemma_contains_concat(c1 + c2, c3, r);
    lemma_contains_concat(c1 + c2 + c3, c4, r);
    lemma_contains_concat(c1 + c2 + c3 + c4, c5, r);
    lemma_contains_concat(c1 + c2 + c3 + c4 + c5, c6, r);
    lemma_contains_concat(c1 + c2 + c3 + c4 + c5 + c6, c7, r);
    lemma_contains_concat(c1 + c2 + c3 + c4 + c5 + c6 + c7, c8, r);
    lemma_contains_concat(c1 + c2 + c3 + c4 + c5 + c6 + c7 + c8, c9, r);
    lemma_contains_concat(c1 + c2 + c3 + c4 + c5 + c6 + c7 + c8 + c9, c10, r);
    lemma_contains_concat(c1 + c2 + c3 + c4 + c5 + c6 + c7 + c8 + c9 + c10, c11, r);
}

/// A chip that is on holds its reason.
proof fn lemma_chip_on(on: bool, r: Reason)
    ensures
        on ==> chip(on, r).contains(r),
{
    if on {
        assert(chip(on, r)[0] == r);
    }
}

/// A grid is green exactly when every term is green and the file is not short, and a grid that
/// is not green always carries a chip that says why: a term that is not green, or a short file.
pub proof fn only_clean_grids_are_green(t: Terms, g: GridChecks)
    ensures
        (confidence_for(t, g.short) == Confidence::Green) <==> (
            t.coverage == Confidence::Green && t.recall == Confidence::Green
            && t.octave_margin == Confidence::Green && t.downbeat_margin == Confidence::Green
            && t.meter_margin == Confidence::Green && !g.short
        ),
        confidence_for(t, g.short) != Confidence::Green ==> {
            let rs = reasons_for(t, g);
            ||| rs.contains(Reason::Coverage)
            ||| rs.contains(Reason::Recall)
            ||| rs.contains(Reason::OctaveMargin)
            ||| rs.contains(Reason::DownbeatMargin)
            ||| rs.contains(Reason::MeterMargin)
            ||| rs.contains(Reason::Short)
        },
{
    let c1 = chip(t.coverage != Confidence::Green, Reason::Coverage);
    let c2 = chip(t.recall != Confidence::Green, Reason::Recall);
    let c3 = chip(t.octave_margin != Confidence::Green, Reason::OctaveMargin);
    let c4 = chip(t.downbeat_margin != Confidence::Green, Reason::DownbeatMargin);
    let c5 = chip(t.meter_margin != Confidence::Green, Reason::MeterMargin);
    let c6 = chip(g.verdict == Verdict::StaticWarn, Reason::Residuals);
    let c7 = chip(g.verdict == Verdict::Drifts, Reason::Drifts);
    let c8 = chip(g.outside_range, Reason::OutsideRange);
    let c9 = chip(g.tag_disagrees, Reason::TagDisagrees);
    let c10 = chip(g.no_kick, Reason::NoKick);
    let c11 = chip(g.short, Reason::Short);
    lemma_chip_on(t.coverage != Confidence::Green, Reason::Coverage);
    lemma_chip_on(t.recall != Confidence::Green, Reason::Recall);
    lemma_chip_on(t.octave_margin != Confidence::Green, Reason::OctaveMargin);
    lemma_chip_on(t.downbeat_margin != Confidence::Green, Reason::DownbeatMargin);
    lemma_chip_on(t.meter_margin != Confidence::Green, Reason::MeterMargin);
    lemma_chip_on(g.short, Reason::Short);
    lemma_in_some_chip(c1, c2, c3, c4, c5, c6, c7, c8, c9, c10, c11, Reason::Coverage);
    lemma_in_some_chip(c1, c2, c3, c4, c5, c6, c7, c8, c9, c10, c11, Reason::Recall);
    lemma_in_some_chip(c1, c2, c3, c4, c5, c6, c7, c8, c9, c10, c11, Reason::OctaveMargin);
    lemma_in_some_chip(c1, c2, c3, c4, c5, c6, c7, c8, c9, c10, c11, Reason::DownbeatMargin);
    lemma_in_some_chip(c1, c2, c3, c4, c5, c6, c7, c8, c9, c10, c11, Reason::MeterMargin);
    lemma_in_some_chip(c1, c2, c3, c4, c5, c6, c7, c8, c9, c10, c11, Reason::Short);
}

/// The shift in beats from position `best` to position `r` within a bar of `bar` beats, taken
/// in `(-bar/2, bar/2]` and clamped to the `i8` range.
pub open spec fn shift_between(r: nat, best: nat, bar: nat) -> int {
    let d = ((r + bar - best) as nat) % bar;
    let signed = if 2 * d > bar { d - bar } else { d as int };
    if signed < -128 {
        -128
    } else if signed > 127 {
        127
    } else {
        signed
    }
}

/// A shift in beats from `best` to `r`, in `(-bar/2, bar/2]`.
pub fn signed_shift(r: usize, best: usize, bar: usize) -> (s: i8)
    requires
        0 < bar <= 0x7fff_ffff_ffff_ffff,
        best <= r + bar <= usize::MAX,
        2 * ((r + bar - best) % (bar as int)) <= usize::MAX,
    ensures
        s as int == shift_between(r as nat, best as nat, bar as nat),
{
    let d = (r + bar - best) % bar;
    let signed: i64 = if d * 2 > bar {
        d as i64 - bar as i64
    } else {
        d as i64
    };
    if signed < -128 {
        -128
    } else if signed > 127 {
        127
    } else {
        signed as i8
    }
}

/// A shift and the shift back undo each other whenever neither is exactly half a bar.
pub proof fn shifts_are_opposite(r: nat, best: nat, bar: nat)
    requires
        bar > 0,
        r < bar,
        best < bar,
        bar <= 255,
        2 * (((r + bar - best) as nat) % bar) != bar,
    ensures
        shift_between(r, best, bar) == -shift_between(best, r, bar),
{
    let d = ((r + bar - best) as nat) % bar;
    let e = ((best + bar - r) as nat) % bar;
    if r >= best {
        assert(d == r - best) by {
            vstd::arithmetic::div_mod::lemma_mod_add_multiples_vanish((r - best) as int, bar as int);
            vstd::arithmetic::div_mod::lemma_small_mod((r - best) as nat, bar);
        }
        if r == best {
            assert(e == 0) by {
                vstd::arithmetic::div_mod::lemma_mod_self_0(bar as int);
            }
        } else {
            assert(e == bar - (r - best)) by {
                vstd::arithmetic::div_mod::lemma_small_mod((bar - (r - best)) as nat, bar);
            }
        }
    } else {
        assert(d == bar - (best - r)) by {
            vstd::arithmetic::div_mod::lemma_small_mod((bar - (best - r)) as nat, bar);
        }
        assert(e == best - r) by {
            vstd::arithmetic::div_mod::lemma_mod_add_multiples_vanish((best - r) as int, bar as int);
            vstd::arithmetic::div_mod::lemma_small_mod((best - r) as nat, bar);
        }
    }
}

/// Whether lower-case genre text names drum & bass or jungle.
pub open spec fn names_drum_and_bass(t: Seq<char>) -> bool {
    ||| contains(t, "drum & bass"@)
    ||| contains(t, "drum and bass"@)
    ||| contains(t, "drum'n'bass"@)
    ||| contains(t, "drum n bass"@)
    ||| contains(t, "dnb"@)
    ||| contains(t, "d&b"@)
    ||| contains(t, "jungle"@)
}

/// Whether lower-case genre text names hip-hop or rap.
pub open spec fn names_hip_hop(t: Seq<char>) -> bool {
    ||| contains(t, "hip-hop"@)
    ||| contains(t, "hip hop"@)
    ||| contains(t, "hiphop"@)
    ||| contains(t, "rap"@)
}

/// The usual tempo range, in whole BPM, of the first genre in the table that lower-case genre
/// text `t` mentions: drum & bass 160-180, dubstep 135-145, trance 125-150, techno 120-150,
/// house 120-130, hip-hop 80-100.
pub open spec fn genre_bounds(t: Seq<char>) -> Option<(u32, u32)> {
    if names_drum_and_bass(t) {
        Some((160, 180))
    } else if contains(t, "dubstep"@) {
        Some((135, 145))
    } else if contains(t, "trance"@) {
        Some((125, 150))
    } else if contains(t, "techno"@) {
        Some((120, 150))
    } else if contains(t, "house"@) {
        Some((120, 130))
    } else if names_hip_hop(t) {
        Some((80, 100))
    } else {
        None
    }
}

/// The tempo range, in whole BPM, that a genre tag suggests, matched case-insensitively
/// anywhere in the tag; `None` without a tag or for a genre outside the table.
pub fn genre_range(genre: Option<&str>) -> (r: Option<(u32, u32)>)
    ensures
        r == match genre {
            Some(g) => genre_bounds(lowercase_text(g@)),
            None => None,
        },
{
    let g = match genre {
        Some(g) => g,
        None => return None,
    };
    let t = lowercase(g);
    let dnb = has_part(&t, "drum & bass") || has_part(&t, "drum and bass")
        || has_part(&t, "drum'n'bass") || has_part(&t, "drum n bass") || has_part(&t, "dnb")
        || has_part(&t, "d&b") || has_part(&t, "jungle");
    if dnb {
        Some((160, 180))
    } else if has_part(&t, "dubstep") {
        Some((135, 145))
    } else if has_part(&t, "trance") {
        Some((125, 150))
    } else if has_part(&t, "techno") {
        Some((120, 150))
    } else if has_part(&t, "house") {
        Some((120, 130))
    } else if has_part(&t, "hip-hop") || has_part(&t, "hip hop") || has_part(&t, "hiphop")
        || has_part(&t, "rap") {
        Some((80, 100))
    } else {
        None
    }
}

/// What `x + y` holds is what `x` or `y` holds.
proof fn lemma_in_concat(x: Seq<Reason>, y: Seq<Reason>, r: Reason)
    ensures
        (x + y).contains(r) <==> (x.contains(r) || y.contains(r)),
{
    lemma_contains_concat(x, y, r);
    if (x + y).contains(r) {
        let i = choose|i: int| 0 <= i < (x + y).len() && (x + y)[i] == r;
        if i < x.len() {
            assert(x[i] == r);
        } else {
            assert(y[i - x.len()] == r);
        }
    }
}

/// A chip holds a reason exactly when it is on and names that reason.
proof fn lemma_chip(on: bool, r: Reason, q: Reason)
    ensures
        chip(on, r).contains(q) <==> (on && r == q),
{
    if on {
        assert(chip(on, r)[0] == r);
    }
}

/// The confidence is the band of the weakest term: red exactly when some term is red, green
/// exactly when every term is green and the file is not short, amber otherwise.
pub proof fn the_weakest_term_sets_the_confidence(t: Terms, short: bool)
    ensures
        (confidence_for(t, short) == Confidence::Red) <==> (t.coverage == Confidence::Red
            || t.recall == Confidence::Red || t.octave_margin == Confidence::Red
            || t.downbeat_margin == Confidence::Red || t.meter_margin == Confidence::Red),
        (confidence_for(t, short) == Confidence::Green) <==> (t.coverage == Confidence::Green
            && t.recall == Confidence::Green && t.octave_margin == Confidence::Green
            && t.downbeat_margin == Confidence::Green && t.meter_margin == Confidence::Green && !short),
{
}

/// Whether reason `q` applies to a grid with terms `t` and checks `g`.
spec fn applies(t: Terms, g: GridChecks, q: Reason) -> bool {
    match q {
        Reason::Coverage => t.coverage != Confidence::Green,
        Reason::Recall => t.recall != Confidence::Green,
        Reason::OctaveMargin => t.octave_margin != Confidence::Green,
        Reason::DownbeatMargin => t.downbeat_margin != Confidence::Green,
        Reason::MeterMargin => t.meter_margin != Confidence::Green,
        Reason::Residuals => g.verdict == Verdict::StaticWarn,
        Reason::Drifts => g.verdict == Verdict::Drifts,
        Reason::OutsideRange => g.outside_range,
        Reason::TagDisagrees => g.tag_disagrees,
        Reason::NoKick => g.no_kick,
        Reason::Short => g.short,
    }
}

/// What the chips one after another hold is what one of them holds.
proof fn lemma_in_chips(
    c1: Seq<Reason>, c2: Seq<Reason>, c3: Seq<Reason>, c4: Seq<Reason>, c5: Seq<Reason>, c6: Seq<Reason>,
    c7: Seq<Reason>, c8: Seq<Reason>, c9: Seq<Reason>, c10: Seq<Reason>, c11: Seq<Reason>, q: Reason,
)
    ensures
        (c1 + c2 + c3 + c4 + c5 + c6 + c7 + c8 + c9 + c10 + c11).contains(q) <==> (c1.contains(q)
            || c2.contains(q) || c3.contains(q) || c4.contains(q) || c5.contains(q) || c6.contains(q)
            || c7.contains(q) || c8.contains(q) || c9.contains(q) || c10.contains(q) || c11.contains(q)),
{
    lemma_in_concat(c1, c2, q);
    lemma_in_concat(c1 + c2, c3, q);
    lemma_in_concat(c1 + c2 + c3, c4, q);
    lemma_in_concat(c1 + c2 + c3 + c4, c5, q);
    lemma_in_concat(c1 + c2 + c3 + c4 + c5, c6, q);
    lemma_in_concat(c1 + c2 + c3 + c4 + c5 + c6, c7, q);
    lemma_in_concat(c1 + c2 + c3 + c4 + c5 + c6 + c7, c8, q);
    lemma_in_concat(c1 + c2 + c3 + c4 + c5 + c6 + c7 + c8, c9, q);
    lemma_in_concat(c1 + c2 + c3 + c4 + c5 + c6 + c7 + c8 + c9, c10, q);
    lemma_in_concat(c1 + c2 + c3 + c4 + c5 + c6 + c7 + c8 + c9 + c10, c11, q);
}

#[verifier::rlimit(40)]
proof fn lemma_reason_shown(t: Terms, g: GridChecks, q: Reason)
    ensures
        reasons_for(t, g).contains(q) <==> applies(t, g, q),
{
    let c1 = chip(t.coverage != Confidence::Green, Reason::Coverage);
    let c2 = chip(t.recall != Confidence::Green, Reason::Recall);
    let c3 = chip(t.octave_margin != Confidence::Green, Reason::OctaveMargin);
    let c4 = chip(t.downbeat_margin != Confidence::Green, Reason::DownbeatMargin);
    let c5 = chip(t.meter_margin != Confidence::Green, Reason::MeterMargin);
    let c6 = chip(g.verdict == Verdict::StaticWarn, Reason::Residuals);
    let c7 = chip(g.verdict == Verdict::Drifts, Reason::Drifts);
    let c8 = chip(g.outside_range, Reason::OutsideRange);
    let c9 = chip(g.tag_disagrees, Reason::TagDisagrees);
    let c10 = chip(g.no_kick, Reason::NoKick);
    let c11 = chip(g.short, Reason::Short);
    assert(reasons_for(t, g) == c1 + c2 + c3 + c4 + c5 + c6 + c7 + c8 + c9 + c10 + c11);
    lemma_in_chips(c1, c2, c3, c4, c5, c6, c7, c8, c9, c10, c11, q);
    lemma_chip(t.coverage != Confidence::Green, Reason::Coverage, q);
    lemma_chip(t.recall != Confidence::Green, Reason::Recall, q);
    lemma_chip(t.octave_margin != Confidence::Green, Reason::OctaveMargin, q);
    lemma_chip(t.downbeat_margin != Confidence::Green, Reason::DownbeatMargin, q);
    lemma_chip(t.meter_margin != Confidence::Green, Reason::MeterMargin, q);
    lemma_chip(g.verdict == Verdict::StaticWarn, Reason::Residuals, q);
    lemma_chip(g.verdict == Verdict::Drifts, Reason::Drifts, q);
    lemma_chip(g.outside_range, Reason::OutsideRange, q);
    lemma_chip(g.tag_disagrees, Reason::TagDisagrees, q);
    lemma_chip(g.no_kick, Reason::NoKick, q);
    lemma_chip(g.short, Reason::Short, q);
}

/// Each chip is shown exactly when what it names holds: a term below green, elevated residuals,
/// a drifting tempo, a BPM outside the range, a disagreeing tag, no kick, a short file.
pub proof fn each_chip_shows_exactly_when_it_applies(t: Terms, g: GridChecks)
    ensures
        reasons_for(t, g).contains(Reason::Coverage) <==> t.coverage != Confidence::Green,
        reasons_for(t, g).contains(Reason::Recall) <==> t.recall != Confidence::Green,
        reasons_for(t, g).contains(Reason::OctaveMargin) <==> t.octave_margin != Confidence::Green,
        reasons_for(t, g).contains(Reason::DownbeatMargin) <==> t.downbeat_margin != Confidence::Green,
        reasons_for(t, g).contains(Reason::MeterMargin) <==> t.meter_margin != Confidence::Green,
        reasons_for(t, g).contains(Reason::Residuals) <==> g.verdict == Verdict::StaticWarn,
        reasons_for(t, g).contains(Reason::Drifts) <==> g.verdict == Verdict::Drifts,
        reasons_for(t, g).contains(Reason::OutsideRange) <==> g.outside_range,
        reasons_for(t, g).contains(Reason::TagDisagrees) <==> g.tag_disagrees,
        reasons_for(t, g).contains(Reason::NoKick) <==> g.no_kick,
        reasons_for(t, g).contains(Reason::Short) <==> g.short,
{
    lemma_reason_shown(t, g, Reason::Coverage);
    lemma_reason_shown(t, g, Reason::Recall);
    lemma_reason_shown(t, g, Reason::OctaveMargin);
    lemma_reason_shown(t, g, Reason::DownbeatMargin);
    lemma_reason_shown(t, g, Reason::MeterMargin);
    lemma_reason_shown(t, g, Reason::Residuals);
    lemma_reason_shown(t, g, Reason::Drifts);
    lemma_reason_shown(t, g, Reason::OutsideRange);
    lemma_reason_shown(t, g, Reason::TagDisagrees);
    lemma_reason_shown(t, g, Reason::NoKick);
    lemma_reason_shown(t, g, Reason::Short);
}

} // verus!
