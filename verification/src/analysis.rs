//! The decisions of one file's analysis that do not touch the audio: which model file to load,
//! whether to fit a grid and why not, which attacks anchor the meter, the tag text that
//! hints at genre, and the order of its stages, from the cancel checks to the cache.
use vstd::prelude::*;

use crate::settings::{Bpm, Model};
use crate::text::string_from;

verus! {

/// The small beat-tracking model's file.
pub const BEAT_MODEL_FILE: &'static str = "beat_this_small.onnx";

/// The full beat-tracking model's file.
pub const BEAT_MODEL_FULL_FILE: &'static str = "beat_this.onnx";

/// Shortest audio, in seconds, that gets a grid.
pub const MIN_GRID_SECONDS: u64 = 10;

/// The file of the beat-tracking model `m`.
pub fn model_file(m: Model) -> (f: &'static str)
    ensures
        f@ == match m {
            Model::Small => BEAT_MODEL_FILE@,
            Model::Full => BEAT_MODEL_FULL_FILE@,
        },
{
    match m {
        Model::Small => BEAT_MODEL_FILE,
        Model::Full => BEAT_MODEL_FULL_FILE,
    }
}

/// The first of the searched model directories that holds both model files; `holds_both[i]`
/// says whether directory `i`, in search order, holds the mel front end and the beat model.
pub fn find_model_dir(holds_both: &Vec<bool>) -> (r: Option<usize>)
    ensures
        match r {
            Some(i) => i < holds_both@.len() && holds_both@[i as int]
                && forall|j: int| 0 <= j < i ==> !holds_both@[j],
            None => forall|j: int| 0 <= j < holds_both@.len() ==> !holds_both@[j],
        },
{
    let n = holds_both.len();
    let mut i: usize = 0;
    while i < n
        invariant
            n == holds_both@.len(),
            0 <= i <= n,
            forall|j: int| 0 <= j < i ==> !holds_both@[j],
        decreases n - i,
    {
        if holds_both[i] {
            return Some(i);
        }
        i = i + 1;
    }
    None
}

/// How the cache took part in an analysis.
#[derive(Debug, Clone, Copy, PartialEq, Eq, Hash, Structural)]
pub enum CacheStatus {
    /// Served from the cache.
    Hit,
    /// Analysed and written to the cache.
    Written,
    /// Analysed with the cache switched off.
    Bypassed,
}

impl CacheStatus {
    /// The word a text report prints for the cache's part.
    pub fn label(self) -> (s: &'static str)
        ensures
            s@ == match self {
                CacheStatus::Hit => "hit"@,
                CacheStatus::Written => "written"@,
                CacheStatus::Bypassed => "bypassed"@,
            },
    {
        match self {
            CacheStatus::Hit => "hit",
            CacheStatus::Written => "written",
            CacheStatus::Bypassed => "bypassed",
        }
    }
}

/// What happens about the grid of a decoded file.
#[derive(Debug, Clone, Copy, PartialEq, Eq, Hash, Structural)]
pub enum GridStep {
    /// Track beats and fit the grid.
    Fit,
    /// The settings ask for loudness only.
    NotRequested,
    /// Less than [`MIN_GRID_SECONDS`] of audio.
    TooShort,
    /// The beat-tracking model is not loaded.
    NoModel,
}

/// The grid step for a file of `frames` frames at `sample_rate` Hz: none when the settings do
/// not ask for a grid, none without a loaded model, none for less than ten seconds of audio.
pub open spec fn grid_step_for(grid: bool, model_loaded: bool, frames: nat, sample_rate: nat) -> GridStep {
    if !grid {
        GridStep::NotRequested
    } else if !model_loaded {
        GridStep::NoModel
    } else if frames >= MIN_GRID_SECONDS * sample_rate {
        GridStep::Fit
    } else {
        GridStep::TooShort
    }
}

/// What happens about the grid: `grid` is the setting, `model_loaded` whether a beat model is
/// loaded, and the audio is `frames` frames at `sample_rate` Hz.
pub fn grid_step(grid: bool, model_loaded: bool, frames: u64, sample_rate: u32) -> (s: GridStep)
    ensures
        s == grid_step_for(grid, model_loaded, frames as nat, sample_rate as nat),
{
    if !grid {
        GridStep::NotRequested
    } else if !model_loaded {
        GridStep::NoModel
    } else if frames as u128 >= 10u128 * (sample_rate as u128) {
        GridStep::Fit
    } else {
        GridStep::TooShort
    }
}

/// Why a file has no grid, as the record says it.
pub open spec fn skip_note(s: GridStep) -> Option<Seq<char>> {
    match s {
        GridStep::Fit => None,
        GridStep::NotRequested => Some("not requested"@),
        GridStep::TooShort => Some("shorter than 10 s"@),
        GridStep::NoModel => Some("beat-tracking model not loaded"@),
    }
}

/// Why a file has no grid, or nothing when the grid is fitted.
pub fn grid_skipped(s: GridStep) -> (t: Option<&'static str>)
    ensures
        match t {
            Some(x) => skip_note(s) == Some(x@),
            None => skip_note(s) is None,
        },
{
    match s {
        GridStep::Fit => None,
        GridStep::NotRequested => Some("not requested"),
        GridStep::TooShort => Some("shorter than 10 s"),
        GridStep::NoModel => Some("beat-tracking model not loaded"),
    }
}

/// The note of a grid search that found no beats.
pub fn no_beats_note() -> (t: &'static str)
    ensures
        t@ == "no beats found"@,
{
    "no beats found"
}

/// Whether the meter is read on the kick-band attacks: when there is at least one for every
/// four beats; otherwise the broadband attacks anchor it.
pub fn anchor_on_kick(kick_onsets: usize, beats: usize) -> (b: bool)
    ensures
        b == (kick_onsets * 4 >= beats),
{
    kick_onsets as u128 * 4 >= beats as u128
}

/// What the file's tags say, read once and never trusted over the audio.
#[derive(Debug, Clone, PartialEq, Eq)]
pub struct TagHints {
    /// `TBPM` / `TXXX:BPM` / `bpm`, if present and numeric.
    pub bpm: Option<Bpm>,
    /// Genre tag, used only as an octave and meter prior.
    pub genre: Option<String>,
    /// Title for display.
    pub title: Option<String>,
    /// Artist for display.
    pub artist: Option<String>,
}

/// The characters of the tags present among `parts`, joined by single spaces.
pub open spec fn join_present(parts: Seq<Option<Seq<char>>>) -> Seq<char>
    decreases parts.len(),
{
    if parts.len() == 0 {
        Seq::empty()
    } else {
        let head = join_present(parts.drop_last());
        match parts.last() {
            None => head,
            Some(t) => if head.len() == 0 && !has_some(parts.drop_last()) {
                t
            } else {
                head + seq![' '] + t
            },
        }
    }
}

/// Whether some part is present.
pub open spec fn has_some(parts: Seq<Option<Seq<char>>>) -> bool {
    exists|i: int| 0 <= i < parts.len() && parts[i] is Some
}

/// The characters of an optional tag.
pub open spec fn tag_text(t: Option<String>) -> Option<Seq<char>> {
    match t {
        Some(s) => Some(s@),
        None => None,
    }
}

impl TagHints {
    /// The genre, title and artist present, in that order, joined by spaces: the text that
    /// hints at the meter.
    pub fn hint_text(&self) -> (s: String)
        ensures
            s@ == join_present(seq![tag_text(self.genre), tag_text(self.title), tag_text(self.artist)]),
    {
        let ghost parts = seq![tag_text(self.genre), tag_text(self.title), tag_text(self.artist)];
        let mut out: Vec<char> = Vec::new();
        let mut any = false;
        proof {
            assert(parts.take(0) =~= Seq::<Option<Seq<char>>>::empty());
        }
        append_tag(&mut out, &mut any, &self.genre, Ghost(parts), Ghost(0));
        append_tag(&mut out, &mut any, &self.title, Ghost(parts), Ghost(1));
        append_tag(&mut out, &mut any, &self.artist, Ghost(parts), Ghost(2));
        proof {
            assert(parts.take(3) =~= parts);
        }
        string_from(&out)
    }
}

/// Appends tag `t`, the part at `i` of `parts`, to the text of the parts before it.
fn append_tag(out: &mut Vec<char>, any: &mut bool, t: &Option<String>, Ghost(parts): Ghost<Seq<Option<Seq<char>>>>, Ghost(i): Ghost<int>)
    requires
        0 <= i < parts.len(),
        parts[i] == tag_text(*t),
        old(out)@ == join_present(parts.take(i)),
        *old(any) == has_some(parts.take(i)),
    ensures
        final(out)@ == join_present(parts.take(i + 1)),
        *final(any) == has_some(parts.take(i + 1)),
{
    let ghost before = parts.take(i);
    let ghost now = parts.take(i + 1);
    assert(now.drop_last() =~= before);
    assert(now.last() == parts[i]);
    match t {
        None => {
            assert(has_some(now) == has_some(before)) by {
                if has_some(now) {
                    let k = choose|k: int| 0 <= k < now.len() && now[k] is Some;
                    assert(k < i);
                    assert(before[k] is Some);
                }
                if has_some(before) {
                    let k = choose|k: int| 0 <= k < before.len() && before[k] is Some;
                    assert(now[k] is Some);
                }
            }
        },
        Some(s) => {
            let ghost head = out@;
            let had = *any;
            if had {
                out.push(' ');
            }
            let mut k: usize = 0;
            let ghost mid = out@;
            let cs = crate::text::chars_of(s.as_str());
            let n = cs.len();
            while k < n
                invariant
                    n == cs@.len(),
                    0 <= k <= n,
                    out@ == mid + cs@.take(k as int),
                decreases n - k,
            {
                out.push(cs[k]);
                k = k + 1;
                assert(out@ =~= mid + cs@.take(k as int));
            }
            assert(cs@.take(n as int) =~= cs@);
            assert(has_some(now)) by {
                assert(now[i] is Some);
            }
            if had {
                assert(out@ =~= head + seq![' '] + s@);
            } else {
                assert(out@ =~= s@) by {
                    assert(head == join_present(before));
                    lemma_none_present_empty(before);
                }
            }
            *any = true;
        },
    }
}

proof fn lemma_none_present_empty(parts: Seq<Option<Seq<char>>>)
    requires
        !has_some(parts),
    ensures
        join_present(parts) == Seq::<char>::empty(),
    decreases parts.len(),
{
    if parts.len() > 0 {
        assert(!has_some(parts.drop_last())) by {
            if has_some(parts.drop_last()) {
                let k = choose|k: int| 0 <= k < parts.drop_last().len() && parts.drop_last()[k] is Some;
                assert(parts[k] is Some);
            }
        }
        assert(parts.last() is None) by {
            if parts.last() is Some {
                assert(parts[parts.len() - 1] is Some);
            }
        }
        lemma_none_present_empty(parts.drop_last());
    }
}

/// Where an analysis checks whether its batch was cancelled.
#[derive(Debug, Clone, Copy, PartialEq, Eq, Hash, Structural)]
pub enum Checkpoint {
    /// Before anything is read.
    Entry,
    /// After decoding and metering.
    AfterDecode,
    /// After the record is built, before it is stored.
    BeforeStore,
}

/// How an analysis ends (besides an error of a stage).
#[derive(Debug, Clone, Copy, PartialEq, Eq, Hash, Structural)]
pub enum Finish {
    /// The record is returned, with the cache's part in it.
    Served(CacheStatus),
    /// The batch was cancelled.
    Cancelled,
}

/// The stage an analysis runs next.
#[derive(Debug, Clone, Copy, PartialEq, Eq, Hash, Structural)]
pub enum Step {
    /// Check the cancel flag.
    CheckCancel(Checkpoint),
    /// Take the cache key and look the file up in the cache, when there is one.
    LookUp,
    /// Decode the file, meter its loudness and keep the mono copy the grid needs.
    Decode,
    /// Read the tags, fit the grid when asked and build the record.
    Build,
    /// Store the record in the cache.
    WriteCache,
    /// Nothing more to run.
    Finished(Finish),
}

/// What a stage reports.
#[derive(Debug, Clone, Copy, PartialEq, Eq, Hash, Structural)]
pub enum Event {
    /// The cancel flag is clear.
    NotCancelled,
    /// The cancel flag is set.
    Cancelled,
    /// The cache holds the record.
    Hit,
    /// The cache does not hold the record, or there is no cache.
    Miss,
    /// The stage did its work.
    Done,
}

/// The stage after `s` reports `e`, with `cache_on` saying whether a cache is in use: a set
/// cancel flag ends the analysis at any check; a hit is served at once; a miss decodes; the
/// record is built after a clear check and stored after another, or returned unstored without a
/// cache. A report that does not belong to the stage leaves it where it is.
pub open spec fn step_after(s: Step, e: Event, cache_on: bool) -> Step {
    match s {
        Step::CheckCancel(c) => match e {
            Event::Cancelled => Step::Finished(Finish::Cancelled),
            Event::NotCancelled => match c {
                Checkpoint::Entry => Step::LookUp,
                Checkpoint::AfterDecode => Step::Build,
                Checkpoint::BeforeStore => if cache_on {
                    Step::WriteCache
                } else {
                    Step::Finished(Finish::Served(CacheStatus::Bypassed))
                },
            },
            _ => s,
        },
        Step::LookUp => match e {
            Event::Hit => Step::Finished(Finish::Served(CacheStatus::Hit)),
            Event::Miss => Step::Decode,
            _ => s,
        },
        Step::Decode => if e == Event::Done { Step::CheckCancel(Checkpoint::AfterDecode) } else { s },
        Step::Build => if e == Event::Done { Step::CheckCancel(Checkpoint::BeforeStore) } else { s },
        Step::WriteCache => if e == Event::Done { Step::Finished(Finish::Served(CacheStatus::Written)) } else { s },
        Step::Finished(_) => s,
    }
}

/// The first stage of every analysis.
pub fn first_step() -> (s: Step)
    ensures
        s == Step::CheckCancel(Checkpoint::Entry),
{
    Step::CheckCancel(Checkpoint::Entry)
}

/// The stage after `s` reports `e`; `cache_on` says whether a cache is in use.
pub fn next_step(s: Step, e: Event, cache_on: bool) -> (t: Step)
    ensures
        t == step_after(s, e, cache_on),
{
    match s {
        Step::CheckCancel(c) => match e {
            Event::Cancelled => Step::Finished(Finish::Cancelled),
            Event::NotCancelled => match c {
                Checkpoint::Entry => Step::LookUp,
                Checkpoint::AfterDecode => Step::Build,
                Checkpoint::BeforeStore => if cache_on {
                    Step::WriteCache
                } else {
                    Step::Finished(Finish::Served(CacheStatus::Bypassed))
                },
            },
            _ => s,
        },
        Step::LookUp => match e {
            Event::Hit => Step::Finished(Finish::Served(CacheStatus::Hit)),
            Event::Miss => Step::Decode,
            _ => s,
        },
        Step::Decode => if e == Event::Done { Step::CheckCancel(Checkpoint::AfterDecode) } else { s },
        Step::Build => if e == Event::Done { Step::CheckCancel(Checkpoint::BeforeStore) } else { s },
        Step::WriteCache => if e == Event::Done { Step::Finished(Finish::Served(CacheStatus::Written)) } else { s },
        Step::Finished(_) => s,
    }
}

/// The stages an analysis passes through from `s` as `events` come in: `s`, then the stage
/// after each event.
pub open spec fn trace(s: Step, events: Seq<Event>, cache_on: bool) -> Seq<Step>
    decreases events.len(),
{
    if events.len() == 0 {
        seq![s]
    } else {
        seq![s] + trace(step_after(s, events[0], cache_on), events.drop_first(), cache_on)
    }
}

/// How far along an analysis a stage lies; no step goes back.
pub open spec fn progress_rank(s: Step) -> nat {
    match s {
        Step::CheckCancel(Checkpoint::Entry) => 0,
        Step::LookUp => 2,
        Step::Finished(Finish::Served(CacheStatus::Hit)) => 3,
        Step::Decode => 4,
        Step::CheckCancel(Checkpoint::AfterDecode) => 5,
        Step::Build => 6,
        Step::CheckCancel(Checkpoint::BeforeStore) => 7,
        Step::WriteCache => 8,
        Step::Finished(Finish::Served(_)) => 9,
        Step::Finished(Finish::Cancelled) => 10,
    }
}

proof fn lemma_trace(s: Step, events: Seq<Event>, cache_on: bool, k: int)
    requires
        0 <= k < events.len(),
    ensures
        trace(s, events, cache_on).len() == events.len() + 1,
        trace(s, events, cache_on)[0] == s,
        trace(s, events, cache_on)[k + 1] == step_after(trace(s, events, cache_on)[k], events[k], cache_on),
    decreases events.len(),
{
    let rest = events.drop_first();
    let next = step_after(s, events[0], cache_on);
    lemma_trace_len(next, rest, cache_on);
    if k > 0 {
        lemma_trace(next, rest, cache_on, k - 1);
        assert(rest[k - 1] == events[k]);
    } else if rest.len() > 0 {
        lemma_trace(next, rest, cache_on, 0);
    }
}

proof fn lemma_trace_len(s: Step, events: Seq<Event>, cache_on: bool)
    ensures
        trace(s, events, cache_on).len() == events.len() + 1,
        trace(s, events, cache_on)[0] == s,
    decreases events.len(),
{
    if events.len() > 0 {
        lemma_trace_len(step_after(s, events[0], cache_on), events.drop_first(), cache_on);
    }
}

/// Along a trace, stages only move forward, and a finished analysis stays finished.
proof fn lemma_forward(s: Step, events: Seq<Event>, cache_on: bool, i: int, j: int)
    requires
        0 <= i <= j <= events.len(),
    ensures
        progress_rank(trace(s, events, cache_on)[i]) <= progress_rank(trace(s, events, cache_on)[j]),
        trace(s, events, cache_on)[i] is Finished ==> trace(s, events, cache_on)[j] == trace(s, events, cache_on)[i],
    decreases j - i,
{
    lemma_trace_len(s, events, cache_on);
    if i < j {
        lemma_forward(s, events, cache_on, i, j - 1);
        lemma_trace(s, events, cache_on, j - 1);
    }
}

/// A cancelled analysis leaves no cache entry: the write stage is entered only right after the
/// check before storing found the cancel flag clear (with a cache in use), and once any check finds it set the analysis is
/// over, cancelled, whatever comes after.
pub proof fn a_cancelled_analysis_leaves_no_cache_entry(events: Seq<Event>, cache_on: bool, k: int, j: int)
    requires
        0 <= k < j <= events.len(),
    ensures
        ({
            let t = trace(Step::CheckCancel(Checkpoint::Entry), events, cache_on);
            &&& (t[k + 1] == Step::WriteCache && t[k] != Step::WriteCache) ==> t[k] == Step::CheckCancel(Checkpoint::BeforeStore)
                && events[k] == Event::NotCancelled && cache_on
            &&& (t[k] is CheckCancel && events[k] == Event::Cancelled) ==> t[j] == Step::Finished(Finish::Cancelled)
        }),
{
    let s = Step::CheckCancel(Checkpoint::Entry);
    lemma_trace(s, events, cache_on, k);
    lemma_forward(s, events, cache_on, k + 1, j);
}

/// A cache hit is served without decoding: a trace that serves a hit never decodes.
pub proof fn a_cache_hit_is_served_without_decoding(events: Seq<Event>, cache_on: bool, i: int, j: int)
    requires
        0 <= i <= events.len(),
        0 <= j <= events.len(),
        trace(Step::CheckCancel(Checkpoint::Entry), events, cache_on)[j] == Step::Finished(Finish::Served(CacheStatus::Hit)),
    ensures
        trace(Step::CheckCancel(Checkpoint::Entry), events, cache_on)[i] != Step::Decode,
{
    let s = Step::CheckCancel(Checkpoint::Entry);
    if i <= j {
        lemma_forward(s, events, cache_on, i, j);
    } else {
        lemma_forward(s, events, cache_on, j, i);
    }
}

} // verus!
