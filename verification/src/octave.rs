//! Which tempo octave a grid takes: of the half-tempo, model and double-tempo lattices, the one
//! in the DJ app's range; among several, the one the BPM tag names, then the one the genre
//! names, then the fastest that keeps the kick density.
use vstd::prelude::*;

verus! {

/// What the choice reads of one candidate lattice.
#[derive(Debug, Clone, Copy, PartialEq, Eq, Structural)]
pub struct Lattice {
    /// Its BPM lies in the user's DJ-app range.
    pub in_range: bool,
    /// Its BPM is within 2 % of the file's BPM tag.
    pub tag_match: bool,
    /// Its BPM lies in the usual range of the file's genre.
    pub genre_match: bool,
    /// Its slots hold at least 75 % of the onset density of the next slower lattice in range.
    pub keeps_density: bool,
}

/// The three candidate lattices, slow to fast, and whether the slowest in range has any onset
/// on its slots.
#[derive(Debug, Clone, Copy, PartialEq, Eq, Structural)]
pub struct OctaveFacts {
    /// Half the model's tempo.
    pub slow: Lattice,
    /// The model's tempo.
    pub model: Lattice,
    /// Twice the model's tempo.
    pub fast: Lattice,
    /// The slowest lattice in range has a non-zero onset density.
    pub has_density: bool,
}

/// Which rule chose the octave.
#[derive(Debug, Clone, Copy, PartialEq, Eq, Structural)]
pub enum OctaveRule {
    /// The only candidate in range, or the nearest to the range when none is.
    Range,
    /// The candidate the BPM tag names.
    Tag,
    /// The only candidate in the genre's usual range.
    Genre,
    /// No onsets to weigh: the model's own octave.
    ModelOctave,
    /// The fastest lattice that keeps the kick density.
    Density,
}

/// The choice: the candidate (0 slow, 1 model, 2 fast), or none when no candidate lies in
/// range and the nearest to the range is taken; the rule; and how many density comparisons,
/// each between a lattice in range and the next faster one, the choice looked at.
#[derive(Debug, Clone, Copy, PartialEq, Eq, Structural)]
pub struct OctaveChoice {
    /// The chosen candidate.
    pub candidate: Option<usize>,
    /// The rule that chose it.
    pub rule: OctaveRule,
    /// Density comparisons looked at.
    pub compared: usize,
}

/// Candidate `i` of `f`: 0 slow, 1 model, 2 fast.
pub open spec fn lattice(f: OctaveFacts, i: int) -> Lattice {
    if i == 0 {
        f.slow
    } else if i == 1 {
        f.model
    } else {
        f.fast
    }
}

/// Whether a lattice lies in range and, when asked, matches the tag or the genre.
pub open spec fn qualifies(l: Lattice, tag: bool, genre: bool) -> bool {
    l.in_range && (!tag || l.tag_match) && (!genre || l.genre_match)
}

/// The first candidate at or after `from` that [`qualifies`].
pub open spec fn first_from(f: OctaveFacts, from: int, tag: bool, genre: bool) -> Option<int>
    decreases 3 - from,
{
    if from >= 3 || from < 0 {
        None
    } else if qualifies(lattice(f, from), tag, genre) {
        Some(from)
    } else {
        first_from(f, from + 1, tag, genre)
    }
}

/// Candidates in range.
pub open spec fn in_range_count(f: OctaveFacts) -> nat {
    (if f.slow.in_range { 1nat } else { 0nat }) + (if f.model.in_range { 1nat } else { 0nat })
        + (if f.fast.in_range { 1nat } else { 0nat })
}

/// Candidates in range that the genre names.
pub open spec fn genre_count(f: OctaveFacts) -> nat {
    (if qualifies(f.slow, false, true) { 1nat } else { 0nat })
        + (if qualifies(f.model, false, true) { 1nat } else { 0nat })
        + (if qualifies(f.fast, false, true) { 1nat } else { 0nat })
}

/// The density climb, standing on candidate `at` and looking at candidate `j` onwards after
/// `compared` comparisons: each faster lattice in range that keeps the density is climbed to;
/// the first that does not ends the climb (that comparison counts too), as does running out.
pub open spec fn climb(f: OctaveFacts, at: int, j: int, compared: nat) -> (int, nat)
    decreases 3 - j,
{
    if j >= 3 || j < 0 {
        (at, compared)
    } else if !lattice(f, j).in_range {
        climb(f, at, j + 1, compared)
    } else if lattice(f, j).keeps_density {
        climb(f, j, j + 1, compared + 1)
    } else {
        (at, compared + 1)
    }
}

/// The octave choice: with no candidate in range the nearest; with one, that one; with
/// several, the first the BPM tag names, else the only one the genre names, else (with no
/// onsets on the slowest) the model's own, else the density climb from the slowest.
pub open spec fn octave_choice(f: OctaveFacts) -> OctaveChoice {
    let first = first_from(f, 0, false, false)->0;
    if in_range_count(f) == 0 {
        OctaveChoice { candidate: None, rule: OctaveRule::Range, compared: 0 }
    } else if in_range_count(f) == 1 {
        OctaveChoice { candidate: Some(first as usize), rule: OctaveRule::Range, compared: 0 }
    } else if first_from(f, 0, true, false) is Some {
        OctaveChoice { candidate: Some(first_from(f, 0, true, false)->0 as usize), rule: OctaveRule::Tag, compared: 0 }
    } else if genre_count(f) == 1 {
        OctaveChoice { candidate: Some(first_from(f, 0, false, true)->0 as usize), rule: OctaveRule::Genre, compared: 0 }
    } else if !f.has_density {
        OctaveChoice {
            candidate: Some(if f.model.in_range { 1usize } else { first as usize }),
            rule: OctaveRule::ModelOctave,
            compared: 0,
        }
    } else {
        let (at, compared) = climb(f, first, first + 1, 0);
        OctaveChoice { candidate: Some(at as usize), rule: OctaveRule::Density, compared: compared as usize }
    }
}

/// A search from `from` finds the first qualifying candidate from there, or nothing when none
/// qualifies.
proof fn lemma_first_from(f: OctaveFacts, from: int, tag: bool, genre: bool)
    requires
        0 <= from <= 3,
    ensures
        match first_from(f, from, tag, genre) {
            Some(j) => from <= j < 3 && qualifies(lattice(f, j), tag, genre)
                && forall|k: int| from <= k < j ==> !qualifies(#[trigger] lattice(f, k), tag, genre),
            None => forall|k: int| from <= k < 3 ==> !qualifies(#[trigger] lattice(f, k), tag, genre),
        },
    decreases 3 - from,
{
    if from < 3 {
        lemma_first_from(f, from + 1, tag, genre);
    }
}

/// Lattices in range from `j` on.
pub open spec fn in_range_from(f: OctaveFacts, j: int) -> nat
    decreases 3 - j,
{
    if j >= 3 || j < 0 {
        0
    } else {
        in_range_from(f, j + 1) + if lattice(f, j).in_range { 1nat } else { 0nat }
    }
}

/// The climb ends on a candidate in range no earlier than where it stands, passing only
/// lattices in range that keep the density, after at most one comparison per lattice in range
/// ahead.
proof fn lemma_climb(f: OctaveFacts, at: int, j: int, compared: nat)
    requires
        0 <= at < j <= 3,
        lattice(f, at).in_range,
        forall|m: int| at < m < j ==> !lattice(f, m).in_range,
    ensures
        at <= climb(f, at, j, compared).0 < 3,
        lattice(f, climb(f, at, j, compared).0).in_range,
        compared <= climb(f, at, j, compared).1 <= compared + in_range_from(f, j),
        forall|k: int| j <= k <= climb(f, at, j, compared).0 && lattice(f, k).in_range
            ==> lattice(f, k).keeps_density,
        forall|k: int| climb(f, at, j, compared).0 < k < 3 && lattice(f, k).in_range
            && (forall|m: int| climb(f, at, j, compared).0 < m < k ==> !lattice(f, m).in_range)
            ==> !lattice(f, k).keeps_density,
    decreases 3 - j,
{
    if j < 3 {
        if !lattice(f, j).in_range {
            lemma_climb(f, at, j + 1, compared);
        } else if lattice(f, j).keeps_density {
            lemma_climb(f, j, j + 1, compared + 1);
        } else {
            assert forall|k: int| at < k < 3 && lattice(f, k).in_range
                && (forall|m: int| at < m < k ==> !lattice(f, m).in_range)
                implies !lattice(f, k).keeps_density by {
                if k > j {
                    assert(!lattice(f, j).in_range);
                }
            }
        }
    }
}

/// The three candidates by index.
proof fn lemma_lattices(f: OctaveFacts)
    ensures
        lattice(f, 0) == f.slow,
        lattice(f, 1) == f.model,
        lattice(f, 2) == f.fast,
{
}

/// Candidate `i` (0, 1 or 2) of `f`.
fn lattice_at(f: &OctaveFacts, i: usize) -> (l: Lattice)
    requires
        i < 3,
    ensures
        l == lattice(*f, i as int),
{
    if i == 0 {
        f.slow
    } else if i == 1 {
        f.model
    } else {
        f.fast
    }
}

/// The first candidate from `from` that [`qualifies`], or 3 when none does.
fn first_qualifying(f: &OctaveFacts, from: usize, tag: bool, genre: bool) -> (i: usize)
    requires
        from <= 3,
    ensures
        i <= 3,
        i < 3 <==> first_from(*f, from as int, tag, genre) is Some,
        i < 3 ==> first_from(*f, from as int, tag, genre) == Some(i as int),
    decreases 3 - from,
{
    if from >= 3 {
        return 3;
    }
    let l = lattice_at(f, from);
    if l.in_range && (!tag || l.tag_match) && (!genre || l.genre_match) {
        from
    } else {
        first_qualifying(f, from + 1, tag, genre)
    }
}

/// Chooses the tempo octave from what the candidate lattices show.
pub fn choose_octave(f: OctaveFacts) -> (c: OctaveChoice)
    ensures
        c == octave_choice(f),
{
    let count: usize = (if f.slow.in_range { 1 } else { 0 }) + (if f.model.in_range { 1 } else { 0 })
        + (if f.fast.in_range { 1 } else { 0 });
    let first = first_qualifying(&f, 0, false, false);
    proof {
        lemma_lattices(f);
        lemma_first_from(f, 0, false, false);
    }
    if count == 0 {
        return OctaveChoice { candidate: None, rule: OctaveRule::Range, compared: 0 };
    }
    if count == 1 {
        return OctaveChoice { candidate: Some(first), rule: OctaveRule::Range, compared: 0 };
    }
    let tagged = first_qualifying(&f, 0, true, false);
    if tagged < 3 {
        return OctaveChoice { candidate: Some(tagged), rule: OctaveRule::Tag, compared: 0 };
    }
    let genres: usize = (if f.slow.in_range && f.slow.genre_match { 1 } else { 0 })
        + (if f.model.in_range && f.model.genre_match { 1 } else { 0 })
        + (if f.fast.in_range && f.fast.genre_match { 1 } else { 0 });
    if genres == 1 {
        let genred = first_qualifying(&f, 0, false, true);
        proof {
            lemma_first_from(f, 0, false, true);
        }
        return OctaveChoice { candidate: Some(genred), rule: OctaveRule::Genre, compared: 0 };
    }
    if !f.has_density {
        let pick = if f.model.in_range { 1 } else { first };
        return OctaveChoice { candidate: Some(pick), rule: OctaveRule::ModelOctave, compared: 0 };
    }
    let mut at: usize = first;
    let mut compared: usize = 0;
    let mut j: usize = first + 1;
    while j < 3
        invariant
            first < 3,
            at < j <= 3,
            compared <= j,
            climb(f, at as int, j as int, compared as nat) == climb(f, first as int, first + 1, 0),
            octave_choice(f) == (OctaveChoice {
                candidate: Some(climb(f, first as int, first + 1, 0).0 as usize),
                rule: OctaveRule::Density,
                compared: climb(f, first as int, first + 1, 0).1 as usize,
            }),
        decreases 3 - j,
    {
        let l = lattice_at(&f, j);
        if l.in_range {
            if l.keeps_density {
                at = j;
                compared = compared + 1;
            } else {
                assert(climb(f, at as int, j as int, compared as nat) == (at as int, (compared + 1) as nat));
                return OctaveChoice { candidate: Some(at), rule: OctaveRule::Density, compared: compared + 1 };
            }
        }
        j = j + 1;
    }
    OctaveChoice { candidate: Some(at), rule: OctaveRule::Density, compared }
}

/// The octave lies in the DJ app's range whenever some candidate does, and a choice by kick
/// density moves to a faster lattice only through lattices in range that each keep the
/// density, with fewer comparisons than there are lattices in range.
pub proof fn the_octave_stays_in_range(f: OctaveFacts)
    ensures
        (octave_choice(f).candidate is None) <==> in_range_count(f) == 0,
        octave_choice(f).candidate matches Some(i) ==> i < 3 && lattice(f, i as int).in_range,
        octave_choice(f).rule == OctaveRule::Density ==> {
            let first = first_from(f, 0, false, false)->0;
            let i = octave_choice(f).candidate->0 as int;
            &&& octave_choice(f).compared < in_range_count(f)
            &&& forall|k: int| first < k <= i && lattice(f, k).in_range ==> lattice(f, k).keeps_density
        },
{
    lemma_lattices(f);
    lemma_first_from(f, 0, false, false);
    lemma_first_from(f, 0, true, false);
    lemma_first_from(f, 0, false, true);
    if in_range_count(f) >= 2 {
        let first = first_from(f, 0, false, false)->0;
        lemma_climb(f, first, first + 1, 0);
        assert(in_range_from(f, first + 1) < in_range_count(f)) by {
            reveal_with_fuel(in_range_from, 4);
        }
    }
}

/// Whether two different candidates lie in range.
pub open spec fn several_in_range(f: OctaveFacts) -> bool {
    exists|i: int, j: int| 0 <= i < j < 3 && lattice(f, i).in_range && lattice(f, j).in_range
}

proof fn lemma_count_two(f: OctaveFacts)
    ensures
        several_in_range(f) <==> in_range_count(f) >= 2,
        (exists|i: int| 0 <= i < 3 && lattice(f, i).in_range) <==> in_range_count(f) >= 1,
{
    lemma_lattices(f);
    if several_in_range(f) {
        let (i, j) = choose|i: int, j: int| 0 <= i < j < 3 && lattice(f, i).in_range && lattice(f, j).in_range;
        assert(in_range_count(f) >= 2);
    }
    if in_range_count(f) >= 2 {
        if f.slow.in_range && f.model.in_range {
            assert(lattice(f, 0).in_range && lattice(f, 1).in_range);
        } else if f.slow.in_range {
            assert(lattice(f, 0).in_range && lattice(f, 2).in_range);
        } else {
            assert(lattice(f, 1).in_range && lattice(f, 2).in_range);
        }
    }
    if in_range_count(f) >= 1 {
        if f.slow.in_range {
            assert(lattice(f, 0).in_range);
        } else if f.model.in_range {
            assert(lattice(f, 1).in_range);
        } else {
            assert(lattice(f, 2).in_range);
        }
    }
}

/// The order of the rules: with a single lattice in range, that lattice; with several, the
/// first in range that the BPM tag names, whichever octave it is; failing that, the only one in
/// range that the genre names; failing that, without onsets to weigh, the model's own octave
/// when it is in range and the slowest in range otherwise.
#[verifier::rlimit(60)]
#[verifier::spinoff_prover]
pub proof fn the_range_then_the_tag_then_the_genre_decide(f: OctaveFacts)
    ensures
        forall|i: int| 0 <= i < 3 && lattice(f, i).in_range
            && (forall|j: int| 0 <= j < 3 && j != i ==> !lattice(f, j).in_range)
            ==> #[trigger] octave_choice(f) == (OctaveChoice { candidate: Some(i as usize), rule: OctaveRule::Range, compared: 0 }),
        forall|i: int| several_in_range(f) && 0 <= i < 3 && lattice(f, i).in_range && lattice(f, i).tag_match
            && (forall|j: int| 0 <= j < i ==> !(lattice(f, j).in_range && lattice(f, j).tag_match))
            ==> #[trigger] octave_choice(f) == (OctaveChoice { candidate: Some(i as usize), rule: OctaveRule::Tag, compared: 0 }),
        forall|i: int| several_in_range(f)
            && (forall|j: int| 0 <= j < 3 ==> !(lattice(f, j).in_range && lattice(f, j).tag_match))
            && 0 <= i < 3 && lattice(f, i).in_range && lattice(f, i).genre_match
            && (forall|j: int| 0 <= j < 3 && j != i ==> !(lattice(f, j).in_range && lattice(f, j).genre_match))
            ==> #[trigger] octave_choice(f) == (OctaveChoice { candidate: Some(i as usize), rule: OctaveRule::Genre, compared: 0 }),
        several_in_range(f)
            && (forall|j: int| 0 <= j < 3 ==> !(lattice(f, j).in_range && lattice(f, j).tag_match))
            && !(exists|i: int| 0 <= i < 3 && lattice(f, i).in_range && lattice(f, i).genre_match
                && (forall|j: int| 0 <= j < 3 && j != i ==> !(lattice(f, j).in_range && lattice(f, j).genre_match)))
            && !f.has_density
            ==> octave_choice(f).rule == OctaveRule::ModelOctave && octave_choice(f).compared == 0
                && (f.model.in_range ==> octave_choice(f).candidate == Some(1usize))
                && (!f.model.in_range ==> octave_choice(f).candidate == Some(if f.slow.in_range { 0usize } else { 2usize })),
{
    lemma_lattices(f);
    lemma_count_two(f);
    lemma_first_from(f, 0, false, false);
    lemma_first_from(f, 0, true, false);
    lemma_first_from(f, 0, false, true);
    assert forall|i: int| 0 <= i < 3 && lattice(f, i).in_range
        && (forall|j: int| 0 <= j < 3 && j != i ==> !lattice(f, j).in_range)
        implies #[trigger] octave_choice(f) == (OctaveChoice { candidate: Some(i as usize), rule: OctaveRule::Range, compared: 0 }) by {
        assert(!several_in_range(f)) by {
            if several_in_range(f) {
                let (a, b) = choose|a: int, b: int| 0 <= a < b < 3 && lattice(f, a).in_range && lattice(f, b).in_range;
                assert(a == i || b == i);
            }
        }
    }
    assert forall|i: int| several_in_range(f)
        && (forall|j: int| 0 <= j < 3 ==> !(lattice(f, j).in_range && lattice(f, j).tag_match))
        && 0 <= i < 3 && lattice(f, i).in_range && lattice(f, i).genre_match
        && (forall|j: int| 0 <= j < 3 && j != i ==> !(lattice(f, j).in_range && lattice(f, j).genre_match))
        implies #[trigger] octave_choice(f) == (OctaveChoice { candidate: Some(i as usize), rule: OctaveRule::Genre, compared: 0 }) by {
        assert(first_from(f, 0, true, false) is None) by {
            if first_from(f, 0, true, false) is Some {
                let k = first_from(f, 0, true, false)->0;
                assert(lattice(f, k).in_range && lattice(f, k).tag_match);
            }
        }
        assert(genre_count(f) == 1) by {
            assert(qualifies(lattice(f, i), false, true));
            if i != 0 { assert(!(lattice(f, 0).in_range && lattice(f, 0).genre_match)); }
            if i != 1 { assert(!(lattice(f, 1).in_range && lattice(f, 1).genre_match)); }
            if i != 2 { assert(!(lattice(f, 2).in_range && lattice(f, 2).genre_match)); }
        }
    }
    if several_in_range(f)
        && (forall|j: int| 0 <= j < 3 ==> !(lattice(f, j).in_range && lattice(f, j).tag_match))
        && !(exists|i: int| 0 <= i < 3 && lattice(f, i).in_range && lattice(f, i).genre_match
            && (forall|j: int| 0 <= j < 3 && j != i ==> !(lattice(f, j).in_range && lattice(f, j).genre_match)))
        && !f.has_density {
        assert(first_from(f, 0, true, false) is None) by {
            if first_from(f, 0, true, false) is Some {
                let k = first_from(f, 0, true, false)->0;
                assert(lattice(f, k).in_range && lattice(f, k).tag_match);
            }
        }
        assert(genre_count(f) != 1) by {
            if genre_count(f) == 1 {
                if qualifies(f.slow, false, true) {
                    assert(lattice(f, 0).in_range && lattice(f, 0).genre_match);
                } else if qualifies(f.model, false, true) {
                    assert(lattice(f, 1).in_range && lattice(f, 1).genre_match);
                } else {
                    assert(lattice(f, 2).in_range && lattice(f, 2).genre_match);
                }
            }
        }
    }
}

/// The kick-density climb: with several lattices in range, none named by the tag, not exactly
/// one named by the genre, and onsets to weigh, the choice is a lattice in range reached from
/// the slowest in range through lattices that each keep the density, and the next faster
/// lattice in range, if any, does not keep it.
#[verifier::spinoff_prover]
pub proof fn the_density_climb_stops_at_the_first_drop(f: OctaveFacts)
    requires
        several_in_range(f),
        forall|j: int| 0 <= j < 3 ==> !(lattice(f, j).in_range && lattice(f, j).tag_match),
        !(exists|i: int| 0 <= i < 3 && lattice(f, i).in_range && lattice(f, i).genre_match
            && (forall|j: int| 0 <= j < 3 && j != i ==> !(lattice(f, j).in_range && lattice(f, j).genre_match))),
        f.has_density,
    ensures
        octave_choice(f).rule == OctaveRule::Density,
        octave_choice(f).candidate matches Some(c) && {
            &&& c < 3
            &&& lattice(f, c as int).in_range
            &&& forall|k: int| 0 <= k < c && lattice(f, k).in_range
                ==> (forall|m: int| 0 <= m < k ==> !lattice(f, m).in_range) || lattice(f, k).keeps_density
            &&& lattice(f, c as int).keeps_density || forall|m: int| 0 <= m < c ==> !lattice(f, m).in_range
            &&& forall|k: int| c < k < 3 && lattice(f, k).in_range
                && (forall|m: int| c < m < k ==> !lattice(f, m).in_range)
                ==> !lattice(f, k).keeps_density
        },
{
    lemma_lattices(f);
    lemma_count_two(f);
    lemma_first_from(f, 0, false, false);
    lemma_first_from(f, 0, true, false);
    lemma_first_from(f, 0, false, true);
    assert(first_from(f, 0, true, false) is None) by {
        if first_from(f, 0, true, false) is Some {
            let k = first_from(f, 0, true, false)->0;
            assert(lattice(f, k).in_range && lattice(f, k).tag_match);
        }
    }
    assert(genre_count(f) != 1) by {
        if genre_count(f) == 1 {
            if qualifies(f.slow, false, true) {
                assert(lattice(f, 0).in_range && lattice(f, 0).genre_match);
            } else if qualifies(f.model, false, true) {
                assert(lattice(f, 1).in_range && lattice(f, 1).genre_match);
            } else {
                assert(lattice(f, 2).in_range && lattice(f, 2).genre_match);
            }
        }
    }
    let first = first_from(f, 0, false, false)->0;
    lemma_climb(f, first, first + 1, 0);
}

} // verus!
