//! Meters: a bar's pulse count, the note value of a pulse, and how the pulses group into beats.
use vstd::prelude::*;

use crate::text::{contains, decimal, has_part, lowercase, lowercase_text, push_decimal, string_from};

verus! {

/// The note value one pulse of a [`Meter`] stands for.
#[derive(Debug, Clone, Copy, PartialEq, Eq, Hash, Structural)]
pub enum BeatUnit {
    /// A quarter note: 4/4, 3/4.
    Quarter,
    /// An eighth note: 6/8, 9/8, 5/8, 7/8, 10/8.
    Eighth,
    /// A dotted quarter: compound meters counted in their main beats (6/8 in 2).
    DottedQuarter,
}

/// A bar's pulse count and how the pulses group into beats.
///
/// `grouping` lists the pulses per beat in order and sums to `beats_per_bar`: 4/4 is
/// `[1, 1, 1, 1]` at the quarter, 6/8 is `[3, 3]` at the eighth, 9/8 aksak is `[2, 2, 2, 3]`.
#[derive(Debug, Clone, PartialEq, Eq, Hash)]
pub struct Meter {
    /// Pulses per bar at `unit`.
    pub beats_per_bar: u8,
    /// The note value of one pulse.
    pub unit: BeatUnit,
    /// Pulses per beat, in order; sums to `beats_per_bar`.
    pub grouping: Vec<u8>,
}

/// Total pulses of a grouping.
pub open spec fn pulses(g: Seq<u8>) -> nat
    decreases g.len(),
{
    if g.len() == 0 {
        0
    } else {
        pulses(g.drop_last()) + g.last() as nat
    }
}

/// Every group has at least one pulse.
pub open spec fn all_positive(g: Seq<u8>) -> bool {
    forall|i: int| 0 <= i < g.len() ==> g[i] > 0
}

/// A prefix never has more pulses than the whole grouping.
pub proof fn lemma_pulses_prefix(g: Seq<u8>, i: int)
    requires
        0 <= i <= g.len(),
    ensures
        pulses(g.take(i)) <= pulses(g),
    decreases g.len(),
{
    if i < g.len() {
        assert(g.drop_last().take(i) =~= g.take(i));
        lemma_pulses_prefix(g.drop_last(), i);
    } else {
        assert(g.take(i) =~= g);
    }
}

/// The groups joined by `+`: `2+2+2+3`.
pub open spec fn join_plus(g: Seq<u8>) -> Seq<char>
    decreases g.len(),
{
    if g.len() == 0 {
        seq![]
    } else if g.len() == 1 {
        decimal(g[0] as nat)
    } else {
        join_plus(g.drop_last()) + seq!['+'] + decimal(g.last() as nat)
    }
}

/// Some group has more than one pulse, so the grouping is worth showing.
pub open spec fn has_compound_group(g: Seq<u8>) -> bool {
    exists|i: int| 0 <= i < g.len() && g[i] > 1
}

/// The badge's suffix: ` · 2+2+2+3` when the grouping has several groups and some group holds
/// more than one pulse, nothing otherwise.
pub open spec fn grouping_suffix(g: Seq<u8>) -> Seq<char> {
    if g.len() > 1 && has_compound_group(g) {
        seq![' ', '\u{b7}', ' '] + join_plus(g)
    } else {
        seq![]
    }
}

/// The badge text of a meter: `4/4`, `6/8 · 3+3`, `9/8 · 2+2+2+3`.
pub open spec fn meter_label(unit: BeatUnit, beats_per_bar: u8, g: Seq<u8>) -> Seq<char> {
    let head = match unit {
        BeatUnit::Quarter => decimal(beats_per_bar as nat) + seq!['/', '4'],
        BeatUnit::Eighth => decimal(beats_per_bar as nat) + seq!['/', '8'],
        BeatUnit::DottedQuarter => decimal(3 * beats_per_bar as nat) + seq!['/', '8'],
    };
    head + grouping_suffix(g)
}

/// The groupings the estimator scores, most common first: 4/4, 3/4, 6/8, 9/8 as 2+2+2+3,
/// 9/8 as 3+2+2+2, 5/8, 7/8, 10/8.
pub open spec fn template_grouping(i: int) -> Seq<u8> {
    if i == 0 {
        seq![1u8, 1, 1, 1]
    } else if i == 1 {
        seq![1u8, 1, 1]
    } else if i == 2 {
        seq![3u8, 3]
    } else if i == 3 {
        seq![2u8, 2, 2, 3]
    } else if i == 4 {
        seq![3u8, 2, 2, 2]
    } else if i == 5 {
        seq![2u8, 3]
    } else if i == 6 {
        seq![2u8, 2, 3]
    } else {
        seq![3u8, 2, 2, 3]
    }
}

/// The unit of the template at `i`: the first two count quarters, the rest eighths.
pub open spec fn template_unit(i: int) -> BeatUnit {
    if i < 2 {
        BeatUnit::Quarter
    } else {
        BeatUnit::Eighth
    }
}

/// Writes `join_plus(g)` after `out`.
fn push_groups(out: &mut Vec<char>, g: &Vec<u8>)
    ensures
        final(out)@ == old(out)@ + join_plus(g@),
{
    let ghost start = out@;
    let n = g.len();
    let mut i: usize = 0;
    while i < n
        invariant
            n == g@.len(),
            0 <= i <= n,
            out@ == start + join_plus(g@.take(i as int)),
        decreases n - i,
    {
        let ghost before = out@;
        if i > 0 {
            out.push('+');
        }
        push_decimal(out, g[i] as u32);
        proof {
            let t = g@.take(i + 1);
            assert(t.drop_last() =~= g@.take(i as int));
            if i == 0 {
                assert(g@.take(0) =~= Seq::<u8>::empty());
                assert(join_plus(t) == decimal(g@[0] as nat));
            }
            assert(out@ =~= start + join_plus(t));
        }
        i = i + 1;
    }
    assert(g@.take(n as int) =~= g@);
}

impl Meter {
    /// The grouping is non-empty, every group has a pulse and `beats_per_bar` is the sum.
    pub open spec fn wf(&self) -> bool {
        &&& self.grouping@.len() > 0
        &&& all_positive(self.grouping@)
        &&& self.beats_per_bar as nat == pulses(self.grouping@)
    }

    /// A meter from its grouping; `beats_per_bar` is the sum. The grouping must be non-empty,
    /// hold no zero and sum to at most 255.
    pub fn new(unit: BeatUnit, grouping: &[u8]) -> (m: Self)
        requires
            grouping@.len() > 0,
            all_positive(grouping@),
            pulses(grouping@) <= 255,
        ensures
            m.wf(),
            m.unit == unit,
            m.grouping@ == grouping@,
            m.beats_per_bar as nat == pulses(grouping@),
    {
        let n = grouping.len();
        let mut sum: u32 = 0;
        let mut copy: Vec<u8> = Vec::new();
        let mut i: usize = 0;
        while i < n
            invariant
                n == grouping@.len(),
                0 <= i <= n,
                pulses(grouping@) <= 255,
                sum as nat == pulses(grouping@.take(i as int)),
                copy@ == grouping@.take(i as int),
            decreases n - i,
        {
            proof {
                let t = grouping@.take(i + 1);
                assert(t.drop_last() =~= grouping@.take(i as int));
                lemma_pulses_prefix(grouping@, i + 1);
            }
            sum = sum + grouping[i] as u32;
            copy.push(grouping[i]);
            i = i + 1;
        }
        assert(grouping@.take(n as int) =~= grouping@);
        Meter { beats_per_bar: sum as u8, unit, grouping: copy }
    }

    /// 4/4.
    pub fn four_four() -> (m: Self)
        ensures
            m.wf(),
            m.unit == template_unit(0),
            m.grouping@ == template_grouping(0),
    {
        proof { reveal_with_fuel(pulses, 5); }
        Self::new(BeatUnit::Quarter, &[1, 1, 1, 1])
    }

    /// 3/4.
    pub fn three_four() -> (m: Self)
        ensures
            m.wf(),
            m.unit == template_unit(1),
            m.grouping@ == template_grouping(1),
    {
        proof { reveal_with_fuel(pulses, 4); }
        Self::new(BeatUnit::Quarter, &[1, 1, 1])
    }

    /// 6/8 as two groups of three.
    pub fn six_eight() -> (m: Self)
        ensures
            m.wf(),
            m.unit == template_unit(2),
            m.grouping@ == template_grouping(2),
    {
        proof { reveal_with_fuel(pulses, 3); }
        Self::new(BeatUnit::Eighth, &[3, 3])
    }

    /// 9/8 aksak, 2+2+2+3 (the Turkish and Balkan "karşılama" grouping).
    pub fn nine_eight_aksak() -> (m: Self)
        ensures
            m.wf(),
            m.unit == template_unit(3),
            m.grouping@ == template_grouping(3),
    {
        proof { reveal_with_fuel(pulses, 5); }
        Self::new(BeatUnit::Eighth, &[2, 2, 2, 3])
    }

    /// 9/8 with the long group first, 3+2+2+2.
    pub fn nine_eight_long_first() -> (m: Self)
        ensures
            m.wf(),
            m.unit == template_unit(4),
            m.grouping@ == template_grouping(4),
    {
        proof { reveal_with_fuel(pulses, 5); }
        Self::new(BeatUnit::Eighth, &[3, 2, 2, 2])
    }

    /// 5/8 as 2+3.
    pub fn five_eight() -> (m: Self)
        ensures
            m.wf(),
            m.unit == template_unit(5),
            m.grouping@ == template_grouping(5),
    {
        proof { reveal_with_fuel(pulses, 3); }
        Self::new(BeatUnit::Eighth, &[2, 3])
    }

    /// 7/8 as 2+2+3.
    pub fn seven_eight() -> (m: Self)
        ensures
            m.wf(),
            m.unit == template_unit(6),
            m.grouping@ == template_grouping(6),
    {
        proof { reveal_with_fuel(pulses, 4); }
        Self::new(BeatUnit::Eighth, &[2, 2, 3])
    }

    /// 10/8 as 3+2+2+3.
    pub fn ten_eight() -> (m: Self)
        ensures
            m.wf(),
            m.unit == template_unit(7),
            m.grouping@ == template_grouping(7),
    {
        proof { reveal_with_fuel(pulses, 5); }
        Self::new(BeatUnit::Eighth, &[3, 2, 2, 3])
    }

    /// Every meter the estimator scores, most common first.
    pub fn templates() -> (v: Vec<Self>)
        ensures
            v@.len() == 8,
            forall|i: int|
                0 <= i < 8 ==> {
                    &&& (#[trigger] v@[i]).wf()
                    &&& v@[i].unit == template_unit(i)
                    &&& v@[i].grouping@ == template_grouping(i)
                },
    {
        let mut v: Vec<Self> = Vec::new();
        v.push(Self::four_four());
        v.push(Self::three_four());
        v.push(Self::six_eight());
        v.push(Self::nine_eight_aksak());
        v.push(Self::nine_eight_long_first());
        v.push(Self::five_eight());
        v.push(Self::seven_eight());
        v.push(Self::ten_eight());
        v
    }

    /// Number of beats (groups) per bar.
    pub fn beats(&self) -> (n: usize)
        ensures
            n == self.grouping@.len(),
    {
        self.grouping.len()
    }

    /// Every beat has the same number of pulses (4/4, 3/4, 6/8), so no grouping needs showing.
    pub fn is_regular(&self) -> (r: bool)
        ensures
            r == (forall|i: int|
                0 <= i < self.grouping@.len() - 1 ==> #[trigger] self.grouping@[i] == self.grouping@[i + 1]),
    {
        let n = self.grouping.len();
        let mut i: usize = 1;
        while i < n
            invariant
                n == self.grouping@.len(),
                1 <= i,
                i <= n || n == 0,
                forall|j: int| 0 <= j < i - 1 && j < n - 1 ==> #[trigger] self.grouping@[j] == self.grouping@[j + 1],
            decreases n - i,
        {
            if self.grouping[i - 1] != self.grouping[i] {
                return false;
            }
            i = i + 1;
        }
        true
    }

    /// The badge text: `4/4`, `6/8 · 3+3`, `9/8 · 2+2+2+3`.
    pub fn to_string(&self) -> (s: String)
        ensures
            s@ == meter_label(self.unit, self.beats_per_bar, self.grouping@),
    {
        let mut out: Vec<char> = Vec::new();
        match self.unit {
            BeatUnit::Quarter => {
                push_decimal(&mut out, self.beats_per_bar as u32);
                out.push('/');
                out.push('4');
            },
            BeatUnit::Eighth => {
                push_decimal(&mut out, self.beats_per_bar as u32);
                out.push('/');
                out.push('8');
            },
            BeatUnit::DottedQuarter => {
                push_decimal(&mut out, self.beats_per_bar as u32 * 3);
                out.push('/');
                out.push('8');
            },
        }
        push_suffix(&mut out, &self.grouping);
        string_from(&out)
    }
}

/// Appends the grouping suffix (` · 2+2+2+3`, or nothing) of `g` to `out`.
pub fn push_suffix(out: &mut Vec<char>, g: &Vec<u8>)
    ensures
        final(out)@ == old(out)@ + grouping_suffix(g@),
{
    let ghost head = out@;
    if g.len() > 1 && any_above_one(g) {
        out.push(' ');
        out.push('\u{b7}');
        out.push(' ');
        push_groups(out, g);
        assert(out@ =~= head + grouping_suffix(g@));
    } else {
        assert(out@ =~= head + grouping_suffix(g@));
    }
}

/// Whether some group has more than one pulse.
fn any_above_one(g: &Vec<u8>) -> (r: bool)
    ensures
        r == has_compound_group(g@),
{
    let n = g.len();
    let mut i: usize = 0;
    while i < n
        invariant
            n == g@.len(),
            0 <= i <= n,
            forall|j: int| 0 <= j < i ==> g@[j] <= 1,
        decreases n - i,
    {
        if g[i] > 1 {
            return true;
        }
        i = i + 1;
    }
    false
}

/// One meter the estimator scores, with its grouping at the pulse level it is scored on.
#[derive(Debug, Clone, PartialEq, Eq)]
pub struct Candidate {
    /// The meter.
    pub meter: Meter,
    /// Pulses per group at the pulse level.
    pub groups: Vec<u8>,
    /// Pulses per grid beat of `meter`: 2 when quarter meters are scored on eighth pulses.
    pub pulses_per_unit: u8,
}

/// The groups candidate `i` is scored with: quarter meters on eighth pulses count two pulses
/// per beat; every other template keeps its own grouping.
pub open spec fn candidate_groups(eighth_level: bool, i: int) -> Seq<u8> {
    if eighth_level && i < 2 {
        Seq::new(template_grouping(i).len(), |k: int| 2u8)
    } else {
        template_grouping(i)
    }
}

/// `n` groups of two pulses.
fn twos(n: usize) -> (v: Vec<u8>)
    ensures
        v@ == Seq::new(n as nat, |k: int| 2u8),
{
    let mut v: Vec<u8> = Vec::new();
    let mut i: usize = 0;
    while i < n
        invariant
            0 <= i <= n,
            v@ == Seq::new(i as nat, |k: int| 2u8),
        decreases n - i,
    {
        v.push(2);
        i = i + 1;
        assert(v@ =~= Seq::new(i as nat, |k: int| 2u8));
    }
    v
}

/// A copy of `g`.
fn copy_groups(g: &Vec<u8>) -> (v: Vec<u8>)
    ensures
        v@ == g@,
{
    let mut v: Vec<u8> = Vec::new();
    let n = g.len();
    let mut i: usize = 0;
    while i < n
        invariant
            n == g@.len(),
            0 <= i <= n,
            v@ == g@.take(i as int),
        decreases n - i,
    {
        v.push(g[i]);
        i = i + 1;
        assert(v@ =~= g@.take(i as int));
    }
    assert(g@.take(n as int) =~= g@);
    v
}

/// The meters to score: 4/4 and 3/4 alone when the pulse is the quarter note; all eight
/// templates when it is the eighth, the quarter meters then grouped in twos.
pub fn candidates(eighth_level: bool) -> (list: Vec<Candidate>)
    ensures
        list@.len() == if eighth_level { 8int } else { 2int },
        forall|i: int|
            0 <= i < list@.len() ==> {
                &&& (#[trigger] list@[i]).meter.wf()
                &&& list@[i].meter.unit == template_unit(i)
                &&& list@[i].meter.grouping@ == template_grouping(i)
                &&& list@[i].groups@ == candidate_groups(eighth_level, i)
                &&& list@[i].pulses_per_unit == if eighth_level && i < 2 { 2u8 } else { 1u8 }
            },
{
    let templates = Meter::templates();
    let count: usize = if eighth_level { 8 } else { 2 };
    let mut list: Vec<Candidate> = Vec::new();
    let mut i: usize = 0;
    while i < count
        invariant
            count == if eighth_level { 8usize } else { 2usize },
            0 <= i <= count,
            templates@.len() == 8,
            forall|j: int|
                0 <= j < 8 ==> {
                    &&& (#[trigger] templates@[j]).wf()
                    &&& templates@[j].unit == template_unit(j)
                    &&& templates@[j].grouping@ == template_grouping(j)
                },
            list@.len() == i,
            forall|j: int|
                0 <= j < i ==> {
                    &&& (#[trigger] list@[j]).meter.wf()
                    &&& list@[j].meter.unit == template_unit(j)
                    &&& list@[j].meter.grouping@ == template_grouping(j)
                    &&& list@[j].groups@ == candidate_groups(eighth_level, j)
                    &&& list@[j].pulses_per_unit == if eighth_level && j < 2 { 2u8 } else { 1u8 }
                },
        decreases count - i,
    {
        let t = &templates[i];
        let meter = Meter {
            beats_per_bar: t.beats_per_bar,
            unit: t.unit,
            grouping: copy_groups(&t.grouping),
        };
        let quarter_on_eighths = eighth_level && i < 2;
        let groups = if quarter_on_eighths {
            twos(t.grouping.len())
        } else {
            copy_groups(&t.grouping)
        };
        let pulses_per_unit: u8 = if quarter_on_eighths { 2 } else { 1 };
        list.push(Candidate { meter, groups, pulses_per_unit });
        i = i + 1;
    }
    list
}

/// Whether lower-case text names a tradition where odd meters are common: Turkish, Balkan,
/// Romani, Greek or Arabic music.
pub open spec fn regional(t: Seq<char>) -> bool {
    ||| contains(t, "t\u{fc}rk"@)
    ||| contains(t, "turk"@)
    ||| contains(t, "halk"@)
    ||| contains(t, "balkan"@)
    ||| contains(t, "roman"@)
    ||| contains(t, "greek"@)
    ||| contains(t, "rebetiko"@)
    ||| contains(t, "la\u{ef}ko"@)
    ||| contains(t, "laiko"@)
    ||| contains(t, "arab"@)
    ||| contains(t, "oriental"@)
    ||| contains(t, "\u{e7}iftetelli"@)
    ||| contains(t, "ciftetelli"@)
    ||| contains(t, "kar\u{15f}\u{131}lama"@)
}

/// Whether a genre and title text suggests odd meters, matched case-insensitively anywhere in
/// the text; such a hint raises their prior.
pub fn suggests_odd_meter(hint: &str) -> (r: bool)
    ensures
        r == regional(lowercase_text(hint@)),
{
    let t = lowercase(hint);
    has_part(&t, "t\u{fc}rk") || has_part(&t, "turk") || has_part(&t, "halk")
        || has_part(&t, "balkan") || has_part(&t, "roman") || has_part(&t, "greek")
        || has_part(&t, "rebetiko") || has_part(&t, "la\u{ef}ko") || has_part(&t, "laiko")
        || has_part(&t, "arab") || has_part(&t, "oriental") || has_part(&t, "\u{e7}iftetelli")
        || has_part(&t, "ciftetelli") || has_part(&t, "kar\u{15f}\u{131}lama")
}

/// Every template is well formed and its pulse count is the sum of its groups.
pub proof fn templates_are_consistent(i: int)
    requires
        0 <= i < 8,
    ensures
        template_grouping(i).len() > 0,
        all_positive(template_grouping(i)),
        pulses(template_grouping(i)) <= 255,
{
    reveal_with_fuel(pulses, 5);
}

} // verus!
