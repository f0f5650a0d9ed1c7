//! The bookkeeping of a batch: which files have had their terminal event and how the batch
//! ended, so that every file ends exactly once.
use vstd::prelude::*;

verus! {

/// How a batch ended.
#[derive(Debug, Clone, Copy, PartialEq, Eq, Structural)]
pub struct BatchSummary {
    /// Files analysed (fresh or cached).
    pub analysed: usize,
    /// Files that failed.
    pub failed: usize,
    /// Files cancelled.
    pub cancelled: usize,
    /// Whether the batch was cancelled.
    pub was_cancelled: bool,
}

impl Default for BatchSummary {
    /// Nothing ended yet.
    fn default() -> (s: Self)
        ensures
            s == (BatchSummary { analysed: 0, failed: 0, cancelled: 0, was_cancelled: false }),
    {
        BatchSummary { analysed: 0, failed: 0, cancelled: 0, was_cancelled: false }
    }
}

/// The event that ends a file.
#[derive(Debug, Clone, Copy, PartialEq, Eq, Structural)]
pub enum Terminal {
    /// The analysis, fresh or from the cache.
    Analysed,
    /// The file could not be analysed; the batch goes on.
    Failed,
    /// The batch was cancelled before or while this file ran.
    Cancelled,
}

/// Number of `true` flags.
pub open spec fn count_true(s: Seq<bool>) -> nat
    decreases s.len(),
{
    if s.len() == 0 {
        0
    } else {
        count_true(s.drop_last()) + if s.last() { 1nat } else { 0nat }
    }
}

proof fn lemma_count_true_bounded(s: Seq<bool>)
    ensures
        count_true(s) <= s.len(),
    decreases s.len(),
{
    if s.len() > 0 {
        lemma_count_true_bounded(s.drop_last());
    }
}

proof fn lemma_count_true_all(s: Seq<bool>)
    requires
        forall|i: int| 0 <= i < s.len() ==> s[i],
    ensures
        count_true(s) == s.len(),
    decreases s.len(),
{
    if s.len() > 0 {
        lemma_count_true_all(s.drop_last());
    }
}

/// `s` with one more file counted under `outcome`.
pub open spec fn counted(s: BatchSummary, outcome: Terminal) -> BatchSummary {
    match outcome {
        Terminal::Analysed => BatchSummary { analysed: (s.analysed + 1) as usize, ..s },
        Terminal::Failed => BatchSummary { failed: (s.failed + 1) as usize, ..s },
        Terminal::Cancelled => BatchSummary { cancelled: (s.cancelled + 1) as usize, ..s },
    }
}

/// Sum of a sequence of counts.
pub open spec fn sum(s: Seq<nat>) -> nat
    decreases s.len(),
{
    if s.len() == 0 {
        0
    } else {
        sum(s.drop_last()) + s.last()
    }
}

proof fn lemma_sum_bump(s: Seq<nat>, i: int)
    requires
        0 <= i < s.len(),
    ensures
        sum(s.update(i, s[i] + 1)) == sum(s) + 1,
    decreases s.len(),
{
    let t = s.update(i, s[i] + 1);
    if i == s.len() - 1 {
        assert(t.drop_last() =~= s.drop_last());
    } else {
        assert(t.drop_last() =~= s.drop_last().update(i, s[i] + 1));
        lemma_sum_bump(s.drop_last(), i);
    }
}

proof fn lemma_sum_zeros(n: nat)
    ensures
        sum(Seq::new(n, |i: int| 0nat)) == 0,
    decreases n,
{
    if n > 0 {
        assert(Seq::new(n, |i: int| 0nat).drop_last() =~= Seq::new((n - 1) as nat, |i: int| 0nat));
        lemma_sum_zeros((n - 1) as nat);
    }
}

proof fn lemma_sum_ones(s: Seq<nat>)
    requires
        forall|i: int| 0 <= i < s.len() ==> s[i] == 1,
    ensures
        sum(s) == s.len(),
    decreases s.len(),
{
    if s.len() > 0 {
        lemma_sum_ones(s.drop_last());
    }
}

/// The calling thread's view of a batch: which files have ended and the counts per ending.
/// Every terminal event is counted, so a file that (against the workers' rule) ended twice would
/// be counted twice; the terminal events each file received are kept as ghost state.
pub struct Coordinator {
    terminal: Vec<bool>,
    summary: BatchSummary,
    events: Ghost<Seq<nat>>,
}

impl Coordinator {
    /// Whether each file has had its terminal event.
    pub closed spec fn ended(&self) -> Seq<bool> {
        self.terminal@
    }

    /// The counts so far.
    pub closed spec fn counts(&self) -> BatchSummary {
        self.summary
    }

    /// How many terminal events each file has received.
    pub closed spec fn events(&self) -> Seq<nat> {
        self.events@
    }

    /// A file has ended exactly when it received a terminal event, and the counts add up to the
    /// terminal events received.
    pub open spec fn wf(&self) -> bool {
        &&& self.events().len() == self.ended().len()
        &&& forall|i: int| 0 <= i < self.ended().len() ==> (#[trigger] self.ended()[i] <==> self.events()[i] > 0)
        &&& self.counts().analysed + self.counts().failed + self.counts().cancelled == sum(self.events())
    }

    /// A batch of `total` files, none ended.
    pub fn new(total: usize) -> (c: Self)
        ensures
            c.wf(),
            c.ended() == Seq::new(total as nat, |i: int| false),
            c.events() == Seq::new(total as nat, |i: int| 0nat),
            c.counts() == (BatchSummary { analysed: 0, failed: 0, cancelled: 0, was_cancelled: false }),
    {
        let mut terminal: Vec<bool> = Vec::new();
        let mut i: usize = 0;
        while i < total
            invariant
                0 <= i <= total,
                terminal@ == Seq::new(i as nat, |k: int| false),
            decreases total - i,
        {
            terminal.push(false);
            assert(terminal@ =~= Seq::new((i + 1) as nat, |k: int| false));
            i = i + 1;
        }
        let c = Coordinator {
            terminal,
            summary: BatchSummary::default(),
            events: Ghost(Seq::new(total as nat, |i: int| 0nat)),
        };
        proof {
            lemma_sum_zeros(total as nat);
        }
        c
    }

    /// Records that file `index` ended with `outcome`, counting it under that outcome.
    pub fn end(&mut self, index: usize, outcome: Terminal)
        requires
            old(self).wf(),
            index < old(self).ended().len(),
            outcome == Terminal::Analysed ==> old(self).counts().analysed < usize::MAX,
            outcome == Terminal::Failed ==> old(self).counts().failed < usize::MAX,
            outcome == Terminal::Cancelled ==> old(self).counts().cancelled < usize::MAX,
        ensures
            final(self).wf(),
            final(self).ended() == old(self).ended().update(index as int, true),
            final(self).events() == old(self).events().update(index as int, old(self).events()[index as int] + 1),
            final(self).counts() == counted(old(self).counts(), outcome),
    {
        proof {
            lemma_sum_bump(self.events@, index as int);
        }
        self.terminal.set(index, true);
        self.events = Ghost(self.events@.update(index as int, self.events@[index as int] + 1));
        match outcome {
            Terminal::Analysed => self.summary.analysed = self.summary.analysed + 1,
            Terminal::Failed => self.summary.failed = self.summary.failed + 1,
            Terminal::Cancelled => self.summary.cancelled = self.summary.cancelled + 1,
        }
    }

    /// Files that have ended.
    pub fn done(&self) -> (n: usize)
        ensures
            n == count_true(self.ended()),
    {
        let total = self.terminal.len();
        let mut n: usize = 0;
        let mut i: usize = 0;
        while i < total
            invariant
                total == self.ended().len(),
                0 <= i <= total,
                n == count_true(self.ended().take(i as int)),
            decreases total - i,
        {
            proof {
                assert(self.ended().take(i + 1).drop_last() =~= self.ended().take(i as int));
                lemma_count_true_bounded(self.ended().take(i as int));
            }
            if self.terminal[i] {
                n = n + 1;
            }
            i = i + 1;
        }
        assert(self.ended().take(total as int) =~= self.ended());
        n
    }

    /// Files in the batch.
    pub fn total(&self) -> (n: usize)
        ensures
            n == self.ended().len(),
    {
        self.terminal.len()
    }

    /// Whether file `index` has ended.
    pub fn is_ended(&self, index: usize) -> (b: bool)
        requires
            index < self.ended().len(),
        ensures
            b == self.ended()[index as int],
    {
        self.terminal[index]
    }

    /// The files that have not ended, in order.
    pub fn not_ended(&self) -> (left: Vec<usize>)
        ensures
            forall|k: int| 0 <= k < left@.len() ==> (#[trigger] left@[k]) < self.ended().len() && !self.ended()[left@[k] as int],
            forall|i: int| 0 <= i < self.ended().len() && !self.ended()[i] ==> #[trigger] left@.contains(i as usize),
            forall|a: int, b: int| 0 <= a < b < left@.len() ==> (#[trigger] left@[a]) < (#[trigger] left@[b]),
    {
        let mut left: Vec<usize> = Vec::new();
        let n = self.terminal.len();
        let mut i: usize = 0;
        while i < n
            invariant
                n == self.ended().len(),
                0 <= i <= n,
                forall|k: int| 0 <= k < left@.len() ==> (#[trigger] left@[k]) < i && !self.ended()[left@[k] as int],
                forall|m: int| 0 <= m < i && !self.ended()[m] ==> #[trigger] left@.contains(m as usize),
                forall|a: int, b: int| 0 <= a < b < left@.len() ==> (#[trigger] left@[a]) < (#[trigger] left@[b]),
            decreases n - i,
        {
            if !self.terminal[i] {
                let ghost before = left@;
                left.push(i);
                assert forall|m: int| 0 <= m < i + 1 && !self.ended()[m] implies #[trigger] left@.contains(m as usize) by {
                    if m < i {
                        assert(before.contains(m as usize));
                        let w = choose|w: int| 0 <= w < before.len() && before[w] == m as usize;
                        assert(left@[w] == m as usize);
                    } else {
                        assert(left@[before.len() as int] == i);
                    }
                }
            }
            i = i + 1;
        }
        left
    }

    /// How the batch ended, given whether it was cancelled.
    pub fn summary(&self, was_cancelled: bool) -> (s: BatchSummary)
        ensures
            s == (BatchSummary { was_cancelled, ..self.counts() }),
    {
        BatchSummary { was_cancelled, ..self.summary }
    }
}

/// A file no worker reached ends cancelled when the batch was cancelled and failed otherwise.
pub fn outcome_of_unstarted(was_cancelled: bool) -> (t: Terminal)
    ensures
        t == if was_cancelled { Terminal::Cancelled } else { Terminal::Failed },
{
    if was_cancelled {
        Terminal::Cancelled
    } else {
        Terminal::Failed
    }
}

/// Most workers a batch starts by default: each holds a beat model and peaks near 450 MB while
/// tracking.
pub const MAX_DEFAULT_WORKERS: usize = 4;

/// The default worker count for `cores` logical cores: a quarter of them, at least one and at
/// most [`MAX_DEFAULT_WORKERS`].
pub fn workers_for_cores(cores: usize) -> (n: usize)
    ensures
        n == if cores / 4 < 1 { 1 } else if cores / 4 > MAX_DEFAULT_WORKERS { MAX_DEFAULT_WORKERS } else { cores / 4 },
{
    let quarter = cores / 4;
    if quarter < 1 {
        1
    } else if quarter > MAX_DEFAULT_WORKERS {
        MAX_DEFAULT_WORKERS
    } else {
        quarter
    }
}

/// The threads a batch of `files` files runs on when `requested` are asked for: clamped to
/// `1..=files`, and one for an empty batch.
pub fn worker_count(requested: usize, files: usize) -> (n: usize)
    ensures
        n == if requested < 1 { 1 } else if files >= 1 && requested > files { files } else if files < 1 && requested > 1 { 1 } else { requested },
        1 <= n,
        n <= if files < 1 { 1 } else { files },
{
    let most = if files < 1 { 1 } else { files };
    if requested < 1 {
        1
    } else if requested > most {
        most
    } else {
        requested
    }
}

/// Every file ends exactly once: once each file of the batch has received exactly one terminal
/// event, every file has ended, the files done are the files in the batch, and the analysed,
/// failed and cancelled counts add up to them.
pub proof fn every_file_ends_once(c: Coordinator)
    requires
        c.wf(),
        forall|i: int| 0 <= i < c.events().len() ==> c.events()[i] == 1,
    ensures
        forall|i: int| 0 <= i < c.ended().len() ==> c.ended()[i],
        count_true(c.ended()) == c.ended().len(),
        c.counts().analysed + c.counts().failed + c.counts().cancelled == c.ended().len(),
{
    assert forall|i: int| 0 <= i < c.ended().len() implies c.ended()[i] by {
        assert(c.ended()[i] <==> c.events()[i] > 0);
    }
    lemma_count_true_all(c.ended());
    lemma_sum_ones(c.events());
}

/// The ended flags after files `idx` end, in order.
pub open spec fn ended_after(ended: Seq<bool>, idx: Seq<usize>) -> Seq<bool>
    decreases idx.len(),
{
    if idx.len() == 0 {
        ended
    } else {
        ended_after(ended, idx.drop_last()).update(idx.last() as int, true)
    }
}

proof fn lemma_ended_after(ended: Seq<bool>, idx: Seq<usize>, i: int)
    requires
        0 <= i < ended.len() <= usize::MAX,
        forall|k: int| 0 <= k < idx.len() ==> idx[k] < ended.len(),
    ensures
        ended_after(ended, idx).len() == ended.len(),
        ended_after(ended, idx)[i] == (ended[i] || idx.contains(i as usize)),
    decreases idx.len(),
{
    lemma_ended_after_len(ended, idx);
    if idx.len() > 0 {
        let p = idx.drop_last();
        lemma_ended_after_len(ended, p);
        lemma_ended_after(ended, p, i);
        if idx.last() == i as usize {
            assert(idx[idx.len() - 1] == i as usize);
        } else {
            if p.contains(i as usize) {
                let w = choose|w: int| 0 <= w < p.len() && p[w] == i as usize;
                assert(idx[w] == i as usize);
            }
            if idx.contains(i as usize) {
                let w = choose|w: int| 0 <= w < idx.len() && idx[w] == i as usize;
                assert(w != idx.len() - 1);
                assert(p[w] == i as usize);
            }
        }
    } else {
        assert(!idx.contains(i as usize));
    }
}

/// Every file gets a terminal event: when the batch's workers are done, ending each file that
/// [`Coordinator::not_ended`] lists (in order, each with [`Coordinator::end`]) leaves every file
/// of the batch ended.
pub proof fn ending_the_rest_ends_every_file(ended: Seq<bool>, rest: Seq<usize>)
    requires
        ended.len() <= usize::MAX,
        forall|k: int| 0 <= k < rest.len() ==> rest[k] < ended.len(),
        forall|i: int| 0 <= i < ended.len() && !ended[i] ==> rest.contains(i as usize),
    ensures
        forall|i: int| 0 <= i < ended.len() ==> #[trigger] ended_after(ended, rest)[i],
        ended_after(ended, rest).len() == ended.len(),
{
    assert forall|i: int| 0 <= i < ended.len() implies #[trigger] ended_after(ended, rest)[i] by {
        lemma_ended_after(ended, rest, i);
    }
    lemma_ended_after_len(ended, rest);
}

proof fn lemma_ended_after_len(ended: Seq<bool>, idx: Seq<usize>)
    requires
        forall|k: int| 0 <= k < idx.len() ==> idx[k] < ended.len(),
    ensures
        ended_after(ended, idx).len() == ended.len(),
    decreases idx.len(),
{
    if idx.len() > 0 {
        lemma_ended_after_len(ended, idx.drop_last());
    }
}

} // verus!
