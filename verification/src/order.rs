//! Results that finish in any order, handed on in the order their inputs were given.
use vstd::prelude::*;

verus! {

/// Slots for `n` results; results leave in index order, each once, as soon as every earlier
/// one has left.
#[derive(Debug)]
pub struct InOrder<T> {
    ready: Vec<Option<T>>,
    next: usize,
}

impl<T> InOrder<T> {
    /// The slots: a result that arrived and has not left yet, or nothing.
    pub closed spec fn slots(&self) -> Seq<Option<T>> {
        self.ready@
    }

    /// Index of the next result to leave; every earlier one has left.
    pub closed spec fn released(&self) -> nat {
        self.next as nat
    }

    /// Results before `released` have left, and the slot at `released` is still waiting.
    pub closed spec fn wf(&self) -> bool {
        &&& self.next <= self.ready@.len()
        &&& forall|i: int| 0 <= i < self.next ==> self.ready@[i] is None
        &&& self.next < self.ready@.len() ==> self.ready@[self.next as int] is None
    }

    /// Slots for `n` results, none arrived.
    pub fn new(n: usize) -> (b: Self)
        ensures
            b.wf(),
            b.released() == 0,
            b.slots().len() == n,
            forall|i: int| 0 <= i < n ==> b.slots()[i] is None,
    {
        let mut ready: Vec<Option<T>> = Vec::new();
        let mut i: usize = 0;
        while i < n
            invariant
                0 <= i <= n,
                ready@.len() == i,
                forall|k: int| 0 <= k < i ==> ready@[k] is None,
            decreases n - i,
        {
            ready.push(None);
            i = i + 1;
        }
        InOrder { ready, next: 0 }
    }

    /// The slots once the result for `index` is stored: unchanged when `index` is out of range
    /// or its result already left.
    pub open spec fn stored(&self, index: usize, item: T) -> Seq<Option<T>> {
        if index < self.slots().len() && index >= self.released() {
            self.slots().update(index as int, Some(item))
        } else {
            self.slots()
        }
    }

    /// Stores the result for `index` (ignored when `index` is out of range or its result
    /// already left) and returns every result that can now leave, in index order, with its
    /// index: the run of arrived results that starts at the first one still waiting.
    pub fn put(&mut self, index: usize, item: T) -> (out: Vec<(usize, T)>)
        requires
            old(self).wf(),
        ensures
            final(self).wf(),
            ({
                let placed = old(self).stored(index, item);
                let from = old(self).released();
                let to = final(self).released();
                &&& final(self).slots().len() == placed.len()
                &&& from <= to <= placed.len()
                &&& forall|i: int| from <= i < to ==> placed[i] is Some
                &&& to < placed.len() ==> placed[to as int] is None
                &&& out@.len() == to - from
                &&& forall|k: int| 0 <= k < out@.len() ==> #[trigger] out@[k] == (
                    (from + k) as usize,
                    placed[from + k]->0,
                )
                &&& forall|i: int| to <= i < placed.len() ==> final(self).slots()[i] == placed[i]
            }),
    {
        let ghost start = self.next as int;
        if index < self.ready.len() && index >= self.next {
            self.ready.set(index, Some(item));
        }
        let ghost placed = self.ready@;
        let mut out: Vec<(usize, T)> = Vec::new();
        let n = self.ready.len();
        while self.next < n && self.ready[self.next].is_some()
            invariant
                n == self.ready@.len(),
                n == placed.len(),
                start <= self.next <= n,
                forall|i: int| 0 <= i < self.next ==> self.ready@[i] is None,
                forall|i: int| self.next <= i < n ==> self.ready@[i] == placed[i],
                forall|i: int| start <= i < self.next ==> placed[i] is Some,
                out@.len() == self.next - start,
                forall|k: int| 0 <= k < out@.len() ==> #[trigger] out@[k] == (
                    (start + k) as usize,
                    placed[start + k]->0,
                ),
            decreases n - self.next,
        {
            let at = self.next;
            let slot = self.ready[at].take();
            if let Some(x) = slot {
                out.push((at, x));
            }
            self.next = self.next + 1;
        }
        out
    }

    /// Index of the next result to leave.
    pub fn next_index(&self) -> (i: usize)
        ensures
            i == self.released(),
    {
        self.next
    }
}

} // verus!
