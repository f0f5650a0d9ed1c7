//! The files of one app session and the ids every event uses: each file once (by NFC path),
//! ids that only grow and are never handed out twice, even after the session is cleared.
use vstd::prelude::*;

use crate::expand::{nfc, nfc_of};

verus! {

/// Whether a file with NFC path `key` is among `files`.
pub open spec fn listed(files: Seq<(u32, Seq<char>)>, key: Seq<char>) -> bool {
    exists|i: int| 0 <= i < files.len() && (#[trigger] files[i]).1 == key
}

/// Where a new session stands after `steps`, oldest first (`Some(path)` adds the file at
/// `path`, `None` clears the session): the next file id, the files with their ids and NFC
/// paths, and the ids handed out, in order. An add hands out the next id unless a file with the
/// same NFC path is listed; a clear forgets the files and keeps the next id.
pub open spec fn replay(steps: Seq<Option<Seq<char>>>) -> (nat, Seq<(u32, Seq<char>)>, Seq<nat>)
    decreases steps.len(),
{
    if steps.len() == 0 {
        (1, Seq::empty(), Seq::empty())
    } else {
        let (next, files, ids) = replay(steps.drop_last());
        match steps.last() {
            None => (next, Seq::empty(), ids),
            Some(path) => if listed(files, nfc(path)) {
                (next, files, ids)
            } else {
                (next + 1, files.push((next as u32, nfc(path))), ids.push(next))
            },
        }
    }
}

/// The text of each path.
pub open spec fn texts(paths: Seq<String>) -> Seq<Seq<char>> {
    paths.map_values(|p: String| p@)
}

/// Each path as an add step.
pub open spec fn adds(paths: Seq<Seq<char>>) -> Seq<Option<Seq<char>>> {
    paths.map_values(|p: Seq<char>| Some(p))
}

/// Whether path `k` of `paths` is new to `files`: its NFC path is neither listed there nor that
/// of an earlier path.
pub open spec fn is_new(files: Seq<(u32, Seq<char>)>, paths: Seq<Seq<char>>, k: int) -> bool {
    &&& !listed(files, nfc(paths[k]))
    &&& forall|j: int| 0 <= j < k ==> nfc(#[trigger] paths[j]) != nfc(paths[k])
}

/// How many of the first `k` paths are new to `files`.
pub open spec fn new_count(files: Seq<(u32, Seq<char>)>, paths: Seq<Seq<char>>, k: int) -> nat
    decreases k,
{
    if k <= 0 {
        0
    } else {
        new_count(files, paths, k - 1) + if is_new(files, paths, k - 1) { 1nat } else { 0nat }
    }
}

proof fn lemma_listed_push(files: Seq<(u32, Seq<char>)>, e: (u32, Seq<char>), key: Seq<char>)
    ensures
        listed(files.push(e), key) <==> (listed(files, key) || e.1 == key),
{
    if listed(files, key) {
        let i = choose|i: int| 0 <= i < files.len() && (#[trigger] files[i]).1 == key;
        assert(files.push(e)[i] == files[i]);
    }
    if e.1 == key {
        assert(files.push(e)[files.len() as int] == e);
    }
    if listed(files.push(e), key) {
        let i = choose|i: int| 0 <= i < files.push(e).len() && (#[trigger] files.push(e)[i]).1 == key;
        if i < files.len() {
            assert(files[i] == files.push(e)[i]);
        }
    }
}

proof fn lemma_new_count_le(files: Seq<(u32, Seq<char>)>, paths: Seq<Seq<char>>, k: int)
    ensures
        new_count(files, paths, k) <= if k < 0 { 0 } else { k },
    decreases k,
{
    if k > 0 {
        lemma_new_count_le(files, paths, k - 1);
    }
}

/// The files of one app session in the order they were added, each with its id and NFC path;
/// the next file and job ids; the revision of the settings the rows are planned with; and, as
/// ghost state, the adds and clears the session has seen.
pub struct Session {
    next_file: u32,
    next_job: u32,
    files: Vec<(u32, String)>,
    revision: u32,
    history: Ghost<Seq<Option<Seq<char>>>>,
}

impl Session {
    /// The next file id to hand out.
    pub closed spec fn next_file_id(&self) -> nat {
        self.next_file as nat
    }

    /// The next job id to hand out.
    pub closed spec fn next_job(&self) -> nat {
        self.next_job as nat
    }

    /// How many times the settings changed.
    pub closed spec fn settings_revision(&self) -> nat {
        self.revision as nat
    }

    /// The adds and clears this session has seen, oldest first: `Some(path)` for an add of the
    /// file at `path`, `None` for a clear.
    pub closed spec fn history(&self) -> Seq<Option<Seq<char>>> {
        self.history@
    }

    /// The files: id and NFC path, in the order they were added.
    pub closed spec fn entries(&self) -> Seq<(u32, Seq<char>)> {
        self.files@.map_values(|e: (u32, String)| (e.0, e.1@))
    }

    /// Ids increase along the files and stay below the next id; no NFC path occurs twice; the
    /// files and the next id are what the session's history makes of a new session.
    pub open spec fn wf(&self) -> bool {
        let e = self.entries();
        &&& replay(self.history()).0 == self.next_file_id()
        &&& replay(self.history()).1 == e
        &&& self.next_file_id() >= 1
        &&& self.next_job() >= 1
        &&& forall|i: int, j: int| 0 <= i < j < e.len() ==> (#[trigger] e[i]).0 < (#[trigger] e[j]).0
        &&& forall|i: int| 0 <= i < e.len() ==> 1 <= (#[trigger] e[i]).0 < self.next_file_id()
        &&& forall|i: int, j: int| 0 <= i < e.len() && 0 <= j < e.len() && i != j ==> (#[trigger] e[i]).1 != (#[trigger] e[j]).1
    }

    /// Whether a file with NFC path `key` is in the session.
    pub open spec fn has_path(&self, key: Seq<char>) -> bool {
        listed(self.entries(), key)
    }

    /// Whether file `id` is in the session.
    pub open spec fn has_id(&self, id: u32) -> bool {
        exists|i: int| 0 <= i < self.entries().len() && (#[trigger] self.entries()[i]).0 == id
    }

    /// An empty session; the first file and the first job get id 1.
    pub fn new() -> (r: Self)
        ensures
            r.wf(),
            r.next_file_id() == 1,
            r.next_job() == 1,
            r.entries() == Seq::<(u32, Seq<char>)>::empty(),
            r.settings_revision() == 0,
            r.history() == Seq::<Option<Seq<char>>>::empty(),
    {
        let r = Session { next_file: 1, next_job: 1, files: Vec::new(), revision: 0, history: Ghost(Seq::empty()) };
        assert(r.entries() =~= Seq::<(u32, Seq<char>)>::empty());
        r
    }

    /// Files in the session.
    pub fn len(&self) -> (n: usize)
        ensures
            n == self.entries().len(),
    {
        self.files.len()
    }

    /// Whether no file is in the session.
    pub fn is_empty(&self) -> (b: bool)
        ensures
            b == (self.entries().len() == 0),
    {
        self.files.len() == 0
    }

    /// The file at `index` (in the order added): its id and NFC path.
    pub fn entry(&self, index: usize) -> (e: (u32, &String))
        requires
            index < self.entries().len(),
        ensures
            e.0 == self.entries()[index as int].0,
            e.1@ == self.entries()[index as int].1,
    {
        (self.files[index].0, &self.files[index].1)
    }

    /// Where file `id` is, if it is in the session.
    pub fn position(&self, id: u32) -> (p: Option<usize>)
        ensures
            match p {
                Some(i) => i < self.entries().len() && self.entries()[i as int].0 == id,
                None => !self.has_id(id),
            },
    {
        let n = self.files.len();
        let mut i: usize = 0;
        while i < n
            invariant
                n == self.files@.len(),
                0 <= i <= n,
                forall|j: int| 0 <= j < i ==> (#[trigger] self.entries()[j]).0 != id,
            decreases n - i,
        {
            if self.files[i].0 == id {
                return Some(i);
            }
            i = i + 1;
        }
        None
    }

    fn position_of_key(&self, key: &String) -> (p: Option<usize>)
        ensures
            match p {
                Some(i) => i < self.entries().len() && self.entries()[i as int].1 == key@,
                None => !self.has_path(key@),
            },
    {
        let n = self.files.len();
        let mut i: usize = 0;
        while i < n
            invariant
                n == self.files@.len(),
                0 <= i <= n,
                forall|j: int| 0 <= j < i ==> (#[trigger] self.entries()[j]).1 != key@,
            decreases n - i,
        {
            if self.files[i].1.eq(key) {
                return Some(i);
            }
            i = i + 1;
        }
        None
    }

    /// Adds the file at `path` unless a file with the same NFC path is in the session; returns
    /// its new id and NFC path. A new file gets the next id.
    pub fn add_path(&mut self, path: &str) -> (added: Option<(u32, String)>)
        requires
            old(self).wf(),
            old(self).next_file_id() < u32::MAX,
        ensures
            final(self).wf(),
            final(self).next_job() == old(self).next_job(),
            final(self).settings_revision() == old(self).settings_revision(),
            final(self).history() == old(self).history().push(Some(path@)),
            old(self).has_path(nfc(path@)) ==> {
                &&& added is None
                &&& final(self).entries() == old(self).entries()
                &&& final(self).next_file_id() == old(self).next_file_id()
            },
            !old(self).has_path(nfc(path@)) ==> {
                &&& added matches Some(a) && a.0 == old(self).next_file_id() && a.1@ == nfc(path@)
                &&& final(self).next_file_id() == old(self).next_file_id() + 1
                &&& final(self).entries() == old(self).entries().push((old(self).next_file_id() as u32, nfc(path@)))
            },
    {
        let key = nfc_of(path);
        let ghost h = self.history@;
        proof {
            assert(h.push(Some(path@)).drop_last() =~= h);
        }
        self.history = Ghost(h.push(Some(path@)));
        if self.position_of_key(&key).is_some() {
            return None;
        }
        let id = self.next_file;
        let ghost before = self.entries();
        self.next_file = self.next_file + 1;
        let copy = key.clone();
        self.files.push((id, key));
        proof {
            assert(self.entries() =~= before.push((id, nfc(path@))));
            let e = self.entries();
            assert forall|i: int, j: int| 0 <= i < e.len() && 0 <= j < e.len() && i != j implies (#[trigger] e[i]).1 != (#[trigger] e[j]).1 by {
                if i < before.len() && j < before.len() {
                    assert(e[i] == before[i] && e[j] == before[j]);
                } else if i == before.len() {
                    assert(e[j] == before[j]);
                } else {
                    assert(e[i] == before[i]);
                }
            }
            assert forall|i: int, j: int| 0 <= i < j < e.len() implies (#[trigger] e[i]).0 < (#[trigger] e[j]).0 by {
                assert(e[i] == before[i]);
                if j < before.len() {
                    assert(e[j] == before[j]);
                }
            }
            assert forall|i: int| 0 <= i < e.len() implies 1 <= (#[trigger] e[i]).0 < self.next_file_id() by {
                if i < before.len() {
                    assert(e[i] == before[i]);
                }
            }
        }
        Some((id, copy))
    }

    /// Adds the files at `paths`, in order, each unless a file with the same NFC path is in the
    /// session or came earlier in `paths`; for each path, its new id and NFC path, or nothing.
    /// The new files get the next ids in turn, so the ids continue over the session's life.
    pub fn add_paths(&mut self, paths: &Vec<String>) -> (added: Vec<Option<(u32, String)>>)
        requires
            old(self).wf(),
            old(self).next_file_id() + paths@.len() < u32::MAX,
        ensures
            final(self).wf(),
            final(self).history() == old(self).history() + adds(texts(paths@)),
            final(self).next_job() == old(self).next_job(),
            final(self).settings_revision() == old(self).settings_revision(),
            added@.len() == paths@.len(),
            forall|k: int| 0 <= k < paths@.len() ==>
                ((#[trigger] added@[k]) is Some <==> is_new(old(self).entries(), texts(paths@), k)),
            forall|k: int| 0 <= k < paths@.len() ==> (#[trigger] added@[k] matches Some(a) ==> {
                &&& a.0 == old(self).next_file_id() + new_count(old(self).entries(), texts(paths@), k)
                &&& a.1@ == nfc(texts(paths@)[k])
            }),
            final(self).next_file_id() == old(self).next_file_id() + new_count(old(self).entries(), texts(paths@), paths@.len() as int),
            final(self).entries().len() == old(self).entries().len() + new_count(old(self).entries(), texts(paths@), paths@.len() as int),
            forall|k: int| 0 <= k < old(self).entries().len() ==> #[trigger] final(self).entries()[k] == old(self).entries()[k],
    {
        let ghost p = texts(paths@);
        let ghost e0 = self.entries();
        let ghost h0 = self.history();
        let ghost n0 = self.next_file_id();
        let mut added: Vec<Option<(u32, String)>> = Vec::new();
        let n = paths.len();
        let mut i: usize = 0;
        proof {
            assert(adds(p.take(0)) =~= Seq::<Option<Seq<char>>>::empty());
            assert(h0 + adds(p.take(0)) =~= h0);
        }
        while i < n
            invariant
                n == paths@.len(),
                p == texts(paths@),
                0 <= i <= n,
                self.wf(),
                n0 + n < u32::MAX,
                self.history() == h0 + adds(p.take(i as int)),
                self.next_job() == old(self).next_job(),
                self.settings_revision() == old(self).settings_revision(),
                self.next_file_id() == n0 + new_count(e0, p, i as int),
                self.entries().len() == e0.len() + new_count(e0, p, i as int),
                forall|k: int| 0 <= k < e0.len() ==> #[trigger] self.entries()[k] == e0[k],
                forall|key: Seq<char>| #[trigger] listed(self.entries(), key)
                    <==> (listed(e0, key) || exists|j: int| 0 <= j < i && nfc(#[trigger] p[j]) == key),
                added@.len() == i,
                forall|k: int| 0 <= k < i ==> ((#[trigger] added@[k]) is Some <==> is_new(e0, p, k)),
                forall|k: int| 0 <= k < i ==> (#[trigger] added@[k] matches Some(a) ==> {
                    &&& a.0 == n0 + new_count(e0, p, k)
                    &&& a.1@ == nfc(p[k])
                }),
            decreases n - i,
        {
            let ghost before = self.entries();
            let ghost key = nfc(p[i as int]);
            proof {
                lemma_new_count_le(e0, p, i as int);
                assert(p[i as int] == paths@[i as int]@);
                assert(is_new(e0, p, i as int) <==> !listed(before, key)) by {
                    if listed(before, key) {
                        if !listed(e0, key) {
                            let j = choose|j: int| 0 <= j < i && nfc(#[trigger] p[j]) == key;
                            assert(nfc(p[j]) == nfc(p[i as int]));
                        }
                    } else {
                        assert forall|j: int| 0 <= j < i implies nfc(#[trigger] p[j]) != nfc(p[i as int]) by {
                            if nfc(p[j]) == key {
                                assert(listed(before, key));
                            }
                        }
                    }
                }
            }
            let r = self.add_path(paths[i].as_str());
            proof {
                assert(p.take(i + 1) =~= p.take(i as int).push(p[i as int]));
                assert(adds(p.take(i + 1)) =~= adds(p.take(i as int)).push(Some(p[i as int])));
                assert(h0 + adds(p.take(i + 1)) =~= (h0 + adds(p.take(i as int))).push(Some(paths@[i as int]@)));
                assert forall|x: Seq<char>| #[trigger] listed(self.entries(), x)
                    <==> (listed(e0, x) || exists|j: int| 0 <= j < i + 1 && nfc(#[trigger] p[j]) == x) by {
                    if r is Some {
                        lemma_listed_push(before, ((n0 + new_count(e0, p, i as int)) as u32, key), x);
                    }
                    if x == key {
                        assert(nfc(p[i as int]) == x);
                    }
                    if exists|j: int| 0 <= j < i + 1 && nfc(#[trigger] p[j]) == x {
                        let j = choose|j: int| 0 <= j < i + 1 && nfc(#[trigger] p[j]) == x;
                        if j < i {
                            assert(exists|j2: int| 0 <= j2 < i && nfc(#[trigger] p[j2]) == x);
                        } else if r is None {
                            assert(listed(before, key));
                        }
                    }
                    if exists|j: int| 0 <= j < i && nfc(#[trigger] p[j]) == x {
                        let j = choose|j: int| 0 <= j < i && nfc(#[trigger] p[j]) == x;
                        assert(0 <= j < i + 1 && nfc(p[j]) == x);
                    }
                }
                if r is Some {
                    assert forall|k: int| 0 <= k < e0.len() implies #[trigger] self.entries()[k] == e0[k] by {
                        assert(self.entries()[k] == before[k]);
                    }
                }
            }
            added.push(r);
            i = i + 1;
        }
        proof {
            assert(p.take(n as int) =~= p);
        }
        added
    }

    /// Forgets every file. Ids are never reused, so events still in flight from a cancelled job
    /// cannot land on a new row.
    pub fn clear(&mut self)
        requires
            old(self).wf(),
        ensures
            final(self).wf(),
            final(self).entries() == Seq::<(u32, Seq<char>)>::empty(),
            final(self).next_file_id() == old(self).next_file_id(),
            final(self).next_job() == old(self).next_job(),
            final(self).settings_revision() == old(self).settings_revision(),
            final(self).history() == old(self).history().push(None),
    {
        proof {
            assert(self.history@.push(None).drop_last() =~= self.history@);
        }
        self.history = Ghost(self.history@.push(None));
        self.files = Vec::new();
        assert(self.entries() =~= Seq::<(u32, Seq<char>)>::empty());
    }

    /// The settings changed: the revision every plan from now on carries, one more than the
    /// last, so the UI keeps the newest plan of a row whose analysis and a replan crossed.
    pub fn next_revision(&mut self) -> (r: u32)
        requires
            old(self).wf(),
            old(self).settings_revision() < u32::MAX,
        ensures
            final(self).wf(),
            r == old(self).settings_revision() + 1,
            final(self).settings_revision() == r,
            final(self).entries() == old(self).entries(),
            final(self).next_file_id() == old(self).next_file_id(),
            final(self).next_job() == old(self).next_job(),
            final(self).history() == old(self).history(),
    {
        self.revision = self.revision + 1;
        assert(self.entries() == old(self).entries());
        self.revision
    }

    /// The id the next added file gets.
    pub fn upcoming_file_id(&self) -> (n: u32)
        ensures
            n == self.next_file_id(),
    {
        self.next_file
    }

    /// The id the next job gets.
    pub fn upcoming_job_id(&self) -> (n: u32)
        ensures
            n == self.next_job(),
    {
        self.next_job
    }

    /// The revision of the settings the rows are planned with.
    pub fn revision(&self) -> (r: u32)
        ensures
            r == self.settings_revision(),
    {
        self.revision
    }

    /// A new job id.
    pub fn next_job_id(&mut self) -> (id: u32)
        requires
            old(self).wf(),
            old(self).next_job() < u32::MAX,
        ensures
            final(self).wf(),
            id == old(self).next_job(),
            final(self).next_job() == old(self).next_job() + 1,
            final(self).entries() == old(self).entries(),
            final(self).next_file_id() == old(self).next_file_id(),
            final(self).settings_revision() == old(self).settings_revision(),
            final(self).history() == old(self).history(),
    {
        let id = self.next_job;
        self.next_job = self.next_job + 1;
        assert(self.entries() == old(self).entries());
        id
    }

    /// The positions of `ids` that are in the session, in the order of `ids`; unknown ids are
    /// left out.
    pub fn positions(&self, ids: &[u32]) -> (found: Vec<usize>)
        ensures
            found@.len() <= ids@.len(),
            forall|k: int| 0 <= k < found@.len() ==> (#[trigger] found@[k]) < self.entries().len(),
            found@.map_values(|p: usize| self.entries()[p as int].0)
                == ids@.filter(|id: u32| self.has_id(id)),
    {
        let mut found: Vec<usize> = Vec::new();
        let n = ids.len();
        let mut i: usize = 0;
        while i < n
            invariant
                n == ids@.len(),
                0 <= i <= n,
                found@.len() <= i,
                forall|k: int| 0 <= k < found@.len() ==> (#[trigger] found@[k]) < self.entries().len(),
                found@.map_values(|p: usize| self.entries()[p as int].0)
                    == ids@.take(i as int).filter(|id: u32| self.has_id(id)),
            decreases n - i,
        {
            let ghost before = found@;
            proof {
                assert(ids@.take(i + 1).drop_last() =~= ids@.take(i as int));
                reveal_with_fuel(Seq::<u32>::filter, 1);
            }
            match self.position(ids[i]) {
                Some(p) => {
                    found.push(p);
                    assert(found@.map_values(|p: usize| self.entries()[p as int].0)
                        =~= before.map_values(|p: usize| self.entries()[p as int].0).push(ids@[i as int]));
                },
                None => {},
            }
            i = i + 1;
        }
        assert(ids@.take(n as int) =~= ids@);
        found
    }
}

/// `n`, or `u32::MAX` when it does not fit.
pub fn saturating_u32(n: usize) -> (r: u32)
    ensures
        r == if n <= u32::MAX { n as u32 } else { u32::MAX },
{
    if n <= 0xffff_ffffusize {
        n as u32
    } else {
        0xffff_ffffu32
    }
}

/// A count of milliseconds as an IPC `u32`: `u32::MAX` when it does not fit.
pub fn millis(ms: u128) -> (r: u32)
    ensures
        r == if ms <= u32::MAX { ms as u32 } else { u32::MAX },
{
    if ms <= 0xffff_ffffu128 {
        ms as u32
    } else {
        0xffff_ffffu32
    }
}

/// Over any run of adds and clears from a new session, file ids continue 1, 2, 3, ... and are
/// never reused: the ids handed out are the first whole numbers in order, the next id is one
/// past them, a clear keeps it, and an add of a file already listed hands out none. A
/// well-formed [`Session`] stands where `replay` of its history puts it, and `add_path` returns
/// the id this hands out, so the law holds of every session.
pub proof fn ids_continue_over_any_run(steps: Seq<Option<Seq<char>>>, path: Seq<char>)
    ensures
        forall|k: int| 0 <= k < replay(steps).2.len() ==> #[trigger] replay(steps).2[k] == k + 1,
        replay(steps).0 == replay(steps).2.len() + 1,
        replay(steps.push(None)).0 == replay(steps).0,
        replay(steps.push(None)).1 == Seq::<(u32, Seq<char>)>::empty(),
        listed(replay(steps).1, nfc(path)) ==> replay(steps.push(Some(path))).2 == replay(steps).2,
        !listed(replay(steps).1, nfc(path)) ==> replay(steps.push(Some(path))).2 == replay(steps).2.push(replay(steps).0),
    decreases steps.len(),
{
    assert(steps.push(None).drop_last() =~= steps);
    assert(steps.push(Some(path)).drop_last() =~= steps);
    if steps.len() > 0 {
        let last = steps.last();
        let p = match last { Some(q) => q, None => path };
        ids_continue_over_any_run(steps.drop_last(), p);
    }
}

/// Ids are never reused: the id the next added file gets is larger than the id of every file
/// in the session, and clearing the session does not lower it.
pub proof fn ids_are_never_reused(r: Session, i: int)
    requires
        r.wf(),
        0 <= i < r.entries().len(),
    ensures
        r.entries()[i].0 < r.next_file_id(),
{
}

} // verus!
