//! Turning what the user dropped into rows: which entries of a folder are visited and in what
//! order, and which files are kept (each file once, by its NFC-normalised path).
use vstd::prelude::*;

use unicode_normalization::UnicodeNormalization;

use crate::codec::{is_audio, is_audio_extension, lower_extension};
use crate::natural::{flip, natural_order, natural_order_is_antisymmetric, natural_order_of, Order};
use crate::text::chars_of;

verus! {

/// Names the Unicode Normalization Form C (canonical decomposition followed by canonical
/// composition, UAX #15) of `s`, as `unicode_normalization` computes it.
pub uninterp spec fn nfc(s: Seq<char>) -> Seq<char>;

/// `s` in NFC, through `unicode_normalization::UnicodeNormalization::nfc`; the contract
/// claims only that the result is the named normal form of `s`.
#[verifier::external_body]
pub(crate) fn nfc_of(s: &str) -> (r: String)
    ensures
        r@ == nfc(s@),
{
    s.nfc().collect()
}

/// The NFC keys of the files kept so far; no key occurs twice.
#[derive(Debug, Clone)]
pub struct Seen {
    keys: Vec<String>,
}

impl View for Seen {
    type V = Seq<Seq<char>>;

    closed spec fn view(&self) -> Seq<Seq<char>> {
        self.keys@.map_values(|k: String| k@)
    }
}

impl Seen {
    /// No key occurs twice.
    pub open spec fn wf(&self) -> bool {
        self@.no_duplicates()
    }

    /// Nothing seen yet.
    pub fn new() -> (s: Self)
        ensures
            s.wf(),
            s@ == Seq::<Seq<char>>::empty(),
    {
        let s = Seen { keys: Vec::new() };
        assert(s@ =~= Seq::<Seq<char>>::empty());
        s
    }

    /// Whether `key` was seen.
    fn contains(&self, key: &String) -> (r: bool)
        ensures
            r == self@.contains(key@),
    {
        let n = self.keys.len();
        let mut i: usize = 0;
        while i < n
            invariant
                n == self.keys@.len(),
                0 <= i <= n,
                forall|j: int| 0 <= j < i ==> self@[j] != key@,
            decreases n - i,
        {
            if self.keys[i].eq(key) {
                assert(self@[i as int] == key@);
                return true;
            }
            i = i + 1;
        }
        assert(!self@.contains(key@));
        false
    }

    /// Records `text`'s NFC form; true when it was new.
    pub fn insert(&mut self, text: &str) -> (added: bool)
        requires
            old(self).wf(),
        ensures
            final(self).wf(),
            added == !old(self)@.contains(nfc(text@)),
            final(self)@ == if added { old(self)@.push(nfc(text@)) } else { old(self)@ },
    {
        let key = nfc_of(text);
        if self.contains(&key) {
            false
        } else {
            let ghost before = self@;
            self.keys.push(key);
            assert(self@ =~= before.push(nfc(text@)));
            proof {
                assert forall|i: int, j: int|
                    0 <= i < self@.len() && 0 <= j < self@.len() && i != j implies self@[i] != self@[j] by {
                    if i < before.len() && j < before.len() {
                    } else if i == before.len() {
                        assert(self@[i] == nfc(text@));
                        assert(before[j] == self@[j]);
                    } else {
                        assert(before[i] == self@[i]);
                    }
                }
            }
            true
        }
    }
}

/// Appends `path` to `out` unless a path with the same NFC form of `name` (the path as text)
/// was kept before.
pub fn push_unique<P>(path: P, name: &str, seen: &mut Seen, out: &mut Vec<P>)
    requires
        old(seen).wf(),
    ensures
        final(seen).wf(),
        old(seen)@.contains(nfc(name@)) ==> final(out)@ == old(out)@ && final(seen)@ == old(seen)@,
        !old(seen)@.contains(nfc(name@)) ==> final(out)@ == old(out)@.push(path)
            && final(seen)@ == old(seen)@.push(nfc(name@)),
{
    if seen.insert(name) {
        out.push(path);
    }
}

/// A hidden entry: its name has a single leading `.` (`.Trash`, `.hidden.wav`, and the macOS
/// `._` resource files). A name led by several dots, such as an album folder called
/// `...Baby One More Time`, is an ordinary name.
pub open spec fn is_hidden(name: Seq<char>) -> bool {
    name.len() > 0 && name[0] == '.' && !(name.len() > 1 && name[1] == '.')
}

fn hidden(name: &Vec<char>) -> (r: bool)
    ensures
        r == is_hidden(name@),
{
    name.len() > 0 && name[0] == '.' && !(name.len() > 1 && name[1] == '.')
}

/// Whether an entry called `name` is hidden, so a folder walk leaves it out.
pub fn hidden_name(name: &str) -> (r: bool)
    ensures
        r == is_hidden(name@),
{
    hidden(&chars_of(name))
}

/// `order` lists each visible name's index once, and nothing else.
pub open spec fn lists_visible(names: Seq<Seq<char>>, order: Seq<usize>) -> bool {
    &&& order.no_duplicates()
    &&& forall|k: int| 0 <= k < order.len() ==> (#[trigger] order[k]) < names.len() && !is_hidden(names[order[k] as int])
    &&& forall|i: int| 0 <= i < names.len() && !is_hidden(names[i]) ==> #[trigger] order.contains(i as usize)
}

/// Neighbours in `order` are in natural order.
pub open spec fn naturally_sorted(names: Seq<Seq<char>>, order: Seq<usize>) -> bool {
    forall|k: int|
        0 <= k < order.len() - 1 ==> natural_order(names[#[trigger] order[k] as int], names[order[k + 1] as int]) != Order::Greater
}

/// Entries of `order` are below `i` and name visible entries.
pub open spec fn visible_below(ns: Seq<Seq<char>>, order: Seq<usize>, i: int) -> bool {
    forall|k: int| 0 <= k < order.len() ==> (#[trigger] order[k]) < i && !is_hidden(ns[order[k] as int])
}

/// Every visible name below `i` is in `order`.
pub open spec fn complete_below(ns: Seq<Seq<char>>, order: Seq<usize>, i: int) -> bool {
    forall|m: int| 0 <= m < i && !is_hidden(ns[m]) ==> #[trigger] order.contains(m as usize)
}

/// The first `i` names are listed: `order` holds each visible one among them once, in natural
/// order.
#[verifier::opaque]
pub open spec fn listed_up_to(ns: Seq<Seq<char>>, order: Seq<usize>, i: int) -> bool {
    &&& order.no_duplicates()
    &&& visible_below(ns, order, i)
    &&& complete_below(ns, order, i)
    &&& naturally_sorted(ns, order)
}

proof fn lemma_insert_bounds(ns: Seq<Seq<char>>, before: Seq<usize>, p: int, i: int)
    requires
        0 <= i < ns.len(),
        i <= usize::MAX,
        visible_below(ns, before, i),
        !is_hidden(ns[i]),
        0 <= p <= before.len(),
    ensures
        visible_below(ns, before.insert(p, i as usize), i + 1),
{
    let order = before.insert(p, i as usize);
    assert forall|k: int| 0 <= k < order.len() implies (#[trigger] order[k]) < i + 1 && !is_hidden(ns[order[k] as int]) by {
        if k < p {
            assert(order[k] == before[k]);
        } else if k > p {
            assert(order[k] == before[k - 1]);
        }
    }
}

proof fn lemma_insert_distinct(before: Seq<usize>, p: int, x: usize)
    requires
        before.no_duplicates(),
        !before.contains(x),
        0 <= p <= before.len(),
    ensures
        before.insert(p, x).no_duplicates(),
{
    let order = before.insert(p, x);
    assert forall|a: int, b: int| 0 <= a < order.len() && 0 <= b < order.len() && a != b implies order[a] != order[b] by {
        if a != p && b != p {
            let aa = if a < p { a } else { a - 1 };
            let bb = if b < p { b } else { b - 1 };
            assert(order[a] == before[aa]);
            assert(order[b] == before[bb]);
        } else if a == p {
            let bb = if b < p { b } else { b - 1 };
            assert(order[b] == before[bb]);
        } else {
            let aa = if a < p { a } else { a - 1 };
            assert(order[a] == before[aa]);
        }
    }
}

proof fn lemma_insert_complete(ns: Seq<Seq<char>>, before: Seq<usize>, p: int, i: int)
    requires
        0 <= i < ns.len(),
        i <= usize::MAX,
        complete_below(ns, before, i),
        0 <= p <= before.len(),
    ensures
        complete_below(ns, before.insert(p, i as usize), i + 1),
{
    let order = before.insert(p, i as usize);
    assert forall|m: int| 0 <= m < i + 1 && !is_hidden(ns[m]) implies #[trigger] order.contains(m as usize) by {
        if m == i {
            assert(order[p] == i as usize);
        } else {
            assert(before.contains(m as usize));
            let w = choose|w: int| 0 <= w < before.len() && before[w] == m as usize;
            if w < p {
                assert(order[w] == m as usize);
            } else {
                assert(order[w + 1] == m as usize);
            }
        }
    }
}

#[verifier::rlimit(60)]
proof fn lemma_insert_sorted(ns: Seq<Seq<char>>, before: Seq<usize>, p: int, i: int)
    requires
        0 <= i < ns.len(),
        i <= usize::MAX,
        naturally_sorted(ns, before),
        0 <= p <= before.len(),
        forall|k: int| 0 <= k < p ==> natural_order(ns[#[trigger] before[k] as int], ns[i]) != Order::Greater,
        p < before.len() ==> natural_order(ns[before[p] as int], ns[i]) == Order::Greater,
    ensures
        naturally_sorted(ns, before.insert(p, i as usize)),
{
    let order = before.insert(p, i as usize);
    assert forall|k: int| 0 <= k < order.len() - 1 implies natural_order(ns[#[trigger] order[k] as int], ns[order[k + 1] as int]) != Order::Greater by {
        if k + 1 < p {
            assert(order[k] == before[k] && order[k + 1] == before[k + 1]);
        } else if k + 1 == p {
            assert(order[k] == before[k]);
        } else if k == p {
            assert(order[k + 1] == before[k]);
            natural_order_is_antisymmetric(ns[i], ns[before[k] as int]);
        } else {
            assert(order[k] == before[k - 1] && order[k + 1] == before[k]);
        }
    }
}

/// A hidden name leaves the listing as it is.
proof fn lemma_skip_hidden(ns: Seq<Seq<char>>, order: Seq<usize>, i: int)
    requires
        0 <= i < ns.len(),
        listed_up_to(ns, order, i),
        is_hidden(ns[i]),
    ensures
        listed_up_to(ns, order, i + 1),
{
    reveal(listed_up_to);
}

/// Inserting a visible name before the first entry that sorts strictly after it keeps the
/// listing complete, free of repeats and in natural order.
#[verifier::rlimit(60)]
proof fn lemma_insert_visible(ns: Seq<Seq<char>>, before: Seq<usize>, p: int, i: int)
    requires
        0 <= i < ns.len(),
        i <= usize::MAX,
        listed_up_to(ns, before, i),
        !is_hidden(ns[i]),
        0 <= p <= before.len(),
        forall|k: int| 0 <= k < p ==> natural_order(ns[#[trigger] before[k] as int], ns[i]) != Order::Greater,
        p < before.len() ==> natural_order(ns[before[p] as int], ns[i]) == Order::Greater,
    ensures
        listed_up_to(ns, before.insert(p, i as usize), i + 1),
{
    let order = before.insert(p, i as usize);
    assert(before.no_duplicates() && visible_below(ns, before, i) && complete_below(ns, before, i)
        && naturally_sorted(ns, before)) by {
        reveal(listed_up_to);
    }
    assert(!before.contains(i as usize)) by {
        if before.contains(i as usize) {
            let w = choose|w: int| 0 <= w < before.len() && before[w] == i as usize;
            assert(before[w] < i);
        }
    }
    lemma_insert_bounds(ns, before, p, i);
    lemma_insert_distinct(before, p, i as usize);
    lemma_insert_complete(ns, before, p, i);
    lemma_insert_sorted(ns, before, p, i);
    reveal(listed_up_to);
}

/// A listing of all names is what the caller is promised.
proof fn lemma_listed_all(ns: Seq<Seq<char>>, order: Seq<usize>)
    requires
        listed_up_to(ns, order, ns.len() as int),
    ensures
        lists_visible(ns, order),
        naturally_sorted(ns, order),
{
    reveal(listed_up_to);
}

/// The first position in `order` at or after `p` whose name sorts strictly after name `i`, or
/// the length of `order`.
pub open spec fn first_after(ns: Seq<Seq<char>>, order: Seq<usize>, i: int, p: int) -> int
    decreases order.len() - p,
{
    if p < 0 || p >= order.len() {
        order.len() as int
    } else if natural_order(ns[order[p] as int], ns[i]) == Order::Greater {
        p
    } else {
        first_after(ns, order, i, p + 1)
    }
}

/// The listing of the first `i` names, built one name at a time: a hidden name is left out,
/// any other goes just before the first listed name that sorts strictly after it.
pub open spec fn insertion_order(ns: Seq<Seq<char>>, i: nat) -> Seq<usize>
    decreases i,
{
    if i == 0 {
        Seq::empty()
    } else {
        let o = insertion_order(ns, (i - 1) as nat);
        let j = i - 1;
        if is_hidden(ns[j]) {
            o
        } else {
            o.insert(first_after(ns, o, j, 0), j as usize)
        }
    }
}

/// The entries of a folder in the order a file browser lists them: hidden names left out, the
/// others in natural order ("Track 2" before "Track 10"), equal names in their given order.
pub fn listing_order(names: &Vec<String>) -> (order: Vec<usize>)
    ensures
        lists_visible(names@.map_values(|s: String| s@), order@),
        naturally_sorted(names@.map_values(|s: String| s@), order@),
        order@ == insertion_order(names@.map_values(|s: String| s@), names@.len()),
{
    let ghost ns = names@.map_values(|s: String| s@);
    let n = names.len();
    let mut chars: Vec<Vec<char>> = Vec::new();
    let mut i: usize = 0;
    while i < n
        invariant
            n == names@.len(),
            ns == names@.map_values(|s: String| s@),
            0 <= i <= n,
            chars@.len() == i,
            forall|k: int| 0 <= k < i ==> (#[trigger] chars@[k])@ == ns[k],
        decreases n - i,
    {
        chars.push(chars_of(names[i].as_str()));
        i = i + 1;
    }
    let mut order: Vec<usize> = Vec::new();
    proof {
        reveal(listed_up_to);
    }
    let mut i: usize = 0;
    while i < n
        invariant
            ns.len() == n,
            chars@.len() == n,
            forall|k: int| 0 <= k < n ==> (#[trigger] chars@[k])@ == ns[k],
            0 <= i <= n,
            listed_up_to(ns, order@, i as int),
            order@ == insertion_order(ns, i as nat),
        decreases n - i,
    {
        if !hidden(&chars[i]) {
            assert(visible_below(ns, order@, i as int)) by {
                reveal(listed_up_to);
            }
            // First position whose name sorts strictly after this one.
            let len = order.len();
            let mut p: usize = 0;
            while p < len && natural_order_of(&chars[order[p]], &chars[i]) != Order::Greater
                invariant
                    len == order@.len(),
                    chars@.len() == n,
                    i < n,
                    forall|k: int| 0 <= k < n ==> (#[trigger] chars@[k])@ == ns[k],
                    forall|k: int| 0 <= k < order@.len() ==> (#[trigger] order@[k]) < i,
                    0 <= p <= len,
                    forall|k: int| 0 <= k < p ==> natural_order(ns[#[trigger] order@[k] as int], ns[i as int]) != Order::Greater,
                    first_after(ns, order@, i as int, p as int) == first_after(ns, order@, i as int, 0),
                decreases len - p,
            {
                p = p + 1;
            }
            proof {
                lemma_insert_visible(ns, order@, p as int, i as int);
                assert(first_after(ns, order@, i as int, p as int) == p);
            }
            order.insert(p, i);
        } else {
            proof {
                lemma_skip_hidden(ns, order@, i as int);
            }
        }
        i = i + 1;
    }
    proof {
        lemma_listed_all(ns, order@);
    }
    order
}

/// One entry of a folder as read from disk, without following links.
#[derive(Debug)]
pub struct Node {
    /// The entry's file name.
    pub name: String,
    /// The entry's full path.
    pub path: String,
    /// What the entry is.
    pub kind: Kind,
}

/// What a folder entry is.
#[derive(Debug)]
pub enum Kind {
    /// A regular file.
    File,
    /// A folder, with its entries (none when it cannot be read).
    Folder(Vec<Node>),
    /// A symbolic link, or an entry whose type cannot be read or is neither file nor folder.
    Other,
}

/// What the user dropped: a folder (a link to one is followed) with its entries, or any other
/// path.
#[derive(Debug)]
pub enum Dropped {
    /// A folder and its entries (none when it cannot be read).
    Folder(Vec<Node>),
    /// Anything else, whether or not it exists.
    Path(String),
}

/// The names of `es`.
pub open spec fn names_of(es: Seq<Node>) -> Seq<Seq<char>> {
    es.map_values(|e: Node| e.name@)
}

/// The order in which a folder with entries `es` is listed.
pub open spec fn listing_of(es: Seq<Node>) -> Seq<usize> {
    insertion_order(names_of(es), es.len())
}

/// Whether a path names a file SoundCheck opens, by its extension in any case.
pub open spec fn audio_path(p: Seq<char>) -> bool {
    lower_extension(p) matches Some(e) && is_audio_extension(e)
}

/// The audio files at and under `n`, in listing order, repeats included.
pub open spec fn files_of(n: Node) -> Seq<Seq<char>>
    decreases n, 0nat,
{
    match n.kind {
        Kind::File => if audio_path(n.path@) {
            seq![n.path@]
        } else {
            Seq::empty()
        },
        Kind::Folder(es) => files_listed(es, listing_of(es@), listing_of(es@).len() as int),
        Kind::Other => Seq::empty(),
    }
}

/// The audio files under the first `k` entries of `es` in `order`.
pub open spec fn files_listed(es: Vec<Node>, order: Seq<usize>, k: int) -> Seq<Seq<char>>
    decreases es, k,
{
    if k <= 0 || k > order.len() {
        Seq::empty()
    } else {
        let prev = files_listed(es, order, k - 1);
        let i = order[k - 1] as int;
        if 0 <= i < es.len() {
            prev + files_of(es[i])
        } else {
            prev
        }
    }
}

/// The audio files of one dropped item, repeats included.
pub open spec fn dropped_files(d: Dropped) -> Seq<Seq<char>> {
    match d {
        Dropped::Folder(es) => files_listed(es, listing_of(es@), listing_of(es@).len() as int),
        Dropped::Path(p) => if audio_path(p@) {
            seq![p@]
        } else {
            Seq::empty()
        },
    }
}

/// The audio files of the first `k` dropped items, repeats included.
pub open spec fn all_dropped(ds: Seq<Dropped>, k: int) -> Seq<Seq<char>>
    decreases k,
{
    if k <= 0 || k > ds.len() {
        Seq::empty()
    } else {
        all_dropped(ds, k - 1) + dropped_files(ds[k - 1])
    }
}

/// The NFC keys of paths.
pub open spec fn keys(ps: Seq<Seq<char>>) -> Seq<Seq<char>> {
    ps.map_values(|p: Seq<char>| nfc(p))
}

/// `ps` with every path whose NFC form came before left out.
pub open spec fn kept(ps: Seq<Seq<char>>) -> Seq<Seq<char>>
    decreases ps.len(),
{
    if ps.len() == 0 {
        ps
    } else {
        let k = kept(ps.drop_last());
        if keys(k).contains(nfc(ps.last())) {
            k
        } else {
            k.push(ps.last())
        }
    }
}

/// The characters of strings.
pub open spec fn string_views(v: Seq<String>) -> Seq<Seq<char>> {
    v.map_values(|s: String| s@)
}

/// Keeps `path` after the files `before` were considered.
fn keep(path: &String, seen: &mut Seen, out: &mut Vec<String>, Ghost(before): Ghost<Seq<Seq<char>>>)
    requires
        old(seen).wf(),
        old(seen)@ == keys(string_views(old(out)@)),
        string_views(old(out)@) == kept(before),
    ensures
        final(seen).wf(),
        final(seen)@ == keys(string_views(final(out)@)),
        string_views(final(out)@) == kept(before.push(path@)),
{
    let ghost old_out = string_views(out@);
    assert(before.push(path@).drop_last() =~= before);
    push_unique(path.clone(), path.as_str(), seen, out);
    assert(string_views(out@) =~= kept(before.push(path@)));
    assert(seen@ =~= keys(string_views(out@)));
}

/// The names of `es`, in order.
fn entry_names(es: &Vec<Node>) -> (names: Vec<String>)
    ensures
        names@.map_values(|s: String| s@) == names_of(es@),
{
    let mut names: Vec<String> = Vec::new();
    let n = es.len();
    let mut i: usize = 0;
    while i < n
        invariant
            n == es@.len(),
            0 <= i <= n,
            names@.map_values(|s: String| s@) == names_of(es@).take(i as int),
        decreases n - i,
    {
        let nm = es[i].name.clone();
        assert(nm@ == es@[i as int].name@);
        let ghost before = names@;
        names.push(nm);
        assert(names@.map_values(|s: String| s@) =~= before.map_values(|s: String| s@).push(nm@));
        assert(names_of(es@).take(i + 1) =~= names_of(es@).take(i as int).push(es@[i as int].name@));
        i = i + 1;
        assert(names@.map_values(|s: String| s@) =~= names_of(es@).take(i as int));
    }
    assert(names_of(es@).take(n as int) =~= names_of(es@));
    names
}

/// Walks a folder with entries `es` in listing order, keeping the audio files not seen before,
/// after the files `before` were considered.
fn walk(es: &Vec<Node>, seen: &mut Seen, out: &mut Vec<String>, Ghost(before): Ghost<Seq<Seq<char>>>)
    requires
        old(seen).wf(),
        old(seen)@ == keys(string_views(old(out)@)),
        string_views(old(out)@) == kept(before),
    ensures
        final(seen).wf(),
        final(seen)@ == keys(string_views(final(out)@)),
        string_views(final(out)@) == kept(before + files_listed(*es, listing_of(es@), listing_of(es@).len() as int)),
    decreases es,
{
    let names = entry_names(es);
    let order = listing_order(&names);
    let ghost o = listing_of(es@);
    assert(names@.map_values(|s: String| s@).len() == names@.len());
    assert(names_of(es@).len() == es@.len());
    assert(order@ == o);
    let m = order.len();
    let mut k: usize = 0;
    assert(before + files_listed(*es, o, 0) =~= before);
    while k < m
        invariant
            m == order@.len(),
            order@ == o,
            o == listing_of(es@),
            names@.map_values(|s: String| s@) == names_of(es@),
            lists_visible(names@.map_values(|s: String| s@), order@),
            names@.len() == es@.len(),
            0 <= k <= m,
            seen.wf(),
            seen@ == keys(string_views(out@)),
            string_views(out@) == kept(before + files_listed(*es, o, k as int)),
        decreases m - k,
    {
        let i = order[k];
        assert(i < names@.len());
        let ghost done = before + files_listed(*es, o, k as int);
        assert(files_listed(*es, o, k + 1) == files_listed(*es, o, k as int) + files_of(es@[i as int]));
        let e = &es[i];
        match &e.kind {
            Kind::File => {
                if is_audio(e.path.as_str()) {
                    keep(&e.path, seen, out, Ghost(done));
                    assert(done.push(e.path@) =~= before + files_listed(*es, o, k + 1));
                } else {
                    assert(done =~= before + files_listed(*es, o, k + 1));
                }
            },
            Kind::Folder(children) => {
                walk(children, seen, out, Ghost(done));
                assert(done + files_listed(*children, listing_of(children@), listing_of(children@).len() as int)
                    =~= before + files_listed(*es, o, k + 1));
            },
            Kind::Other => {
                assert(done =~= before + files_listed(*es, o, k + 1));
            },
        }
        k = k + 1;
    }
}

/// Audio files under what the user dropped, in the order a file browser lists them: each
/// dropped item in turn, folders walked depth first with names in natural order ("Track 2"
/// before "Track 10"). Hidden entries (a single leading `.`, which includes macOS `._` resource
/// files; see [`is_hidden`]) and links inside folders are skipped; a dropped path that is not a folder is kept when its
/// extension is an audio one. A file reached twice (the same NFC path) appears once.
pub fn collect_audio_files(dropped: &Vec<Dropped>) -> (files: Vec<String>)
    ensures
        string_views(files@) == kept(all_dropped(dropped@, dropped@.len() as int)),
{
    let mut seen = Seen::new();
    let mut out: Vec<String> = Vec::new();
    let n = dropped.len();
    let mut k: usize = 0;
    assert(string_views(out@) =~= Seq::<Seq<char>>::empty());
    assert(keys(string_views(out@)) =~= Seq::<Seq<char>>::empty());
    while k < n
        invariant
            n == dropped@.len(),
            0 <= k <= n,
            seen.wf(),
            seen@ == keys(string_views(out@)),
            string_views(out@) == kept(all_dropped(dropped@, k as int)),
        decreases n - k,
    {
        let ghost done = all_dropped(dropped@, k as int);
        assert(all_dropped(dropped@, k + 1) == done + dropped_files(dropped@[k as int]));
        match &dropped[k] {
            Dropped::Folder(es) => {
                walk(es, &mut seen, &mut out, Ghost(done));
            },
            Dropped::Path(p) => {
                if is_audio(p.as_str()) {
                    keep(p, &mut seen, &mut out, Ghost(done));
                    assert(done.push(p@) =~= all_dropped(dropped@, k + 1));
                } else {
                    assert(done =~= all_dropped(dropped@, k + 1));
                }
            },
        }
        k = k + 1;
    }
    out
}

/// Each file appears once and none is lost: among the kept paths no NFC form occurs twice, and
/// every path considered has its NFC form among them.
pub proof fn each_file_is_kept_once(ps: Seq<Seq<char>>)
    ensures
        keys(kept(ps)).no_duplicates(),
        forall|i: int| 0 <= i < ps.len() ==> keys(kept(ps)).contains(nfc(#[trigger] ps[i])),
    decreases ps.len(),
{
    if ps.len() > 0 {
        let rest = ps.drop_last();
        each_file_is_kept_once(rest);
        let k = kept(rest);
        let x = ps.last();
        if !keys(k).contains(nfc(x)) {
            assert(keys(k.push(x)) =~= keys(k).push(nfc(x)));
            assert forall|a: int, b: int| 0 <= a < keys(k.push(x)).len() && 0 <= b < keys(k.push(x)).len() && a != b
                implies keys(k.push(x))[a] != keys(k.push(x))[b] by {
                if a < keys(k).len() && b < keys(k).len() {
                } else if a == keys(k).len() {
                    assert(keys(k)[b] == keys(k.push(x))[b]);
                } else {
                    assert(keys(k)[a] == keys(k.push(x))[a]);
                }
            }
        }
        assert forall|i: int| 0 <= i < ps.len() implies keys(kept(ps)).contains(nfc(#[trigger] ps[i])) by {
            if i < rest.len() {
                assert(rest[i] == ps[i]);
                assert(keys(k).contains(nfc(rest[i])));
                if !keys(k).contains(nfc(x)) {
                    let w = choose|w: int| 0 <= w < keys(k).len() && keys(k)[w] == nfc(rest[i]);
                    assert(keys(k.push(x))[w] == keys(k)[w]);
                }
            } else {
                assert(ps[i] == x);
                if !keys(k).contains(nfc(x)) {
                    assert(keys(k.push(x))[keys(k).len() as int] == nfc(x));
                }
            }
        }
    }
}

} // verus!
