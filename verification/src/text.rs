//! Text building blocks shared by the labels the library prints.
use vstd::prelude::*;

verus! {

/// Decimal digits of `n`, most significant first, without leading zeros ("0" for zero).
pub open spec fn decimal(n: nat) -> Seq<char>
    decreases n,
{
    if n < 10 {
        seq![digit_char(n)]
    } else {
        decimal(n / 10).push(digit_char(n % 10))
    }
}

/// The ASCII digit for `d` in `0..10`.
pub open spec fn digit_char(d: nat) -> char {
    if d == 0 { '0' } else if d == 1 { '1' } else if d == 2 { '2' } else if d == 3 { '3' }
    else if d == 4 { '4' } else if d == 5 { '5' } else if d == 6 { '6' } else if d == 7 { '7' }
    else if d == 8 { '8' } else { '9' }
}

/// The ASCII digit for `d`, which is below ten.
pub fn digit(d: u32) -> (c: char)
    requires d < 10,
    ensures c == digit_char(d as nat),
{
    if d == 0 { '0' } else if d == 1 { '1' } else if d == 2 { '2' } else if d == 3 { '3' }
    else if d == 4 { '4' } else if d == 5 { '5' } else if d == 6 { '6' } else if d == 7 { '7' }
    else if d == 8 { '8' } else { '9' }
}

/// Appends the decimal digits of `n` to `out`.
pub fn push_decimal(out: &mut Vec<char>, n: u32)
    ensures
        final(out)@ == old(out)@ + decimal(n as nat),
    decreases n,
{
    if n < 10 {
        out.push(digit(n));
    } else {
        push_decimal(out, n / 10);
        out.push(digit(n % 10));
    }
}

/// The characters of `s`, in order.
pub fn chars_of(s: &str) -> (v: Vec<char>)
    ensures
        v@ == s@,
{
    let mut v: Vec<char> = Vec::new();
    for c in it: s.chars()
        invariant
            v@ == it.seq().take(it.index() as int),
            it.seq() == s@,
    {
        v.push(c);
    }
    v
}

/// The string made of `chars`.
#[verifier::external_body]
pub(crate) fn string_from(chars: &Vec<char>) -> (s: String)
    ensures
        s@ == chars@,
{
    chars.iter().collect()
}

/// Whether `needle` stands in `hay` starting at index `i`.
pub open spec fn occurs_at(hay: Seq<char>, needle: Seq<char>, i: int) -> bool {
    0 <= i && i + needle.len() <= hay.len() && hay.subrange(i, i + needle.len()) == needle
}

/// Whether `needle` stands somewhere in `hay`, as `str::contains` with a string pattern finds it.
pub open spec fn contains(hay: Seq<char>, needle: Seq<char>) -> bool {
    exists|i: int| occurs_at(hay, needle, i)
}

/// Whether `needle` stands somewhere in `hay`.
pub fn has_part(hay: &Vec<char>, needle: &str) -> (b: bool)
    ensures
        b == contains(hay@, needle@),
{
    let nd = chars_of(needle);
    let n = nd.len();
    let h = hay.len();
    if n > h {
        assert forall|j: int| !occurs_at(hay@, nd@, j) by {}
        return false;
    }
    let mut i: usize = 0;
    while i <= h - n
        invariant
            n == nd@.len(),
            h == hay@.len(),
            n <= h,
            nd@ == needle@,
            forall|j: int| 0 <= j < i ==> !occurs_at(hay@, nd@, j),
        decreases h - n + 1 - i,
    {
        let mut k: usize = 0;
        let mut same = true;
        while k < n && same
            invariant
                n == nd@.len(),
                h == hay@.len(),
                i + n <= h,
                k <= n,
                same <==> forall|m: int| 0 <= m < k ==> hay@[i + m] == nd@[m],
            decreases n - k,
        {
            if hay[i + k] != nd[k] {
                same = false;
            }
            k = k + 1;
        }
        if same {
            assert(hay@.subrange(i as int, i + n) =~= nd@);
            assert(occurs_at(hay@, nd@, i as int));
            return true;
        }
        assert(!occurs_at(hay@, nd@, i as int)) by {
            if occurs_at(hay@, nd@, i as int) {
                let m = choose|m: int| 0 <= m < k && hay@[i + m] != nd@[m];
                assert(hay@.subrange(i as int, i + n)[m] == hay@[i + m]);
            }
        }
        i = i + 1;
    }
    assert forall|j: int| !occurs_at(hay@, nd@, j) by {
        if 0 <= j < i {
        }
    }
    false
}

/// Names what `str::to_lowercase` gives for `s`: each character's lowercase mapping under the
/// Unicode tables of the standard library, with the final-sigma rule.
pub uninterp spec fn lowercase_text(s: Seq<char>) -> Seq<char>;

/// `s` in lower case, by `str::to_lowercase`.
#[verifier::external_body]
pub(crate) fn lowercase(s: &str) -> (t: Vec<char>)
    ensures
        t@ == lowercase_text(s@),
{
    s.to_lowercase().chars().collect()
}

/// What `char::is_whitespace` says of `c`: whether it has the Unicode `White_Space` property,
/// which holds of exactly these code points: U+0009 to U+000D, U+0020, U+0085, U+00A0, U+1680,
/// U+2000 to U+200A, U+2028, U+2029, U+202F, U+205F and U+3000.
pub open spec fn whitespace(c: char) -> bool {
    let u = c as u32;
    ||| 0x09 <= u <= 0x0d
    ||| u == 0x20
    ||| u == 0x85
    ||| u == 0xa0
    ||| u == 0x1680
    ||| 0x2000 <= u <= 0x200a
    ||| u == 0x2028
    ||| u == 0x2029
    ||| u == 0x202f
    ||| u == 0x205f
    ||| u == 0x3000
}

/// Whether `c` is white space.
fn is_space(c: char) -> (b: bool)
    ensures
        b == whitespace(c),
{
    let u = c as u32;
    (0x09 <= u && u <= 0x0d) || u == 0x20 || u == 0x85 || u == 0xa0 || u == 0x1680
        || (0x2000 <= u && u <= 0x200a) || u == 0x2028 || u == 0x2029 || u == 0x202f
        || u == 0x205f || u == 0x3000
}

/// The index of the first character at or after `i` that is not white space, or the length.
pub open spec fn first_solid(s: Seq<char>, i: int) -> int
    decreases s.len() - i,
{
    if i < 0 || i >= s.len() {
        s.len() as int
    } else if !whitespace(s[i]) {
        i
    } else {
        first_solid(s, i + 1)
    }
}

/// One past the last character before `j` that is not white space, or zero.
pub open spec fn end_solid(s: Seq<char>, j: int) -> int
    decreases j,
{
    if j <= 0 || j > s.len() {
        0
    } else if !whitespace(s[j - 1]) {
        j
    } else {
        end_solid(s, j - 1)
    }
}

/// `s` without its leading white space, as `str::trim_start` gives it.
pub open spec fn trim_start(s: Seq<char>) -> Seq<char> {
    s.skip(first_solid(s, 0))
}

/// `s` without leading and trailing white space, as `str::trim` gives it.
pub open spec fn trim(s: Seq<char>) -> Seq<char> {
    let a = first_solid(s, 0);
    let b = end_solid(s, s.len() as int);
    if a < b {
        s.subrange(a, b)
    } else {
        Seq::empty()
    }
}

proof fn lemma_first_solid_bounds(s: Seq<char>, i: int)
    requires
        0 <= i <= s.len(),
    ensures
        i <= first_solid(s, i) <= s.len(),
        first_solid(s, i) < s.len() ==> !whitespace(s[first_solid(s, i)]),
        forall|k: int| i <= k < first_solid(s, i) ==> whitespace(s[k]),
    decreases s.len() - i,
{
    if i < s.len() && whitespace(s[i]) {
        lemma_first_solid_bounds(s, i + 1);
    }
}

/// The characters of `v` from `lo` to `hi`.
pub fn slice_chars(v: &Vec<char>, lo: usize, hi: usize) -> (out: Vec<char>)
    requires
        lo <= hi <= v@.len(),
    ensures
        out@ == v@.subrange(lo as int, hi as int),
{
    let mut out: Vec<char> = Vec::new();
    let mut i: usize = lo;
    while i < hi
        invariant
            lo <= i <= hi <= v@.len(),
            out@ == v@.subrange(lo as int, i as int),
        decreases hi - i,
    {
        out.push(v[i]);
        i = i + 1;
        assert(out@ =~= v@.subrange(lo as int, i as int));
    }
    out
}

/// The index of the first character of `v` that is not white space, or the length.
fn solid_from(v: &Vec<char>) -> (a: usize)
    ensures
        a == first_solid(v@, 0),
{
    let n = v.len();
    let mut i: usize = 0;
    while i < n && is_space(v[i])
        invariant
            n == v@.len(),
            0 <= i <= n,
            first_solid(v@, i as int) == first_solid(v@, 0),
        decreases n - i,
    {
        i = i + 1;
    }
    i
}

/// `v` without leading and trailing white space.
pub fn trim_chars(v: &Vec<char>) -> (t: Vec<char>)
    ensures
        t@ == trim(v@),
{
    let a = solid_from(v);
    let mut b: usize = v.len();
    while b > 0 && is_space(v[b - 1])
        invariant
            b <= v@.len(),
            end_solid(v@, b as int) == end_solid(v@, v@.len() as int),
        decreases b,
    {
        b = b - 1;
    }
    if a < b {
        slice_chars(v, a, b)
    } else {
        Vec::new()
    }
}

/// `v` without leading white space.
pub fn trim_start_chars(v: &Vec<char>) -> (t: Vec<char>)
    ensures
        t@ == trim_start(v@),
{
    let a = solid_from(v);
    proof { lemma_first_solid_bounds(v@, 0); }
    let t = slice_chars(v, a, v.len());
    assert(t@ =~= trim_start(v@));
    t
}

/// The lines of `rest` as `str::lines` splits them, with the line read so far and the lines
/// done: a `\n` ends a line and takes a `\r` just before it along; a last line without a line
/// ending counts when it is not empty.
pub open spec fn lines_scan(rest: Seq<char>, line: Seq<char>, lines: Seq<Seq<char>>) -> Seq<Seq<char>>
    decreases rest.len(),
{
    if rest.len() == 0 {
        if line.len() == 0 {
            lines
        } else {
            lines.push(line)
        }
    } else if rest[0] == '\n' {
        let ended = if line.len() > 0 && line.last() == '\r' { line.drop_last() } else { line };
        lines_scan(rest.drop_first(), Seq::empty(), lines.push(ended))
    } else {
        lines_scan(rest.drop_first(), line.push(rest[0]), lines)
    }
}

/// The lines of `text`, as `str::lines` gives them.
pub open spec fn lines_of(text: Seq<char>) -> Seq<Seq<char>> {
    lines_scan(text, Seq::empty(), Seq::empty())
}

/// The views of a vector of character vectors.
pub open spec fn views(v: Seq<Vec<char>>) -> Seq<Seq<char>> {
    v.map_values(|c: Vec<char>| c@)
}

/// The lines of `v`.
pub fn split_lines(v: &Vec<char>) -> (lines: Vec<Vec<char>>)
    ensures
        views(lines@) == lines_of(v@),
{
    let n = v.len();
    let mut done: Vec<Vec<char>> = Vec::new();
    let mut line: Vec<char> = Vec::new();
    let mut i: usize = 0;
    assert(v@.skip(0) =~= v@);
    assert(views(done@) =~= Seq::<Seq<char>>::empty());
    while i < n
        invariant
            n == v@.len(),
            0 <= i <= n,
            lines_scan(v@.skip(i as int), line@, views(done@)) == lines_of(v@),
        decreases n - i,
    {
        let c = v[i];
        let ghost rest = v@.skip(i as int);
        assert(rest[0] == c);
        assert(rest.drop_first() =~= v@.skip(i + 1));
        if c == '\n' {
            let ghost before = views(done@);
            let mut ended = line;
            if ended.len() > 0 && ended[ended.len() - 1] == '\r' {
                let ghost full = ended@;
                ended.pop();
                assert(ended@ =~= full.drop_last());
            }
            done.push(ended);
            line = Vec::new();
            assert(views(done@) =~= before.push(ended@));
            assert(line@ =~= Seq::<char>::empty());
        } else {
            line.push(c);
        }
        i = i + 1;
    }
    assert(v@.skip(n as int) =~= Seq::<char>::empty());
    if line.len() > 0 {
        let ghost before = views(done@);
        done.push(line);
        assert(views(done@) =~= before.push(line@));
    }
    done
}

} // verus!
