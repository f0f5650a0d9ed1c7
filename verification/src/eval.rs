//! Helpers of the evaluation against hand labels: splitting CSV lines, counting scores, and the
//! text of labelled meters and long file names.
use vstd::prelude::*;

use crate::meter::grouping_suffix;
use crate::codec::{ascii_lower_all, lower_all};
use crate::expand::{nfc, nfc_of};
use crate::text::{
    chars_of, lines_of, slice_chars, split_lines, string_from, trim, trim_chars, trim_start,
    trim_start_chars, views,
};

verus! {

/// The cells of a CSV line, scanned from `rest` with the quote state, the cell being read and
/// the cells done: `""` inside quotes is a literal quote, `"` toggles quoting, an unquoted `,`
/// ends a cell, anything else belongs to the cell.
pub open spec fn csv_scan(rest: Seq<char>, quoted: bool, cell: Seq<char>, cells: Seq<Seq<char>>) -> Seq<Seq<char>>
    decreases rest.len(),
{
    if rest.len() == 0 {
        cells.push(cell)
    } else if rest[0] == '"' && quoted && rest.len() > 1 && rest[1] == '"' {
        csv_scan(rest.skip(2), quoted, cell.push('"'), cells)
    } else if rest[0] == '"' {
        csv_scan(rest.drop_first(), !quoted, cell, cells)
    } else if rest[0] == ',' && !quoted {
        csv_scan(rest.drop_first(), quoted, Seq::empty(), cells.push(cell))
    } else {
        csv_scan(rest.drop_first(), quoted, cell.push(rest[0]), cells)
    }
}

/// The cells of one CSV line.
pub open spec fn csv_cells(line: Seq<char>) -> Seq<Seq<char>> {
    csv_scan(line, false, Seq::empty(), Seq::empty())
}

/// The cells of the CSV line `v`.
fn csv_split(v: &Vec<char>) -> (cells: Vec<Vec<char>>)
    ensures
        views(cells@) == csv_cells(v@),
{
    let n = v.len();
    let mut done: Vec<Vec<char>> = Vec::new();
    let mut cell: Vec<char> = Vec::new();
    let mut quoted = false;
    let mut i: usize = 0;
    assert(v@.skip(0) =~= v@);
    assert(views(done@) =~= Seq::<Seq<char>>::empty());
    while i < n
        invariant
            n == v@.len(),
            0 <= i <= n,
            csv_scan(v@.skip(i as int), quoted, cell@, views(done@)) == csv_cells(v@),
        decreases n - i,
    {
        let c = v[i];
        let ghost rest = v@.skip(i as int);
        assert(rest[0] == c);
        if c == '"' && quoted && i + 1 < n && v[i + 1] == '"' {
            assert(rest[1] == v@[i + 1]);
            assert(rest.skip(2) =~= v@.skip(i + 2));
            cell.push('"');
            i = i + 2;
        } else if c == '"' {
            assert(rest.drop_first() =~= v@.skip(i + 1));
            quoted = !quoted;
            i = i + 1;
        } else if c == ',' && !quoted {
            assert(rest.drop_first() =~= v@.skip(i + 1));
            let ghost before = views(done@);
            let finished = cell;
            done.push(finished);
            cell = Vec::new();
            assert(views(done@) =~= before.push(finished@));
            assert(cell@ =~= Seq::<char>::empty());
            i = i + 1;
        } else {
            assert(rest.drop_first() =~= v@.skip(i + 1));
            cell.push(c);
            i = i + 1;
        }
    }
    assert(v@.skip(n as int) =~= Seq::<char>::empty());
    let ghost before = views(done@);
    done.push(cell);
    assert(views(done@) =~= before.push(cell@));
    done
}

/// Splits one CSV line, honouring double quotes.
pub fn split_csv(line: &str) -> (cells: Vec<String>)
    ensures
        cells@.map_values(|c: String| c@) == csv_cells(line@),
{
    let v = chars_of(line);
    let done = csv_split(&v);
    let mut cells: Vec<String> = Vec::new();
    let m = done.len();
    let mut k: usize = 0;
    while k < m
        invariant
            m == done@.len(),
            0 <= k <= m,
            cells@.map_values(|c: String| c@) == views(done@).take(k as int),
        decreases m - k,
    {
        let s = string_from(&done[k]);
        let ghost before = cells@;
        cells.push(s);
        assert(cells@ == before.push(s));
        let ghost cv = cells@.map_values(|c: String| c@);
        let ghost bv = before.map_values(|c: String| c@);
        let ghost dv = views(done@);
        assert(bv == dv.take(k as int));
        assert(bv.len() == k);
        assert(before.len() == k);
        assert(cv.len() == k + 1);
        assert forall|j: int| 0 <= j < k + 1 implies #[trigger] cv[j] == dv[j] by {
            if j < k {
                assert(cells@[j] == before[j]);
                assert(bv[j] == dv.take(k as int)[j]);
            }
        }
        assert(cv =~= dv.take(k + 1));
        k = k + 1;
    }
    assert(views(done@).take(m as int) =~= views(done@));
    cells
}


/// Whether a line of the labels file carries data: it is not blank and, past its leading white
/// space, does not start with `#`.
pub open spec fn is_content(line: Seq<char>) -> bool {
    trim(line).len() > 0 && !(trim_start(line).len() > 0 && trim_start(line)[0] == '#')
}

/// The lines of `ls` that carry data, in order.
pub open spec fn content_lines(ls: Seq<Seq<char>>) -> Seq<Seq<char>>
    decreases ls.len(),
{
    if ls.len() == 0 {
        ls
    } else {
        let p = content_lines(ls.drop_last());
        if is_content(ls.last()) {
            p.push(ls.last())
        } else {
            p
        }
    }
}

/// The first column at or after `k` whose trimmed header equals `name` ignoring ASCII case.
pub open spec fn column_of(header: Seq<Seq<char>>, name: Seq<char>, k: int) -> Option<usize>
    decreases header.len() - k,
{
    if k < 0 || k >= header.len() {
        None
    } else if ascii_lower_all(trim(header[k])) == ascii_lower_all(name) {
        Some(k as usize)
    } else {
        column_of(header, name, k + 1)
    }
}

/// The trimmed text of cell `c`, when there is such a cell and it is not blank.
pub open spec fn cell_text(cells: Seq<Seq<char>>, c: Option<usize>) -> Option<Seq<char>> {
    match c {
        Some(i) => if i < cells.len() && trim(cells[i as int]).len() > 0 {
            Some(trim(cells[i as int]))
        } else {
            None
        },
        None => None,
    }
}

/// Whether every character of `s` is an ASCII digit.
pub open spec fn all_digits(s: Seq<char>) -> bool {
    forall|i: int| 0 <= i < s.len() ==> '0' <= #[trigger] s[i] <= '9'
}

/// The value of the decimal digits `s`.
pub open spec fn digits_value(s: Seq<char>) -> nat
    decreases s.len(),
{
    if s.len() == 0 {
        0
    } else {
        digits_value(s.drop_last()) * 10 + ((s.last() as int) - ('0' as int)) as nat
    }
}

/// What `u8::from_str` gives for text without a sign: the value of one or more ASCII digits
/// that is at most 255.
pub open spec fn small_number(s: Seq<char>) -> Option<u8> {
    if s.len() > 0 && all_digits(s) && digits_value(s) <= 255 {
        Some(digits_value(s) as u8)
    } else {
        None
    }
}

/// The parts of `rest` between `+` signs, with the part read so far and the parts done.
pub open spec fn plus_scan(rest: Seq<char>, part: Seq<char>, parts: Seq<Seq<char>>) -> Seq<Seq<char>>
    decreases rest.len(),
{
    if rest.len() == 0 {
        parts.push(part)
    } else if rest[0] == '+' {
        plus_scan(rest.drop_first(), Seq::empty(), parts.push(part))
    } else {
        plus_scan(rest.drop_first(), part.push(rest[0]), parts)
    }
}

/// The values of the trimmed parts, when every one is a group size.
pub open spec fn group_values(parts: Seq<Seq<char>>) -> Option<Seq<u8>>
    decreases parts.len(),
{
    if parts.len() == 0 {
        Some(Seq::empty())
    } else {
        match (group_values(parts.drop_last()), small_number(trim(parts.last()))) {
            (Some(g), Some(x)) => Some(g.push(x)),
            _ => None,
        }
    }
}

/// A grouping such as `2+2+2+3`: the sizes between the `+` signs, each trimmed.
pub open spec fn grouping_of(t: Seq<char>) -> Option<Seq<u8>> {
    group_values(plus_scan(t, Seq::empty(), Seq::empty()))
}

/// The index of the first `a` or `b` in `s` at or after `i`, or the length.
pub open spec fn first_of(s: Seq<char>, a: char, b: char, i: int) -> int
    decreases s.len() - i,
{
    if i < 0 || i >= s.len() {
        s.len() as int
    } else if s[i] == a || s[i] == b {
        i
    } else {
        first_of(s, a, b, i + 1)
    }
}

/// `s` without one leading `+` or `-`.
pub open spec fn unsigned(s: Seq<char>) -> Seq<char> {
    if s.len() > 0 && (s[0] == '+' || s[0] == '-') {
        s.drop_first()
    } else {
        s
    }
}

/// Digits with at most one `.` and at least one digit.
pub open spec fn mantissa_ok(m: Seq<char>) -> bool {
    let d = first_of(m, '.', '.', 0);
    &&& all_digits(m.take(d))
    &&& if d < m.len() {
        all_digits(m.skip(d + 1)) && m.len() >= 2
    } else {
        m.len() >= 1
    }
}

/// An optional sign and one or more digits.
pub open spec fn exponent_ok(x: Seq<char>) -> bool {
    unsigned(x).len() > 0 && all_digits(unsigned(x))
}

/// A mantissa, then optionally `e` or `E` and an exponent.
pub open spec fn number_ok(t: Seq<char>) -> bool {
    let e = first_of(t, 'e', 'E', 0);
    mantissa_ok(t.take(e)) && (e < t.len() ==> exponent_ok(t.skip(e + 1)))
}

/// The text `f64::from_str` accepts, as its documentation writes the grammar: an optional sign,
/// then `inf`, `infinity` or `nan` in any case, or a decimal number with an optional exponent.
pub open spec fn float_text(s: Seq<char>) -> bool {
    let t = unsigned(s);
    let l = ascii_lower_all(t);
    ||| l == ascii_lower_all("inf"@)
    ||| l == ascii_lower_all("infinity"@)
    ||| l == ascii_lower_all("nan"@)
    ||| number_ok(t)
}

/// Where the named columns of a labels file stand.
#[derive(Debug, Clone, Copy, PartialEq, Eq, Structural)]
pub struct Columns {
    /// The file's base name.
    pub file: usize,
    /// Tempo at the meter's beat.
    pub bpm: Option<usize>,
    /// Bar 1 in seconds.
    pub bar1_s: Option<usize>,
    /// Meter as `n/d`.
    pub meter: Option<usize>,
    /// Pulses per group.
    pub grouping: Option<usize>,
    /// Reference integrated loudness.
    pub ffmpeg_i_lufs: Option<usize>,
}

/// The columns of a header whose `file` column stands at `file`.
pub open spec fn columns_of(header: Seq<Seq<char>>, file: usize) -> Columns {
    Columns {
        file,
        bpm: column_of(header, "bpm"@, 0),
        bar1_s: column_of(header, "bar1_s"@, 0),
        meter: column_of(header, "meter"@, 0),
        grouping: column_of(header, "grouping"@, 0),
        ffmpeg_i_lufs: column_of(header, "ffmpeg_i_lufs"@, 0),
    }
}

/// One labelled track, its numbers kept as the text of their cells (each one a number that
/// `f64::from_str` accepts).
#[derive(Debug, Clone, PartialEq, Eq)]
pub struct Label {
    /// Base name of the file, in NFC.
    pub file: String,
    /// Tempo at the meter's beat.
    pub bpm: Option<String>,
    /// Bar 1 in seconds.
    pub bar1_s: Option<String>,
    /// Meter as `n/d`.
    pub meter: Option<String>,
    /// Pulses per group, e.g. `[2, 2, 2, 3]`.
    pub grouping: Option<Vec<u8>>,
    /// Reference integrated loudness.
    pub ffmpeg_i_lufs: Option<String>,
}

/// What a [`Label`] holds.
pub struct LabelModel {
    pub file: Seq<char>,
    pub bpm: Option<Seq<char>>,
    pub bar1_s: Option<Seq<char>>,
    pub meter: Option<Seq<char>>,
    pub grouping: Option<Seq<u8>>,
    pub ffmpeg_i_lufs: Option<Seq<char>>,
}

/// The characters of an optional string.
pub open spec fn opt_view(s: Option<String>) -> Option<Seq<char>> {
    match s {
        Some(t) => Some(t@),
        None => None,
    }
}

impl View for Label {
    type V = LabelModel;

    open spec fn view(&self) -> LabelModel {
        LabelModel {
            file: self.file@,
            bpm: opt_view(self.bpm),
            bar1_s: opt_view(self.bar1_s),
            meter: opt_view(self.meter),
            grouping: match self.grouping {
                Some(g) => Some(g@),
                None => None,
            },
            ffmpeg_i_lufs: opt_view(self.ffmpeg_i_lufs),
        }
    }
}

/// The number columns of a labels file.
#[derive(Debug, Clone, Copy, PartialEq, Eq, Structural)]
pub enum NumberColumn {
    /// `bpm`.
    Bpm,
    /// `bar1_s`.
    Bar1,
    /// `ffmpeg_i_lufs`.
    Loudness,
}

/// Why a labels file was refused. `row` counts the data rows from zero; the header is the
/// file's row 1 and data row `row` its row `row + 2`, comments and blank lines not counted.
#[derive(Debug, Clone, PartialEq, Eq)]
pub enum LabelError {
    /// No line carries data.
    Empty,
    /// The header has no `file` column.
    NoFileColumn,
    /// A grouping cell is not sizes of 0 to 255 separated by `+`.
    BadGrouping { row: usize, text: String },
    /// A number cell is not a number.
    BadNumber { row: usize, column: NumberColumn, text: String },
}

/// What a [`LabelError`] holds.
pub enum LabelErrorModel {
    Empty,
    NoFileColumn,
    BadGrouping { row: usize, text: Seq<char> },
    BadNumber { row: usize, column: NumberColumn, text: Seq<char> },
}

impl View for LabelError {
    type V = LabelErrorModel;

    open spec fn view(&self) -> LabelErrorModel {
        match self {
            LabelError::Empty => LabelErrorModel::Empty,
            LabelError::NoFileColumn => LabelErrorModel::NoFileColumn,
            LabelError::BadGrouping { row, text } => LabelErrorModel::BadGrouping { row: *row, text: text@ },
            LabelError::BadNumber { row, column, text } => LabelErrorModel::BadNumber {
                row: *row,
                column: *column,
                text: text@,
            },
        }
    }
}

/// Whether an optional number cell holds text that is not a number.
pub open spec fn bad_number(t: Option<Seq<char>>) -> bool {
    t is Some && !float_text(t->0)
}

/// The label of data row `row` with cells `cells`, or why it is refused: the grouping is
/// checked first, then `bpm`, `bar1_s` and `ffmpeg_i_lufs`.
pub open spec fn row_label(cells: Seq<Seq<char>>, cols: Columns, row: usize) -> Result<LabelModel, LabelErrorModel> {
    let g = cell_text(cells, cols.grouping);
    let bpm = cell_text(cells, cols.bpm);
    let bar1 = cell_text(cells, cols.bar1_s);
    let loud = cell_text(cells, cols.ffmpeg_i_lufs);
    if g is Some && grouping_of(g->0) is None {
        Err(LabelErrorModel::BadGrouping { row, text: g->0 })
    } else if bad_number(bpm) {
        Err(LabelErrorModel::BadNumber { row, column: NumberColumn::Bpm, text: bpm->0 })
    } else if bad_number(bar1) {
        Err(LabelErrorModel::BadNumber { row, column: NumberColumn::Bar1, text: bar1->0 })
    } else if bad_number(loud) {
        Err(LabelErrorModel::BadNumber { row, column: NumberColumn::Loudness, text: loud->0 })
    } else {
        Ok(LabelModel {
            file: nfc(
                match cell_text(cells, Some(cols.file)) {
                    Some(t) => t,
                    None => Seq::empty(),
                },
            ),
            bpm,
            bar1_s: bar1,
            meter: cell_text(cells, cols.meter),
            grouping: match g {
                Some(t) => grouping_of(t),
                None => None,
            },
            ffmpeg_i_lufs: loud,
        })
    }
}

/// The labels of the data rows `rows`, or the first refusal among them.
pub open spec fn rows_from(rows: Seq<Seq<char>>, cols: Columns) -> Result<Seq<LabelModel>, LabelErrorModel>
    decreases rows.len(),
{
    if rows.len() == 0 {
        Ok(Seq::empty())
    } else {
        match rows_from(rows.drop_last(), cols) {
            Err(e) => Err(e),
            Ok(p) => match row_label(csv_cells(rows.last()), cols, (rows.len() - 1) as usize) {
                Err(e) => Err(e),
                Ok(l) => Ok(p.push(l)),
            },
        }
    }
}

/// The labels of a labels file: its first data line is the header, which needs a `file`
/// column; every further data line is a track.
pub open spec fn labels_of(text: Seq<char>) -> Result<Seq<LabelModel>, LabelErrorModel> {
    let ls = content_lines(lines_of(text));
    if ls.len() == 0 {
        Err(LabelErrorModel::Empty)
    } else {
        let header = csv_cells(ls[0]);
        match column_of(header, "file"@, 0) {
            None => Err(LabelErrorModel::NoFileColumn),
            Some(f) => rows_from(ls.drop_first(), columns_of(header, f)),
        }
    }
}

proof fn lemma_rows_err_sticks(rows: Seq<Seq<char>>, cols: Columns, k: int, e: LabelErrorModel)
    requires
        0 <= k <= rows.len(),
        rows_from(rows.take(k), cols) == Err::<Seq<LabelModel>, LabelErrorModel>(e),
    ensures
        rows_from(rows, cols) == Err::<Seq<LabelModel>, LabelErrorModel>(e),
    decreases rows.len() - k,
{
    if k < rows.len() {
        assert(rows.take(k + 1).drop_last() =~= rows.take(k));
        lemma_rows_err_sticks(rows, cols, k + 1, e);
    } else {
        assert(rows.take(k) =~= rows);
    }
}

/// Whether `a` and `b` hold the same characters.
fn same_seq(a: &Vec<char>, b: &Vec<char>) -> (r: bool)
    ensures
        r == (a@ == b@),
{
    if a.len() != b.len() {
        return false;
    }
    let n = a.len();
    let mut i: usize = 0;
    while i < n
        invariant
            n == a@.len(),
            n == b@.len(),
            0 <= i <= n,
            forall|j: int| 0 <= j < i ==> a@[j] == b@[j],
        decreases n - i,
    {
        if a[i] != b[i] {
            return false;
        }
        i = i + 1;
    }
    assert(a@ =~= b@);
    true
}

/// Whether line `v` carries data.
fn content_line(v: &Vec<char>) -> (r: bool)
    ensures
        r == is_content(v@),
{
    let t = trim_chars(v);
    if t.len() == 0 {
        return false;
    }
    let s = trim_start_chars(v);
    !(s.len() > 0 && s[0] == '#')
}

/// The first column whose trimmed header equals `name` ignoring ASCII case.
fn find_column(header: &Vec<Vec<char>>, name: &str) -> (c: Option<usize>)
    ensures
        c == column_of(views(header@), name@, 0),
{
    let want = lower_all(&chars_of(name));
    let n = header.len();
    let mut k: usize = 0;
    while k < n
        invariant
            n == header@.len(),
            0 <= k <= n,
            want@ == ascii_lower_all(name@),
            column_of(views(header@), name@, k as int) == column_of(views(header@), name@, 0),
        decreases n - k,
    {
        let have = lower_all(&trim_chars(&header[k]));
        assert(views(header@)[k as int] == header@[k as int]@);
        if same_seq(&have, &want) {
            return Some(k);
        }
        k = k + 1;
    }
    None
}

/// The trimmed text of cell `c`, when it exists and is not blank.
fn cell_of(cells: &Vec<Vec<char>>, c: Option<usize>) -> (t: Option<Vec<char>>)
    ensures
        match t {
            Some(v) => cell_text(views(cells@), c) == Some(v@),
            None => cell_text(views(cells@), c) is None,
        },
{
    match c {
        Some(i) => {
            if i < cells.len() {
                let t = trim_chars(&cells[i]);
                assert(views(cells@)[i as int] == cells@[i as int]@);
                if t.len() > 0 {
                    Some(t)
                } else {
                    None
                }
            } else {
                None
            }
        },
        None => None,
    }
}

/// Whether `v[lo..hi]` is all ASCII digits.
fn digits_between(v: &Vec<char>, lo: usize, hi: usize) -> (r: bool)
    requires
        lo <= hi <= v@.len(),
    ensures
        r == all_digits(v@.subrange(lo as int, hi as int)),
{
    let mut i: usize = lo;
    while i < hi
        invariant
            lo <= i <= hi <= v@.len(),
            forall|j: int| lo <= j < i ==> '0' <= #[trigger] v@[j] <= '9',
        decreases hi - i,
    {
        if v[i] < '0' || v[i] > '9' {
            assert(v@.subrange(lo as int, hi as int)[i - lo] == v@[i as int]);
            return false;
        }
        i = i + 1;
    }
    assert forall|j: int| 0 <= j < hi - lo implies '0' <= #[trigger] v@.subrange(lo as int, hi as int)[j] <= '9' by {
        assert(v@.subrange(lo as int, hi as int)[j] == v@[lo + j]);
    }
    true
}

/// What `u8::from_str` gives for `v` when `v` has no sign.
fn small_number_of(v: &Vec<char>) -> (r: Option<u8>)
    ensures
        r == small_number(v@),
{
    let n = v.len();
    if n == 0 {
        return None;
    }
    let mut value: u32 = 0;
    let mut i: usize = 0;
    while i < n
        invariant
            n == v@.len(),
            0 <= i <= n,
            all_digits(v@.take(i as int)),
            value == digits_value(v@.take(i as int)),
            value <= 255,
        decreases n - i,
    {
        let c = v[i];
        if c < '0' || c > '9' {
            assert(!all_digits(v@)) by {
                assert(v@[i as int] == c);
            }
            return None;
        }
        let d: u32 = (c as u32) - ('0' as u32);
        let ghost t = v@.take(i + 1);
        assert(t.drop_last() =~= v@.take(i as int));
        assert(t.last() == c);
        let next: u32 = value * 10 + d;
        assert(next == digits_value(t));
        assert(all_digits(t));
        if next > 255 {
            proof {
                lemma_value_grows(v@, i + 1);
            }
            return None;
        }
        value = next;
        i = i + 1;
    }
    assert(v@.take(n as int) =~= v@);
    Some(value as u8)
}

proof fn lemma_value_grows(s: Seq<char>, k: int)
    requires
        1 <= k <= s.len(),
        all_digits(s.take(k)),
    ensures
        all_digits(s) ==> digits_value(s) >= digits_value(s.take(k)),
    decreases s.len() - k,
{
    if k < s.len() {
        if all_digits(s) {
            assert(all_digits(s.take(k + 1))) by {
                assert forall|j: int| 0 <= j < k + 1 implies '0' <= #[trigger] s.take(k + 1)[j] <= '9' by {
                    assert(s.take(k + 1)[j] == s[j]);
                }
            }
            lemma_value_grows(s, k + 1);
            let t = s.take(k + 1);
            assert(t.drop_last() =~= s.take(k));
            assert(t.last() == s[k]);
        }
    } else {
        assert(s.take(k) =~= s);
    }
}

/// The parts of `v` between `+` signs.
fn plus_split(v: &Vec<char>) -> (parts: Vec<Vec<char>>)
    ensures
        views(parts@) == plus_scan(v@, Seq::empty(), Seq::empty()),
{
    let n = v.len();
    let mut done: Vec<Vec<char>> = Vec::new();
    let mut part: Vec<char> = Vec::new();
    let mut i: usize = 0;
    assert(v@.skip(0) =~= v@);
    assert(views(done@) =~= Seq::<Seq<char>>::empty());
    while i < n
        invariant
            n == v@.len(),
            0 <= i <= n,
            plus_scan(v@.skip(i as int), part@, views(done@)) == plus_scan(v@, Seq::empty(), Seq::empty()),
        decreases n - i,
    {
        let c = v[i];
        let ghost rest = v@.skip(i as int);
        assert(rest[0] == c);
        assert(rest.drop_first() =~= v@.skip(i + 1));
        if c == '+' {
            let ghost before = views(done@);
            let finished = part;
            done.push(finished);
            part = Vec::new();
            assert(views(done@) =~= before.push(finished@));
            assert(part@ =~= Seq::<char>::empty());
        } else {
            part.push(c);
        }
        i = i + 1;
    }
    assert(v@.skip(n as int) =~= Seq::<char>::empty());
    let ghost before = views(done@);
    done.push(part);
    assert(views(done@) =~= before.push(part@));
    done
}

proof fn lemma_groups_none_sticks(parts: Seq<Seq<char>>, k: int)
    requires
        0 <= k <= parts.len(),
        group_values(parts.take(k)) is None,
    ensures
        group_values(parts) is None,
    decreases parts.len() - k,
{
    if k < parts.len() {
        assert(parts.take(k + 1).drop_last() =~= parts.take(k));
        lemma_groups_none_sticks(parts, k + 1);
    } else {
        assert(parts.take(k) =~= parts);
    }
}

/// The group sizes of a grouping cell such as `2+2+2+3`.
fn grouping_from(t: &Vec<char>) -> (g: Option<Vec<u8>>)
    ensures
        match g {
            Some(v) => grouping_of(t@) == Some(v@),
            None => grouping_of(t@) is None,
        },
{
    let parts = plus_split(t);
    let ghost ps = views(parts@);
    let n = parts.len();
    let mut out: Vec<u8> = Vec::new();
    let mut k: usize = 0;
    assert(ps.take(0) =~= Seq::<Seq<char>>::empty());
    while k < n
        invariant
            n == parts@.len(),
            ps == views(parts@),
            ps == plus_scan(t@, Seq::empty(), Seq::empty()),
            0 <= k <= n,
            group_values(ps.take(k as int)) == Some(out@),
        decreases n - k,
    {
        let p = trim_chars(&parts[k]);
        assert(ps.take(k + 1).drop_last() =~= ps.take(k as int));
        assert(ps.take(k + 1).last() == parts@[k as int]@);
        match small_number_of(&p) {
            Some(x) => {
                out.push(x);
                k = k + 1;
            },
            None => {
                proof {
                    lemma_groups_none_sticks(ps, k + 1);
                }
                return None;
            },
        }
    }
    assert(ps.take(n as int) =~= ps);
    Some(out)
}

/// The index of the first `a` or `b` in `v`, or the length.
fn find_either(v: &Vec<char>, a: char, b: char) -> (i: usize)
    ensures
        i == first_of(v@, a, b, 0),
        i <= v@.len(),
{
    let n = v.len();
    let mut i: usize = 0;
    while i < n && v[i] != a && v[i] != b
        invariant
            n == v@.len(),
            0 <= i <= n,
            first_of(v@, a, b, i as int) == first_of(v@, a, b, 0),
        decreases n - i,
    {
        i = i + 1;
    }
    i
}

/// `v` without one leading sign.
fn unsigned_part(v: &Vec<char>) -> (u: Vec<char>)
    ensures
        u@ == unsigned(v@),
{
    if v.len() > 0 && (v[0] == '+' || v[0] == '-') {
        let u = slice_chars(v, 1, v.len());
        assert(u@ =~= v@.drop_first());
        u
    } else {
        slice_chars(v, 0, v.len())
    }
}

/// Whether `m` is digits with at most one `.` and at least one digit.
fn mantissa_fits(m: &Vec<char>) -> (r: bool)
    ensures
        r == mantissa_ok(m@),
{
    let d = find_either(m, '.', '.');
    let before = digits_between(m, 0, d);
    assert(m@.subrange(0, d as int) =~= m@.take(d as int));
    if d < m.len() {
        let after = digits_between(m, d + 1, m.len());
        assert(m@.subrange(d + 1, m@.len() as int) =~= m@.skip(d + 1));
        before && after && m.len() >= 2
    } else {
        before && m.len() >= 1
    }
}

/// Whether `x` is an optional sign and one or more digits.
fn exponent_fits(x: &Vec<char>) -> (r: bool)
    ensures
        r == exponent_ok(x@),
{
    let u = unsigned_part(x);
    let digits = digits_between(&u, 0, u.len());
    assert(u@.subrange(0, u@.len() as int) =~= u@);
    u.len() > 0 && digits
}

/// Whether `s` is text that `f64::from_str` accepts.
fn float_fits(s: &Vec<char>) -> (r: bool)
    ensures
        r == float_text(s@),
{
    let t = unsigned_part(s);
    let l = lower_all(&t);
    if same_seq(&l, &lower_all(&chars_of("inf"))) || same_seq(&l, &lower_all(&chars_of("infinity")))
        || same_seq(&l, &lower_all(&chars_of("nan"))) {
        return true;
    }
    let e = find_either(&t, 'e', 'E');
    let m = slice_chars(&t, 0, e);
    assert(m@ =~= t@.take(e as int));
    if !mantissa_fits(&m) {
        return false;
    }
    if e < t.len() {
        let x = slice_chars(&t, e + 1, t.len());
        assert(x@ =~= t@.skip(e + 1));
        exponent_fits(&x)
    } else {
        true
    }
}

/// Whether an optional number cell holds text that is not a number.
fn number_refused(t: &Option<Vec<char>>) -> (r: bool)
    ensures
        r == bad_number(match t {
            Some(v) => Some(v@),
            None => None,
        }),
{
    match t {
        Some(v) => !float_fits(v),
        None => false,
    }
}

/// The string made of an optional cell.
fn cell_string(t: Option<Vec<char>>) -> (s: Option<String>)
    ensures
        opt_view(s) == match t {
            Some(v) => Some(v@),
            None => None,
        },
{
    match t {
        Some(v) => Some(string_from(&v)),
        None => None,
    }
}

/// The label of data row `row` with cells `cells`, or why it is refused.
fn parse_row(cells: &Vec<Vec<char>>, cols: Columns, row: usize) -> (r: Result<Label, LabelError>)
    ensures
        match r {
            Ok(l) => row_label(views(cells@), cols, row) == Ok::<LabelModel, LabelErrorModel>(l@),
            Err(e) => row_label(views(cells@), cols, row) == Err::<LabelModel, LabelErrorModel>(e@),
        },
{
    let g = cell_of(cells, cols.grouping);
    let grouping = match &g {
        Some(t) => match grouping_from(t) {
            Some(v) => Some(v),
            None => {
                return Err(LabelError::BadGrouping { row, text: string_from(t) });
            },
        },
        None => None,
    };
    let bpm = cell_of(cells, cols.bpm);
    if number_refused(&bpm) {
        let t = bpm.unwrap();
        return Err(LabelError::BadNumber { row, column: NumberColumn::Bpm, text: string_from(&t) });
    }
    let bar1 = cell_of(cells, cols.bar1_s);
    if number_refused(&bar1) {
        let t = bar1.unwrap();
        return Err(LabelError::BadNumber { row, column: NumberColumn::Bar1, text: string_from(&t) });
    }
    let loud = cell_of(cells, cols.ffmpeg_i_lufs);
    if number_refused(&loud) {
        let t = loud.unwrap();
        return Err(LabelError::BadNumber { row, column: NumberColumn::Loudness, text: string_from(&t) });
    }
    let name = match cell_of(cells, Some(cols.file)) {
        Some(t) => string_from(&t),
        None => string_from(&Vec::new()),
    };
    let file = nfc_of(name.as_str());
    let meter = cell_string(cell_of(cells, cols.meter));
    let label = Label {
        file,
        bpm: cell_string(bpm),
        bar1_s: cell_string(bar1),
        meter,
        grouping,
        ffmpeg_i_lufs: cell_string(loud),
    };
    proof {
        let ghost m = row_label(views(cells@), cols, row);
        assert(m is Ok);
        assert(label@.grouping == m->Ok_0.grouping);
        assert(label@ == m->Ok_0);
    }
    Ok(label)
}

/// Parses the labels CSV: comment lines (starting with `#`) and blank lines are skipped, the
/// first other line is the header, which needs a `file` column; the columns `bpm`, `bar1_s`,
/// `meter`, `grouping` and `ffmpeg_i_lufs` are optional and found in any order and case.
pub fn parse_labels(text: &str) -> (r: Result<Vec<Label>, LabelError>)
    ensures
        match r {
            Ok(v) => labels_of(text@) == Ok::<Seq<LabelModel>, LabelErrorModel>(v@.map_values(|l: Label| l@)),
            Err(e) => labels_of(text@) == Err::<Seq<LabelModel>, LabelErrorModel>(e@),
        },
{
    let chars = chars_of(text);
    let lines = split_lines(&chars);
    let ghost all = views(lines@);
    let mut data: Vec<Vec<char>> = Vec::new();
    let n = lines.len();
    let mut i: usize = 0;
    while i < n
        invariant
            n == lines@.len(),
            all == views(lines@),
            0 <= i <= n,
            views(data@) == content_lines(all.take(i as int)),
        decreases n - i,
    {
        assert(all.take(i + 1).drop_last() =~= all.take(i as int));
        assert(all.take(i + 1).last() == lines@[i as int]@);
        if content_line(&lines[i]) {
            let ghost before = views(data@);
            let copy = slice_chars(&lines[i], 0, lines[i].len());
            assert(copy@ =~= lines@[i as int]@);
            data.push(copy);
            assert(views(data@) =~= before.push(lines@[i as int]@));
        }
        i = i + 1;
    }
    assert(all.take(n as int) =~= all);
    let ghost ls = views(data@);
    if data.len() == 0 {
        return Err(LabelError::Empty);
    }
    let header = csv_split(&data[0]);
    assert(ls[0] == data@[0]@);
    let file = match find_column(&header, "file") {
        Some(f) => f,
        None => {
            return Err(LabelError::NoFileColumn);
        },
    };
    let cols = Columns {
        file,
        bpm: find_column(&header, "bpm"),
        bar1_s: find_column(&header, "bar1_s"),
        meter: find_column(&header, "meter"),
        grouping: find_column(&header, "grouping"),
        ffmpeg_i_lufs: find_column(&header, "ffmpeg_i_lufs"),
    };
    let ghost rows = ls.drop_first();
    let m = data.len();
    let mut labels: Vec<Label> = Vec::new();
    let mut k: usize = 1;
    assert(rows.take(0) =~= Seq::<Seq<char>>::empty());
    assert(labels_of(text@) == rows_from(rows, cols));
    assert(labels@.map_values(|l: Label| l@) =~= Seq::<LabelModel>::empty());
    while k < m
        invariant
            m == data@.len(),
            m >= 1,
            ls == views(data@),
            rows == ls.drop_first(),
            cols == columns_of(csv_cells(ls[0]), file),
            labels_of(text@) == rows_from(rows, cols),
            1 <= k <= m,
            rows_from(rows.take(k - 1), cols) == Ok::<Seq<LabelModel>, LabelErrorModel>(labels@.map_values(|l: Label| l@)),
        decreases m - k,
    {
        let cells = csv_split(&data[k]);
        let ghost t = rows.take(k as int);
        assert(t.drop_last() =~= rows.take(k - 1));
        assert(t.last() == data@[k as int]@);
        assert(t.len() - 1 == k - 1);
        match parse_row(&cells, cols, k - 1) {
            Ok(l) => {
                let ghost before = labels@.map_values(|l: Label| l@);
                labels.push(l);
                assert(labels@.map_values(|l: Label| l@) =~= before.push(l@));
            },
            Err(e) => {
                proof {
                    assert(views(cells@) == csv_cells(t.last()));
                    assert(rows_from(t, cols) == Err::<Seq<LabelModel>, LabelErrorModel>(e@));
                    lemma_rows_err_sticks(rows, cols, k as int, e@);
                }
                return Err(e);
            },
        }
        k = k + 1;
    }
    assert(rows.take(m - 1) =~= rows);
    Ok(labels)
}

/// The base names of the files a labels file is matched against, each in NFC, in order, so a
/// label and a file name written in different normal forms meet.
pub fn nfc_names(names: &Vec<String>) -> (keys: Vec<String>)
    ensures
        keys@.len() == names@.len(),
        forall|i: int| 0 <= i < names@.len() ==> #[trigger] keys@[i]@ == nfc(names@[i]@),
{
    let mut keys: Vec<String> = Vec::new();
    let n = names.len();
    let mut i: usize = 0;
    while i < n
        invariant
            n == names@.len(),
            0 <= i <= n,
            keys@.len() == i,
            forall|k: int| 0 <= k < i ==> #[trigger] keys@[k]@ == nfc(names@[k]@),
        decreases n - i,
    {
        keys.push(nfc_of(names[i].as_str()));
        i = i + 1;
    }
    keys
}

/// The mark of a score in the text table: `ok` within tolerance, `MISS` outside, `-` unscored.
pub fn mark(ok: Option<bool>) -> (s: &'static str)
    ensures
        s@ == match ok {
            Some(true) => "ok"@,
            Some(false) => "MISS"@,
            None => "-"@,
        },
{
    match ok {
        Some(true) => "ok",
        Some(false) => "MISS",
        None => "-",
    }
}

/// The mark of the BPM score: `ok` within tolerance, `flip` within tolerance only after an
/// octave flip, otherwise the mark of the exact score.
pub fn bpm_mark(exact: Option<bool>, after_flip: Option<bool>) -> (s: &'static str)
    ensures
        s@ == if exact == Some(true) {
            "ok"@
        } else if after_flip == Some(true) {
            "flip"@
        } else {
            match exact {
                Some(true) => "ok"@,
                Some(false) => "MISS"@,
                None => "-"@,
            }
        },
{
    if exact == Some(true) {
        "ok"
    } else if after_flip == Some(true) {
        "flip"
    } else {
        mark(exact)
    }
}

/// Cells joined by commas.
pub open spec fn join_commas(cells: Seq<Seq<char>>) -> Seq<char>
    decreases cells.len(),
{
    if cells.len() == 0 {
        Seq::empty()
    } else if cells.len() == 1 {
        cells[0]
    } else {
        join_commas(cells.drop_last()) + seq![','] + cells.last()
    }
}

/// Whether a line holds a double quote.
pub open spec fn has_quote(s: Seq<char>) -> bool {
    exists|i: int| 0 <= i < s.len() && s[i] == '"'
}

proof fn lemma_join_push_char(cells: Seq<Seq<char>>, cell: Seq<char>, c: char)
    ensures
        join_commas(cells.push(cell.push(c))) == join_commas(cells.push(cell)) + seq![c],
{
    assert(cells.push(cell.push(c)).drop_last() =~= cells);
    assert(cells.push(cell).drop_last() =~= cells);
    if cells.len() == 0 {
        assert(cell.push(c) =~= cell + seq![c]);
    } else {
        assert(join_commas(cells) + seq![','] + cell.push(c) =~= join_commas(cells) + seq![','] + cell + seq![c]);
    }
}

proof fn lemma_scan_unquoted(rest: Seq<char>, cell: Seq<char>, cells: Seq<Seq<char>>)
    requires
        !has_quote(rest),
    ensures
        join_commas(csv_scan(rest, false, cell, cells)) == join_commas(cells.push(cell)) + rest,
    decreases rest.len(),
{
    if rest.len() == 0 {
        assert(join_commas(cells.push(cell)) + rest =~= join_commas(cells.push(cell)));
    } else {
        assert(rest[0] != '"');
        let tail = rest.drop_first();
        assert(!has_quote(tail)) by {
            if has_quote(tail) {
                let i = choose|i: int| 0 <= i < tail.len() && tail[i] == '"';
                assert(rest[i + 1] == '"');
            }
        }
        if rest[0] == ',' {
            lemma_scan_unquoted(tail, Seq::empty(), cells.push(cell));
            let x = cells.push(cell);
            assert(x.push(Seq::<char>::empty()).drop_last() =~= x);
            assert(join_commas(x.push(Seq::<char>::empty())) =~= join_commas(x) + seq![',']);
            assert(join_commas(x) + seq![','] + tail =~= join_commas(x) + rest);
        } else {
            lemma_scan_unquoted(tail, cell.push(rest[0]), cells);
            lemma_join_push_char(cells, cell, rest[0]);
            assert(join_commas(cells.push(cell)) + seq![rest[0]] + tail =~= join_commas(cells.push(cell)) + rest);
        }
    }
}

/// A line without double quotes is split at every comma: joining its cells with commas gives
/// the line back.
pub proof fn unquoted_lines_split_at_every_comma(line: Seq<char>)
    requires
        !has_quote(line),
    ensures
        join_commas(csv_cells(line)) == line,
{
    lemma_scan_unquoted(line, Seq::empty(), Seq::empty());
    assert(Seq::<Seq<char>>::empty().push(Seq::<char>::empty()).len() == 1);
    assert(join_commas(Seq::<Seq<char>>::empty().push(Seq::<char>::empty())) =~= Seq::<char>::empty());
    assert(Seq::<char>::empty() + line =~= line);
}

/// Counts per score: each pair is (within tolerance, labelled).
#[derive(Debug, Clone, Copy, PartialEq, Eq)]
pub struct Summary {
    /// Rows in the labels file.
    pub rows: usize,
    /// Rows whose file was found and analysed.
    pub analysed: usize,
    /// BPM within tolerance / labelled.
    pub bpm_exact: (usize, usize),
    /// BPM within tolerance after at most one flip / labelled.
    pub bpm_after_flip: (usize, usize),
    /// Meter identical / labelled.
    pub meter: (usize, usize),
    /// Bar 1 within tolerance / labelled.
    pub bar1: (usize, usize),
    /// Integrated loudness within tolerance / labelled.
    pub loudness: (usize, usize),
}

impl Default for Summary {
    /// Nothing counted.
    fn default() -> (s: Self)
        ensures
            s.rows == 0 && s.analysed == 0,
            s.bpm_exact == (0usize, 0usize) && s.bpm_after_flip == (0usize, 0usize),
            s.meter == (0usize, 0usize) && s.bar1 == (0usize, 0usize) && s.loudness == (0usize, 0usize),
    {
        Summary {
            rows: 0,
            analysed: 0,
            bpm_exact: (0, 0),
            bpm_after_flip: (0, 0),
            meter: (0, 0),
            bar1: (0, 0),
            loudness: (0, 0),
        }
    }
}

/// Counts a scored row: a labelled score adds to the second count, and to the first too when it
/// is within tolerance; an unscored one (`None`) changes nothing.
pub fn tally(count: &mut (usize, usize), ok: Option<bool>)
    requires
        ok is Some ==> old(count).1 < usize::MAX,
        ok == Some(true) ==> old(count).0 < usize::MAX,
    ensures
        final(count).1 == old(count).1 + if ok is Some { 1int } else { 0 },
        final(count).0 == old(count).0 + if ok == Some(true) { 1int } else { 0 },
{
    if let Some(ok) = ok {
        count.1 = count.1 + 1;
        if ok {
            count.0 = count.0 + 1;
        }
    }
}

/// `9/8 · 2+2+2+3`-style text for a labelled meter and grouping, as a grid's meter prints.
pub fn meter_text(meter: Option<&str>, grouping: Option<&[u8]>) -> (t: Option<String>)
    ensures
        match meter {
            None => t is None,
            Some(m) => t matches Some(s) && s@ == m@ + match grouping {
                Some(g) => grouping_suffix(g@),
                None => Seq::empty(),
            },
        },
{
    let meter = match meter {
        None => return None,
        Some(m) => m,
    };
    let mut out = chars_of(meter);
    let ghost head = out@;
    match grouping {
        Some(g) => {
            let mut groups: Vec<u8> = Vec::new();
            let n = g.len();
            let mut i: usize = 0;
            while i < n
                invariant
                    n == g@.len(),
                    0 <= i <= n,
                    groups@ == g@.take(i as int),
                decreases n - i,
            {
                groups.push(g[i]);
                assert(groups@ =~= g@.take(i + 1));
                i = i + 1;
            }
            assert(groups@ =~= g@);
            crate::meter::push_suffix(&mut out, &groups);
        },
        None => {
            assert(out@ =~= head + Seq::<char>::empty());
        },
    }
    Some(string_from(&out))
}

/// `s` when it has at most `n` characters, otherwise its first `n - 1` characters and `…`.
pub open spec fn truncated(s: Seq<char>, n: nat) -> Seq<char> {
    if s.len() <= n {
        s
    } else {
        s.take(n - 1) + seq!['\u{2026}']
    }
}

/// Cuts a name to `n` characters for a table column, marking the cut with `…`.
pub fn truncate(s: &str, n: usize) -> (t: String)
    requires
        s@.len() > n ==> n >= 1,
    ensures
        t@ == truncated(s@, n as nat),
{
    let v = chars_of(s);
    if v.len() <= n {
        return string_from(&v);
    }
    let mut out: Vec<char> = Vec::new();
    let mut i: usize = 0;
    while i < n - 1
        invariant
            v@.len() > n >= 1,
            0 <= i <= n - 1,
            out@ == v@.take(i as int),
        decreases n - 1 - i,
    {
        out.push(v[i]);
        assert(out@ =~= v@.take(i + 1));
        i = i + 1;
    }
    out.push('\u{2026}');
    string_from(&out)
}

} // verus!
