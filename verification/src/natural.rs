//! Natural order of file names: case-insensitive, with runs of digits ordered by value, so
//! "Track 2" comes before "Track 10".
use vstd::prelude::*;

use std::cmp::Ordering;

use crate::text::chars_of;

verus! {

/// The outcome of comparing two names.
#[derive(Debug, Clone, Copy, PartialEq, Eq, Structural)]
pub enum Order {
    /// The first sorts before the second.
    Less,
    /// Neither sorts before the other.
    Equal,
    /// The first sorts after the second.
    Greater,
}

/// The comparison seen from the other side.
pub open spec fn flip(o: Order) -> Order {
    match o {
        Order::Less => Order::Greater,
        Order::Equal => Order::Equal,
        Order::Greater => Order::Less,
    }
}

/// Names what `char::to_lowercase` yields for `c`: its Unicode lower-case mapping, one or more
/// characters.
pub uninterp spec fn lowercase(c: char) -> Seq<char>;

/// The lower-case mapping of `c`, as `char::to_lowercase` gives it.
#[verifier::external_body]
fn lowercase_of(c: char) -> (v: Vec<char>)
    ensures
        v@ == lowercase(c),
{
    c.to_lowercase().collect()
}

/// Lexicographic order of two character sequences by code point (a proper prefix sorts first).
pub open spec fn lex(a: Seq<char>, b: Seq<char>) -> Order
    decreases a.len(),
{
    if a.len() == 0 {
        if b.len() == 0 {
            Order::Equal
        } else {
            Order::Less
        }
    } else if b.len() == 0 {
        Order::Greater
    } else if a[0] < b[0] {
        Order::Less
    } else if a[0] > b[0] {
        Order::Greater
    } else {
        lex(a.drop_first(), b.drop_first())
    }
}

/// An ASCII digit.
pub open spec fn is_digit(c: char) -> bool {
    '0' <= c && c <= '9'
}

/// Number of leading ASCII digits.
pub open spec fn digit_run(s: Seq<char>) -> nat
    decreases s.len(),
{
    if s.len() > 0 && is_digit(s[0]) {
        1 + digit_run(s.drop_first())
    } else {
        0
    }
}

/// Number of leading `0` characters.
pub open spec fn zero_run(s: Seq<char>) -> nat
    decreases s.len(),
{
    if s.len() > 0 && s[0] == '0' {
        1 + zero_run(s.drop_first())
    } else {
        0
    }
}

/// A run never reaches past the end of the sequence.
pub proof fn lemma_runs_bounded(s: Seq<char>)
    ensures
        digit_run(s) <= s.len(),
        zero_run(s) <= s.len(),
        s.len() > 0 && is_digit(s[0]) ==> digit_run(s) >= 1,
    decreases s.len(),
{
    if s.len() > 0 {
        lemma_runs_bounded(s.drop_first());
    }
}

/// Two runs of digits by value: without leading zeros, the shorter run is the smaller number
/// and runs of equal length compare digit by digit.
pub open spec fn number_order(x: Seq<char>, y: Seq<char>) -> Order {
    let sx = x.skip(zero_run(x) as int);
    let sy = y.skip(zero_run(y) as int);
    if sx.len() < sy.len() {
        Order::Less
    } else if sx.len() > sy.len() {
        Order::Greater
    } else {
        lex(sx, sy)
    }
}

/// Natural order: where both names continue with a digit, the two digit runs compare by value;
/// otherwise the next characters compare by their lower-case mappings; the first difference
/// decides, and a name that is a prefix of the other sorts first.
#[verifier::opaque]
pub open spec fn natural_order(a: Seq<char>, b: Seq<char>) -> Order
    decreases a.len() + b.len(),
{
    if a.len() == 0 {
        if b.len() == 0 {
            Order::Equal
        } else {
            Order::Less
        }
    } else if b.len() == 0 {
        Order::Greater
    } else if is_digit(a[0]) && is_digit(b[0]) {
        proof {
            lemma_runs_bounded(a);
            lemma_runs_bounded(b);
        }
        let ra = digit_run(a) as int;
        let rb = digit_run(b) as int;
        let o = number_order(a.take(ra), b.take(rb));
        if o != Order::Equal {
            o
        } else {
            natural_order(a.skip(ra), b.skip(rb))
        }
    } else {
        let o = lex(lowercase(a[0]), lowercase(b[0]));
        if o != Order::Equal {
            o
        } else {
            natural_order(a.drop_first(), b.drop_first())
        }
    }
}

/// Lexicographic order is antisymmetric and reflexive.
pub proof fn lemma_lex_flip(a: Seq<char>, b: Seq<char>)
    ensures
        lex(a, b) == flip(lex(b, a)),
        lex(a, a) == Order::Equal,
    decreases a.len(),
{
    if a.len() > 0 && b.len() > 0 {
        lemma_lex_flip(a.drop_first(), b.drop_first());
    }
    if a.len() > 0 {
        lemma_lex_flip(a.drop_first(), a.drop_first());
    }
}

/// Swapping the two names flips the natural order: it is antisymmetric.
pub proof fn natural_order_is_antisymmetric(a: Seq<char>, b: Seq<char>)
    ensures
        natural_order(a, b) == flip(natural_order(b, a)),
    decreases a.len() + b.len(),
{
    reveal(natural_order);
    if a.len() > 0 && b.len() > 0 {
        lemma_runs_bounded(a);
        lemma_runs_bounded(b);
        if is_digit(a[0]) && is_digit(b[0]) {
            let ra = digit_run(a) as int;
            let rb = digit_run(b) as int;
            let x = a.take(ra);
            let y = b.take(rb);
            lemma_lex_flip(x.skip(zero_run(x) as int), y.skip(zero_run(y) as int));
            natural_order_is_antisymmetric(a.skip(ra), b.skip(rb));
        } else {
            lemma_lex_flip(lowercase(a[0]), lowercase(b[0]));
            natural_order_is_antisymmetric(a.drop_first(), b.drop_first());
        }
    }
}

/// Every name is in natural order with itself.
pub proof fn natural_order_is_reflexive(a: Seq<char>)
    ensures
        natural_order(a, a) == Order::Equal,
    decreases a.len(),
{
    reveal(natural_order);
    if a.len() > 0 {
        lemma_runs_bounded(a);
        if is_digit(a[0]) {
            let ra = digit_run(a) as int;
            let x = a.take(ra);
            lemma_lex_flip(x.skip(zero_run(x) as int), x.skip(zero_run(x) as int));
            natural_order_is_reflexive(a.skip(ra));
        } else {
            lemma_lex_flip(lowercase(a[0]), lowercase(a[0]));
            natural_order_is_reflexive(a.drop_first());
        }
    }
}

/// What the transitivity of natural order needs of the lower-case mapping of `c`, which the
/// standard library documents only as the Unicode tables: an ASCII digit maps to itself, and
/// any other character maps to one or more characters that do not start with an ASCII digit.
pub open spec fn lowers_apart(c: char) -> bool {
    if is_digit(c) {
        lowercase(c) == seq![c]
    } else {
        lowercase(c).len() > 0 && !is_digit(lowercase(c)[0])
    }
}

/// Every character of `s` lowers apart from the digits.
pub open spec fn all_lower_apart(s: Seq<char>) -> bool {
    forall|i: int| 0 <= i < s.len() ==> lowers_apart(#[trigger] s[i])
}

/// Whether the lower-case mapping of `c` keeps digits apart, as [`lowers_apart`] says.
fn lowers_apart_of(c: char) -> (b: bool)
    ensures
        b == lowers_apart(c),
{
    let l = lowercase_of(c);
    if '0' <= c && c <= '9' {
        let same = l.len() == 1 && l[0] == c;
        proof {
            if same {
                assert(l@ =~= seq![c]);
            }
        }
        same
    } else {
        l.len() > 0 && !('0' <= l[0] && l[0] <= '9')
    }
}

/// Whether every character of `name` lowers apart from the digits, the condition under which
/// [`natural_order_is_transitive`] orders names.
pub fn all_lower_apart_of(name: &str) -> (b: bool)
    ensures
        b == all_lower_apart(name@),
{
    let v = chars_of(name);
    let n = v.len();
    let mut i: usize = 0;
    while i < n
        invariant
            n == v@.len(),
            v@ == name@,
            0 <= i <= n,
            forall|k: int| 0 <= k < i ==> lowers_apart(#[trigger] v@[k]),
        decreases n - i,
    {
        if !lowers_apart_of(v[i]) {
            return false;
        }
        i = i + 1;
    }
    true
}

/// A character that is not a digit and whose lower-case mapping sorts before the digits.
pub open spec fn below_digits(c: char) -> bool {
    lowercase(c)[0] < '0'
}

proof fn lemma_lex_transitive(a: Seq<char>, b: Seq<char>, c: Seq<char>)
    requires
        lex(a, b) != Order::Greater,
        lex(b, c) != Order::Greater,
    ensures
        lex(a, c) != Order::Greater,
        (lex(a, b) == Order::Less || lex(b, c) == Order::Less) ==> lex(a, c) == Order::Less,
    decreases a.len(),
{
    if a.len() > 0 && b.len() > 0 && c.len() > 0 && a[0] == b[0] && b[0] == c[0] {
        lemma_lex_transitive(a.drop_first(), b.drop_first(), c.drop_first());
    }
}

/// A digit against a character that is not one: decided at once, by whether the other's
/// lower-case mapping sorts before or after the digits.
proof fn lemma_digit_against_other(d: char, x: char)
    requires
        is_digit(d),
        !is_digit(x),
        lowers_apart(d),
        lowers_apart(x),
    ensures
        lex(lowercase(d), lowercase(x)) == if below_digits(x) { Order::Greater } else { Order::Less },
        lex(lowercase(x), lowercase(d)) == if below_digits(x) { Order::Less } else { Order::Greater },
{
}

proof fn lemma_number_transitive(x: Seq<char>, y: Seq<char>, z: Seq<char>)
    requires
        number_order(x, y) != Order::Greater,
        number_order(y, z) != Order::Greater,
    ensures
        number_order(x, z) != Order::Greater,
        (number_order(x, y) == Order::Less || number_order(y, z) == Order::Less) ==> number_order(x, z) == Order::Less,
{
    let sx = x.skip(zero_run(x) as int);
    let sy = y.skip(zero_run(y) as int);
    let sz = z.skip(zero_run(z) as int);
    if sx.len() == sy.len() && sy.len() == sz.len() {
        lemma_lex_transitive(sx, sy, sz);
    }
}

/// Lex order of non-empty sequences is no greater only when the first elements are in order.
proof fn lemma_lex_heads(a: Seq<char>, b: Seq<char>)
    requires
        a.len() > 0,
        b.len() > 0,
        lex(a, b) != Order::Greater,
    ensures
        a[0] <= b[0],
{
}

/// Natural order is transitive wherever the lower-case mapping keeps digits apart from other
/// characters: a name no greater than a second, itself no greater than a third, is no greater
/// than the third, and strictly less when either step is.
pub proof fn natural_order_is_transitive(a: Seq<char>, b: Seq<char>, c: Seq<char>)
    requires
        all_lower_apart(a),
        all_lower_apart(b),
        all_lower_apart(c),
        natural_order(a, b) != Order::Greater,
        natural_order(b, c) != Order::Greater,
    ensures
        natural_order(a, c) != Order::Greater,
        (natural_order(a, b) == Order::Less || natural_order(b, c) == Order::Less) ==> natural_order(a, c) == Order::Less,
    decreases a.len() + b.len() + c.len(),
{
    reveal(natural_order);
    if a.len() == 0 || b.len() == 0 || c.len() == 0 {
        return;
    }
    lemma_runs_bounded(a);
    lemma_runs_bounded(b);
    lemma_runs_bounded(c);
    assert(lowers_apart(a[0]) && lowers_apart(b[0]) && lowers_apart(c[0]));
    let (da, db, dc) = (is_digit(a[0]), is_digit(b[0]), is_digit(c[0]));
    if da && db && dc {
        let (ra, rb, rc) = (digit_run(a) as int, digit_run(b) as int, digit_run(c) as int);
        let (x, y, z) = (a.take(ra), b.take(rb), c.take(rc));
        lemma_number_transitive(x, y, z);
        if number_order(x, y) == Order::Equal && number_order(y, z) == Order::Equal {
            assert forall|i: int| 0 <= i < a.skip(ra).len() implies lowers_apart(#[trigger] a.skip(ra)[i]) by {
                assert(a.skip(ra)[i] == a[ra + i]);
            }
            assert forall|i: int| 0 <= i < b.skip(rb).len() implies lowers_apart(#[trigger] b.skip(rb)[i]) by {
                assert(b.skip(rb)[i] == b[rb + i]);
            }
            assert forall|i: int| 0 <= i < c.skip(rc).len() implies lowers_apart(#[trigger] c.skip(rc)[i]) by {
                assert(c.skip(rc)[i] == c[rc + i]);
            }
            natural_order_is_transitive(a.skip(ra), b.skip(rb), c.skip(rc));
        }
    } else if !da && !db && !dc {
        let (la, lb, lc) = (lowercase(a[0]), lowercase(b[0]), lowercase(c[0]));
        lemma_lex_transitive(la, lb, lc);
        if lex(la, lb) == Order::Equal && lex(lb, lc) == Order::Equal {
            assert forall|i: int| 0 <= i < a.drop_first().len() implies lowers_apart(#[trigger] a.drop_first()[i]) by {
                assert(a.drop_first()[i] == a[i + 1]);
            }
            assert forall|i: int| 0 <= i < b.drop_first().len() implies lowers_apart(#[trigger] b.drop_first()[i]) by {
                assert(b.drop_first()[i] == b[i + 1]);
            }
            assert forall|i: int| 0 <= i < c.drop_first().len() implies lowers_apart(#[trigger] c.drop_first()[i]) by {
                assert(c.drop_first()[i] == c[i + 1]);
            }
            natural_order_is_transitive(a.drop_first(), b.drop_first(), c.drop_first());
        }
    } else if da && db && !dc {
        lemma_digit_against_other(b[0], c[0]);
        lemma_digit_against_other(a[0], c[0]);
    } else if !da && db && dc {
        lemma_digit_against_other(b[0], a[0]);
        lemma_digit_against_other(c[0], a[0]);
    } else if da && !db && dc {
        lemma_digit_against_other(a[0], b[0]);
        lemma_digit_against_other(c[0], b[0]);
    } else if !da && db && !dc {
        lemma_digit_against_other(b[0], a[0]);
        lemma_digit_against_other(b[0], c[0]);
        assert(lowercase(a[0])[0] < lowercase(c[0])[0]);
    } else if da && !db && !dc {
        lemma_digit_against_other(a[0], b[0]);
        lemma_digit_against_other(a[0], c[0]);
        lemma_lex_heads(lowercase(b[0]), lowercase(c[0]));
    } else {
        lemma_digit_against_other(c[0], b[0]);
        lemma_digit_against_other(c[0], a[0]);
        lemma_lex_heads(lowercase(a[0]), lowercase(b[0]));
    }
}

/// Lexicographic order of `a[alo..ahi]` and `b[blo..bhi]`.
fn lex_range(a: &Vec<char>, alo: usize, ahi: usize, b: &Vec<char>, blo: usize, bhi: usize) -> (r: Order)
    requires
        alo <= ahi <= a@.len(),
        blo <= bhi <= b@.len(),
    ensures
        r == lex(a@.subrange(alo as int, ahi as int), b@.subrange(blo as int, bhi as int)),
{
    let mut i = alo;
    let mut j = blo;
    while i < ahi && j < bhi
        invariant
            alo <= i <= ahi <= a@.len(),
            blo <= j <= bhi <= b@.len(),
            i - alo == j - blo,
            lex(a@.subrange(alo as int, ahi as int), b@.subrange(blo as int, bhi as int))
                == lex(a@.subrange(i as int, ahi as int), b@.subrange(j as int, bhi as int)),
        decreases ahi - i,
    {
        let x = a[i];
        let y = b[j];
        if x < y {
            return Order::Less;
        }
        if x > y {
            return Order::Greater;
        }
        assert(a@.subrange(i as int, ahi as int).drop_first() =~= a@.subrange(i + 1, ahi as int));
        assert(b@.subrange(j as int, bhi as int).drop_first() =~= b@.subrange(j + 1, bhi as int));
        i = i + 1;
        j = j + 1;
    }
    if i == ahi && j == bhi {
        Order::Equal
    } else if i == ahi {
        Order::Less
    } else {
        Order::Greater
    }
}

/// First index at or after `from` that is not an ASCII digit.
fn digit_end(v: &Vec<char>, from: usize) -> (e: usize)
    requires
        from <= v@.len(),
    ensures
        from <= e <= v@.len(),
        e - from == digit_run(v@.skip(from as int)),
{
    let mut e = from;
    while e < v.len() && '0' <= v[e] && v[e] <= '9'
        invariant
            from <= e <= v@.len(),
            digit_run(v@.skip(from as int)) == (e - from) + digit_run(v@.skip(e as int)),
        decreases v@.len() - e,
    {
        assert(v@.skip(e as int).drop_first() =~= v@.skip(e + 1));
        e = e + 1;
    }
    e
}

/// First index in `from..to` that is not `0`, or `to`.
fn zero_end(v: &Vec<char>, from: usize, to: usize) -> (e: usize)
    requires
        from <= to <= v@.len(),
    ensures
        from <= e <= to,
        e - from == zero_run(v@.subrange(from as int, to as int)),
{
    let mut e = from;
    while e < to && v[e] == '0'
        invariant
            from <= e <= to,
            to <= v@.len(),
            zero_run(v@.subrange(from as int, to as int)) == (e - from) + zero_run(v@.subrange(e as int, to as int)),
        decreases to - e,
    {
        assert(v@.subrange(e as int, to as int).drop_first() =~= v@.subrange(e + 1, to as int));
        e = e + 1;
    }
    e
}

/// Natural order of two character vectors.
pub fn natural_order_of(a: &Vec<char>, b: &Vec<char>) -> (r: Order)
    ensures
        r == natural_order(a@, b@),
{
    let na = a.len();
    let nb = b.len();
    let mut i: usize = 0;
    let mut j: usize = 0;
    proof {
        reveal(natural_order);
    }
    assert(a@.skip(0) =~= a@);
    assert(b@.skip(0) =~= b@);
    loop
        invariant
            na == a@.len(),
            nb == b@.len(),
            i <= na,
            j <= nb,
            natural_order(a@, b@) == natural_order(a@.skip(i as int), b@.skip(j as int)),
        decreases (na - i) + (nb - j),
    {
        proof {
            reveal(natural_order);
        }
        let ghost sa = a@.skip(i as int);
        let ghost sb = b@.skip(j as int);
        if i == na {
            if j == nb {
                return Order::Equal;
            }
            return Order::Less;
        }
        if j == nb {
            return Order::Greater;
        }
        let x = a[i];
        let y = b[j];
        assert(sa[0] == x && sb[0] == y);
        if '0' <= x && x <= '9' && '0' <= y && y <= '9' {
            let ea = digit_end(a, i);
            let eb = digit_end(b, j);
            proof {
                lemma_runs_bounded(sa);
                lemma_runs_bounded(sb);
                assert(sa.take(ea - i) =~= a@.subrange(i as int, ea as int));
                assert(sb.take(eb - j) =~= b@.subrange(j as int, eb as int));
            }
            let za = zero_end(a, i, ea);
            let zb = zero_end(b, j, eb);
            proof {
                assert(a@.subrange(i as int, ea as int).skip(za - i) =~= a@.subrange(za as int, ea as int));
                assert(b@.subrange(j as int, eb as int).skip(zb - j) =~= b@.subrange(zb as int, eb as int));
            }
            let o = if ea - za < eb - zb {
                Order::Less
            } else if ea - za > eb - zb {
                Order::Greater
            } else {
                lex_range(a, za, ea, b, zb, eb)
            };
            if o != Order::Equal {
                return o;
            }
            assert(sa.skip(ea - i) =~= a@.skip(ea as int));
            assert(sb.skip(eb - j) =~= b@.skip(eb as int));
            i = ea;
            j = eb;
        } else {
            let lx = lowercase_of(x);
            let ly = lowercase_of(y);
            let o = lex_range(&lx, 0, lx.len(), &ly, 0, ly.len());
            assert(lx@.subrange(0, lx@.len() as int) =~= lx@);
            assert(ly@.subrange(0, ly@.len() as int) =~= ly@);
            if o != Order::Equal {
                return o;
            }
            assert(sa.drop_first() =~= a@.skip(i + 1));
            assert(sb.drop_first() =~= b@.skip(j + 1));
            i = i + 1;
            j = j + 1;
        }
    }
}

/// The standard ordering for an [`Order`].
pub open spec fn to_ordering(o: Order) -> Ordering {
    match o {
        Order::Less => Ordering::Less,
        Order::Equal => Ordering::Equal,
        Order::Greater => Ordering::Greater,
    }
}

/// Case-insensitive comparison that orders runs of digits by value.
pub fn natural_cmp(a: &str, b: &str) -> (r: Ordering)
    ensures
        r == to_ordering(natural_order(a@, b@)),
{
    let va = chars_of(a);
    let vb = chars_of(b);
    match natural_order_of(&va, &vb) {
        Order::Less => Ordering::Less,
        Order::Equal => Ordering::Equal,
        Order::Greater => Ordering::Greater,
    }
}

} // verus!
