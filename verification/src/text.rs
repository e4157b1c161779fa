//! Character and string primitives shared by every module: lexicographic order, ASCII case
//! folding, and building strings one character at a time.

use vstd::prelude::*;

verus! {

/// Three-way comparison result.
#[derive(Debug, Clone, Copy, PartialEq, Eq, Structural)]
pub enum Rank {
    Less,
    Equal,
    Greater,
}

/// Strict lexicographic order on character sequences, by code point.
///
/// This is the order `String`'s `Ord` uses: UTF-8 byte order and code-point order agree.
pub open spec fn seq_lt(a: Seq<char>, b: Seq<char>) -> bool
    decreases a.len(),
{
    if a.len() == 0 {
        b.len() > 0
    } else if b.len() == 0 {
        false
    } else if a[0] < b[0] {
        true
    } else if a[0] == b[0] {
        seq_lt(a.drop_first(), b.drop_first())
    } else {
        false
    }
}

pub proof fn lemma_seq_lt_irreflexive(a: Seq<char>)
    ensures
        !seq_lt(a, a),
    decreases a.len(),
{
    if a.len() > 0 {
        lemma_seq_lt_irreflexive(a.drop_first());
    }
}

pub proof fn lemma_seq_lt_asymmetric(a: Seq<char>, b: Seq<char>)
    ensures
        !(seq_lt(a, b) && seq_lt(b, a)),
    decreases a.len(),
{
    if a.len() > 0 && b.len() > 0 && a[0] == b[0] {
        lemma_seq_lt_asymmetric(a.drop_first(), b.drop_first());
    }
}

pub proof fn lemma_seq_lt_transitive(a: Seq<char>, b: Seq<char>, c: Seq<char>)
    requires
        seq_lt(a, b),
        seq_lt(b, c),
    ensures
        seq_lt(a, c),
    decreases a.len(),
{
    if a.len() > 0 && b.len() > 0 && c.len() > 0 && a[0] == b[0] && b[0] == c[0] {
        lemma_seq_lt_transitive(a.drop_first(), b.drop_first(), c.drop_first());
    }
}

pub proof fn lemma_seq_lt_total(a: Seq<char>, b: Seq<char>)
    ensures
        a == b || seq_lt(a, b) || seq_lt(b, a),
    decreases a.len(),
{
    if a.len() > 0 && b.len() > 0 && a[0] == b[0] {
        lemma_seq_lt_total(a.drop_first(), b.drop_first());
        if a.drop_first() == b.drop_first() {
            assert(a =~= seq![a[0]] + a.drop_first());
            assert(b =~= seq![b[0]] + b.drop_first());
        }
    } else if a.len() == 0 && b.len() == 0 {
        assert(a =~= b);
    } else if a.len() > 0 && b.len() > 0 {
        assert(a[0] != b[0]);
    }
}

/// On sequences whose first parts have the same length, the order of the concatenations is
/// the order of the pairs: first parts first, then second parts.
pub proof fn lemma_seq_lt_concat(a: Seq<char>, b: Seq<char>, c: Seq<char>, d: Seq<char>)
    requires
        a.len() == c.len(),
    ensures
        seq_lt(a + b, c + d) <==> (seq_lt(a, c) || (a == c && seq_lt(b, d))),
    decreases a.len(),
{
    if a.len() == 0 {
        assert(a + b =~= b);
        assert(c + d =~= d);
        assert(a =~= c);
    } else {
        assert((a + b)[0] == a[0]);
        assert((c + d)[0] == c[0]);
        assert((a + b).drop_first() =~= a.drop_first() + b);
        assert((c + d).drop_first() =~= c.drop_first() + d);
        lemma_seq_lt_concat(a.drop_first(), b, c.drop_first(), d);
        if a[0] == c[0] && a.drop_first() == c.drop_first() {
            assert(a =~= seq![a[0]] + a.drop_first());
            assert(c =~= seq![c[0]] + c.drop_first());
        }
        if a == c {
            assert(a.drop_first() == c.drop_first());
        }
    }
}

/// The three-way comparison that `seq_lt` induces.
pub open spec fn seq_rank(a: Seq<char>, b: Seq<char>) -> Rank {
    if a == b {
        Rank::Equal
    } else if seq_lt(a, b) {
        Rank::Less
    } else {
        Rank::Greater
    }
}

/// Compare two strings the way `String`'s `Ord` does.
pub fn compare_str(a: &str, b: &str) -> (r: Rank)
    ensures
        r == seq_rank(a@, b@),
        r == Rank::Greater ==> seq_lt(b@, a@),
{
    let x = chars_of(a);
    let y = chars_of(b);
    let mut i: usize = 0;
    while i < x.len() && i < y.len()
        invariant
            x@ == a@,
            y@ == b@,
            i <= x.len(),
            i <= y.len(),
            x@.take(i as int) == y@.take(i as int),
        decreases x.len() - i,
    {
        if x[i] < y[i] {
            proof { lemma_lt_after_common_prefix(x@, y@, i as int); }
            return Rank::Less;
        }
        if x[i] != y[i] {
            proof {
                lemma_lt_after_common_prefix(y@, x@, i as int);
                lemma_seq_lt_asymmetric(x@, y@);
            }
            return Rank::Greater;
        }
        assert(x@.take(i + 1) =~= x@.take(i as int).push(x@[i as int]));
        assert(y@.take(i + 1) =~= y@.take(i as int).push(y@[i as int]));
        i += 1;
    }
    proof { lemma_prefix_order(x@, y@, i as int); }
    if x.len() == y.len() {
        assert(x@ =~= x@.take(i as int));
        assert(y@ =~= y@.take(i as int));
        Rank::Equal
    } else if x.len() < y.len() {
        Rank::Less
    } else {
        proof { lemma_seq_lt_asymmetric(x@, y@); }
        Rank::Greater
    }
}

proof fn lemma_lt_after_common_prefix(x: Seq<char>, y: Seq<char>, i: int)
    requires
        0 <= i < x.len(),
        i < y.len(),
        x.take(i) == y.take(i),
        x[i] < y[i],
    ensures
        seq_lt(x, y),
        x != y,
    decreases i,
{
    if i > 0 {
        assert(x[0] == x.take(i)[0]);
        assert(y[0] == y.take(i)[0]);
        assert(x.drop_first().take(i - 1) =~= x.take(i).drop_first());
        assert(y.drop_first().take(i - 1) =~= y.take(i).drop_first());
        lemma_lt_after_common_prefix(x.drop_first(), y.drop_first(), i - 1);
    }
}

proof fn lemma_prefix_order(x: Seq<char>, y: Seq<char>, i: int)
    requires
        0 <= i,
        i <= x.len(),
        i <= y.len(),
        x.take(i) == y.take(i),
        i == x.len() || i == y.len(),
    ensures
        x.len() < y.len() ==> seq_lt(x, y),
        y.len() < x.len() ==> seq_lt(y, x),
        x.len() != y.len() ==> x != y,
    decreases i,
{
    if i > 0 {
        assert(x[0] == x.take(i)[0]);
        assert(y[0] == y.take(i)[0]);
        assert(x.drop_first().take(i - 1) =~= x.take(i).drop_first());
        assert(y.drop_first().take(i - 1) =~= y.take(i).drop_first());
        lemma_prefix_order(x.drop_first(), y.drop_first(), i - 1);
    }
}

/// The characters of a string, in order.
pub fn chars_of(s: &str) -> (r: Vec<char>)
    ensures
        r@ == s@,
{
    let mut r: Vec<char> = Vec::new();
    for c in iter: s.chars()
        invariant
            r@ == iter.seq().take(iter.index() as int),
            iter.seq() == s@,
    {
        r.push(c);
    }
    r
}

/// `String::push`: appends one character.
#[verifier::external_body]
pub fn push_char(s: &mut String, c: char)
    ensures
        final(s)@ == old(s)@.push(c),
{
    s.push(c);
}

/// `String::push_str`: appends a string slice.
#[verifier::external_body]
pub fn push_str(s: &mut String, t: &str)
    ensures
        final(s)@ == old(s)@ + t@,
{
    s.push_str(t);
}

/// A string holding exactly these characters.
pub fn string_of(cs: &Vec<char>) -> (r: String)
    ensures
        r@ == cs@,
{
    let mut r = String::new();
    let mut i: usize = 0;
    while i < cs.len()
        invariant
            i <= cs.len(),
            r@ == cs@.take(i as int),
        decreases cs.len() - i,
    {
        assert(cs@.take(i + 1) =~= cs@.take(i as int).push(cs@[i as int]));
        push_char(&mut r, cs[i]);
        i += 1;
    }
    assert(cs@.take(cs.len() as int) =~= cs@);
    r
}

/// An owned copy of a string slice.
pub fn owned(s: &str) -> (r: String)
    ensures
        r@ == s@,
{
    s.to_owned()
}

/// ASCII upper-casing of one character; everything else is unchanged.
pub open spec fn ascii_upper(c: char) -> char {
    if 'a' <= c && c <= 'z' {
        ((c as u32) - 32) as char
    } else {
        c
    }
}

/// `str::to_ascii_uppercase`, character by character.
pub open spec fn upper(s: Seq<char>) -> Seq<char> {
    s.map_values(|c: char| ascii_upper(c))
}

pub fn upper_char(c: char) -> (r: char)
    ensures
        r == ascii_upper(c),
{
    if 'a' <= c && c <= 'z' {
        let b = (c as u32 - 32) as u8;
        assert(b as u32 == (c as u32) - 32);
        (b as char)
    } else {
        c
    }
}

/// `str::to_ascii_uppercase`.
pub fn to_ascii_uppercase(s: &str) -> (r: String)
    ensures
        r@ == upper(s@),
{
    let cs = chars_of(s);
    let mut out: Vec<char> = Vec::new();
    let mut i: usize = 0;
    while i < cs.len()
        invariant
            cs@ == s@,
            i <= cs.len(),
            out@ == upper(cs@.take(i as int)),
        decreases cs.len() - i,
    {
        out.push(upper_char(cs[i]));
        assert(upper(cs@.take(i + 1)) =~= upper(cs@.take(i as int)).push(ascii_upper(cs@[i as int])));
        i += 1;
    }
    assert(cs@.take(cs.len() as int) =~= cs@);
    string_of(&out)
}

/// Whether `s` starts with `p`.
pub open spec fn starts_with(s: Seq<char>, p: Seq<char>) -> bool {
    p.len() <= s.len() && s.take(p.len() as int) == p
}

pub fn seq_starts_with(s: &Vec<char>, p: &str) -> (r: bool)
    ensures
        r == starts_with(s@, p@),
{
    let pc = chars_of(p);
    if pc.len() > s.len() {
        return false;
    }
    let mut i: usize = 0;
    while i < pc.len()
        invariant
            pc@ == p@,
            pc.len() <= s.len(),
            i <= pc.len(),
            s@.take(i as int) == pc@.take(i as int),
        decreases pc.len() - i,
    {
        if s[i] != pc[i] {
            assert(s@.take(pc.len() as int)[i as int] == s@[i as int]);
            return false;
        }
        assert(s@.take(i + 1) =~= s@.take(i as int).push(s@[i as int]));
        assert(pc@.take(i + 1) =~= pc@.take(i as int).push(pc@[i as int]));
        i += 1;
    }
    assert(pc@.take(pc.len() as int) =~= pc@);
    true
}

/// Whether two strings are equal, as character sequences.
pub fn str_eq(a: &str, b: &str) -> (r: bool)
    ensures
        r == (a@ == b@),
{
    compare_str(a, b) == Rank::Equal
}

/// Decimal digits of a natural number, most significant first, without leading zeros (the
/// number zero is `"0"`).
pub open spec fn decimal(v: nat) -> Seq<char>
    decreases v,
{
    if v < 10 {
        seq![digit_char(v)]
    } else {
        decimal(v / 10).push(digit_char(v % 10))
    }
}

pub open spec fn digit_char(d: nat) -> char {
    ((d + 48) as u32) as char
}

/// `decimal`, left-padded with zeros to at least `width` characters.
pub open spec fn padded_decimal(v: nat, width: nat) -> Seq<char> {
    let d = decimal(v);
    if d.len() >= width {
        d
    } else {
        Seq::new((width - d.len()) as nat, |i: int| '0') + d
    }
}

/// Signed decimal, as `{}` prints an `i64`.
pub open spec fn signed_decimal(v: int) -> Seq<char> {
    if v < 0 {
        seq!['-'] + decimal((-v) as nat)
    } else {
        decimal(v as nat)
    }
}

fn digit(d: u64) -> (r: char)
    requires
        d < 10,
    ensures
        r == digit_char(d as nat),
{
    let b = (d + 48) as u8;
    (b as char)
}

/// `{}` for a `u64`.
pub fn format_u64(v: u64) -> (r: String)
    ensures
        r@ == decimal(v as nat),
    decreases v,
{
    let mut s = if v >= 10 {
        format_u64(v / 10)
    } else {
        String::new()
    };
    push_char(&mut s, digit(v % 10));
    if v < 10 {
        assert(s@ =~= seq![digit_char(v as nat)]);
    }
    s
}


/// Unicode `White_Space`, which `char::is_whitespace` tests.
pub open spec fn whitespace(c: char) -> bool {
    let u = c as u32;
    ||| 0x09 <= u <= 0x0d
    ||| u == 0x20
    ||| u == 0x85
    ||| u == 0xa0
    ||| u == 0x1680
    ||| 0x2000 <= u <= 0x200a
    ||| u == 0x2028
    ||| u == 0x2029
    ||| u == 0x202f
    ||| u == 0x205f
    ||| u == 0x3000
}

/// `char::is_whitespace`.
pub fn is_whitespace(c: char) -> (r: bool)
    ensures
        r == whitespace(c),
{
    let u = c as u32;
    (0x09 <= u && u <= 0x0d) || u == 0x20 || u == 0x85 || u == 0xa0 || u == 0x1680 || (0x2000 <= u
        && u <= 0x200a) || u == 0x2028 || u == 0x2029 || u == 0x202f || u == 0x205f || u == 0x3000
}

/// The first index at or after `from` where `pat` occurs in `s`.
pub open spec fn find_from(s: Seq<char>, pat: Seq<char>, from: int) -> Option<int>
    decreases s.len() + 1 - from,
{
    if from < 0 || from + pat.len() > s.len() {
        None
    } else if s.subrange(from, from + pat.len()) == pat {
        Some(from)
    } else {
        find_from(s, pat, from + 1)
    }
}

/// `find_from`, on characters.
pub fn find_in(s: &Vec<char>, pat: &Vec<char>, from: usize) -> (r: Option<usize>)
    requires
        from <= s.len(),
    ensures
        r matches Some(i) ==> find_from(s@, pat@, from as int) == Some(i as int),
        r is None ==> find_from(s@, pat@, from as int) is None,
{
    let mut i = from;
    while pat.len() <= s.len() - i
        invariant
            from <= i <= s.len(),
            find_from(s@, pat@, from as int) == find_from(s@, pat@, i as int),
        decreases s.len() - i,
    {
        let mut j: usize = 0;
        let mut same = true;
        assert(s@.subrange(i as int, i as int) =~= pat@.take(0));
        while j < pat.len()
            invariant
                i + pat.len() <= s.len(),
                j <= pat.len(),
                same == (s@.subrange(i as int, i + j) == pat@.take(j as int)),
            decreases pat.len() - j,
        {
            if same && s[i + j] != pat[j] {
                assert(s@.subrange(i as int, i + j + 1)[j as int] != pat@.take(j + 1)[j as int]);
                same = false;
            } else if same {
                assert(s@.subrange(i as int, i + j + 1) =~= s@.subrange(i as int, i + j).push(s@[i + j]));
                assert(pat@.take(j + 1) =~= pat@.take(j as int).push(pat@[j as int]));
            } else {
                assert(s@.subrange(i as int, i + j + 1).take(j as int) =~= s@.subrange(i as int, i + j));
                assert(pat@.take(j + 1).take(j as int) =~= pat@.take(j as int));
            }
            j += 1;
        }
        assert(pat@.take(pat.len() as int) =~= pat@);
        if same {
            return Some(i);
        }
        i += 1;
    }
    None
}

/// A string holding the characters of `cs` from `lo` up to `hi`.
pub fn string_between(cs: &Vec<char>, lo: usize, hi: usize) -> (r: String)
    requires
        lo <= hi <= cs.len(),
    ensures
        r@ == cs@.subrange(lo as int, hi as int),
{
    let mut r = String::new();
    let mut i: usize = lo;
    while i < hi
        invariant
            lo <= i <= hi <= cs.len(),
            r@ == cs@.subrange(lo as int, i as int),
        decreases hi - i,
    {
        assert(cs@.subrange(lo as int, i + 1) =~= cs@.subrange(lo as int, i as int).push(cs@[i as int]));
        push_char(&mut r, cs[i]);
        i += 1;
    }
    r
}


/// `{:0width$}` for a `u64`.
pub fn format_padded(v: u64, width: usize) -> (r: String)
    ensures
        r@ == padded_decimal(v as nat, width as nat),
{
    let d = format_u64(v);
    let digits = chars_of(d.as_str());
    if digits.len() >= width {
        return d;
    }
    let mut out = String::new();
    let mut i: usize = 0;
    let pad = width - digits.len();
    while i < pad
        invariant
            i <= pad,
            pad == width - decimal(v as nat).len(),
            out@ == Seq::new(i as nat, |j: int| '0'),
        decreases pad - i,
    {
        push_char(&mut out, '0');
        assert(out@ =~= Seq::new((i + 1) as nat, |j: int| '0'));
        i += 1;
    }
    push_str(&mut out, d.as_str());
    out
}

/// `{}` for an `i64`.
pub fn format_i64(v: i64) -> (r: String)
    ensures
        r@ == signed_decimal(v as int),
{
    if v < 0 {
        let m: u64 = ((-(v + 1)) as u64) + 1;
        let mut out = String::new();
        push_char(&mut out, '-');
        let d = format_u64(m);
        push_str(&mut out, d.as_str());
        assert(out@ =~= seq!['-'] + decimal((-(v as int)) as nat));
        out
    } else {
        format_u64(v as u64)
    }
}

}
