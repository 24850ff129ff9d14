//! Character-level helpers for line-oriented configuration text.
//!
//! Every string is modelled by its sequence of characters (`Seq<char>`).

use vstd::prelude::*;

verus! {

/// `String::push` of the standard library: appends one character to the end
/// of the string and changes nothing else.
pub assume_specification[ String::push ](s: &mut String, c: char)
    ensures
        final(s)@ == old(s)@.push(c),
;

/// The characters of `s`, in order.
pub fn chars_of(s: &str) -> (v: Vec<char>)
    ensures
        v@ == s@,
{
    let mut v: Vec<char> = Vec::new();
    for c in it: s.chars()
        invariant
            v@ == it.seq().take(it.index() as int),
            it.seq() == s@,
    {
        v.push(c);
    }
    v
}

/// The string made of the characters `v[from..to]`.
pub fn string_of(v: &Vec<char>, from: usize, to: usize) -> (s: String)
    requires
        from <= to <= v.len(),
    ensures
        s@ == v@.subrange(from as int, to as int),
{
    let mut s = String::new();
    let mut i: usize = from;
    while i < to
        invariant
            from <= i <= to <= v.len(),
            s@ == v@.subrange(from as int, i as int),
        decreases to - i,
    {
        s.push(v[i]);
        i += 1;
    }
    s
}

/// The characters with the Unicode property White_Space.
pub open spec fn is_whitespace(c: char) -> bool {
    let u = c as u32;
    ||| 0x09 <= u <= 0x0D
    ||| u == 0x20
    ||| u == 0x85
    ||| u == 0xA0
    ||| u == 0x1680
    ||| 0x2000 <= u <= 0x200A
    ||| u == 0x2028
    ||| u == 0x2029
    ||| u == 0x202F
    ||| u == 0x205F
    ||| u == 0x3000
}

pub fn char_is_whitespace(c: char) -> (b: bool)
    ensures
        b == is_whitespace(c),
{
    let u: u32 = c as u32;
    (0x09 <= u && u <= 0x0D) || u == 0x20 || u == 0x85 || u == 0xA0 || u == 0x1680 || (0x2000 <= u
        && u <= 0x200A) || u == 0x2028 || u == 0x2029 || u == 0x202F || u == 0x205F || u == 0x3000
}

/// What is taken from the ends of a piece of text.
#[derive(Clone, Copy, Debug, PartialEq, Eq, Structural)]
pub enum Margin {
    /// Characters with the property White_Space.
    Whitespace,
    /// The double quote that delimits keys and values.
    Quotes,
}

impl Margin {
    /// Whether `c` belongs to this margin.
    pub open spec fn holds(self, c: char) -> bool {
        match self {
            Margin::Whitespace => is_whitespace(c),
            Margin::Quotes => c == '"',
        }
    }

    pub fn has(self, c: char) -> (b: bool)
        ensures
            b == self.holds(c),
    {
        match self {
            Margin::Whitespace => char_is_whitespace(c),
            Margin::Quotes => c == '"',
        }
    }
}

/// The first index at or after `i` whose character is not in the margin,
/// or the length of `s` where there is none.
pub open spec fn skip_from(s: Seq<char>, margin: Margin, i: int) -> int
    decreases s.len() - i,
{
    if 0 <= i < s.len() && margin.holds(s[i]) {
        skip_from(s, margin, i + 1)
    } else {
        i
    }
}

/// The end of what is left of `s[lo..j]` once the characters of the margin
/// are taken from its end.
pub open spec fn skip_back(s: Seq<char>, margin: Margin, lo: int, j: int) -> int
    decreases j,
{
    if 0 <= lo < j <= s.len() && margin.holds(s[j - 1]) {
        skip_back(s, margin, lo, j - 1)
    } else {
        j
    }
}

/// `s` without the leading and trailing characters of the margin.
pub open spec fn stripped(s: Seq<char>, margin: Margin) -> Seq<char> {
    let a = skip_from(s, margin, 0);
    s.subrange(a, skip_back(s, margin, a, s.len() as int))
}

/// `s` without leading whitespace.
pub open spec fn trimmed_start(s: Seq<char>) -> Seq<char> {
    s.skip(skip_from(s, Margin::Whitespace, 0))
}

/// `s` without leading and trailing whitespace.
pub open spec fn trimmed(s: Seq<char>) -> Seq<char> {
    stripped(s, Margin::Whitespace)
}

/// `s` without leading and trailing double quotes.
pub open spec fn unquoted(s: Seq<char>) -> Seq<char> {
    stripped(s, Margin::Quotes)
}

/// `skip_from` stays inside the text, passes only characters of the margin
/// and stops at the first other character.
pub proof fn lemma_skip_from(s: Seq<char>, margin: Margin, i: int)
    requires
        0 <= i <= s.len(),
    ensures
        i <= skip_from(s, margin, i) <= s.len(),
        forall|k: int| i <= k < skip_from(s, margin, i) ==> margin.holds(#[trigger] s[k]),
        skip_from(s, margin, i) < s.len() ==> !margin.holds(s[skip_from(s, margin, i)]),
    decreases s.len() - i,
{
    if i < s.len() && margin.holds(s[i]) {
        lemma_skip_from(s, margin, i + 1);
    }
}

/// `skip_back` stays at or above `lo`, passes only characters of the margin
/// and stops below the last other character.
pub proof fn lemma_skip_back(s: Seq<char>, margin: Margin, lo: int, j: int)
    requires
        0 <= lo <= j <= s.len(),
    ensures
        lo <= skip_back(s, margin, lo, j) <= j,
        forall|k: int| skip_back(s, margin, lo, j) <= k < j ==> margin.holds(#[trigger] s[k]),
        lo < skip_back(s, margin, lo, j) ==> !margin.holds(s[skip_back(s, margin, lo, j) - 1]),
    decreases j,
{
    if lo < j && margin.holds(s[j - 1]) {
        lemma_skip_back(s, margin, lo, j - 1);
    }
}

/// What is left of a text without its margin neither begins nor ends with a
/// character of the margin.
pub proof fn lemma_stripped(s: Seq<char>, margin: Margin)
    ensures
        stripped(s, margin).len() > 0 ==> !margin.holds(stripped(s, margin).first())
            && !margin.holds(stripped(s, margin).last()),
{
    let a = skip_from(s, margin, 0);
    lemma_skip_from(s, margin, 0);
    lemma_skip_back(s, margin, a, s.len() as int);
}

/// The bounds of `stripped(v@, margin)` in `v`.
fn strip_bounds(v: &Vec<char>, margin: Margin) -> (r: (usize, usize))
    ensures
        r.0 <= r.1 <= v.len(),
        r.0 == skip_from(v@, margin, 0),
        r.1 == skip_back(v@, margin, r.0 as int, v.len() as int),
{
    let mut a: usize = 0;
    while a < v.len() && margin.has(v[a])
        invariant
            a <= v.len(),
            skip_from(v@, margin, 0) == skip_from(v@, margin, a as int),
        decreases v.len() - a,
    {
        a += 1;
    }
    let mut b: usize = v.len();
    while a < b && margin.has(v[b - 1])
        invariant
            a <= b <= v.len(),
            skip_back(v@, margin, a as int, v.len() as int) == skip_back(
                v@,
                margin,
                a as int,
                b as int,
            ),
        decreases b,
    {
        b -= 1;
    }
    (a, b)
}

/// `v` without leading and trailing whitespace.
pub fn trim(v: &Vec<char>) -> (r: Vec<char>)
    ensures
        r@ == trimmed(v@),
{
    let (a, b) = strip_bounds(v, Margin::Whitespace);
    copy_range(v, a, b)
}

/// `v` without leading and trailing double quotes.
pub fn trim_quotes(v: &Vec<char>) -> (r: Vec<char>)
    ensures
        r@ == unquoted(v@),
{
    let (a, b) = strip_bounds(v, Margin::Quotes);
    copy_range(v, a, b)
}

/// `v` without leading whitespace.
pub fn trim_start(v: &Vec<char>) -> (r: Vec<char>)
    ensures
        r@ == trimmed_start(v@),
{
    let (a, _b) = strip_bounds(v, Margin::Whitespace);
    copy_range(v, a, v.len())
}

/// A copy of `v[from..to]`.
pub fn copy_range(v: &Vec<char>, from: usize, to: usize) -> (r: Vec<char>)
    requires
        from <= to <= v.len(),
    ensures
        r@ == v@.subrange(from as int, to as int),
{
    let mut r: Vec<char> = Vec::new();
    let mut i: usize = from;
    while i < to
        invariant
            from <= i <= to <= v.len(),
            r@ == v@.subrange(from as int, i as int),
        decreases to - i,
    {
        r.push(v[i]);
        i += 1;
    }
    r
}

/// The code of `c`, with the ASCII capital letters mapped to their small
/// letters.
pub open spec fn ascii_folded(c: char) -> u32 {
    let u = c as u32;
    if 0x41 <= u <= 0x5A {
        (u + 0x20) as u32
    } else {
        u
    }
}

pub fn ascii_fold(c: char) -> (u: u32)
    ensures
        u == ascii_folded(c),
{
    let u: u32 = c as u32;
    if 0x41 <= u && u <= 0x5A {
        u + 0x20
    } else {
        u
    }
}

/// Equality of two texts up to the case of their ASCII letters.
pub open spec fn same_ignoring_ascii_case(a: Seq<char>, b: Seq<char>) -> bool {
    &&& a.len() == b.len()
    &&& forall|i: int| 0 <= i < a.len() ==> ascii_folded(#[trigger] a[i]) == ascii_folded(b[i])
}

pub fn eq_ignore_ascii_case(a: &Vec<char>, b: &Vec<char>) -> (same: bool)
    ensures
        same == same_ignoring_ascii_case(a@, b@),
{
    if a.len() != b.len() {
        return false;
    }
    let mut i: usize = 0;
    while i < a.len()
        invariant
            i <= a.len() == b.len(),
            forall|k: int| 0 <= k < i ==> ascii_folded(#[trigger] a@[k]) == ascii_folded(b@[k]),
        decreases a.len() - i,
    {
        if ascii_fold(a[i]) != ascii_fold(b[i]) {
            return false;
        }
        i += 1;
    }
    true
}

/// `s` between two double quotes.
pub open spec fn quoted(s: Seq<char>) -> Seq<char> {
    seq!['"'] + s + seq!['"']
}

pub fn quote(v: &Vec<char>) -> (r: Vec<char>)
    ensures
        r@ == quoted(v@),
{
    let mut r: Vec<char> = Vec::new();
    r.push('"');
    let mut i: usize = 0;
    while i < v.len()
        invariant
            i <= v.len(),
            r@ == seq!['"'] + v@.take(i as int),
        decreases v.len() - i,
    {
        r.push(v[i]);
        i += 1;
    }
    r.push('"');
    r
}

/// Whether `s` begins with `prefix`.
pub fn starts_with(s: &Vec<char>, prefix: &Vec<char>) -> (b: bool)
    ensures
        b == prefix@.is_prefix_of(s@),
{
    if prefix.len() > s.len() {
        return false;
    }
    let mut i: usize = 0;
    while i < prefix.len()
        invariant
            i <= prefix.len() <= s.len(),
            forall|k: int| 0 <= k < i ==> s@[k] == prefix@[k],
        decreases prefix.len() - i,
    {
        if s[i] != prefix[i] {
            return false;
        }
        i += 1;
    }
    assert(s@.subrange(0, prefix@.len() as int) =~= prefix@);
    true
}

/// Whether the two texts hold the same characters.
pub fn same_chars(a: &Vec<char>, b: &Vec<char>) -> (b_eq: bool)
    ensures
        b_eq == (a@ == b@),
{
    if a.len() != b.len() {
        return false;
    }
    let same = starts_with(a, b);
    assert(same ==> a@ =~= b@);
    same
}

/// The lower-case form of a text under Unicode's case mapping, as
/// `str::to_lowercase` of the standard library computes it.
pub uninterp spec fn lowercase_of(s: Seq<char>) -> Seq<char>;

/// `str::to_lowercase` of the standard library: the result is a function of
/// the characters of `s` alone. Nothing more is claimed of it.
pub assume_specification[ str::to_lowercase ](s: &str) -> (r: String)
    ensures
        r@ == lowercase_of(s@),
;

} // verus!
