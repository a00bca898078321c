//! Character and string helpers shared by the validators and matchers.
//!
//! Unicode character classes and case mapping come from the standard library
//! (each behind one trusted wrapper, named by an uninterpreted function);
//! everything built on top of them (trimming, searching, replacing, decimal
//! formatting) is verified here.

use vstd::prelude::*;

verus! {

// ---------------------------------------------------------------------------
// Names for what the standard library computes from Unicode tables.
// ---------------------------------------------------------------------------

/// What `char::is_alphanumeric` answers for a character (Unicode `Alphabetic`
/// or `Numeric`).
pub uninterp spec fn char_alphanumeric(c: char) -> bool;

/// What `char::is_control` answers for a character (general category `Cc`).
pub uninterp spec fn char_control(c: char) -> bool;

/// What `char::is_whitespace` answers for a character (Unicode `White_Space`).
pub uninterp spec fn char_whitespace(c: char) -> bool;

/// What `str::to_lowercase` returns for a string.
pub uninterp spec fn lowercase(s: Seq<char>) -> Seq<char>;

/// ASCII letters and digits.
pub open spec fn ascii_alphanumeric(c: char) -> bool {
    ('a' <= c && c <= 'z') || ('A' <= c && c <= 'Z') || ('0' <= c && c <= '9')
}

/// Calls `char::is_alphanumeric`. Claimed: the answer is the named Unicode
/// property, and on ASCII characters it is exactly "ASCII letter or digit".
#[verifier::external_body]
pub(crate) fn is_alphanumeric(c: char) -> (r: bool)
    ensures
        r == char_alphanumeric(c),
        (c as u32) < 128 ==> (r <==> ascii_alphanumeric(c)),
{
    c.is_alphanumeric()
}

/// Calls `char::is_control`. Claimed: the answer is the named Unicode
/// property, and ASCII letters, digits, space and the printable ASCII
/// punctuation (0x20..0x7E) are not control characters.
#[verifier::external_body]
pub(crate) fn is_control(c: char) -> (r: bool)
    ensures
        r == char_control(c),
        (0x20 <= (c as u32) && (c as u32) <= 0x7e) ==> !r,
{
    c.is_control()
}

/// Calls `char::is_whitespace`. Claimed: the answer is the named Unicode
/// property; the ASCII space, tab, line feed and carriage return are
/// whitespace and ASCII letters, digits and printable punctuation other than
/// the space are not.
#[verifier::external_body]
pub(crate) fn is_whitespace(c: char) -> (r: bool)
    ensures
        r == char_whitespace(c),
        (c == ' ' || c == '\t' || c == '\n' || c == '\r') ==> r,
        (0x21 <= (c as u32) && (c as u32) <= 0x7e) ==> !r,
{
    c.is_whitespace()
}

/// The ASCII lower case of a character: 'A'..='Z' become 'a'..='z', every
/// other character stays.
pub open spec fn ascii_lower(c: char) -> char {
    if 'A' <= c && c <= 'Z' { ((c as u32) + 32) as char } else { c }
}

/// Every character of `s` is ASCII.
pub open spec fn all_ascii(s: Seq<char>) -> bool {
    forall|i: int| 0 <= i < s.len() ==> (#[trigger] s[i] as u32) < 128
}

/// Calls `str::to_lowercase`. Claimed: the result is the named lowercase
/// mapping of the argument, a function of the argument alone; on an ASCII
/// string it is the string with 'A'..='Z' turned into 'a'..='z' (the Unicode
/// lowercase mapping of an ASCII character is its ASCII lower case).
#[verifier::external_body]
pub(crate) fn to_lowercase(s: &str) -> (r: String)
    ensures
        r@ == lowercase(s@),
        all_ascii(s@) ==> r@ == s@.map_values(|c: char| ascii_lower(c)),
{
    s.to_lowercase()
}

/// Calls `String::push`. Claimed: the character is appended.
#[verifier::external_body]
pub(crate) fn push_char(s: &mut String, c: char)
    ensures
        final(s)@ == old(s)@.push(c),
{
    s.push(c)
}

// ---------------------------------------------------------------------------
// Conversions between strings and character vectors.
// ---------------------------------------------------------------------------

/// The characters of a string slice, in order.
pub fn chars_of(s: &str) -> (v: Vec<char>)
    ensures
        v@ == s@,
{
    let n = s.unicode_len();
    let mut v: Vec<char> = Vec::new();
    let mut i: usize = 0;
    while i < n
        invariant
            n == s@.len(),
            i <= n,
            v@ == s@.subrange(0, i as int),
        decreases n - i,
    {
        let c = s.get_char(i);
        v.push(c);
        i = i + 1;
        assert(v@ =~= s@.subrange(0, i as int));
    }
    assert(v@ =~= s@);
    v
}

/// A string holding the characters `v[from..to]`.
pub fn string_from_range(v: &Vec<char>, from: usize, to: usize) -> (s: String)
    requires
        from <= to <= v@.len(),
    ensures
        s@ == v@.subrange(from as int, to as int),
{
    let mut s = String::new();
    let mut i: usize = from;
    while i < to
        invariant
            from <= i <= to,
            to <= v@.len(),
            s@ == v@.subrange(from as int, i as int),
        decreases to - i,
    {
        push_char(&mut s, v[i]);
        i = i + 1;
        assert(s@ =~= v@.subrange(from as int, i as int));
    }
    s
}

/// A string holding the characters of `v`.
pub fn string_from_chars(v: &Vec<char>) -> (s: String)
    ensures
        s@ == v@,
{
    let s = string_from_range(v, 0, v.len());
    assert(v@.subrange(0, v@.len() as int) =~= v@);
    s
}

/// A fresh string with the same characters as `s`.
pub fn owned(s: &str) -> (r: String)
    ensures
        r@ == s@,
{
    s.to_owned()
}

/// Two string slices hold the same characters.
pub fn str_eq(a: &str, b: &str) -> (r: bool)
    ensures
        r == (a@ == b@),
{
    let x = a.to_owned();
    let y = b.to_owned();
    x == y
}

/// Concatenation of two string slices.
pub fn concat(a: &str, b: &str) -> (r: String)
    ensures
        r@ == a@ + b@,
{
    let mut r = a.to_owned();
    r.append(b);
    r
}

/// Concatenation of three string slices.
pub fn concat3(a: &str, b: &str, c: &str) -> (r: String)
    ensures
        r@ == a@ + b@ + c@,
{
    let mut r = a.to_owned();
    r.append(b);
    r.append(c);
    r
}

// ---------------------------------------------------------------------------
// Searching.
// ---------------------------------------------------------------------------

/// `p` occurs in `s` at position `i`.
pub open spec fn occurs_at(s: Seq<char>, p: Seq<char>, i: int) -> bool {
    0 <= i && i + p.len() <= s.len() && s.subrange(i, i + p.len()) == p
}

/// `p` occurs somewhere in `s` (as `str::contains` with a string pattern).
pub open spec fn contains_seq(s: Seq<char>, p: Seq<char>) -> bool {
    exists|i: int| occurs_at(s, p, i)
}

/// `s` begins with `p`.
pub open spec fn starts_with_seq(s: Seq<char>, p: Seq<char>) -> bool {
    p.len() <= s.len() && s.subrange(0, p.len() as int) == p
}

/// `s` contains the character `c`.
pub open spec fn has_char(s: Seq<char>, c: char) -> bool {
    exists|i: int| 0 <= i < s.len() && s[i] == c
}

/// Whether `p` occurs in `s` at position `i`.
fn matches_at(s: &Vec<char>, p: &Vec<char>, i: usize) -> (r: bool)
    requires
        i + p@.len() <= s@.len(),
    ensures
        r == occurs_at(s@, p@, i as int),
{
    let sl = s.len();
    let mut k: usize = 0;
    while k < p.len()
        invariant
            sl == s@.len(),
            i + p@.len() <= s@.len(),
            k <= p@.len(),
            forall|j: int| 0 <= j < k ==> s@[i + j] == p@[j],
        decreases p@.len() - k,
    {
        assert(i + k < s@.len());
        if s[i + k] != p[k] {
            assert(s@.subrange(i as int, i + p@.len())[k as int] != p@[k as int]);
            return false;
        }
        k = k + 1;
    }
    assert(s@.subrange(i as int, i + p@.len()) =~= p@);
    true
}

/// Whether the characters of `p` occur contiguously in `s`.
pub fn contains_chars(s: &Vec<char>, p: &Vec<char>) -> (r: bool)
    ensures
        r == contains_seq(s@, p@),
{
    if p.len() > s.len() {
        assert forall|i: int| !occurs_at(s@, p@, i) by {}
        return false;
    }
    let last = s.len() - p.len();
    let mut i: usize = 0;
    while i < last
        invariant
            last == s@.len() - p@.len(),
            p@.len() <= s@.len(),
            i <= last,
            forall|j: int| 0 <= j < i ==> !occurs_at(s@, p@, j),
        decreases last - i,
    {
        if matches_at(s, p, i) {
            return true;
        }
        i = i + 1;
    }
    if matches_at(s, p, last) {
        return true;
    }
    assert forall|j: int| !occurs_at(s@, p@, j) by {
        if 0 <= j < i {
        }
    }
    false
}

/// `str::contains` with a string pattern.
pub fn str_contains(s: &str, p: &str) -> (r: bool)
    ensures
        r == contains_seq(s@, p@),
{
    let sv = chars_of(s);
    let pv = chars_of(p);
    contains_chars(&sv, &pv)
}

/// `str::starts_with` with a string pattern.
pub fn str_starts_with(s: &str, p: &str) -> (r: bool)
    ensures
        r == starts_with_seq(s@, p@),
{
    let sv = chars_of(s);
    let pv = chars_of(p);
    if pv.len() > sv.len() {
        return false;
    }
    let r = matches_at(&sv, &pv, 0);
    r
}

/// Whether a string slice contains the character `c`.
pub fn str_has_char(s: &str, c: char) -> (r: bool)
    ensures
        r == has_char(s@, c),
{
    let v = chars_of(s);
    let mut i: usize = 0;
    while i < v.len()
        invariant
            v@ == s@,
            i <= v@.len(),
            forall|j: int| 0 <= j < i ==> v@[j] != c,
        decreases v@.len() - i,
    {
        if v[i] == c {
            return true;
        }
        i = i + 1;
    }
    false
}

// ---------------------------------------------------------------------------
// Whitespace trimming (as `str::trim`, by `char::is_whitespace`).
// ---------------------------------------------------------------------------

/// Index of the first character that is not whitespace, at or after `i`.
pub open spec fn first_non_ws(s: Seq<char>, i: int) -> int
    decreases s.len() - i,
{
    if i < 0 || i >= s.len() {
        s.len() as int
    } else if char_whitespace(s[i]) {
        first_non_ws(s, i + 1)
    } else {
        i
    }
}

/// One past the last character before `j` that is not whitespace, stopping at `lo`.
pub open spec fn last_non_ws_end(s: Seq<char>, lo: int, j: int) -> int
    decreases j - lo,
{
    if j <= lo || j > s.len() {
        if j > s.len() { s.len() as int } else { lo }
    } else if char_whitespace(s[j - 1]) {
        last_non_ws_end(s, lo, j - 1)
    } else {
        j
    }
}

/// `s` with leading and trailing whitespace removed.
pub open spec fn trim_seq(s: Seq<char>) -> Seq<char> {
    let a = first_non_ws(s, 0);
    let b = last_non_ws_end(s, a, s.len() as int);
    s.subrange(a, b)
}

proof fn lemma_first_non_ws_bounds(s: Seq<char>, i: int)
    requires
        0 <= i <= s.len(),
    ensures
        i <= first_non_ws(s, i) <= s.len(),
    decreases s.len() - i,
{
    if i < s.len() && char_whitespace(s[i]) {
        lemma_first_non_ws_bounds(s, i + 1);
    }
}

proof fn lemma_last_non_ws_bounds(s: Seq<char>, lo: int, j: int)
    requires
        0 <= lo <= j <= s.len(),
    ensures
        lo <= last_non_ws_end(s, lo, j) <= j,
    decreases j - lo,
{
    if j > lo && char_whitespace(s[j - 1]) {
        lemma_last_non_ws_bounds(s, lo, j - 1);
    }
}

/// `str::trim`: leading and trailing whitespace removed.
pub fn trim(s: &str) -> (r: String)
    ensures
        r@ == trim_seq(s@),
{
    let v = chars_of(s);
    let n = v.len();
    let mut a: usize = 0;
    while a < n && is_whitespace(v[a])
        invariant
            v@ == s@,
            n == v@.len(),
            a <= n,
            first_non_ws(s@, 0) == first_non_ws(s@, a as int),
        decreases n - a,
    {
        a = a + 1;
    }
    assert(first_non_ws(s@, a as int) == a as int);
    let mut b: usize = n;
    while b > a && is_whitespace(v[b - 1])
        invariant
            v@ == s@,
            n == v@.len(),
            a <= b <= n,
            last_non_ws_end(s@, a as int, n as int) == last_non_ws_end(s@, a as int, b as int),
        decreases b - a,
    {
        b = b - 1;
    }
    assert(last_non_ws_end(s@, a as int, b as int) == b as int);
    string_from_range(&v, a, b)
}

// ---------------------------------------------------------------------------
// Character replacement and suffix trimming (as used for Windows paths).
// ---------------------------------------------------------------------------

/// Every occurrence of `from` replaced by `to`.
pub open spec fn replace_char_seq(s: Seq<char>, from: char, to: char) -> Seq<char> {
    Seq::new(s.len(), |i: int| if s[i] == from { to } else { s[i] })
}

/// `str::replace` with single-character pattern and replacement.
pub fn replace_char(s: &str, from: char, to: char) -> (r: String)
    ensures
        r@ == replace_char_seq(s@, from, to),
{
    let v = chars_of(s);
    let mut r = String::new();
    let mut i: usize = 0;
    while i < v.len()
        invariant
            v@ == s@,
            i <= v@.len(),
            r@ == replace_char_seq(s@, from, to).subrange(0, i as int),
        decreases v@.len() - i,
    {
        let c = v[i];
        if c == from {
            push_char(&mut r, to);
        } else {
            push_char(&mut r, c);
        }
        i = i + 1;
        assert(r@ =~= replace_char_seq(s@, from, to).subrange(0, i as int));
    }
    assert(replace_char_seq(s@, from, to).subrange(0, i as int) =~= replace_char_seq(s@, from, to));
    r
}

/// Length of `s` once every trailing `c` has been removed.
pub open spec fn trimmed_end_len(s: Seq<char>, c: char, j: int) -> int
    decreases j,
{
    if j <= 0 || j > s.len() {
        if j > s.len() { s.len() as int } else { 0 }
    } else if s[j - 1] == c {
        trimmed_end_len(s, c, j - 1)
    } else {
        j
    }
}

/// `s` with every trailing `c` removed (as `str::trim_end_matches` with a character).
pub open spec fn trim_end_char_seq(s: Seq<char>, c: char) -> Seq<char> {
    s.subrange(0, trimmed_end_len(s, c, s.len() as int))
}

proof fn lemma_trimmed_end_bounds(s: Seq<char>, c: char, j: int)
    requires
        0 <= j <= s.len(),
    ensures
        0 <= trimmed_end_len(s, c, j) <= j,
    decreases j,
{
    if j > 0 && s[j - 1] == c {
        lemma_trimmed_end_bounds(s, c, j - 1);
    }
}

/// `str::trim_end_matches` with a single character.
pub fn trim_end_char(s: &str, c: char) -> (r: String)
    ensures
        r@ == trim_end_char_seq(s@, c),
{
    let v = chars_of(s);
    let mut b: usize = v.len();
    while b > 0 && v[b - 1] == c
        invariant
            v@ == s@,
            b <= v@.len(),
            trimmed_end_len(s@, c, s@.len() as int) == trimmed_end_len(s@, c, b as int),
        decreases b,
    {
        b = b - 1;
    }
    string_from_range(&v, 0, b)
}

// ---------------------------------------------------------------------------
// Decimal formatting.
// ---------------------------------------------------------------------------

/// The ASCII digit for `d` (0..=9).
pub open spec fn digit_char(d: nat) -> char {
    if d == 0 { '0' } else if d == 1 { '1' } else if d == 2 { '2' } else if d == 3 { '3' }
    else if d == 4 { '4' } else if d == 5 { '5' } else if d == 6 { '6' } else if d == 7 { '7' }
    else if d == 8 { '8' } else { '9' }
}

/// The decimal representation of `n`, without leading zeros ("0" for zero).
pub open spec fn decimal(n: nat) -> Seq<char>
    decreases n,
{
    if n < 10 {
        seq![digit_char(n)]
    } else {
        decimal(n / 10).push(digit_char(n % 10))
    }
}

fn digit(d: u64) -> (c: char)
    requires
        d < 10,
    ensures
        c == digit_char(d as nat),
{
    if d == 0 { '0' } else if d == 1 { '1' } else if d == 2 { '2' } else if d == 3 { '3' }
    else if d == 4 { '4' } else if d == 5 { '5' } else if d == 6 { '6' } else if d == 7 { '7' }
    else if d == 8 { '8' } else { '9' }
}

/// The decimal representation of `n` (as `u64::to_string`).
pub fn u64_to_decimal(n: u64) -> (s: String)
    ensures
        s@ == decimal(n as nat),
{
    let mut acc: Vec<char> = Vec::new();
    let mut m: u64 = n;
    while m >= 10
        invariant
            decimal(n as nat) == decimal(m as nat) + acc@,
        decreases m,
    {
        let d = digit(m % 10);
        acc.insert(0, d);
        proof {
            assert(decimal(m as nat) == decimal((m / 10) as nat).push(digit_char((m % 10) as nat)));
        }
        let ghost old_m = m;
        m = m / 10;
        assert(decimal(n as nat) =~= decimal(m as nat) + acc@);
    }
    acc.insert(0, digit(m));
    assert(decimal(m as nat) == seq![digit_char(m as nat)]);
    assert(acc@ =~= decimal(n as nat));
    string_from_chars(&acc)
}

/// The decimal representation of `n` (as `usize::to_string`).
pub fn usize_to_decimal(n: usize) -> (s: String)
    ensures
        s@ == decimal(n as nat),
{
    u64_to_decimal(n as u64)
}

} // verus!

verus! {

/// Number of bytes of the UTF-8 encoding of `s`, as `str::len` gives it (a
/// `usize`).
pub open spec fn byte_len(s: Seq<char>) -> nat {
    (vstd::utf8::encode_utf8(s).len() as usize) as nat
}

} // verus!
