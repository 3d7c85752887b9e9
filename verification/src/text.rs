//! Character classes and scanning primitives over sequences of characters.
//!
//! Text is handled as a sequence of Unicode scalar values, so positions and
//! lengths count characters, never bytes.

use vstd::prelude::*;

verus! {

/// The classes of characters that the scanners distinguish.
#[derive(Clone, Copy, Debug)]
pub enum CharClass {
    /// A character with the Unicode `White_Space` property.
    Space,
    /// Any character without the `White_Space` property.
    NonSpace,
    /// An ASCII letter, an ASCII digit or `_`.
    Word,
    /// Any character but the line feed.
    NonNewline,
    /// Any character but the given one.
    Except(char),
}

/// Whether `c` has the Unicode `White_Space` property.
pub open spec fn is_space(c: char) -> bool {
    let u = c as u32;
    ||| 0x09 <= u <= 0x0D
    ||| u == 0x20
    ||| u == 0x85
    ||| u == 0xA0
    ||| u == 0x1680
    ||| 0x2000 <= u <= 0x200A
    ||| u == 0x2028
    ||| u == 0x2029
    ||| u == 0x202F
    ||| u == 0x205F
    ||| u == 0x3000
}

/// Whether `c` is an ASCII decimal digit.
pub open spec fn is_digit(c: char) -> bool {
    '0' <= c <= '9'
}

/// Whether `c` is an ASCII letter, an ASCII digit or an underscore.
pub open spec fn is_word(c: char) -> bool {
    ||| 'a' <= c <= 'z'
    ||| 'A' <= c <= 'Z'
    ||| '0' <= c <= '9'
    ||| c == '_'
}

/// Membership of a character in a class.
pub open spec fn in_class(c: char, class: CharClass) -> bool {
    match class {
        CharClass::Space => is_space(c),
        CharClass::NonSpace => !is_space(c),
        CharClass::Word => is_word(c),
        CharClass::NonNewline => c != '\n',
        CharClass::Except(x) => c != x,
    }
}

/// The end of the longest run of characters of `class` that starts at `i`:
/// the first position at or after `i` whose character is outside the class,
/// or the length of the text.
pub open spec fn run_end(t: Seq<char>, i: int, class: CharClass) -> int
    decreases t.len() - i,
{
    if 0 <= i < t.len() && in_class(t[i], class) {
        run_end(t, i + 1, class)
    } else {
        i
    }
}

/// A run ends inside the text, holds only characters of its class, and stops
/// at a character outside the class.
pub proof fn lemma_run_end(t: Seq<char>, i: int, class: CharClass)
    requires
        0 <= i <= t.len(),
    ensures
        i <= run_end(t, i, class) <= t.len(),
        forall|k: int| i <= k < run_end(t, i, class) ==> in_class(#[trigger] t[k], class),
        run_end(t, i, class) < t.len() ==> !in_class(t[run_end(t, i, class)], class),
    decreases t.len() - i,
{
    if i < t.len() && in_class(t[i], class) {
        lemma_run_end(t, i + 1, class);
    }
}

/// A run that starts on a character of its class is not empty.
pub proof fn lemma_run_nonempty(t: Seq<char>, i: int, class: CharClass)
    requires
        0 <= i < t.len(),
        in_class(t[i], class),
    ensures
        i < run_end(t, i, class) <= t.len(),
{
    lemma_run_end(t, i + 1, class);
}

/// Any position that is reached through characters of the class, and that
/// stops the run, is the end of the run.
pub proof fn lemma_run_end_is(t: Seq<char>, i: int, j: int, class: CharClass)
    requires
        0 <= i <= j <= t.len(),
        forall|k: int| i <= k < j ==> in_class(#[trigger] t[k], class),
        j < t.len() ==> !in_class(t[j], class),
    ensures
        run_end(t, i, class) == j,
    decreases j - i,
{
    if i < j {
        lemma_run_end_is(t, i + 1, j, class);
    }
}

/// Behind a prefix, a run ends where it ends in the rest alone.
pub proof fn lemma_run_end_shift(a: Seq<char>, b: Seq<char>, j: int, class: CharClass)
    requires
        0 <= j <= b.len(),
    ensures
        run_end(a + b, a.len() + j, class) == a.len() + run_end(b, j, class),
    decreases b.len() - j,
{
    if j < b.len() {
        assert((a + b)[a.len() + j] == b[j]);
        if in_class(b[j], class) {
            lemma_run_end_shift(a, b, j + 1, class);
        }
    }
}

/// A run that ends inside a prefix ends at the same place when more text
/// follows the prefix.
pub proof fn lemma_run_end_prefix(a: Seq<char>, b: Seq<char>, i: int, class: CharClass)
    requires
        0 <= i <= a.len(),
        run_end(a, i, class) < a.len(),
    ensures
        run_end(a + b, i, class) == run_end(a, i, class),
    decreases a.len() - i,
{
    if i < a.len() {
        assert((a + b)[i] == a[i]);
        if in_class(a[i], class) {
            lemma_run_end_prefix(a, b, i + 1, class);
        }
    }
}

/// Tests whether `c` has the Unicode `White_Space` property.
pub fn is_space_char(c: char) -> (r: bool)
    ensures
        r == is_space(c),
{
    let u: u32 = c as u32;
    (0x09 <= u && u <= 0x0D) || u == 0x20 || u == 0x85 || u == 0xA0 || u == 0x1680 || (0x2000 <= u
        && u <= 0x200A) || u == 0x2028 || u == 0x2029 || u == 0x202F || u == 0x205F || u == 0x3000
}

/// The code point of `c`.
pub fn code_point(c: char) -> (u: u32)
    ensures
        u as nat == c as nat,
{
    c as u32
}

/// Tests whether `c` is an ASCII decimal digit.
pub fn is_digit_char(c: char) -> (r: bool)
    ensures
        r == is_digit(c),
{
    '0' <= c && c <= '9'
}

/// Tests whether `c` is an ASCII letter, an ASCII digit or an underscore.
pub fn is_word_char(c: char) -> (r: bool)
    ensures
        r == is_word(c),
{
    ('a' <= c && c <= 'z') || ('A' <= c && c <= 'Z') || ('0' <= c && c <= '9') || c == '_'
}

/// Tests whether `c` belongs to `class`.
pub fn char_in_class(c: char, class: CharClass) -> (r: bool)
    ensures
        r == in_class(c, class),
{
    match class {
        CharClass::Space => is_space_char(c),
        CharClass::NonSpace => !is_space_char(c),
        CharClass::Word => is_word_char(c),
        CharClass::NonNewline => c != '\n',
        CharClass::Except(x) => c != x,
    }
}

/// Scans the run of `class` that starts at `i` and returns where it ends.
pub fn scan_run(t: &[char], i: usize, class: CharClass) -> (j: usize)
    ensures
        j == run_end(t@, i as int, class),
        i <= j,
        i <= t.len() ==> j <= t.len(),
{
    let mut j: usize = i;
    while j < t.len() && char_in_class(t[j], class)
        invariant
            i <= j,
            i <= t.len() ==> j <= t.len(),
            run_end(t@, j as int, class) == run_end(t@, i as int, class),
        decreases t.len() - j,
    {
        j = j + 1;
    }
    j
}

/// The characters of `s`, in order.
pub fn to_chars(s: &str) -> (r: Vec<char>)
    ensures
        r@ == s@,
{
    let mut out: Vec<char> = Vec::new();
    for c in it: s.chars()
        invariant
            out@ == it.seq().take(it.index()),
            it.seq() == s@,
    {
        out.push(c);
    }
    out
}

/// `String::push` of the standard library: the character is appended to the
/// end of the string and nothing else changes.
#[verifier::external_body]
fn push_char(s: &mut String, c: char)
    ensures
        final(s)@ == old(s)@.push(c),
{
    s.push(c)
}

/// The string that holds exactly the characters of `t`.
pub fn to_string(t: &[char]) -> (r: String)
    ensures
        r@ == t@,
{
    let mut out = String::new();
    let mut i: usize = 0;
    while i < t.len()
        invariant
            i <= t.len(),
            out@ == t@.take(i as int),
        decreases t.len() - i,
    {
        push_char(&mut out, t[i]);
        i = i + 1;
    }
    out
}

/// Appends the characters of `t` to `out`.
pub fn append(out: &mut Vec<char>, t: &[char])
    ensures
        final(out)@ == old(out)@ + t@,
{
    let mut i: usize = 0;
    while i < t.len()
        invariant
            i <= t.len(),
            out@ == old(out)@ + t@.take(i as int),
        decreases t.len() - i,
    {
        out.push(t[i]);
        i = i + 1;
    }
}

/// Appends the characters of the string `s` to `out`.
pub fn append_str(out: &mut Vec<char>, s: &str)
    ensures
        final(out)@ == old(out)@ + s@,
{
    let t = to_chars(s);
    append(out, t.as_slice());
}

/// A copy of the characters of `t` from `i` up to `j`.
pub fn copy_range(t: &[char], i: usize, j: usize) -> (r: Vec<char>)
    requires
        i <= j <= t.len(),
    ensures
        r@ == t@.subrange(i as int, j as int),
{
    let mut out: Vec<char> = Vec::new();
    let mut k: usize = i;
    while k < j
        invariant
            i <= k <= j <= t.len(),
            out@ == t@.subrange(i as int, k as int),
        decreases j - k,
    {
        out.push(t[k]);
        k = k + 1;
    }
    out
}

/// Whether two texts hold the same characters.
pub fn same_text(a: &[char], b: &[char]) -> (r: bool)
    ensures
        r == (a@ == b@),
{
    if a.len() != b.len() {
        return false;
    }
    let mut i: usize = 0;
    while i < a.len()
        invariant
            i <= a.len(),
            a.len() == b.len(),
            a@.take(i as int) == b@.take(i as int),
        decreases a.len() - i,
    {
        if a[i] != b[i] {
            return false;
        }
        assert(a@.take(i + 1) == a@.take(i as int).push(a@[i as int]));
        assert(b@.take(i + 1) == b@.take(i as int).push(b@[i as int]));
        i = i + 1;
    }
    assert(a@.take(a.len() as int) == a@);
    assert(b@.take(b.len() as int) == b@);
    true
}

/// Whether the text `a` spells the string `s`.
pub fn equals_str(a: &[char], s: &str) -> (r: bool)
    ensures
        r == (a@ == s@),
{
    let t = to_chars(s);
    same_text(a, t.as_slice())
}

/// Whether `pat` occurs in `t` at position `i`.
pub open spec fn occurs_at(t: Seq<char>, i: int, pat: Seq<char>) -> bool {
    &&& 0 <= i
    &&& i + pat.len() <= t.len()
    &&& t.subrange(i, i + pat.len()) == pat
}

/// Tests whether `pat` occurs in `t` at position `i`.
pub fn has_at(t: &[char], i: usize, pat: &[char]) -> (r: bool)
    ensures
        r == occurs_at(t@, i as int, pat@),
{
    if i > t.len() || pat.len() > t.len() - i {
        return false;
    }
    let ghost piece = t@.subrange(i as int, i + pat.len());
    let mut k: usize = 0;
    while k < pat.len()
        invariant
            k <= pat.len(),
            i + pat.len() <= t.len(),
            piece == t@.subrange(i as int, i + pat.len()),
            piece.take(k as int) == pat@.take(k as int),
        decreases pat.len() - k,
    {
        if t[i + k] != pat[k] {
            assert(piece[k as int] != pat@[k as int]);
            return false;
        }
        assert(piece.take(k + 1) == piece.take(k as int).push(piece[k as int]));
        assert(pat@.take(k + 1) == pat@.take(k as int).push(pat@[k as int]));
        k = k + 1;
    }
    assert(piece.take(pat.len() as int) == piece);
    assert(pat@.take(pat.len() as int) == pat@);
    true
}

/// Tests whether the string `pat` occurs in `t` at position `i`.
pub fn has_str_at(t: &[char], i: usize, pat: &str) -> (r: bool)
    ensures
        r == occurs_at(t@, i as int, pat@),
{
    let p = to_chars(pat);
    has_at(t, i, p.as_slice())
}

} // verus!
