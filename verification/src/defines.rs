//! The definition table and the substitution of defined names in text.

use vstd::prelude::*;
use vstd::hash_map::StringHashMap;
use crate::text::{append, CharClass, copy_range, in_class, is_word, is_word_char, lemma_run_end, lemma_run_end_is, lemma_run_end_prefix, lemma_run_end_shift, lemma_run_nonempty, run_end, scan_run, to_chars, to_string};

verus! {

/// A table from names to replacement texts.
pub struct DefinitionTable {
    entries: StringHashMap<Vec<char>>,
}

impl View for DefinitionTable {
    type V = Map<Seq<char>, Seq<char>>;

    closed spec fn view(&self) -> Map<Seq<char>, Seq<char>> {
        self.entries@.map_values(|v: Vec<char>| v@)
    }
}

impl DefinitionTable {
    /// The empty table.
    pub fn new() -> (r: Self)
        ensures
            r@ == Map::<Seq<char>, Seq<char>>::empty(),
    {
        let r = DefinitionTable { entries: StringHashMap::new() };
        assert(r@ =~= Map::<Seq<char>, Seq<char>>::empty());
        r
    }

    /// Whether `name` is defined.
    pub fn contains(&self, name: &str) -> (r: bool)
        ensures
            r == self@.contains_key(name@),
    {
        self.entries.contains_key(name)
    }

    /// The replacement text of `name`, if it is defined.
    pub fn get(&self, name: &str) -> (r: Option<Vec<char>>)
        ensures
            match r {
                Some(v) => self@.contains_key(name@) && v@ == self@[name@],
                None => !self@.contains_key(name@),
            },
    {
        match self.entries.get(name) {
            Some(v) => Some(copy_range(v.as_slice(), 0, v.len())),
            None => None,
        }
    }

    /// The replacement text of `name` as a string, if it is defined.
    pub fn value_of(&self, name: &str) -> (r: Option<String>)
        ensures
            match r {
                Some(v) => self@.contains_key(name@) && v@ == self@[name@],
                None => !self@.contains_key(name@),
            },
    {
        match self.get(name) {
            Some(v) => Some(to_string(v.as_slice())),
            None => None,
        }
    }

    /// Seeds the table with a built-in constant: binds `name` to `value`,
    /// whether or not it was bound before.
    pub fn seed(&mut self, name: &str, value: &str)
        ensures
            final(self)@ == old(self)@.insert(name@, value@),
    {
        self.set_chars(to_chars(name).as_slice(), to_chars(value))
    }

    /// Defines `name` as `value` unless it is defined already. Returns
    /// whether the definition was made.
    pub fn define(&mut self, name: &str, value: &str) -> (made: bool)
        ensures
            made == !old(self)@.contains_key(name@),
            made ==> final(self)@ == old(self)@.insert(name@, value@),
            !made ==> final(self)@ == old(self)@,
    {
        if self.entries.contains_key(name) {
            false
        } else {
            self.seed(name, value);
            true
        }
    }

    /// Whether the name `name` is defined.
    pub(crate) fn contains_chars(&self, name: &[char]) -> (r: bool)
        ensures
            r == self@.contains_key(name@),
    {
        let key = to_string(name);
        self.entries.contains_key(key.as_str())
    }

    /// Binds the name `name` to `value`.
    pub(crate) fn set_chars(&mut self, name: &[char], value: Vec<char>)
        ensures
            final(self)@ == old(self)@.insert(name@, value@),
    {
        let key = to_string(name);
        self.entries.insert(key, value);
        assert(self@ =~= old(self)@.insert(name@, value@));
    }

    /// Appends to `out` the replacement of the word `word`: its definition
    /// where it has one, else the word itself.
    fn append_replacement(&self, out: &mut Vec<char>, word: &[char])
        ensures
            final(out)@ == old(out)@ + replacement(word@, self@),
    {
        let key = to_string(word);
        match self.entries.get(key.as_str()) {
            Some(v) => append(out, v.as_slice()),
            None => append(out, word),
        }
    }
}

/// What stands for the word `w`: its definition where it has one, else the
/// word itself.
pub open spec fn replacement(w: Seq<char>, defs: Map<Seq<char>, Seq<char>>) -> Seq<char> {
    if defs.contains_key(w) {
        defs[w]
    } else {
        w
    }
}

/// `t` from position `i` on, with each word replaced by what stands for it.
///
/// A word is a maximal run of ASCII letters, ASCII digits and underscores.
/// Everything between words is kept as it is. The replacement text is not
/// scanned again.
pub open spec fn substitute_from(t: Seq<char>, i: int, defs: Map<Seq<char>, Seq<char>>) -> Seq<
    char,
>
    decreases t.len() - i,
{
    if i < 0 || i >= t.len() {
        Seq::empty()
    } else if is_word(t[i]) {
        let e = run_end(t, i, CharClass::Word);
        proof {
            lemma_run_nonempty(t, i, CharClass::Word);
        }
        replacement(t.subrange(i, e), defs) + substitute_from(t, e, defs)
    } else {
        seq![t[i]] + substitute_from(t, i + 1, defs)
    }
}

/// `t` with each word replaced by what stands for it.
pub open spec fn substitute(t: Seq<char>, defs: Map<Seq<char>, Seq<char>>) -> Seq<char> {
    substitute_from(t, 0, defs)
}

/// Replaces the defined words of `t`.
pub fn substitute_text(t: &[char], defs: &DefinitionTable) -> (r: Vec<char>)
    ensures
        r@ == substitute(t@, defs@),
{
    let mut out: Vec<char> = Vec::new();
    let mut i: usize = 0;
    while i < t.len()
        invariant
            i <= t.len(),
            out@ + substitute_from(t@, i as int, defs@) == substitute(t@, defs@),
        decreases t.len() - i,
    {
        let ghost before = out@;
        if is_word_char(t[i]) {
            let e = scan_run(t, i, CharClass::Word);
            proof {
                lemma_run_nonempty(t@, i as int, CharClass::Word);
            }
            let word = copy_range(t, i, e);
            defs.append_replacement(&mut out, word.as_slice());
            proof {
                let rep = replacement(word@, defs@);
                assert(before + (rep + substitute_from(t@, e as int, defs@)) == (before + rep)
                    + substitute_from(t@, e as int, defs@));
            }
            i = e;
        } else {
            out.push(t[i]);
            proof {
                assert(before + (seq![t@[i as int]] + substitute_from(t@, i + 1, defs@))
                    == before.push(t@[i as int]) + substitute_from(t@, i + 1, defs@));
            }
            i = i + 1;
        }
    }
    proof {
        assert(out@ + Seq::<char>::empty() == out@);
    }
    out
}

/// Whether `w` is a word: not empty, and made of word characters only.
pub open spec fn is_word_text(w: Seq<char>) -> bool {
    w.len() > 0 && forall|i: int| 0 <= i < w.len() ==> is_word(#[trigger] w[i])
}

/// Whether a word that follows `pre` begins there: `pre` is empty or ends
/// in a character that belongs to no word.
pub open spec fn ends_words(pre: Seq<char>) -> bool {
    pre.len() == 0 || !is_word(pre.last())
}

/// Whether a word that precedes `post` ends there: `post` is empty or
/// begins with a character that belongs to no word.
pub open spec fn begins_no_word(post: Seq<char>) -> bool {
    post.len() == 0 || !is_word(post[0])
}

/// Text that follows a prefix is substituted as it is alone.
pub proof fn lemma_substitute_suffix(
    a: Seq<char>,
    b: Seq<char>,
    j: int,
    defs: Map<Seq<char>, Seq<char>>,
)
    requires
        0 <= j <= b.len(),
    ensures
        substitute_from(a + b, a.len() + j, defs) == substitute_from(b, j, defs),
    decreases b.len() - j,
{
    let t = a + b;
    if j < b.len() {
        assert(t[a.len() + j] == b[j]);
        if is_word(b[j]) {
            let e = run_end(b, j, CharClass::Word);
            lemma_run_nonempty(b, j, CharClass::Word);
            lemma_run_end_shift(a, b, j, CharClass::Word);
            assert(t.subrange(a.len() + j, a.len() + e) == b.subrange(j, e));
            lemma_substitute_suffix(a, b, e, defs);
        } else {
            lemma_substitute_suffix(a, b, j + 1, defs);
        }
    }
}

/// Where a prefix ends outside a word, the text is substituted piece by
/// piece: the prefix, then what follows it.
pub proof fn lemma_substitute_prefix(
    a: Seq<char>,
    b: Seq<char>,
    i: int,
    defs: Map<Seq<char>, Seq<char>>,
)
    requires
        0 <= i <= a.len(),
        ends_words(a),
    ensures
        substitute_from(a + b, i, defs) == substitute_from(a, i, defs) + substitute_from(
            a + b,
            a.len() as int,
            defs,
        ),
    decreases a.len() - i,
{
    let t = a + b;
    let rest = substitute_from(t, a.len() as int, defs);
    if i < a.len() {
        assert(t[i] == a[i]);
        if is_word(a[i]) {
            let e = run_end(a, i, CharClass::Word);
            lemma_run_nonempty(a, i, CharClass::Word);
            lemma_run_end(a, i, CharClass::Word);
            assert(e < a.len()) by {
                if e == a.len() {
                    assert(in_class(a[a.len() - 1], CharClass::Word));
                }
            }
            lemma_run_end_prefix(a, b, i, CharClass::Word);
            assert(t.subrange(i, e) == a.subrange(i, e));
            lemma_substitute_prefix(a, b, e, defs);
            let rep = replacement(a.subrange(i, e), defs);
            assert(rep + (substitute_from(a, e, defs) + rest) == (rep + substitute_from(a, e, defs))
                + rest);
        } else {
            lemma_substitute_prefix(a, b, i + 1, defs);
            assert(seq![a[i]] + (substitute_from(a, i + 1, defs) + rest) == (seq![a[i]]
                + substitute_from(a, i + 1, defs)) + rest);
        }
    } else {
        assert(substitute_from(a, i, defs) + rest == rest);
    }
}

/// Every occurrence of a word that stands alone is replaced by what stands
/// for the word, and the text before and behind it is substituted on its
/// own: a defined name gives way to its value wherever it is not part of a
/// longer word.
pub proof fn lemma_substitute_occurrence(
    pre: Seq<char>,
    w: Seq<char>,
    post: Seq<char>,
    defs: Map<Seq<char>, Seq<char>>,
)
    requires
        is_word_text(w),
        ends_words(pre),
        begins_no_word(post),
    ensures
        substitute(pre + w + post, defs) == substitute(pre, defs) + replacement(w, defs)
            + substitute(post, defs),
{
    let tail = w + post;
    let t = pre + tail;
    assert(pre + w + post == t);
    lemma_substitute_prefix(pre, tail, 0, defs);
    lemma_substitute_suffix(pre, tail, 0, defs);
    assert(is_word(tail[0])) by {
        assert(tail[0] == w[0]);
    }
    assert(run_end(tail, 0, CharClass::Word) == w.len()) by {
        assert forall|k: int| 0 <= k < w.len() implies in_class(
            #[trigger] tail[k],
            CharClass::Word,
        ) by {
            assert(tail[k] == w[k]);
        }
        if w.len() < tail.len() {
            assert(tail[w.len() as int] == post[0]);
        }
        lemma_run_end_is(tail, 0, w.len() as int, CharClass::Word);
    }
    assert(tail.subrange(0, w.len() as int) == w);
    lemma_substitute_suffix(w, post, 0, defs);
    assert(substitute_from(tail, 0, defs) == replacement(w, defs) + substitute(post, defs));
    assert(substitute(pre, defs) + (replacement(w, defs) + substitute(post, defs)) == substitute(
        pre,
        defs,
    ) + replacement(w, defs) + substitute(post, defs));
}

/// Text in which no word is defined is left as it is.
pub proof fn lemma_substitute_identity(t: Seq<char>, i: int, defs: Map<Seq<char>, Seq<char>>)
    requires
        0 <= i <= t.len(),
        forall|a: int, b: int| 0 <= a < b <= t.len() ==> !defs.contains_key(#[trigger] t.subrange(a, b)),
    ensures
        substitute_from(t, i, defs) == t.subrange(i, t.len() as int),
    decreases t.len() - i,
{
    if i < t.len() {
        if is_word(t[i]) {
            let e = run_end(t, i, CharClass::Word);
            lemma_run_nonempty(t, i, CharClass::Word);
            lemma_substitute_identity(t, e, defs);
            assert(t.subrange(i, e) + t.subrange(e, t.len() as int) == t.subrange(
                i,
                t.len() as int,
            ));
        } else {
            lemma_substitute_identity(t, i + 1, defs);
            assert(seq![t[i]] + t.subrange(i + 1, t.len() as int) == t.subrange(
                i,
                t.len() as int,
            ));
        }
    }
}

} // verus!
