//! The preprocessor: macro substitution and directives, line by line.
//!
//! A shader is processed one line at a time, in the order of the document.
//! In each line the defined names are replaced first; the line is then an
//! extension statement, a directive, or shader code. What a line does is
//! stated by `line_step`, and what a run of lines does by `drive`; the
//! executable `Preprocessor` is held to both.
//!
//! An include directive suspends the run: `run` and `resume` hand out a
//! `Step`, and the caller looks for the text that the directive names.
//! The lines of that text are processed before the lines that waited, and
//! each of them counts as the line that holds the directive.
//!
//! The first error stops the run. Errors are of five kinds: a directive
//! that is malformed or unknown, a name that is defined twice, a limit on
//! storage buffers or assertions that is exceeded, an include that is not
//! found, and a string literal that is too long. Each carries its summary
//! and the line that is to blame.

use vstd::prelude::*;
use crate::comments::{strip_comment_chars, stripped};
use crate::defines::{DefinitionTable, substitute, substitute_text};
use crate::error::{Failure, WGSLError};
use crate::literal::{find_literal, first_literal, rewrite_literals, rewritten};
use crate::number::{decimal, decimal_text, parse_u32, parse_u32_text};
use crate::source_map::{new_source, SourceMap, SourceModel, with_extension, with_line};
use crate::split::{fields_from, join, join_from, lines_of, run_start, scan_back, split_fields, split_lines, split_tokens, texts, tokens_of, trim, trim_start, trimmed};
use crate::text::{append, append_str, CharClass, copy_range, equals_str, has_str_at, occurs_at, run_end, scan_run, to_chars, to_string};
use crate::user_data::{add_data, distinct_names};

verus! {

/// The number of storage buffers that one shader may declare.
pub const MAX_STORAGE_BUFFERS: usize = 2;

/// The number of assertions that one shader may make.
pub const MAX_ASSERTS: usize = 10;

/// The state of a preprocessor as plain values.
pub struct PpModel {
    /// The value of each defined name.
    pub defines: Map<Seq<char>, Seq<char>>,
    /// The source map as it has grown so far.
    pub source: SourceModel,
    /// How many storage buffers have been declared.
    pub storage_count: usize,
    /// How many assertions have been made.
    pub assert_count: usize,
    /// Whether string literals are rewritten.
    pub special_strings: bool,
}

/// What one line does to a preprocessor.
pub enum StepModel {
    /// The line is done; the state is the new one.
    Next(PpModel),
    /// The line asks for the text behind `path`; the lines of that text
    /// come next.
    Include { state: PpModel, path: Seq<char> },
    /// The line is in error.
    Fail(Failure),
}

/// The failure that says `summary` of line `n`.
pub open spec fn fail(summary: Seq<char>, n: usize) -> StepModel {
    StepModel::Fail(Failure { summary, line: n })
}

/// The numbers that `pieces` spell once trimmed, or the first trimmed piece
/// that spells none.
pub open spec fn parse_fields(pieces: Seq<Seq<char>>) -> Result<Seq<u32>, Seq<char>>
    decreases pieces.len(),
{
    if pieces.len() == 0 {
        Ok(Seq::empty())
    } else {
        match parse_u32(trim(pieces[0])) {
            None => Err(trim(pieces[0])),
            Some(v) => match parse_fields(pieces.drop_first()) {
                Ok(rest) => Ok(seq![v] + rest),
                Err(bad) => Err(bad),
            },
        }
    }
}

/// The summary of the error for a text that spells no number.
pub open spec fn parse_error(value: Seq<char>) -> Seq<char> {
    "Cannot parse '"@ + value + "' as u32"@
}

/// The text between the first `<` and the last `>` of `t`, where the second
/// lies behind the first.
pub open spec fn chevron_path(t: Seq<char>) -> Option<Seq<char>> {
    let open = run_end(t, 0, CharClass::Except('<'));
    let close = run_start(t, t.len() as int, CharClass::Except('>')) - 1;
    if open < t.len() && open < close {
        Some(t.subrange(open + 1, close))
    } else {
        None
    }
}

/// What an include directive with the tokens `tokens` does.
pub open spec fn include_step(st: PpModel, tokens: Seq<Seq<char>>, n: usize) -> StepModel {
    if tokens.len() != 2 {
        fail("Include directive requires exactly one argument"@, n)
    } else {
        let name = tokens[1];
        match first_literal(name, 0) {
            Some((s, e)) => StepModel::Include { state: st, path: name.subrange(s + 1, e - 1) },
            None => match chevron_path(name) {
                Some(inner) => StepModel::Include {
                    state: PpModel {
                        special_strings: st.special_strings || inner == "string"@,
                        ..st
                    },
                    path: "std/"@ + inner,
                },
                None => fail("Path must be enclosed in quotes or chevrons"@, n),
            },
        }
    }
}

/// The summary of the error for an include whose path leads to no text.
pub open spec fn include_error(path: Seq<char>) -> Seq<char> {
    "Cannot find include "@ + path
}

/// What a workgroup count directive does.
pub open spec fn workgroup_count_step(st: PpModel, tokens: Seq<Seq<char>>, n: usize) -> StepModel {
    if tokens.len() != 5 {
        fail("Workgroup count directive requires name and three values"@, n)
    } else {
        match parse_u32(trim(tokens[2])) {
            None => fail(parse_error(trim(tokens[2])), n),
            Some(x) => match parse_u32(trim(tokens[3])) {
                None => fail(parse_error(trim(tokens[3])), n),
                Some(y) => match parse_u32(trim(tokens[4])) {
                    None => fail(parse_error(trim(tokens[4])), n),
                    Some(z) => StepModel::Next(
                        PpModel {
                            source: SourceModel {
                                workgroup_count: st.source.workgroup_count.insert(
                                    tokens[1],
                                    [x, y, z],
                                ),
                                ..st.source
                            },
                            ..st
                        },
                    ),
                },
            },
        }
    }
}

/// What a dispatch once directive does.
pub open spec fn dispatch_once_step(st: PpModel, tokens: Seq<Seq<char>>, n: usize) -> StepModel {
    if tokens.len() != 2 {
        fail("Dispatch once directive requires exactly one name"@, n)
    } else {
        StepModel::Next(
            PpModel {
                source: SourceModel {
                    dispatch_once: st.source.dispatch_once.insert(tokens[1], true),
                    ..st.source
                },
                ..st
            },
        )
    }
}

/// What a dispatch count directive does.
pub open spec fn dispatch_count_step(st: PpModel, tokens: Seq<Seq<char>>, n: usize) -> StepModel {
    if tokens.len() != 3 {
        fail("Dispatch count directive requires name and count"@, n)
    } else {
        match parse_u32(trim(tokens[2])) {
            None => fail(parse_error(trim(tokens[2])), n),
            Some(count) => StepModel::Next(
                PpModel {
                    source: SourceModel {
                        dispatch_count: st.source.dispatch_count.insert(tokens[1], count),
                        ..st.source
                    },
                    ..st
                },
            ),
        }
    }
}

/// The summary of the error for a name that is defined already.
pub open spec fn redefine_error(name: Seq<char>) -> Seq<char> {
    "Cannot redefine "@ + name
}

/// What a define directive does.
pub open spec fn define_step(st: PpModel, tokens: Seq<Seq<char>>, n: usize) -> StepModel {
    if tokens.len() < 2 {
        fail("Define directive requires at least a name"@, n)
    } else if st.defines.contains_key(tokens[1]) {
        fail(redefine_error(tokens[1]), n)
    } else {
        StepModel::Next(
            PpModel {
                defines: st.defines.insert(
                    tokens[1],
                    join(tokens.subrange(2, tokens.len() as int), seq![' ']),
                ),
                ..st
            },
        )
    }
}

/// The declaration of the storage buffer number `index` with the given name
/// and type.
pub open spec fn storage_line(index: usize, name: Seq<char>, ty: Seq<char>) -> Seq<char> {
    "@group(0) @binding("@ + decimal(index as nat) + ") var<storage,read_write> "@ + name + ": "@
        + ty + seq![';']
}

/// What a storage directive does.
pub open spec fn storage_step(st: PpModel, tokens: Seq<Seq<char>>, n: usize) -> StepModel {
    if tokens.len() < 3 {
        fail("Storage directive requires name and type"@, n)
    } else if st.storage_count >= MAX_STORAGE_BUFFERS {
        fail("Only two storage buffers are currently supported"@, n)
    } else {
        StepModel::Next(
            PpModel {
                source: with_line(
                    st.source,
                    storage_line(
                        st.storage_count,
                        tokens[1],
                        join(tokens.subrange(2, tokens.len() as int), seq![' ']),
                    ),
                    n,
                ),
                storage_count: (st.storage_count + 1) as usize,
                ..st
            },
        )
    }
}

/// The call that makes the assertion number `index` of `predicate`.
pub open spec fn assert_line(index: usize, predicate: Seq<char>) -> Seq<char> {
    "assert("@ + decimal(index as nat) + ", "@ + predicate + ");"@
}

/// What an assert directive does.
pub open spec fn assert_step(st: PpModel, tokens: Seq<Seq<char>>, n: usize) -> StepModel {
    if tokens.len() < 2 {
        fail("Assert directive requires predicate"@, n)
    } else if st.assert_count >= MAX_ASSERTS {
        fail("A maximum of 10 assertions are currently supported"@, n)
    } else {
        let line = assert_line(
            st.assert_count,
            join(tokens.subrange(1, tokens.len() as int), seq![' ']),
        );
        let source = with_line(st.source, line, n);
        StepModel::Next(
            PpModel {
                source: SourceModel { assert_map: source.assert_map.push(n), ..source },
                assert_count: (st.assert_count + 1) as usize,
                ..st
            },
        )
    }
}

/// What a data directive does.
pub open spec fn data_step(st: PpModel, tokens: Seq<Seq<char>>, n: usize) -> StepModel {
    if tokens.len() < 4 || tokens[2] != "u32"@ {
        fail("Data directive requires name, u32 type, and data"@, n)
    } else {
        let data = join(tokens.subrange(3, tokens.len() as int), Seq::empty());
        match parse_fields(fields_from(data, 0)) {
            Err(bad) => fail(parse_error(bad), n),
            Ok(values) => StepModel::Next(
                PpModel {
                    source: SourceModel {
                        user_data: add_data(st.source.user_data, tokens[1], values),
                        ..st.source
                    },
                    ..st
                },
            ),
        }
    }
}

/// What the directive with the tokens `tokens` does. A line without tokens
/// does nothing; a first token that names no directive is an error.
pub open spec fn directive_step(st: PpModel, tokens: Seq<Seq<char>>, n: usize) -> StepModel {
    if tokens.len() == 0 {
        StepModel::Next(st)
    } else if tokens[0] == "#include"@ {
        include_step(st, tokens, n)
    } else if tokens[0] == "#workgroup_count"@ {
        workgroup_count_step(st, tokens, n)
    } else if tokens[0] == "#dispatch_once"@ {
        dispatch_once_step(st, tokens, n)
    } else if tokens[0] == "#dispatch_count"@ {
        dispatch_count_step(st, tokens, n)
    } else if tokens[0] == "#define"@ {
        define_step(st, tokens, n)
    } else if tokens[0] == "#storage"@ {
        storage_step(st, tokens, n)
    } else if tokens[0] == "#assert"@ {
        assert_step(st, tokens, n)
    } else if tokens[0] == "#data"@ {
        data_step(st, tokens, n)
    } else {
        fail("Unrecognised preprocessor directive"@, n)
    }
}

/// What a line of shader code, `text`, does once its defined names are
/// replaced: it goes to the source, with its string literals rewritten
/// where that mode is on.
pub open spec fn code_step(st: PpModel, text: Seq<char>, n: usize) -> StepModel {
    if st.special_strings {
        match rewritten(text) {
            Some(line) => StepModel::Next(PpModel { source: with_line(st.source, line, n), ..st }),
            None => fail("String literals cannot be longer than 20 characters"@, n),
        }
    } else {
        StepModel::Next(PpModel { source: with_line(st.source, text, n), ..st })
    }
}

/// Whether `text` is an extension statement: behind its leading whitespace
/// it begins with `enable`.
pub open spec fn is_extension(text: Seq<char>) -> bool {
    occurs_at(trim_start(text), 0, "enable"@)
}

/// Whether `text` is a directive: its first character behind its leading
/// whitespace is `#`.
pub open spec fn is_directive(text: Seq<char>) -> bool {
    trim_start(text).len() > 0 && trim_start(text)[0] == '#'
}

/// What line `n` of the input, `line`, does to the state `st`.
///
/// The defined names of the line are replaced first. An extension
/// statement then goes to the extensions without its comments. A directive
/// is read from its whitespace-separated tokens once its comments are
/// removed. Any other line is shader code.
pub open spec fn line_step(st: PpModel, line: Seq<char>, n: usize) -> StepModel {
    let text = substitute(line, st.defines);
    if is_extension(text) {
        StepModel::Next(PpModel { source: with_extension(st.source, stripped(text)), ..st })
    } else if !is_directive(text) {
        code_step(st, text, n)
    } else {
        directive_step(st, tokens_of(stripped(text)), n)
    }
}

/// The built-in name that holds the length limit of string literals.
pub open spec fn limit_name() -> Seq<char> {
    "STRING_MAX_LEN"@
}

/// The state of a new preprocessor that starts from `defines`.
pub open spec fn initial(defines: Map<Seq<char>, Seq<char>>) -> PpModel {
    PpModel {
        defines: defines.insert(limit_name(), "20"@),
        source: new_source(),
        storage_count: 0,
        assert_count: 0,
        special_strings: false,
    }
}

impl PpModel {
    /// What holds of every state that a preprocessor reaches: the counters
    /// are within their limits and no two data tables share a name.
    pub open spec fn inv(self) -> bool {
        &&& self.storage_count <= MAX_STORAGE_BUFFERS
        &&& self.assert_count <= MAX_ASSERTS
        &&& distinct_names(self.source.user_data)
    }
}

/// A request for the text that an include directive names.
pub struct IncludeRequest {
    /// The path to resolve.
    pub path: String,
}

/// A preprocessor: the definitions, the source map that grows line by line,
/// and the counters of the directives that are limited.
pub struct Preprocessor {
    defines: DefinitionTable,
    source: SourceMap,
    storage_count: usize,
    assert_count: usize,
    special_strings: bool,
}

impl View for Preprocessor {
    type V = PpModel;

    closed spec fn view(&self) -> PpModel {
        PpModel {
            defines: self.defines@,
            source: self.source@,
            storage_count: self.storage_count,
            assert_count: self.assert_count,
            special_strings: self.special_strings,
        }
    }
}

/// The error that says `summary` of line `n`.
fn failure(summary: &str, n: usize) -> (e: WGSLError)
    ensures
        e@ == (Failure { summary: summary@, line: n }),
{
    WGSLError::new(to_string(to_chars(summary).as_slice()), n)
}

/// The error of line `n` for the text `value`, which spells no number.
fn parse_failure(value: &[char], n: usize) -> (e: WGSLError)
    ensures
        e@ == (Failure { summary: parse_error(value@), line: n }),
{
    let mut msg: Vec<char> = Vec::new();
    append_str(&mut msg, "Cannot parse '");
    append(&mut msg, value);
    append_str(&mut msg, "' as u32");
    WGSLError::new(to_string(msg.as_slice()), n)
}

/// Reads the token `token` as a number, trimmed.
fn parse_token(token: &[char], n: usize) -> (r: Result<u32, WGSLError>)
    ensures
        match r {
            Ok(v) => parse_u32(trim(token@)) == Some(v),
            Err(e) => parse_u32(trim(token@)) is None && e@ == (Failure {
                summary: parse_error(trim(token@)),
                line: n,
            }),
        },
{
    let value = trimmed(token);
    match parse_u32_text(value.as_slice()) {
        Some(v) => Ok(v),
        None => Err(parse_failure(value.as_slice(), n)),
    }
}

/// Reads each of `pieces` as a number.
fn parse_all(pieces: &Vec<Vec<char>>, n: usize) -> (r: Result<Vec<u32>, WGSLError>)
    ensures
        match r {
            Ok(v) => parse_fields(texts(pieces@)) == Ok::<Seq<u32>, Seq<char>>(v@),
            Err(e) => parse_fields(texts(pieces@)) matches Err(bad) && e@ == (Failure {
                summary: parse_error(bad),
                line: n,
            }),
        },
{
    let mut out: Vec<u32> = Vec::new();
    let mut k: usize = 0;
    let ghost all = texts(pieces@);
    proof {
        assert(all.subrange(0, all.len() as int) == all);
        match parse_fields(all) {
            Ok(rest) => {
                assert(out@ + rest == rest);
            },
            Err(_) => {},
        }
    }
    while k < pieces.len()
        invariant
            k <= pieces.len(),
            all == texts(pieces@),
            parse_fields(all) == match parse_fields(all.subrange(k as int, all.len() as int)) {
                Ok(rest) => Ok::<Seq<u32>, Seq<char>>(out@ + rest),
                Err(bad) => Err(bad),
            },
        decreases pieces.len() - k,
    {
        let ghost tail = all.subrange(k as int, all.len() as int);
        proof {
            assert(tail[0] == pieces@[k as int]@);
            assert(tail.drop_first() == all.subrange(k + 1, all.len() as int));
        }
        match parse_token(pieces[k].as_slice(), n) {
            Ok(v) => {
                let ghost before = out@;
                out.push(v);
                proof {
                    match parse_fields(tail.drop_first()) {
                        Ok(rest) => {
                            assert(before + (seq![v] + rest) == before.push(v) + rest);
                        },
                        Err(_) => {},
                    }
                }
            },
            Err(e) => {
                return Err(e);
            },
        }
        k = k + 1;
    }
    proof {
        assert(all.subrange(k as int, all.len() as int).len() == 0);
        assert(out@ + Seq::<u32>::empty() == out@);
    }
    Ok(out)
}

/// Finds the text between the first `<` and the last `>` of `t`.
fn find_chevron_path(t: &[char]) -> (r: Option<Vec<char>>)
    ensures
        match r {
            Some(p) => chevron_path(t@) == Some(p@),
            None => chevron_path(t@) is None,
        },
{
    let open = scan_run(t, 0, CharClass::Except('<'));
    let after = scan_back(t, t.len(), CharClass::Except('>'));
    if open < t.len() && after >= 1 && open < after - 1 {
        Some(copy_range(t, open + 1, after - 1))
    } else {
        None
    }
}

impl Preprocessor {
    /// A preprocessor that starts from `defines`, to which the built-in
    /// name for the length limit of string literals is added.
    pub fn new(defines: DefinitionTable) -> (r: Self)
        ensures
            r@ == initial(defines@),
    {
        let mut defines = defines;
        defines.seed("STRING_MAX_LEN", "20");
        Preprocessor {
            defines,
            source: SourceMap::new(),
            storage_count: 0,
            assert_count: 0,
            special_strings: false,
        }
    }

    /// The source map as it stands.
    pub fn source(&self) -> (r: &SourceMap)
        ensures
            r@ == self@.source,
    {
        &self.source
    }

    /// The definitions as they stand.
    pub fn defines(&self) -> (r: &DefinitionTable)
        ensures
            r@ == self@.defines,
    {
        &self.defines
    }

    /// How many storage buffers have been declared.
    pub fn storage_count(&self) -> (r: usize)
        ensures
            r == self@.storage_count,
    {
        self.storage_count
    }

    /// How many assertions have been made.
    pub fn assert_count(&self) -> (r: usize)
        ensures
            r == self@.assert_count,
    {
        self.assert_count
    }

    /// Whether string literals are rewritten.
    pub fn special_strings(&self) -> (r: bool)
        ensures
            r == self@.special_strings,
    {
        self.special_strings
    }

    /// Replaces the defined names of `source`.
    pub fn subst_defines(&self, source: &str) -> (r: String)
        ensures
            r@ == substitute(source@, self@.defines),
    {
        let t = to_chars(source);
        let out = substitute_text(t.as_slice(), &self.defines);
        to_string(out.as_slice())
    }

    /// Handles an include directive.
    fn include_directive(&mut self, tokens: &Vec<Vec<char>>, n: usize) -> (r: Result<
        Option<IncludeRequest>,
        WGSLError,
    >)
        requires
            tokens.len() > 0,
        ensures
            step_matches(include_step(old(self)@, texts(tokens@), n), old(self)@, final(self)@, r),
    {
        if tokens.len() != 2 {
            return Err(failure("Include directive requires exactly one argument", n));
        }
        let name = &tokens[1];
        assert(texts(tokens@)[1] == name@);
        match find_literal(name.as_slice()) {
            Some((s, e)) => {
                let path = copy_range(name.as_slice(), s + 1, e - 1);
                Ok(Some(IncludeRequest { path: to_string(path.as_slice()) }))
            },
            None => match find_chevron_path(name.as_slice()) {
                Some(inner) => {
                    if equals_str(inner.as_slice(), "string") {
                        self.special_strings = true;
                    }
                    let mut path: Vec<char> = Vec::new();
                    append_str(&mut path, "std/");
                    append(&mut path, inner.as_slice());
                    Ok(Some(IncludeRequest { path: to_string(path.as_slice()) }))
                },
                None => Err(failure("Path must be enclosed in quotes or chevrons", n)),
            },
        }
    }

    /// Handles a workgroup count directive.
    fn workgroup_count_directive(&mut self, tokens: &Vec<Vec<char>>, n: usize) -> (r: Result<
        Option<IncludeRequest>,
        WGSLError,
    >)
        requires
            tokens.len() > 0,
        ensures
            step_matches(
                workgroup_count_step(old(self)@, texts(tokens@), n),
                old(self)@,
                final(self)@,
                r,
            ),
    {
        if tokens.len() != 5 {
            return Err(failure("Workgroup count directive requires name and three values", n));
        }
        proof {
            assert(texts(tokens@)[1] == tokens@[1]@);
            assert(texts(tokens@)[2] == tokens@[2]@);
            assert(texts(tokens@)[3] == tokens@[3]@);
            assert(texts(tokens@)[4] == tokens@[4]@);
        }
        let x = match parse_token(tokens[2].as_slice(), n) {
            Ok(v) => v,
            Err(e) => {
                return Err(e);
            },
        };
        let y = match parse_token(tokens[3].as_slice(), n) {
            Ok(v) => v,
            Err(e) => {
                return Err(e);
            },
        };
        let z = match parse_token(tokens[4].as_slice(), n) {
            Ok(v) => v,
            Err(e) => {
                return Err(e);
            },
        };
        let name = to_string(tokens[1].as_slice());
        self.source.workgroup_count.insert(name, [x, y, z]);
        Ok(None)
    }

    /// Handles a dispatch once directive.
    fn dispatch_once_directive(&mut self, tokens: &Vec<Vec<char>>, n: usize) -> (r: Result<
        Option<IncludeRequest>,
        WGSLError,
    >)
        requires
            tokens.len() > 0,
        ensures
            step_matches(
                dispatch_once_step(old(self)@, texts(tokens@), n),
                old(self)@,
                final(self)@,
                r,
            ),
    {
        if tokens.len() != 2 {
            return Err(failure("Dispatch once directive requires exactly one name", n));
        }
        assert(texts(tokens@)[1] == tokens@[1]@);
        let name = to_string(tokens[1].as_slice());
        self.source.dispatch_once.insert(name, true);
        Ok(None)
    }

    /// Handles a dispatch count directive.
    fn dispatch_count_directive(&mut self, tokens: &Vec<Vec<char>>, n: usize) -> (r: Result<
        Option<IncludeRequest>,
        WGSLError,
    >)
        requires
            tokens.len() > 0,
        ensures
            step_matches(
                dispatch_count_step(old(self)@, texts(tokens@), n),
                old(self)@,
                final(self)@,
                r,
            ),
    {
        if tokens.len() != 3 {
            return Err(failure("Dispatch count directive requires name and count", n));
        }
        proof {
            assert(texts(tokens@)[1] == tokens@[1]@);
            assert(texts(tokens@)[2] == tokens@[2]@);
        }
        let count = match parse_token(tokens[2].as_slice(), n) {
            Ok(v) => v,
            Err(e) => {
                return Err(e);
            },
        };
        let name = to_string(tokens[1].as_slice());
        self.source.dispatch_count.insert(name, count);
        Ok(None)
    }

    /// Handles a define directive.
    fn define_directive(&mut self, tokens: &Vec<Vec<char>>, n: usize) -> (r: Result<
        Option<IncludeRequest>,
        WGSLError,
    >)
        requires
            tokens.len() > 0,
        ensures
            step_matches(define_step(old(self)@, texts(tokens@), n), old(self)@, final(self)@, r),
    {
        if tokens.len() < 2 {
            return Err(failure("Define directive requires at least a name", n));
        }
        assert(texts(tokens@)[1] == tokens@[1]@);
        let name = &tokens[1];
        let sep: Vec<char> = vec![' '];
        assert(sep@ == seq![' ']);
        let value = join_from(tokens, 2, sep.as_slice());
        if self.defines.contains_chars(name.as_slice()) {
            let mut msg: Vec<char> = Vec::new();
            append_str(&mut msg, "Cannot redefine ");
            append(&mut msg, name.as_slice());
            return Err(WGSLError::new(to_string(msg.as_slice()), n));
        }
        self.defines.set_chars(name.as_slice(), value);
        Ok(None)
    }

    /// Handles a storage directive.
    fn storage_directive(&mut self, tokens: &Vec<Vec<char>>, n: usize) -> (r: Result<
        Option<IncludeRequest>,
        WGSLError,
    >)
        requires
            tokens.len() > 0,
        ensures
            step_matches(storage_step(old(self)@, texts(tokens@), n), old(self)@, final(self)@, r),
    {
        if tokens.len() < 3 {
            return Err(failure("Storage directive requires name and type", n));
        }
        if self.storage_count >= MAX_STORAGE_BUFFERS {
            return Err(failure("Only two storage buffers are currently supported", n));
        }
        assert(texts(tokens@)[1] == tokens@[1]@);
        let sep: Vec<char> = vec![' '];
        assert(sep@ == seq![' ']);
        let ty = join_from(tokens, 2, sep.as_slice());
        let mut line: Vec<char> = Vec::new();
        append_str(&mut line, "@group(0) @binding(");
        append(&mut line, decimal_text(self.storage_count).as_slice());
        append_str(&mut line, ") var<storage,read_write> ");
        append(&mut line, tokens[1].as_slice());
        append_str(&mut line, ": ");
        append(&mut line, ty.as_slice());
        let ghost body = line@;
        line.push(';');
        assert(line@ == body + seq![';']);
        self.source.push_line(to_string(line.as_slice()).as_str(), n);
        self.storage_count = self.storage_count + 1;
        Ok(None)
    }

    /// Handles an assert directive.
    fn assert_directive(&mut self, tokens: &Vec<Vec<char>>, n: usize) -> (r: Result<
        Option<IncludeRequest>,
        WGSLError,
    >)
        requires
            tokens.len() > 0,
        ensures
            step_matches(assert_step(old(self)@, texts(tokens@), n), old(self)@, final(self)@, r),
    {
        if tokens.len() < 2 {
            return Err(failure("Assert directive requires predicate", n));
        }
        if self.assert_count >= MAX_ASSERTS {
            return Err(failure("A maximum of 10 assertions are currently supported", n));
        }
        let sep: Vec<char> = vec![' '];
        assert(sep@ == seq![' ']);
        let predicate = join_from(tokens, 1, sep.as_slice());
        let mut line: Vec<char> = Vec::new();
        append_str(&mut line, "assert(");
        append(&mut line, decimal_text(self.assert_count).as_slice());
        append_str(&mut line, ", ");
        append(&mut line, predicate.as_slice());
        append_str(&mut line, ");");
        self.source.push_line(to_string(line.as_slice()).as_str(), n);
        self.source.assert_map.push(n);
        self.assert_count = self.assert_count + 1;
        Ok(None)
    }

    /// Handles a data directive.
    fn data_directive(&mut self, tokens: &Vec<Vec<char>>, n: usize) -> (r: Result<
        Option<IncludeRequest>,
        WGSLError,
    >)
        requires
            tokens.len() > 0,
        ensures
            step_matches(data_step(old(self)@, texts(tokens@), n), old(self)@, final(self)@, r),
    {
        if tokens.len() < 4 {
            return Err(failure("Data directive requires name, u32 type, and data", n));
        }
        proof {
            assert(texts(tokens@)[1] == tokens@[1]@);
            assert(texts(tokens@)[2] == tokens@[2]@);
        }
        if !equals_str(tokens[2].as_slice(), "u32") {
            return Err(failure("Data directive requires name, u32 type, and data", n));
        }
        let none: Vec<char> = Vec::new();
        let data = join_from(tokens, 3, none.as_slice());
        let pieces = split_fields(data.as_slice());
        match parse_all(&pieces, n) {
            Ok(values) => {
                let name = to_string(tokens[1].as_slice());
                self.source.user_data.add(name, values);
                Ok(None)
            },
            Err(e) => Err(e),
        }
    }

    /// Handles the directive whose tokens are `tokens`.
    fn directive(&mut self, tokens: &Vec<Vec<char>>, n: usize) -> (r: Result<
        Option<IncludeRequest>,
        WGSLError,
    >)
        ensures
            step_matches(directive_step(old(self)@, texts(tokens@), n), old(self)@, final(self)@, r),
    {
        if tokens.len() == 0 {
            return Ok(None);
        }
        assert(texts(tokens@)[0] == tokens@[0]@);
        let head = tokens[0].as_slice();
        if equals_str(head, "#include") {
            self.include_directive(tokens, n)
        } else if equals_str(head, "#workgroup_count") {
            self.workgroup_count_directive(tokens, n)
        } else if equals_str(head, "#dispatch_once") {
            self.dispatch_once_directive(tokens, n)
        } else if equals_str(head, "#dispatch_count") {
            self.dispatch_count_directive(tokens, n)
        } else if equals_str(head, "#define") {
            self.define_directive(tokens, n)
        } else if equals_str(head, "#storage") {
            self.storage_directive(tokens, n)
        } else if equals_str(head, "#assert") {
            self.assert_directive(tokens, n)
        } else if equals_str(head, "#data") {
            self.data_directive(tokens, n)
        } else {
            Err(failure("Unrecognised preprocessor directive", n))
        }
    }

    /// Processes line `n` of the input.
    ///
    /// `Ok(None)` says that the line is done. `Ok(Some(request))` says that
    /// the line includes another text: the lines of that text are to be
    /// processed next, each of them as line `n`. An error leaves the
    /// preprocessor as it was.
    pub fn process_line(&mut self, line: &str, n: usize) -> (r: Result<
        Option<IncludeRequest>,
        WGSLError,
    >)
        ensures
            step_matches(line_step(old(self)@, line@, n), old(self)@, final(self)@, r),
    {
        let raw = to_chars(line);
        self.process_chars(raw.as_slice(), n)
    }

    /// Processes line `n` of the input, given as characters.
    pub(crate) fn process_chars(&mut self, line: &[char], n: usize) -> (r: Result<
        Option<IncludeRequest>,
        WGSLError,
    >)
        ensures
            step_matches(line_step(old(self)@, line@, n), old(self)@, final(self)@, r),
    {
        let text = substitute_text(line, &self.defines);
        let start = scan_run(text.as_slice(), 0, CharClass::Space);
        let ghost lead = trim_start(text@);
        proof {
            assert(lead == text@.subrange(start as int, text@.len() as int));
            assert(occurs_at(lead, 0, "enable"@) == occurs_at(text@, start as int, "enable"@)) by {
                let p = "enable"@;
                if start + p.len() <= text@.len() {
                    assert(lead.subrange(0, p.len() as int) == text@.subrange(
                        start as int,
                        start + p.len(),
                    ));
                }
            }
            if start < text@.len() {
                assert(lead[0] == text@[start as int]);
            }
        }
        if has_str_at(text.as_slice(), start, "enable") {
            let clean = strip_comment_chars(text.as_slice());
            self.source.push_extension(to_string(clean.as_slice()).as_str());
            return Ok(None);
        }
        if !(start < text.len() && text[start] == '#') {
            if self.special_strings {
                match rewrite_literals(text.as_slice()) {
                    Some(line) => {
                        self.source.push_line(to_string(line.as_slice()).as_str(), n);
                        return Ok(None);
                    },
                    None => {
                        return Err(
                            failure("String literals cannot be longer than 20 characters", n),
                        );
                    },
                }
            }
            self.source.push_line(to_string(text.as_slice()).as_str(), n);
            return Ok(None);
        }
        let clean = strip_comment_chars(text.as_slice());
        let tokens = split_tokens(clean.as_slice());
        self.directive(&tokens, n)
    }
}

/// Whether the outcome `r` of a step, with the states `before` and `after`
/// it, is what `step` says: the new state where the line is done or asks
/// for an include, and the failure, with the state unchanged, where it is
/// in error.
pub open spec fn step_matches(
    step: StepModel,
    before: PpModel,
    after: PpModel,
    r: Result<Option<IncludeRequest>, WGSLError>,
) -> bool {
    match r {
        Ok(None) => step == StepModel::Next(after),
        Ok(Some(request)) => step == (StepModel::Include { state: after, path: request.path@ }),
        Err(e) => step == StepModel::Fail(e@) && after == before,
    }
}

/// A line that waits to be processed, with the line of the input that it
/// counts as.
pub type Item = (Seq<char>, usize);

/// The lines of a shader, numbered from one.
pub open spec fn numbered(lines: Seq<Seq<char>>) -> Seq<Item> {
    Seq::new(lines.len(), |i: int| (lines[i], (i + 1) as usize))
}

/// The lines of an included text, each counted as line `n`.
pub open spec fn attributed(lines: Seq<Seq<char>>, n: usize) -> Seq<Item> {
    Seq::new(lines.len(), |i: int| (lines[i], n))
}

/// How far a preprocessor gets with the lines that wait.
pub enum ProgressModel {
    /// Every line is done; the state is the last one.
    Done(PpModel),
    /// Line `line` asks for the text behind `path`; `rest` are the lines
    /// that wait behind it.
    NeedInclude { state: PpModel, rest: Seq<Item>, path: Seq<char>, line: usize },
    /// A line is in error; no line behind it is processed.
    Failed(Failure),
}

/// Processes the lines of `queue` in order, from the state `st`, up to the
/// first that asks for an include or is in error.
pub open spec fn drive(st: PpModel, queue: Seq<Item>) -> ProgressModel
    decreases queue.len(),
{
    if queue.len() == 0 {
        ProgressModel::Done(st)
    } else {
        match line_step(st, queue[0].0, queue[0].1) {
            StepModel::Next(next) => drive(next, queue.drop_first()),
            StepModel::Include { state, path } => ProgressModel::NeedInclude {
                state,
                rest: queue.drop_first(),
                path,
                line: queue[0].1,
            },
            StepModel::Fail(f) => ProgressModel::Failed(f),
        }
    }
}

/// How far a preprocessor gets once the text of an include has arrived, or
/// has been found missing: the lines of the text come before the lines
/// that waited, each counted as the line that asked for it; a missing text
/// is an error of that line.
pub open spec fn resume_model(
    st: PpModel,
    rest: Seq<Item>,
    path: Seq<char>,
    line: usize,
    text: Option<Seq<char>>,
) -> ProgressModel {
    match text {
        Some(t) => drive(st, attributed(lines_of(t), line) + rest),
        None => ProgressModel::Failed(Failure { summary: include_error(path), line }),
    }
}

/// A line that waits to be processed.
pub struct PendingLine {
    text: Vec<char>,
    line: usize,
}

/// A pending line as plain values.
pub closed spec fn item_of(p: PendingLine) -> Item {
    (p.text@, p.line)
}

/// The lines that a stack of pending lines holds, the next one first. The
/// stack keeps the next line at its end.
pub closed spec fn waiting(stack: Seq<PendingLine>) -> Seq<Item> {
    Seq::new(stack.len(), |i: int| item_of(stack[stack.len() - 1 - i]))
}

/// A preprocessor that waits for the text of an include.
pub struct Suspended {
    path: String,
    line: usize,
    rest: Vec<PendingLine>,
}

/// A suspended preprocessing as plain values.
pub struct SuspendedModel {
    /// The path to resolve.
    pub path: Seq<char>,
    /// The line of the input that holds the directive.
    pub line: usize,
    /// The lines that wait behind the include, the next one first.
    pub rest: Seq<Item>,
}

impl View for Suspended {
    type V = SuspendedModel;

    closed spec fn view(&self) -> SuspendedModel {
        SuspendedModel { path: self.path@, line: self.line, rest: waiting(self.rest@) }
    }
}

impl Suspended {
    /// The path to resolve.
    pub fn path(&self) -> (r: &str)
        ensures
            r@ == self@.path,
    {
        self.path.as_str()
    }

    /// The line of the input that holds the directive.
    pub fn line(&self) -> (r: usize)
        ensures
            r == self@.line,
    {
        self.line
    }

    /// How many lines wait behind the include.
    pub fn pending(&self) -> (r: usize)
        ensures
            r == self@.rest.len(),
    {
        self.rest.len()
    }
}

/// Where preprocessing stands.
pub enum Step {
    /// Every line is done: the source map.
    Done(SourceMap),
    /// The text of an include is needed before the next line.
    NeedInclude(Suspended),
    /// A line was in error; preprocessing has stopped.
    Failed(WGSLError),
}

/// Whether `step`, with the state `after` it, is what `progress` says. When
/// every line is done the source map is handed out and the preprocessor is
/// left with a new one.
pub open spec fn progress_matches(progress: ProgressModel, after: PpModel, step: Step) -> bool {
    match step {
        Step::Done(map) => progress matches ProgressModel::Done(last) && map@ == last.source
            && after == (PpModel { source: new_source(), ..last }),
        Step::NeedInclude(s) => progress == (ProgressModel::NeedInclude {
            state: after,
            rest: s@.rest,
            path: s@.path,
            line: s@.line,
        }),
        Step::Failed(e) => progress == ProgressModel::Failed(e@),
    }
}

/// Taking the last pending line off the stack takes the next line off
/// those that wait.
proof fn lemma_waiting_pop(stack: Seq<PendingLine>)
    requires
        stack.len() > 0,
    ensures
        waiting(stack)[0] == item_of(stack.last()),
        waiting(stack.drop_last()) == waiting(stack).drop_first(),
{
    assert(waiting(stack.drop_last()) =~= waiting(stack).drop_first());
}

/// A pending line put on the stack is the next to wait.
proof fn lemma_waiting_push(stack: Seq<PendingLine>, p: PendingLine)
    ensures
        waiting(stack.push(p)) == seq![item_of(p)] + waiting(stack),
{
    assert(waiting(stack.push(p)) =~= seq![item_of(p)] + waiting(stack));
}

/// Puts `lines` on the stack so that they come out first, in their order.
/// Line `i` counts as line `i + 1` of the input where `fixed` is `None`,
/// and as the line `fixed` names otherwise.
fn push_lines(stack: &mut Vec<PendingLine>, lines: Vec<Vec<char>>, fixed: Option<usize>)
    ensures
        waiting(final(stack)@) == (match fixed {
            Some(n) => attributed(texts(lines@), n),
            None => numbered(texts(lines@)),
        }) + waiting(old(stack)@),
{
    let mut lines = lines;
    let ghost all = texts(lines@);
    let ghost items = match fixed {
        Some(n) => attributed(all, n),
        None => numbered(all),
    };
    proof {
        assert(items.subrange(items.len() as int, items.len() as int) + waiting(stack@)
            =~= waiting(stack@));
    }
    while lines.len() > 0
        invariant
            lines@.len() <= all.len(),
            items.len() == all.len(),
            texts(lines@) == all.take(lines@.len() as int),
            items == match fixed {
                Some(n) => attributed(all, n),
                None => numbered(all),
            },
            waiting(stack@) == items.subrange(lines@.len() as int, items.len() as int) + waiting(
                old(stack)@,
            ),
        decreases lines.len(),
    {
        let k = lines.len() - 1;
        let ghost before = stack@;
        let ghost prev = lines@;
        let text = match lines.pop() {
            Some(t) => t,
            None => Vec::new(),
        };
        let line = match fixed {
            Some(n) => n,
            None => k + 1,
        };
        let p = PendingLine { text, line };
        proof {
            assert(text@ == texts(prev)[k as int]);
            assert(item_of(p) == items[k as int]);
            lemma_waiting_push(before, p);
            assert(texts(lines@) =~= all.take(k as int));
            assert(seq![items[k as int]] + (items.subrange(k + 1, items.len() as int) + waiting(
                old(stack)@,
            )) =~= items.subrange(k as int, items.len() as int) + waiting(old(stack)@));
        }
        stack.push(p);
    }
    proof {
        assert(items.subrange(0, items.len() as int) == items);
    }
}

impl Preprocessor {
    /// Hands out the source map and leaves a new one in its place.
    fn take_source(&mut self) -> (r: SourceMap)
        ensures
            r@ == old(self)@.source,
            final(self)@ == (PpModel { source: new_source(), ..old(self)@ }),
    {
        let mut taken = SourceMap::new();
        std::mem::swap(&mut self.source, &mut taken);
        taken
    }

    /// Processes the lines on `stack`, the last one first, up to the first
    /// that asks for an include or is in error.
    fn advance(&mut self, pending: Vec<PendingLine>) -> (r: Step)
        ensures
            progress_matches(drive(old(self)@, waiting(pending@)), final(self)@, r),
    {
        let ghost goal = drive(self@, waiting(pending@));
        let mut stack = pending;
        while stack.len() > 0
            invariant
                goal == drive(old(self)@, waiting(pending@)),
                drive(self@, waiting(stack@)) == goal,
            decreases stack.len(),
        {
            let ghost before = stack@;
            proof {
                lemma_waiting_pop(before);
            }
            let p = match stack.pop() {
                Some(p) => p,
                None => PendingLine { text: Vec::new(), line: 0 },
            };
            assert(item_of(p) == waiting(before)[0]);
            match self.process_chars(p.text.as_slice(), p.line) {
                Ok(None) => {},
                Ok(Some(request)) => {
                    return Step::NeedInclude(
                        Suspended { path: request.path, line: p.line, rest: stack },
                    );
                },
                Err(e) => {
                    return Step::Failed(e);
                },
            }
        }
        Step::Done(self.take_source())
    }

    /// Preprocesses `shader`: its lines, numbered from one, are processed
    /// in order.
    ///
    /// `Step::Done` holds the source map. `Step::Failed` holds the error of
    /// the first line that is in error. `Step::NeedInclude` says that a
    /// line includes another text: preprocessing goes on with `resume`,
    /// once the text has been looked for.
    pub fn run(&mut self, shader: &str) -> (r: Step)
        ensures
            progress_matches(
                drive(old(self)@, numbered(lines_of(shader@))),
                final(self)@,
                r,
            ),
    {
        let text = to_chars(shader);
        let lines = split_lines(text.as_slice());
        let mut stack: Vec<PendingLine> = Vec::new();
        push_lines(&mut stack, lines, None);
        proof {
            assert(waiting(Seq::<PendingLine>::empty()) =~= Seq::<Item>::empty());
            assert(numbered(lines_of(shader@)) + Seq::<Item>::empty() =~= numbered(
                lines_of(shader@),
            ));
        }
        self.advance(stack)
    }

    /// Goes on after an include: `text` is what was found behind the path
    /// that `suspended` names, or `None` where nothing was found.
    ///
    /// The lines of the text are processed before the lines that waited,
    /// and each counts as the line that holds the include directive. A
    /// missing text is an error of that line.
    pub fn resume(&mut self, suspended: Suspended, text: Option<&str>) -> (r: Step)
        ensures
            progress_matches(
                resume_model(
                    old(self)@,
                    suspended@.rest,
                    suspended@.path,
                    suspended@.line,
                    match text {
                        Some(t) => Some(t@),
                        None => None,
                    },
                ),
                final(self)@,
                r,
            ),
    {
        match text {
            Some(t) => {
                let chars = to_chars(t);
                let lines = split_lines(chars.as_slice());
                let mut stack = suspended.rest;
                push_lines(&mut stack, lines, Some(suspended.line));
                self.advance(stack)
            },
            None => {
                let mut msg: Vec<char> = Vec::new();
                append_str(&mut msg, "Cannot find include ");
                append_str(&mut msg, suspended.path.as_str());
                Step::Failed(WGSLError::new(to_string(msg.as_slice()), suspended.line))
            },
        }
    }
}

} // verus!
