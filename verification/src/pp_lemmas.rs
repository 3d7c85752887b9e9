//! What holds of preprocessing as a whole.

use vstd::prelude::*;
use crate::comments::stripped;
use crate::defines::{begins_no_word, ends_words, is_word_text, lemma_substitute_occurrence, replacement, substitute, substitute_from};
use crate::literal::{code_at, code_list, encoded, lemma_literal_end, literal_at, rewrite_from, rewritten, STRING_MAX_LEN, unescaped};
use crate::number::{decimal, hex_digits, lemma_decimal_digits};
use crate::pp::{assert_line, attributed, directive_step, drive, fail, initial, is_directive, is_extension, Item, line_step, MAX_STORAGE_BUFFERS, numbered, parse_fields, PpModel, ProgressModel, redefine_error, StepModel, storage_line};
use crate::source_map::{new_source, lemma_with_line_mapped, line_count, lines_mapped, single_line, SourceModel, with_line};
use crate::split::{fields_from, join, lemma_lines_have_no_newline, lemma_tokens_are_words, lines_from, lines_of, strip_cr, tokens_of, trim_start};
use crate::text::{CharClass, in_class, is_space, is_word, lemma_run_end, lemma_run_nonempty, occurs_at, run_end};
use crate::user_data::{lemma_extend_keeps_distinct, only_sentinel};

verus! {

/// A directive is no extension statement.
pub proof fn lemma_directive_is_no_extension(text: Seq<char>)
    requires
        is_directive(text),
    ensures
        !is_extension(text),
{
    reveal_strlit("enable");
    let lead = trim_start(text);
    if occurs_at(lead, 0, "enable"@) {
        assert(lead.subrange(0, "enable"@.len() as int)[0] == lead[0]);
        assert("enable"@[0] == 'e');
    }
}

/// Whether a line is shader code that no definition touches: it is neither
/// an extension statement nor a directive, and substitution leaves it as
/// it is.
pub open spec fn is_plain(line: Seq<char>, defines: Map<Seq<char>, Seq<char>>) -> bool {
    &&& substitute(line, defines) == line
    &&& !is_extension(line)
    &&& !is_directive(line)
}

/// The texts of the lines `items`.
pub open spec fn item_texts(items: Seq<Item>) -> Seq<Seq<char>> {
    Seq::new(items.len(), |i: int| items[i].0)
}

/// The line numbers of the lines `items`.
pub open spec fn item_lines(items: Seq<Item>) -> Seq<usize> {
    Seq::new(items.len(), |i: int| items[i].1)
}

/// The lines `lines`, each closed by a line feed.
pub open spec fn closed_lines(lines: Seq<Seq<char>>) -> Seq<char>
    decreases lines.len(),
{
    if lines.len() == 0 {
        Seq::empty()
    } else {
        lines[0] + seq!['\n'] + closed_lines(lines.drop_first())
    }
}

/// The numbers from one to `n`.
pub open spec fn one_to(n: nat) -> Seq<usize> {
    Seq::new(n, |i: int| (i + 1) as usize)
}

/// `source` with the lines `items` copied behind it.
pub open spec fn copied(source: SourceModel, items: Seq<Item>) -> SourceModel {
    SourceModel {
        source: source.source + closed_lines(item_texts(items)),
        line_map: source.line_map + item_lines(items),
        ..source
    }
}

/// Lines of shader code that no definition touches are copied to the
/// source one for one, each with its line number, while string literals
/// are not rewritten; nothing else changes.
pub proof fn lemma_plain_lines_are_copied(st: PpModel, queue: Seq<Item>)
    requires
        !st.special_strings,
        forall|k: int| 0 <= k < queue.len() ==> is_plain((#[trigger] queue[k]).0, st.defines),
    ensures
        drive(st, queue) == ProgressModel::Done(PpModel { source: copied(st.source, queue), ..st }),
    decreases queue.len(),
{
    if queue.len() == 0 {
        assert(item_texts(queue) =~= Seq::<Seq<char>>::empty());
        assert(item_lines(queue) =~= Seq::<usize>::empty());
        assert(st.source.source + closed_lines(item_texts(queue)) =~= st.source.source);
        assert(st.source.line_map + item_lines(queue) =~= st.source.line_map);
    } else {
        let line = queue[0].0;
        let n = queue[0].1;
        assert(is_plain(queue[0].0, st.defines));
        let next = PpModel { source: with_line(st.source, line, n), ..st };
        assert(line_step(st, line, n) == StepModel::Next(next));
        let rest = queue.drop_first();
        assert forall|k: int| 0 <= k < rest.len() implies is_plain(
            (#[trigger] rest[k]).0,
            next.defines,
        ) by {
            assert(rest[k] == queue[k + 1]);
        }
        lemma_plain_lines_are_copied(next, rest);
        assert(item_texts(queue).drop_first() =~= item_texts(rest));
        assert(item_texts(queue)[0] == line);
        assert(item_lines(queue) =~= seq![n] + item_lines(rest));
        assert(st.source.source + (line + seq!['\n'] + closed_lines(item_texts(rest)))
            =~= st.source.source + line + seq!['\n'] + closed_lines(item_texts(rest)));
        assert(st.source.line_map + (seq![n] + item_lines(rest)) =~= st.source.line_map.push(n)
            + item_lines(rest));
    }
}

/// A shader without directives and extension statements, in which no
/// defined name occurs, is copied line for line: the source holds its
/// lines, each closed by a line feed, and line `i` of the source comes
/// from line `i` of the input.
pub proof fn lemma_plain_shader_is_copied(defines: Map<Seq<char>, Seq<char>>, shader: Seq<char>)
    requires
        forall|k: int|
            0 <= k < lines_of(shader).len() ==> is_plain(
                #[trigger] lines_of(shader)[k],
                initial(defines).defines,
            ),
    ensures
        drive(initial(defines), numbered(lines_of(shader))) == ProgressModel::Done(
            PpModel {
                source: SourceModel {
                    source: closed_lines(lines_of(shader)),
                    line_map: one_to(lines_of(shader).len()),
                    ..new_source()
                },
                ..initial(defines)
            },
        ),
{
    let st = initial(defines);
    let lines = lines_of(shader);
    let queue = numbered(lines);
    assert forall|k: int| 0 <= k < queue.len() implies is_plain((#[trigger] queue[k]).0, st.defines) by {
        assert(queue[k].0 == lines[k]);
    }
    lemma_plain_lines_are_copied(st, queue);
    assert(item_texts(queue) =~= lines);
    assert(item_lines(queue) =~= one_to(lines.len()));
    assert(Seq::<char>::empty() + closed_lines(lines) =~= closed_lines(lines));
    assert(Seq::<usize>::empty() + one_to(lines.len()) =~= one_to(lines.len()));
}

/// The first line in error ends preprocessing with its error: no line
/// behind it is processed, whatever it holds.
pub proof fn lemma_failure_stops(st: PpModel, queue: Seq<Item>)
    requires
        queue.len() > 0,
        line_step(st, queue[0].0, queue[0].1) is Fail,
    ensures
        drive(st, queue) == ProgressModel::Failed(line_step(st, queue[0].0, queue[0].1)->Fail_0),
{
}

/// A directive is read from the tokens that are left of the line once its
/// defined names are replaced and its comments are removed.
pub proof fn lemma_directive_line(st: PpModel, line: Seq<char>, n: usize)
    requires
        is_directive(substitute(line, st.defines)),
    ensures
        line_step(st, line, n) == directive_step(
            st,
            tokens_of(stripped(substitute(line, st.defines))),
            n,
        ),
{
    lemma_directive_is_no_extension(substitute(line, st.defines));
}

/// The names of the eight directives.
pub open spec fn is_directive_name(token: Seq<char>) -> bool {
    ||| token == "#include"@
    ||| token == "#workgroup_count"@
    ||| token == "#dispatch_once"@
    ||| token == "#dispatch_count"@
    ||| token == "#define"@
    ||| token == "#storage"@
    ||| token == "#assert"@
    ||| token == "#data"@
}

/// A directive whose first token names none of the directives is an error
/// of its own line.
pub proof fn lemma_unknown_directive(st: PpModel, line: Seq<char>, n: usize)
    requires
        is_directive(substitute(line, st.defines)),
        tokens_of(stripped(substitute(line, st.defines))).len() > 0,
        !is_directive_name(tokens_of(stripped(substitute(line, st.defines)))[0]),
    ensures
        line_step(st, line, n) == fail("Unrecognised preprocessor directive"@, n),
{
    lemma_directive_line(st, line, n);
}

/// The names of the directives differ from each other.
proof fn lemma_directive_names_differ()
    ensures
        "#define"@ != "#include"@,
        "#define"@ != "#workgroup_count"@,
        "#define"@ != "#dispatch_once"@,
        "#define"@ != "#dispatch_count"@,
        "#storage"@ != "#include"@,
        "#storage"@ != "#workgroup_count"@,
        "#storage"@ != "#dispatch_once"@,
        "#storage"@ != "#dispatch_count"@,
        "#storage"@ != "#define"@,
{
    reveal_strlit("#include");
    reveal_strlit("#workgroup_count");
    reveal_strlit("#dispatch_once");
    reveal_strlit("#dispatch_count");
    reveal_strlit("#define");
    reveal_strlit("#storage");
    assert("#include"@.len() == 8);
    assert("#workgroup_count"@.len() == 16);
    assert("#dispatch_once"@.len() == 14);
    assert("#dispatch_count"@.len() == 15);
    assert("#define"@.len() == 7);
    assert("#storage"@.len() == 8);
    assert("#storage"@[1] == 's');
    assert("#include"@[1] == 'i');
}

/// A define directive for a name that is defined already is an error of
/// its own line, and defines nothing.
pub proof fn lemma_redefinition_fails(st: PpModel, line: Seq<char>, n: usize)
    requires
        is_directive(substitute(line, st.defines)),
        tokens_of(stripped(substitute(line, st.defines))).len() >= 2,
        tokens_of(stripped(substitute(line, st.defines)))[0] == "#define"@,
        st.defines.contains_key(tokens_of(stripped(substitute(line, st.defines)))[1]),
    ensures
        line_step(st, line, n) == fail(
            redefine_error(tokens_of(stripped(substitute(line, st.defines)))[1]),
            n,
        ),
{
    lemma_directive_line(st, line, n);
    lemma_directive_names_differ();
}

/// A storage directive declares the buffer whose number is the count of
/// the buffers declared before it, and counts it; once two are declared,
/// a further one is an error of its own line.
pub proof fn lemma_storage_directive(st: PpModel, line: Seq<char>, n: usize)
    requires
        is_directive(substitute(line, st.defines)),
        tokens_of(stripped(substitute(line, st.defines))).len() >= 3,
        tokens_of(stripped(substitute(line, st.defines)))[0] == "#storage"@,
    ensures
        st.storage_count >= MAX_STORAGE_BUFFERS ==> line_step(st, line, n) == fail(
            "Only two storage buffers are currently supported"@,
            n,
        ),
        st.storage_count < MAX_STORAGE_BUFFERS ==> line_step(st, line, n) == StepModel::Next(
            PpModel {
                source: with_line(
                    st.source,
                    storage_line(
                        st.storage_count,
                        tokens_of(stripped(substitute(line, st.defines)))[1],
                        join(
                            tokens_of(stripped(substitute(line, st.defines))).subrange(
                                2,
                                tokens_of(stripped(substitute(line, st.defines))).len() as int,
                            ),
                            seq![' '],
                        ),
                    ),
                    n,
                ),
                storage_count: (st.storage_count + 1) as usize,
                ..st
            },
        ),
{
    lemma_directive_line(st, line, n);
    lemma_directive_names_differ();
}

/// Whether none of the first `k` characters of `t` is a line feed.
spec fn clear_up_to(t: Seq<char>, k: int) -> bool
    decreases k,
{
    k <= 0 || (t[k - 1] != '\n' && clear_up_to(t, k - 1))
}

/// A prefix without line feeds, by its positions.
proof fn lemma_clear_up_to(t: Seq<char>, k: int)
    requires
        0 <= k <= t.len(),
        clear_up_to(t, k),
    ensures
        forall|i: int| 0 <= i < k ==> #[trigger] t[i] != '\n',
    decreases k,
{
    if k > 0 {
        lemma_clear_up_to(t, k - 1);
    }
}

/// The fixed texts of the emitted lines hold no line feed.
proof fn lemma_fixed_texts_single_line()
    ensures
        single_line("String("@),
        single_line(", array<uint,20>("@),
        single_line("))"@),
        single_line("@group(0) @binding("@),
        single_line(") var<storage,read_write> "@),
        single_line(": "@),
        single_line("assert("@),
        single_line(", "@),
        single_line(");"@),
        single_line("20"@),
{
    reveal_with_fuel(clear_up_to, 32);
    reveal_strlit("String(");
    assert(clear_up_to("String("@, "String("@.len() as int));
    lemma_clear_up_to("String("@, "String("@.len() as int);
    reveal_strlit(", array<uint,20>(");
    assert(clear_up_to(", array<uint,20>("@, ", array<uint,20>("@.len() as int));
    lemma_clear_up_to(", array<uint,20>("@, ", array<uint,20>("@.len() as int);
    reveal_strlit("))");
    assert(clear_up_to("))"@, "))"@.len() as int));
    lemma_clear_up_to("))"@, "))"@.len() as int);
    reveal_strlit("@group(0) @binding(");
    assert(clear_up_to("@group(0) @binding("@, "@group(0) @binding("@.len() as int));
    lemma_clear_up_to("@group(0) @binding("@, "@group(0) @binding("@.len() as int);
    reveal_strlit(") var<storage,read_write> ");
    assert(clear_up_to(
        ") var<storage,read_write> "@,
        ") var<storage,read_write> "@.len() as int,
    ));
    lemma_clear_up_to(") var<storage,read_write> "@, ") var<storage,read_write> "@.len() as int);
    reveal_strlit(": ");
    assert(clear_up_to(": "@, ": "@.len() as int));
    lemma_clear_up_to(": "@, ": "@.len() as int);
    reveal_strlit("assert(");
    assert(clear_up_to("assert("@, "assert("@.len() as int));
    lemma_clear_up_to("assert("@, "assert("@.len() as int);
    reveal_strlit(", ");
    assert(clear_up_to(", "@, ", "@.len() as int));
    lemma_clear_up_to(", "@, ", "@.len() as int);
    reveal_strlit(");");
    assert(clear_up_to(");"@, ");"@.len() as int));
    lemma_clear_up_to(");"@, ");"@.len() as int);
    reveal_strlit("20");
    assert(clear_up_to("20"@, "20"@.len() as int));
    lemma_clear_up_to("20"@, "20"@.len() as int);
}

/// A decimal numeral holds no line feed.
proof fn lemma_decimal_single_line(n: nat)
    ensures
        single_line(decimal(n)),
{
    lemma_decimal_digits(n);
}

/// Hexadecimal digits hold no line feed.
proof fn lemma_hex_digits_single_line(n: nat)
    ensures
        single_line(hex_digits(n)),
    decreases n,
{
    if n >= 16 {
        lemma_hex_digits_single_line(n / 16);
    }
}

/// A list of code points holds no line feed.
proof fn lemma_code_list_single_line(s: Seq<char>, n: nat)
    ensures
        single_line(code_list(s, n)),
    decreases n,
{
    if n >= 1 {
        lemma_hex_digits_single_line(code_at(s, n - 1));
        if n > 1 {
            lemma_code_list_single_line(s, (n - 1) as nat);
        }
    }
}

/// An encoded string literal holds no line feed.
proof fn lemma_encoded_single_line(s: Seq<char>)
    ensures
        single_line(encoded(s)),
{
    lemma_fixed_texts_single_line();
    lemma_decimal_single_line(s.len());
    lemma_code_list_single_line(s, STRING_MAX_LEN as nat);
}

/// Rewriting the string literals of a line leaves one line.
proof fn lemma_rewrite_single_line(t: Seq<char>, i: int)
    requires
        0 <= i <= t.len(),
        single_line(t),
    ensures
        rewrite_from(t, i) matches Some(r) ==> single_line(r),
    decreases t.len() - i,
{
    if i < t.len() {
        match literal_at(t, i) {
            Some(e) => {
                lemma_literal_end(t, i + 1);
                let lit = t.subrange(i, e);
                lemma_rewrite_single_line(t, e);
                match unescaped(lit) {
                    Some(decoded) => {
                        lemma_encoded_single_line(decoded);
                    },
                    None => {},
                }
            },
            None => {
                lemma_rewrite_single_line(t, i + 1);
            },
        }
    }
}

/// Whether every replacement text of `defs` is one line.
pub open spec fn single_line_values(defs: Map<Seq<char>, Seq<char>>) -> bool {
    forall|k: Seq<char>| defs.contains_key(k) ==> single_line(#[trigger] defs[k])
}

/// Substitution with one-line replacement texts leaves one line.
proof fn lemma_substitute_single_line(t: Seq<char>, i: int, defs: Map<Seq<char>, Seq<char>>)
    requires
        0 <= i <= t.len(),
        single_line(t),
        single_line_values(defs),
    ensures
        single_line(substitute_from(t, i, defs)),
    decreases t.len() - i,
{
    if i < t.len() {
        if is_word(t[i]) {
            let e = run_end(t, i, CharClass::Word);
            lemma_run_nonempty(t, i, CharClass::Word);
            lemma_substitute_single_line(t, e, defs);
            assert(single_line(replacement(t.subrange(i, e), defs)));
        } else {
            lemma_substitute_single_line(t, i + 1, defs);
        }
    }
}

/// Tokens joined by spaces, or by nothing, are one line.
proof fn lemma_join_single_line(parts: Seq<Seq<char>>, sep: Seq<char>)
    requires
        forall|k: int| 0 <= k < parts.len() ==> single_line(#[trigger] parts[k]),
        single_line(sep),
    ensures
        single_line(join(parts, sep)),
    decreases parts.len(),
{
    if parts.len() > 1 {
        let front = parts.drop_last();
        assert forall|k: int| 0 <= k < front.len() implies single_line(#[trigger] front[k]) by {
            assert(front[k] == parts[k]);
        }
        lemma_join_single_line(front, sep);
        assert(single_line(parts.last()));
    } else if parts.len() == 1 {
        assert(single_line(parts[0]));
    }
}

/// Whether the source of `st` has a line map entry for each of its lines,
/// and its definitions are one line each.
pub open spec fn in_step(st: PpModel) -> bool {
    lines_mapped(st.source) && single_line_values(st.defines)
}

/// A new preprocessor is in step when its definitions are one line each.
pub proof fn lemma_initial_in_step(defines: Map<Seq<char>, Seq<char>>)
    requires
        single_line_values(defines),
    ensures
        in_step(initial(defines)),
{
    lemma_fixed_texts_single_line();
    assert(line_count(Seq::<char>::empty()) == 0);
}

/// A line keeps the source and its line map in step: whatever the line
/// does, the source has as many lines afterwards as the line map has
/// entries.
pub proof fn lemma_step_keeps_in_step(st: PpModel, line: Seq<char>, n: usize)
    requires
        in_step(st),
        single_line(line),
    ensures
        match line_step(st, line, n) {
            StepModel::Next(next) => in_step(next),
            StepModel::Include { state, path } => in_step(state),
            StepModel::Fail(_) => true,
        },
{
    let text = substitute(line, st.defines);
    lemma_substitute_single_line(line, 0, st.defines);
    if is_extension(text) {
    } else if !is_directive(text) {
        if st.special_strings {
            lemma_rewrite_single_line(text, 0);
            match rewritten(text) {
                Some(r) => {
                    lemma_with_line_mapped(st.source, r, n);
                },
                None => {},
            }
        } else {
            lemma_with_line_mapped(st.source, text, n);
        }
    } else {
        let tokens = tokens_of(stripped(text));
        lemma_tokens_are_words(stripped(text), 0);
        lemma_fixed_texts_single_line();
        assert forall|k: int| 0 <= k < tokens.len() implies single_line(#[trigger] tokens[k]) by {
            assert forall|p: int| 0 <= p < tokens[k].len() implies #[trigger] tokens[k][p]
                != '\n' by {
                assert(!is_space(tokens[k][p]));
            }
        }
        if tokens.len() > 0 {
            if tokens[0] == "#define"@ && tokens.len() >= 2 {
                let value = join(tokens.subrange(2, tokens.len() as int), seq![' ']);
                let rest = tokens.subrange(2, tokens.len() as int);
                assert forall|k: int| 0 <= k < rest.len() implies single_line(#[trigger] rest[k]) by {
                    assert(rest[k] == tokens[k + 2]);
                }
                lemma_join_single_line(rest, seq![' ']);
                let after = st.defines.insert(tokens[1], value);
                assert forall|k: Seq<char>| after.contains_key(k) implies single_line(
                    #[trigger] after[k],
                ) by {
                    if k != tokens[1] {
                        assert(st.defines.contains_key(k));
                    }
                }
            }
            if tokens[0] == "#storage"@ && tokens.len() >= 3 {
                let rest = tokens.subrange(2, tokens.len() as int);
                assert forall|k: int| 0 <= k < rest.len() implies single_line(#[trigger] rest[k]) by {
                    assert(rest[k] == tokens[k + 2]);
                }
                lemma_join_single_line(rest, seq![' ']);
                lemma_decimal_single_line(st.storage_count as nat);
                let ty = join(rest, seq![' ']);
                assert(single_line(tokens[1]));
                assert(single_line(storage_line(st.storage_count, tokens[1], ty)));
                lemma_with_line_mapped(
                    st.source,
                    storage_line(st.storage_count, tokens[1], ty),
                    n,
                );
            }
            if tokens[0] == "#assert"@ && tokens.len() >= 2 {
                let rest = tokens.subrange(1, tokens.len() as int);
                assert forall|k: int| 0 <= k < rest.len() implies single_line(#[trigger] rest[k]) by {
                    assert(rest[k] == tokens[k + 1]);
                }
                lemma_join_single_line(rest, seq![' ']);
                lemma_decimal_single_line(st.assert_count as nat);
                let predicate = join(rest, seq![' ']);
                assert(single_line(assert_line(st.assert_count, predicate)));
                lemma_with_line_mapped(st.source, assert_line(st.assert_count, predicate), n);
            }
        }
    }
}

/// However far preprocessing gets with lines that hold no line feed, the
/// source and its line map stay in step.
pub proof fn lemma_drive_keeps_in_step(st: PpModel, queue: Seq<Item>)
    requires
        in_step(st),
        forall|k: int| 0 <= k < queue.len() ==> single_line((#[trigger] queue[k]).0),
    ensures
        match drive(st, queue) {
            ProgressModel::Done(last) => in_step(last),
            ProgressModel::NeedInclude { state, rest, path, line } => in_step(state) && (
            forall|k: int| 0 <= k < rest.len() ==> single_line((#[trigger] rest[k]).0)),
            ProgressModel::Failed(_) => true,
        },
    decreases queue.len(),
{
    if queue.len() > 0 {
        assert(single_line(queue[0].0));
        lemma_step_keeps_in_step(st, queue[0].0, queue[0].1);
        let rest = queue.drop_first();
        assert forall|k: int| 0 <= k < rest.len() implies single_line((#[trigger] rest[k]).0) by {
            assert(rest[k] == queue[k + 1]);
        }
        match line_step(st, queue[0].0, queue[0].1) {
            StepModel::Next(next) => {
                lemma_drive_keeps_in_step(next, rest);
            },
            _ => {},
        }
    }
}

/// The source map of a shader has a line map entry for each line of its
/// source, where the definitions that preprocessing starts from are one
/// line each and no text is included.
pub proof fn lemma_source_lines_are_mapped(defines: Map<Seq<char>, Seq<char>>, shader: Seq<char>)
    requires
        single_line_values(defines),
    ensures
        drive(initial(defines), numbered(lines_of(shader))) matches ProgressModel::Done(last)
            ==> lines_mapped(last.source),
{
    lemma_initial_in_step(defines);
    lemma_lines_have_no_newline(shader, 0);
    let queue = numbered(lines_of(shader));
    assert forall|k: int| 0 <= k < queue.len() implies single_line((#[trigger] queue[k]).0) by {
        assert(queue[k].0 == lines_of(shader)[k]);
    }
    lemma_drive_keeps_in_step(initial(defines), queue);
}

/// The lines of an included text, put before lines that hold no line feed,
/// hold none either: preprocessing stays in step across includes.
pub proof fn lemma_included_lines_are_single(text: Seq<char>, n: usize, rest: Seq<Item>)
    requires
        forall|k: int| 0 <= k < rest.len() ==> single_line((#[trigger] rest[k]).0),
    ensures
        forall|k: int|
            0 <= k < (attributed(lines_of(text), n) + rest).len() ==> single_line(
                (#[trigger] (attributed(lines_of(text), n) + rest)[k]).0,
            ),
{
    lemma_lines_have_no_newline(text, 0);
    let all = attributed(lines_of(text), n) + rest;
    assert forall|k: int| 0 <= k < all.len() implies single_line((#[trigger] all[k]).0) by {
        if k < lines_of(text).len() {
            assert(all[k].0 == lines_of(text)[k]);
        } else {
            assert(all[k] == rest[k - lines_of(text).len()]);
        }
    }
}

/// Whether `after` holds everything that `before` holds: every definition
/// with its value, the string mode once it is on, counters that are no
/// smaller, and the texts and maps of the source as they were, with more
/// behind them at most.
pub open spec fn grows(before: PpModel, after: PpModel) -> bool {
    &&& forall|k: Seq<char>| #[trigger]
        before.defines.contains_key(k) ==> after.defines.contains_key(k) && after.defines[k]
            == before.defines[k]
    &&& before.special_strings ==> after.special_strings
    &&& before.storage_count <= after.storage_count
    &&& before.assert_count <= after.assert_count
    &&& before.source.source.is_prefix_of(after.source.source)
    &&& before.source.extensions.is_prefix_of(after.source.extensions)
    &&& before.source.line_map.is_prefix_of(after.source.line_map)
    &&& before.source.assert_map.is_prefix_of(after.source.assert_map)
}

/// A line only adds: a definition is written once and never changed, the
/// string mode stays on, and what was emitted stays emitted.
pub proof fn lemma_step_only_adds(st: PpModel, line: Seq<char>, n: usize)
    ensures
        match line_step(st, line, n) {
            StepModel::Next(next) => grows(st, next),
            StepModel::Include { state, path } => grows(st, state),
            StepModel::Fail(_) => true,
        },
{
    let text = substitute(line, st.defines);
    if is_extension(text) {
    } else if !is_directive(text) {
    } else {
        let tokens = tokens_of(stripped(text));
        if tokens.len() > 0 && tokens[0] == "#assert"@ && tokens.len() >= 2 {
            let made = assert_line(
                st.assert_count,
                join(tokens.subrange(1, tokens.len() as int), seq![' ']),
            );
            assert(st.source.source.is_prefix_of(with_line(st.source, made, n).source));
        }
    }
}

/// Whether each assertion of `st` has its entry in the assertion map.
pub open spec fn asserts_mapped(st: PpModel) -> bool {
    st.assert_count == st.source.assert_map.len()
}

/// A new preprocessor has its counters at zero, no data tables and no
/// assertions.
pub proof fn lemma_initial_invariants(defines: Map<Seq<char>, Seq<char>>)
    ensures
        initial(defines).inv(),
        asserts_mapped(initial(defines)),
{
}

/// A line keeps the counters within their limits, the names of the data
/// tables distinct, and one entry in the assertion map for each assertion.
pub proof fn lemma_step_keeps_invariants(st: PpModel, line: Seq<char>, n: usize)
    requires
        st.inv(),
    ensures
        match line_step(st, line, n) {
            StepModel::Next(next) => next.inv() && (asserts_mapped(st) ==> asserts_mapped(next)),
            StepModel::Include { state, path } => state.inv() && (asserts_mapped(st)
                ==> asserts_mapped(state)),
            StepModel::Fail(_) => true,
        },
{
    let text = substitute(line, st.defines);
    if is_directive(text) && !is_extension(text) {
        let tokens = tokens_of(stripped(text));
        if tokens.len() >= 4 && tokens[0] == "#data"@ {
            let data = join(tokens.subrange(3, tokens.len() as int), Seq::empty());
            match parse_fields(fields_from(data, 0)) {
                Ok(values) => {
                    let start = if only_sentinel(st.source.user_data) {
                        Seq::empty()
                    } else {
                        st.source.user_data
                    };
                    lemma_extend_keeps_distinct(start, tokens[1], values);
                },
                Err(_) => {},
            }
        }
    }
}

/// However far preprocessing gets, the invariants of the state hold.
pub proof fn lemma_drive_keeps_invariants(st: PpModel, queue: Seq<Item>)
    requires
        st.inv(),
        asserts_mapped(st),
    ensures
        match drive(st, queue) {
            ProgressModel::Done(last) => last.inv() && asserts_mapped(last) && grows(st, last),
            ProgressModel::NeedInclude { state, rest, path, line } => state.inv()
                && asserts_mapped(state) && grows(st, state),
            ProgressModel::Failed(_) => true,
        },
    decreases queue.len(),
{
    if queue.len() > 0 {
        lemma_step_keeps_invariants(st, queue[0].0, queue[0].1);
        lemma_step_only_adds(st, queue[0].0, queue[0].1);
        match line_step(st, queue[0].0, queue[0].1) {
            StepModel::Next(next) => {
                lemma_drive_keeps_invariants(next, queue.drop_first());
                match drive(next, queue.drop_first()) {
                    ProgressModel::Done(last) => {
                        lemma_grows_transitive(st, next, last);
                    },
                    ProgressModel::NeedInclude { state, rest, path, line } => {
                        lemma_grows_transitive(st, next, state);
                    },
                    ProgressModel::Failed(_) => {},
                }
            },
            _ => {},
        }
    } else {
        assert(grows(st, st));
    }
}

/// Growth adds up.
pub proof fn lemma_grows_transitive(a: PpModel, b: PpModel, c: PpModel)
    requires
        grows(a, b),
        grows(b, c),
    ensures
        grows(a, c),
{
    assert forall|k: Seq<char>| #[trigger] a.defines.contains_key(k) implies c.defines.contains_key(
        k,
    ) && c.defines[k] == a.defines[k] by {
        assert(b.defines.contains_key(k));
    }
}

/// Whether `t` keeps its line feeds apart from carriage returns and, unless
/// it is empty, ends in a line feed: the form in which its lines, each
/// closed by a line feed, are the text itself.
pub open spec fn plainly_closed(t: Seq<char>) -> bool {
    &&& t.len() > 0 ==> t.last() == '\n'
    &&& forall|k: int| 0 < k < t.len() && #[trigger] t[k] == '\n' ==> t[k - 1] != '\r'
}

/// The lines of a text in that form, each closed by a line feed, spell the
/// text from `i` on.
pub proof fn lemma_lines_spell_text(t: Seq<char>, i: int)
    requires
        plainly_closed(t),
        0 <= i <= t.len(),
    ensures
        closed_lines(lines_from(t, i)) == t.subrange(i, t.len() as int),
    decreases t.len() - i,
{
    let lines = lines_from(t, i);
    if i < t.len() {
        let e = run_end(t, i, CharClass::NonNewline);
        lemma_run_end(t, i, CharClass::NonNewline);
        assert(e < t.len()) by {
            if e == t.len() {
                assert(in_class(t[t.len() - 1], CharClass::NonNewline));
            }
        }
        let line = t.subrange(i, e);
        assert(strip_cr(line) == line) by {
            if line.len() > 0 {
                assert(line.last() == t[e - 1]);
            }
        }
        lemma_lines_spell_text(t, e + 1);
        let rest = lines_from(t, e + 1);
        assert(lines == seq![line] + rest);
        assert(lines[0] == line);
        assert(lines.drop_first() =~= rest);
        assert(line + seq!['\n'] + t.subrange(e + 1, t.len() as int) =~= t.subrange(
            i,
            t.len() as int,
        ));
    } else {
        assert(lines =~= Seq::<Seq<char>>::empty());
        assert(t.subrange(i, t.len() as int) =~= Seq::<char>::empty());
    }
}

/// The source of a shader whose lines are plain, and which keeps the plain
/// form, is the shader itself.
pub proof fn lemma_plain_shader_is_itself(defines: Map<Seq<char>, Seq<char>>, shader: Seq<char>)
    requires
        plainly_closed(shader),
        forall|k: int|
            0 <= k < lines_of(shader).len() ==> is_plain(
                #[trigger] lines_of(shader)[k],
                initial(defines).defines,
            ),
    ensures
        drive(initial(defines), numbered(lines_of(shader))) matches ProgressModel::Done(last)
            && last.source.source == shader,
{
    lemma_plain_shader_is_copied(defines, shader);
    lemma_lines_spell_text(shader, 0);
    assert(shader.subrange(0, shader.len() as int) == shader);
}

/// A defined name that stands alone in a line of shader code gives way to
/// its value: the line goes to the source as what precedes the name, the
/// value, and what follows the name, with the rest substituted in its
/// turn.
pub proof fn lemma_defined_name_is_replaced(
    st: PpModel,
    pre: Seq<char>,
    name: Seq<char>,
    post: Seq<char>,
    n: usize,
)
    requires
        st.defines.contains_key(name),
        is_word_text(name),
        ends_words(pre),
        begins_no_word(post),
        !st.special_strings,
        !is_extension(substitute(pre + name + post, st.defines)),
        !is_directive(substitute(pre + name + post, st.defines)),
    ensures
        line_step(st, pre + name + post, n) == StepModel::Next(
            PpModel {
                source: with_line(
                    st.source,
                    substitute(pre, st.defines) + st.defines[name] + substitute(post, st.defines),
                    n,
                ),
                ..st
            },
        ),
{
    lemma_substitute_occurrence(pre, name, post, st.defines);
}

/// Whether `line` is a data directive in the state `st`.
pub open spec fn is_data_directive(st: PpModel, line: Seq<char>) -> bool {
    let text = substitute(line, st.defines);
    let tokens = tokens_of(stripped(text));
    is_directive(text) && tokens.len() > 0 && tokens[0] == "#data"@
}

/// The data tables change with data directives only: the bootstrap table
/// of a new source map stays until the first of them.
pub proof fn lemma_tables_stay_without_data(st: PpModel, line: Seq<char>, n: usize)
    requires
        !is_data_directive(st, line),
    ensures
        match line_step(st, line, n) {
            StepModel::Next(next) => next.source.user_data == st.source.user_data,
            StepModel::Include { state, path } => state.source.user_data == st.source.user_data,
            StepModel::Fail(_) => true,
        },
{
}

} // verus!
