use codeskew::pp::{IncludeRequest, Preprocessor, Step, Suspended, MAX_ASSERTS};
use codeskew::{DefinitionTable, SourceMap, WGSLError};

fn fresh() -> Preprocessor {
    Preprocessor::new(DefinitionTable::new())
}

fn done(step: Step) -> SourceMap {
    match step {
        Step::Done(map) => map,
        Step::NeedInclude(s) => panic!("unexpected include of {}", s.path()),
        Step::Failed(e) => panic!("unexpected error: {}", e.submit()),
    }
}

fn failed(step: Step) -> WGSLError {
    match step {
        Step::Failed(e) => e,
        Step::Done(_) => panic!("expected an error, got a source map"),
        Step::NeedInclude(s) => panic!("expected an error, got an include of {}", s.path()),
    }
}

fn suspended(step: Step) -> Suspended {
    match step {
        Step::NeedInclude(s) => s,
        Step::Done(_) => panic!("expected an include, got a source map"),
        Step::Failed(e) => panic!("expected an include, got {}", e.submit()),
    }
}

fn line_error(pp: &mut Preprocessor, line: &str, n: usize) -> WGSLError {
    match pp.process_line(line, n) {
        Err(e) => e,
        Ok(_) => panic!("expected an error for {line}"),
    }
}

fn line_ok(pp: &mut Preprocessor, line: &str, n: usize) {
    match pp.process_line(line, n) {
        Ok(None) => {}
        Ok(Some(_)) => panic!("unexpected include for {line}"),
        Err(e) => panic!("unexpected error for {line}: {}", e.submit()),
    }
}

fn line_include(pp: &mut Preprocessor, line: &str, n: usize) -> IncludeRequest {
    match pp.process_line(line, n) {
        Ok(Some(request)) => request,
        Ok(None) => panic!("expected an include for {line}"),
        Err(e) => panic!("unexpected error for {line}: {}", e.submit()),
    }
}

#[test]
fn plain_line_is_copied() {
    let mut pp = fresh();
    line_ok(&mut pp, "let x = 1;", 1);
    assert_eq!(pp.source().source, "let x = 1;\n");
    assert_eq!(pp.source().map, vec![1]);
}

#[test]
fn shader_without_directives_is_copied_line_for_line() {
    let shader = "fn main() {\n    let a = 1;\n\n    return;\n}";
    let map = done(fresh().run(shader));
    assert_eq!(map.source, "fn main() {\n    let a = 1;\n\n    return;\n}\n");
    assert_eq!(map.map, vec![1, 2, 3, 4, 5]);
    assert_eq!(map.extensions, "");
    assert!(map.assert_map.is_empty());
    assert_eq!(map.user_data.len(), 1);
    assert_eq!(map.user_data.name_at(0), Some("_dummy".to_string()));
    assert_eq!(map.user_data.values_at(0), Some(vec![0]));
}

#[test]
fn empty_shader_gives_empty_source() {
    let map = done(fresh().run(""));
    assert_eq!(map.source, "");
    assert!(map.map.is_empty());
}

#[test]
fn carriage_returns_before_line_feeds_are_dropped() {
    let map = done(fresh().run("a\r\nb\r\n\r\nc\r"));
    assert_eq!(map.source, "a\nb\n\nc\r\n");
    assert_eq!(map.map, vec![1, 2, 3, 4]);
}

#[test]
fn final_line_feed_adds_no_line() {
    let map = done(fresh().run("a\nb\n"));
    assert_eq!(map.source, "a\nb\n");
    assert_eq!(map.map, vec![1, 2]);
}

#[test]
fn built_in_length_limit_is_defined() {
    let pp = fresh();
    assert_eq!(pp.defines().value_of("STRING_MAX_LEN"), Some("20".to_string()));
    assert_eq!(pp.subst_defines("array<u32, STRING_MAX_LEN>"), "array<u32, 20>");
}

#[test]
fn built_in_length_limit_overrides_a_given_definition() {
    let mut defines = DefinitionTable::new();
    defines.seed("STRING_MAX_LEN", "7");
    let pp = Preprocessor::new(defines);
    assert_eq!(pp.defines().value_of("STRING_MAX_LEN"), Some("20".to_string()));
}

#[test]
fn defined_name_is_replaced_where_it_stands_alone() {
    let shader = "#define X 5\nlet a = X + X*2 + XY + _X + X1 + (X);";
    let map = done(fresh().run(shader));
    assert_eq!(map.source, "let a = 5 + 5*2 + XY + _X + X1 + (5);\n");
    assert_eq!(map.map, vec![2]);
}

#[test]
fn definition_value_keeps_its_tokens_joined_by_single_spaces() {
    let mut pp = fresh();
    line_ok(&mut pp, "#define   SUM   a   +\tb  // the sum", 1);
    assert_eq!(pp.defines().value_of("SUM"), Some("a + b".to_string()));
    line_ok(&mut pp, "let s = SUM;", 2);
    assert_eq!(pp.source().source, "let s = a + b;\n");
}

#[test]
fn definition_without_value_is_empty() {
    let mut pp = fresh();
    line_ok(&mut pp, "#define EMPTY", 1);
    assert_eq!(pp.defines().value_of("EMPTY"), Some(String::new()));
    line_ok(&mut pp, "a EMPTY b", 2);
    assert_eq!(pp.source().source, "a  b\n");
}

#[test]
fn replacement_is_not_scanned_again() {
    let mut pp = fresh();
    line_ok(&mut pp, "#define A B", 1);
    line_ok(&mut pp, "#define B C", 2);
    line_ok(&mut pp, "A B", 3);
    assert_eq!(pp.source().source, "B C\n");
}

#[test]
fn caller_definitions_are_replaced() {
    let mut defines = DefinitionTable::new();
    assert!(defines.define("SCREEN_WIDTH", "640"));
    assert!(!defines.define("SCREEN_WIDTH", "800"));
    let map = done(Preprocessor::new(defines).run("let w = SCREEN_WIDTH;"));
    assert_eq!(map.source, "let w = 640;\n");
}

#[test]
fn defined_names_are_replaced_inside_string_literals() {
    let shader = "#define NAME you\nprint(\"hello NAME\");";
    let map = done(fresh().run(shader));
    assert_eq!(map.source, "print(\"hello you\");\n");
}

#[test]
fn redefinition_fails_and_stops() {
    let shader = "#define X X\na\n#define X 1\nb";
    let mut pp = fresh();
    let e = failed(pp.run(shader));
    assert_eq!(e.summary(), "Cannot redefine X");
    assert_eq!(e.line(), 3);
    assert_eq!(pp.source().source, "a\n");
    assert_eq!(pp.source().map, vec![2]);
}

#[test]
fn redefinition_of_a_name_that_is_no_word_fails() {
    let shader = "#define a-b 1\n#define a-b 2";
    let e = failed(fresh().run(shader));
    assert_eq!(e.summary(), "Cannot redefine a-b");
    assert_eq!(e.line(), 2);
}

#[test]
fn second_definition_names_the_value_of_the_first() {
    let mut pp = fresh();
    line_ok(&mut pp, "#define X 5", 1);
    line_ok(&mut pp, "#define X 6", 2);
    assert_eq!(pp.defines().value_of("X"), Some("5".to_string()));
    assert_eq!(pp.defines().value_of("5"), Some("6".to_string()));
}

#[test]
fn define_without_name_fails() {
    let e = line_error(&mut fresh(), "#define", 4);
    assert_eq!(e.summary(), "Define directive requires at least a name");
    assert_eq!(e.line(), 4);
}

#[test]
fn third_storage_directive_fails() {
    let shader = "#storage first array<f32>\n#storage second Particles\n#storage third u32\nx";
    let mut pp = fresh();
    let e = failed(pp.run(shader));
    assert_eq!(e.summary(), "Only two storage buffers are currently supported");
    assert_eq!(e.line(), 3);
    assert_eq!(
        pp.source().source,
        "@group(0) @binding(0) var<storage,read_write> first: array<f32>;\n\
         @group(0) @binding(1) var<storage,read_write> second: Particles;\n"
    );
    assert_eq!(pp.source().map, vec![1, 2]);
    assert_eq!(pp.storage_count(), 2);
}

#[test]
fn storage_type_keeps_its_tokens() {
    let mut pp = fresh();
    line_ok(&mut pp, "  #storage buf array< vec4<f32>,  16 >", 9);
    assert_eq!(
        pp.source().source,
        "@group(0) @binding(0) var<storage,read_write> buf: array< vec4<f32>, 16 >;\n"
    );
    assert_eq!(pp.source().map, vec![9]);
}

#[test]
fn storage_without_type_fails() {
    let e = line_error(&mut fresh(), "#storage name", 2);
    assert_eq!(e.summary(), "Storage directive requires name and type");
    assert_eq!(e.line(), 2);
}

#[test]
fn data_accumulates_under_one_name() {
    let shader = "#data counts u32 1,2,3\nx\n#data other u32 9\n#data counts u32 4,5";
    let map = done(fresh().run(shader));
    assert_eq!(map.user_data.len(), 2);
    assert_eq!(map.user_data.name_at(0), Some("counts".to_string()));
    assert_eq!(map.user_data.values_at(0), Some(vec![1, 2, 3, 4, 5]));
    assert_eq!(map.user_data.name_at(1), Some("other".to_string()));
    assert_eq!(map.user_data.values_at(1), Some(vec![9]));
    assert_eq!(map.user_data.name_at(2), None);
    assert_eq!(map.source, "x\n");
}

#[test]
fn data_values_may_be_spread_over_tokens() {
    let mut pp = fresh();
    line_ok(&mut pp, "#data t u32 1, 2,3 ,4", 1);
    assert_eq!(pp.source().user_data.values_at(0), Some(vec![1, 2, 3, 4]));
}

#[test]
fn lone_sentinel_table_is_discarded() {
    let mut pp = fresh();
    line_ok(&mut pp, "#data _dummy u32 0", 1);
    assert_eq!(pp.source().user_data.len(), 1);
    line_ok(&mut pp, "#data real u32 7", 2);
    assert_eq!(pp.source().user_data.len(), 1);
    assert_eq!(pp.source().user_data.name_at(0), Some("real".to_string()));
    assert_eq!(pp.source().user_data.values_at(0), Some(vec![7]));
}

#[test]
fn lone_sentinel_table_does_not_accumulate() {
    let mut pp = fresh();
    line_ok(&mut pp, "#data _dummy u32 1", 1);
    line_ok(&mut pp, "#data _dummy u32 2", 2);
    assert_eq!(pp.source().user_data.len(), 1);
    assert_eq!(pp.source().user_data.values_at(0), Some(vec![2]));
}

#[test]
fn sentinel_beside_other_tables_stays() {
    let mut pp = fresh();
    line_ok(&mut pp, "#data a u32 1", 1);
    line_ok(&mut pp, "#data _dummy u32 2", 2);
    line_ok(&mut pp, "#data b u32 3", 3);
    assert_eq!(pp.source().user_data.len(), 3);
    assert_eq!(pp.source().user_data.name_at(1), Some("_dummy".to_string()));
}

#[test]
fn data_of_another_type_fails() {
    let e = line_error(&mut fresh(), "#data t f32 1,2", 6);
    assert_eq!(e.summary(), "Data directive requires name, u32 type, and data");
    assert_eq!(e.line(), 6);
}

#[test]
fn data_without_values_fails() {
    let e = line_error(&mut fresh(), "#data t u32", 6);
    assert_eq!(e.summary(), "Data directive requires name, u32 type, and data");
}

#[test]
fn data_with_a_bad_value_fails_and_adds_nothing() {
    let mut pp = fresh();
    let e = line_error(&mut pp, "#data t u32 1,x2,y", 3);
    assert_eq!(e.summary(), "Cannot parse 'x2' as u32");
    assert_eq!(e.line(), 3);
    assert_eq!(pp.source().user_data.len(), 1);
    assert_eq!(pp.source().user_data.name_at(0), Some("_dummy".to_string()));
}

#[test]
fn data_with_a_trailing_comma_fails() {
    let e = line_error(&mut fresh(), "#data t u32 1,2,", 3);
    assert_eq!(e.summary(), "Cannot parse '' as u32");
}

#[test]
fn data_value_out_of_range_fails() {
    let mut pp = fresh();
    line_ok(&mut pp, "#data t u32 4294967295", 1);
    assert_eq!(pp.source().user_data.values_at(0), Some(vec![4294967295]));
    let e = line_error(&mut pp, "#data t u32 4294967296", 2);
    assert_eq!(e.summary(), "Cannot parse '4294967296' as u32");
}

#[test]
fn string_literal_is_rewritten() {
    let mut pp = fresh();
    let request = line_include(&mut pp, "#include <string>", 1);
    assert_eq!(request.path, "std/string");
    assert!(pp.special_strings());
    line_ok(&mut pp, "f(\"hi\");", 2);
    assert_eq!(
        pp.source().source,
        "f(String(2, array<uint,20>(0x68,0x69,0x00,0x00,0x00,0x00,0x00,0x00,0x00,0x00,0x00,0x00,0x00,0x00,0x00,0x00,0x00,0x00,0x00,0x00)));\n"
    );
    assert_eq!(pp.source().map, vec![2]);
}

#[test]
fn string_literals_are_left_alone_without_the_string_include() {
    let mut pp = fresh();
    let request = line_include(&mut pp, "#include <math>", 1);
    assert_eq!(request.path, "std/math");
    assert!(!pp.special_strings());
    line_ok(&mut pp, "f(\"hi\");", 2);
    assert_eq!(pp.source().source, "f(\"hi\");\n");
}

#[test]
fn escape_sequences_are_resolved_before_encoding() {
    let mut pp = fresh();
    line_include(&mut pp, "#include <string>", 1);
    line_ok(&mut pp, "\"a\\n\\u{e9}\"", 2);
    assert_eq!(
        pp.source().source,
        "String(3, array<uint,20>(0x61,0x0a,0xe9,0x00,0x00,0x00,0x00,0x00,0x00,0x00,0x00,0x00,0x00,0x00,0x00,0x00,0x00,0x00,0x00,0x00))\n"
    );
}

#[test]
fn wide_code_points_keep_all_their_digits() {
    let mut pp = fresh();
    line_include(&mut pp, "#include <string>", 1);
    line_ok(&mut pp, "\"\u{1F600}\"", 2);
    assert!(pp.source().source.starts_with("String(1, array<uint,20>(0x1f600,0x00,"));
}

#[test]
fn several_literals_on_one_line_are_rewritten() {
    let mut pp = fresh();
    line_include(&mut pp, "#include <string>", 1);
    line_ok(&mut pp, "g(\"\", \"b\")", 2);
    let zeros19 = ",0x00".repeat(19);
    let zeros20 = format!("0x00{zeros19}");
    assert_eq!(
        pp.source().source,
        format!("g(String(0, array<uint,20>({zeros20})), String(1, array<uint,20>(0x62{zeros19})))\n")
    );
}

#[test]
fn literal_of_twenty_characters_is_accepted() {
    let mut pp = fresh();
    line_include(&mut pp, "#include <string>", 1);
    line_ok(&mut pp, "\"12345678901234567890\"", 2);
    assert!(pp.source().source.starts_with("String(20, array<uint,20>(0x31,0x32,"));
    assert!(pp.source().source.ends_with(",0x39,0x30))\n"));
}

#[test]
fn literal_of_twenty_one_characters_fails() {
    let mut pp = fresh();
    line_include(&mut pp, "#include <string>", 1);
    let e = line_error(&mut pp, "f(\"ok\", \"123456789012345678901\");", 5);
    assert_eq!(e.summary(), "String literals cannot be longer than 20 characters");
    assert_eq!(e.line(), 5);
    assert_eq!(pp.source().source, "");
}

#[test]
fn literal_with_an_unknown_escape_is_kept() {
    let mut pp = fresh();
    line_include(&mut pp, "#include <string>", 1);
    line_ok(&mut pp, "f(\"a\\qb\")", 2);
    assert_eq!(pp.source().source, "f(\"a\\qb\")\n");
}

#[test]
fn unfinished_literal_is_kept() {
    let mut pp = fresh();
    line_include(&mut pp, "#include <string>", 1);
    line_ok(&mut pp, "f(\"abc)", 2);
    assert_eq!(pp.source().source, "f(\"abc)\n");
}

#[test]
fn unknown_directive_fails_at_its_line() {
    let shader = "a\nb\n#foo bar\nc";
    let mut pp = fresh();
    let e = failed(pp.run(shader));
    assert_eq!(e.summary(), "Unrecognised preprocessor directive");
    assert_eq!(e.line(), 3);
    assert_eq!(e.submit(), "3:0: Unrecognised preprocessor directive");
    assert_eq!(pp.source().map, vec![1, 2]);
}

#[test]
fn lone_hash_is_an_unknown_directive() {
    let e = line_error(&mut fresh(), "  # define X 1", 8);
    assert_eq!(e.summary(), "Unrecognised preprocessor directive");
    assert_eq!(e.line(), 8);
}

#[test]
fn hash_behind_other_text_is_shader_code() {
    let mut pp = fresh();
    line_ok(&mut pp, "/* c */ #define X 1", 1);
    assert_eq!(pp.source().source, "/* c */ #define X 1\n");
}

#[test]
fn extension_statements_are_hoisted() {
    let shader = "enable f16; // half floats\nfn a() {}\n  enable subgroups;";
    let map = done(fresh().run(shader));
    assert_eq!(map.extensions, "enable f16; \n  enable subgroups;\n");
    assert_eq!(map.source, "fn a() {}\n");
    assert_eq!(map.map, vec![2]);
}

#[test]
fn line_that_begins_with_enable_is_an_extension() {
    let map = done(fresh().run("enabled = true;"));
    assert_eq!(map.extensions, "enabled = true;\n");
    assert_eq!(map.source, "");
}

#[test]
fn workgroup_count_is_recorded() {
    let mut pp = fresh();
    line_ok(&mut pp, "#workgroup_count main 4 5 6 // grid", 1);
    assert_eq!(pp.source().workgroup_count_of("main"), Some([4, 5, 6]));
    assert_eq!(pp.source().workgroup_count_of("other"), None);
    assert_eq!(pp.source().source, "");
}

#[test]
fn workgroup_count_takes_defined_values() {
    let mut defines = DefinitionTable::new();
    defines.seed("SCREEN_WIDTH", "640");
    let mut pp = Preprocessor::new(defines);
    line_ok(&mut pp, "#workgroup_count main SCREEN_WIDTH 1 +1", 1);
    assert_eq!(pp.source().workgroup_count_of("main"), Some([640, 1, 1]));
}

#[test]
fn workgroup_count_with_wrong_arity_fails() {
    let e = line_error(&mut fresh(), "#workgroup_count main 4 5", 2);
    assert_eq!(e.summary(), "Workgroup count directive requires name and three values");
    assert_eq!(e.line(), 2);
    let e = line_error(&mut fresh(), "#workgroup_count main 4 5 6 7", 2);
    assert_eq!(e.summary(), "Workgroup count directive requires name and three values");
}

#[test]
fn workgroup_count_with_a_bad_value_fails() {
    let mut pp = fresh();
    let e = line_error(&mut pp, "#workgroup_count main 4 -5 6", 2);
    assert_eq!(e.summary(), "Cannot parse '-5' as u32");
    assert_eq!(e.line(), 2);
    assert_eq!(pp.source().workgroup_count_of("main"), None);
}

#[test]
fn dispatch_once_is_recorded() {
    let mut pp = fresh();
    line_ok(&mut pp, "#dispatch_once init", 1);
    assert!(pp.source().is_dispatch_once("init"));
    assert!(!pp.source().is_dispatch_once("main"));
}

#[test]
fn dispatch_once_with_wrong_arity_fails() {
    let e = line_error(&mut fresh(), "#dispatch_once", 1);
    assert_eq!(e.summary(), "Dispatch once directive requires exactly one name");
    let e = line_error(&mut fresh(), "#dispatch_once a b", 1);
    assert_eq!(e.summary(), "Dispatch once directive requires exactly one name");
}

#[test]
fn dispatch_count_is_recorded() {
    let mut pp = fresh();
    line_ok(&mut pp, "#dispatch_count blur 8", 1);
    assert_eq!(pp.source().dispatch_count_of("blur"), Some(8));
    assert_eq!(pp.source().dispatch_count_of("main"), None);
    line_ok(&mut pp, "#dispatch_count blur 3", 2);
    assert_eq!(pp.source().dispatch_count_of("blur"), Some(3));
}

#[test]
fn dispatch_count_with_wrong_arity_fails() {
    let e = line_error(&mut fresh(), "#dispatch_count blur", 1);
    assert_eq!(e.summary(), "Dispatch count directive requires name and count");
}

#[test]
fn dispatch_count_with_a_bad_value_fails() {
    let e = line_error(&mut fresh(), "#dispatch_count blur many", 1);
    assert_eq!(e.summary(), "Cannot parse 'many' as u32");
}

#[test]
fn assertions_are_numbered_and_mapped() {
    let shader = "x\n#assert a < b\ny\n#assert   c   ==   d // same";
    let map = done(fresh().run(shader));
    assert_eq!(map.source, "x\nassert(0, a < b);\ny\nassert(1, c == d);\n");
    assert_eq!(map.map, vec![1, 2, 3, 4]);
    assert_eq!(map.assert_map, vec![2, 4]);
}

#[test]
fn assertion_without_predicate_fails() {
    let e = line_error(&mut fresh(), "#assert", 1);
    assert_eq!(e.summary(), "Assert directive requires predicate");
}

#[test]
fn assertions_beyond_the_limit_fail() {
    let mut pp = fresh();
    for i in 0..MAX_ASSERTS {
        line_ok(&mut pp, "#assert true", i + 1);
    }
    assert_eq!(pp.assert_count(), MAX_ASSERTS);
    let e = line_error(&mut pp, "#assert true", 11);
    assert_eq!(e.summary(), "A maximum of 10 assertions are currently supported");
    assert_eq!(e.line(), 11);
    assert_eq!(pp.source().assert_map.len(), 10);
    assert!(pp.source().source.ends_with("assert(9, true);\n"));
}

#[test]
fn include_with_wrong_arity_fails() {
    let e = line_error(&mut fresh(), "#include", 1);
    assert_eq!(e.summary(), "Include directive requires exactly one argument");
    let e = line_error(&mut fresh(), "#include \"my file\"", 1);
    assert_eq!(e.summary(), "Include directive requires exactly one argument");
}

#[test]
fn include_without_quotes_or_chevrons_fails() {
    let e = line_error(&mut fresh(), "#include noise", 3);
    assert_eq!(e.summary(), "Path must be enclosed in quotes or chevrons");
    assert_eq!(e.line(), 3);
    let e = line_error(&mut fresh(), "#include >noise<", 3);
    assert_eq!(e.summary(), "Path must be enclosed in quotes or chevrons");
}

#[test]
fn quoted_include_asks_for_the_path_as_written() {
    let request = line_include(&mut fresh(), "#include \"lib/noise\"", 1);
    assert_eq!(request.path, "lib/noise");
}

#[test]
fn chevron_include_asks_for_the_standard_path() {
    let request = line_include(&mut fresh(), "#include <<a>b>", 1);
    assert_eq!(request.path, "std/<a>b");
    let request = line_include(&mut fresh(), "#include x<y>z>w", 1);
    assert_eq!(request.path, "std/y>z");
    let request = line_include(&mut fresh(), "#include <>", 1);
    assert_eq!(request.path, "std/");
}

#[test]
fn quotes_win_over_chevrons() {
    let request = line_include(&mut fresh(), "#include <a\"b\"c>", 1);
    assert_eq!(request.path, "b");
    let request = line_include(&mut fresh(), "#include <a\"b>", 1);
    assert_eq!(request.path, "std/a\"b");
}

#[test]
fn include_arguments_are_read_as_the_patterns_read_them() {
    let quotes = regex::Regex::new(r#""((?:[^\\"]|\\.)*)""#).unwrap();
    let chevrons = regex::Regex::new("<(.*)>").unwrap();
    for token in ["\"a\"", "<a>", "<<a>b>", "x<y>z>w", "<>", "<", ">", "><", "a", "<a\"b\"c>",
        "<a\"b>", "\"\"", "\"a\\\"b\"", "<\u{e9}>", "\"\u{e9}\"x", "<a", "a>"]
    {
        let expected = if let Some(cap) = quotes.captures(token) {
            Some(cap[1].to_string())
        } else {
            chevrons.captures(token).map(|cap| format!("std/{}", &cap[1]))
        };
        let mut pp = fresh();
        let actual = match pp.process_line(&format!("#include {token}"), 1) {
            Ok(Some(request)) => Some(request.path),
            Ok(None) => panic!("the line cannot be done"),
            Err(e) => {
                assert_eq!(e.summary(), "Path must be enclosed in quotes or chevrons");
                None
            }
        };
        assert_eq!(actual, expected, "for {token:?}");
    }
}

#[test]
fn included_lines_count_as_the_including_line() {
    let mut pp = fresh();
    let shader = "first\n#include \"part\"\nlast";
    let s = suspended(pp.run(shader));
    assert_eq!(s.path(), "part");
    assert_eq!(s.line(), 2);
    assert_eq!(s.pending(), 1);
    let map = done(pp.resume(s, Some("one\n#define N 3\ntwo N")));
    assert_eq!(map.source, "first\none\ntwo 3\nlast\n");
    assert_eq!(map.map, vec![1, 2, 2, 3]);
}

#[test]
fn includes_nest_depth_first() {
    let mut pp = fresh();
    let s = suspended(pp.run("a\n#include \"outer\"\nz"));
    let s = suspended(pp.resume(s, Some("b\n#include \"inner\"\ny")));
    assert_eq!(s.path(), "inner");
    assert_eq!(s.line(), 2);
    assert_eq!(s.pending(), 2);
    let map = done(pp.resume(s, Some("c\nd")));
    assert_eq!(map.source, "a\nb\nc\nd\ny\nz\n");
    assert_eq!(map.map, vec![1, 2, 2, 2, 2, 3]);
}

#[test]
fn missing_include_fails_at_the_including_line() {
    let mut pp = fresh();
    let s = suspended(pp.run("a\nb\n#include <nowhere>\nc"));
    assert_eq!(s.path(), "std/nowhere");
    let e = failed(pp.resume(s, None));
    assert_eq!(e.summary(), "Cannot find include std/nowhere");
    assert_eq!(e.line(), 3);
}

#[test]
fn missing_quoted_include_is_reported_by_its_path() {
    let mut pp = fresh();
    let s = suspended(pp.run("#include \"lib/noise\""));
    let e = failed(pp.resume(s, None));
    assert_eq!(e.summary(), "Cannot find include lib/noise");
    assert_eq!(e.line(), 1);
}

#[test]
fn error_in_an_included_line_is_blamed_on_the_including_line() {
    let mut pp = fresh();
    let s = suspended(pp.run("a\n#include \"bad\"\nc"));
    let e = failed(pp.resume(s, Some("fine\n#bogus\nnever")));
    assert_eq!(e.summary(), "Unrecognised preprocessor directive");
    assert_eq!(e.line(), 2);
    assert_eq!(pp.source().source, "a\nfine\n");
}

#[test]
fn string_mode_holds_for_the_included_text_and_after() {
    let mut pp = fresh();
    let s = suspended(pp.run("\"x\"\n#include <string>\n\"y\""));
    let map = done(pp.resume(s, Some("\"z\"")));
    let zeros = ",0x00".repeat(19);
    assert_eq!(
        map.source,
        format!(
            "\"x\"\nString(1, array<uint,20>(0x7a{zeros}))\nString(1, array<uint,20>(0x79{zeros}))\n"
        )
    );
}

#[test]
fn preprocessor_is_left_with_a_new_source_map() {
    let mut pp = fresh();
    let map = done(pp.run("x\n#data t u32 1"));
    assert_eq!(map.source, "x\n");
    assert_eq!(map.user_data.name_at(0), Some("t".to_string()));
    assert_eq!(pp.source().source, "");
    assert!(pp.source().map.is_empty());
    assert_eq!(pp.source().user_data.len(), 1);
    assert_eq!(pp.source().user_data.name_at(0), Some("_dummy".to_string()));
}

#[test]
fn new_source_map_holds_the_bootstrap_table() {
    let map = SourceMap::new();
    assert_eq!(map.source, "");
    assert_eq!(map.extensions, "");
    assert!(map.map.is_empty());
    assert!(map.assert_map.is_empty());
    assert_eq!(map.workgroup_count_of("main"), None);
    assert!(!map.is_dispatch_once("main"));
    assert_eq!(map.dispatch_count_of("main"), None);
    assert_eq!(map.user_data.len(), 1);
    assert_eq!(map.user_data.name_at(0), Some("_dummy".to_string()));
    assert_eq!(map.user_data.values_at(0), Some(vec![0]));
    let other = SourceMap::default();
    assert_eq!(other.user_data.len(), 1);
}

#[test]
fn first_data_directive_discards_the_bootstrap_table() {
    let mut pp = fresh();
    line_ok(&mut pp, "#data first u32 5,6", 1);
    assert_eq!(pp.source().user_data.len(), 1);
    assert_eq!(pp.source().user_data.name_at(0), Some("first".to_string()));
    assert_eq!(pp.source().user_data.values_at(0), Some(vec![5, 6]));
}

#[test]
fn comment_only_directive_tokens_are_dropped() {
    let mut pp = fresh();
    line_ok(&mut pp, "#dispatch_once main /* once */ // really", 1);
    assert!(pp.source().is_dispatch_once("main"));
}
