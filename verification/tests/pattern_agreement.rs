use codeskew::compile::find_entry_points;
use codeskew::literal::{find_literal, scan_literal};
use codeskew::pp::Preprocessor;
use codeskew::{strip_comments, DefinitionTable};
use regex::Regex;

fn chars(s: &str) -> Vec<char> {
    s.chars().collect()
}

fn samples() -> Vec<&'static str> {
    vec![
        "",
        "plain text",
        "a // line comment",
        "a /* block */ b",
        "a /* open",
        "a /*/ b */ c",
        "/**/",
        "/***/x",
        "// one\n// two\nthree /* x\ny */ four",
        "x / * y */ z",
        "a //* b */ c",
        "a /* b // c */ d",
        "http://example.com /* c */",
        "\"quoted\" and \"\" and \"a\\\"b\"",
        "\"unfinished",
        "\"back\\",
        "\"a\\\nb\" \"c\"",
        "say \"\u{e9}t\u{e9}\" twice \"\u{1F600}\"",
        "word_1 + Word2*3-\u{e9}x_ y",
        "_ __ a_b 9lives \u{4e3b}abc",
        "@compute @workgroup_size(8,8,1) fn a(x: u32) {}\n@compute @workgroup_size(1,1,1) fn b() {}",
        "@compute\n@workgroup_size( 16 , 4 )\nfn\n main_image(",
        "@compute @workgroup_size(1) fn\u{a0}caf\u{e9}()",
        "@compute fn a() @workgroup_size(2) fn b) fn c",
        "@compute @compute @workgroup_size(3)) defn \u{4e3b}\u{b7}x @compute @workgroup_size(,5,) fn _",
        "@compute @workgroup_size(1) fn",
        "@compute @workgroup_size(1 fn a",
    ]
}

#[test]
fn comments_are_removed_as_the_pattern_removes_them() {
    let pattern = Regex::new(r"(//.*|(?s:/\*.*?\*/))").unwrap();
    for text in samples() {
        assert_eq!(strip_comments(text), pattern.replace_all(text, "").into_owned(), "in {text:?}");
    }
}

#[test]
fn words_are_replaced_as_the_pattern_replaces_them() {
    let pattern = Regex::new("[[:word:]]+").unwrap();
    let mut defines = DefinitionTable::new();
    defines.seed("a", "<A>");
    defines.seed("word_1", "one");
    defines.seed("x_", "ex");
    defines.seed("fn", "function");
    defines.seed("_", "");
    let pp = Preprocessor::new(defines);
    for text in samples() {
        let expected = pattern.replace_all(text, |caps: &regex::Captures| {
            let name = &caps[0];
            pp.defines().value_of(name).unwrap_or(name.to_string())
        });
        assert_eq!(pp.subst_defines(text), expected.into_owned(), "in {text:?}");
    }
}

#[test]
fn literals_are_found_as_the_pattern_finds_them() {
    let pattern = Regex::new(r#""((?:[^\\"]|\\.)*)""#).unwrap();
    for text in samples() {
        let t = chars(text);
        let expected = pattern.find(text).map(|m| {
            (text[..m.start()].chars().count(), text[..m.end()].chars().count())
        });
        assert_eq!(find_literal(&t), expected, "in {text:?}");
        let mut all = Vec::new();
        let mut i = 0;
        while i < t.len() {
            match scan_literal(&t, i) {
                Some(e) => {
                    all.push((i, e));
                    i = e;
                }
                None => i += 1,
            }
        }
        let expected: Vec<(usize, usize)> = pattern
            .find_iter(text)
            .map(|m| (text[..m.start()].chars().count(), text[..m.end()].chars().count()))
            .collect();
        assert_eq!(all, expected, "in {text:?}");
    }
}

#[test]
fn entry_points_are_found_as_the_pattern_finds_them() {
    let pattern = Regex::new(r"(?s)@compute.*?@workgroup_size\((.*?)\).*?fn\s+(\w+)").unwrap();
    for text in samples() {
        let expected: Vec<(String, [u32; 3])> = pattern
            .captures_iter(text)
            .map(|cap| {
                let mut sizes = cap[1].split(',').map(|s| s.trim().parse().unwrap_or(1));
                let size: [u32; 3] = std::array::from_fn(|_| sizes.next().unwrap_or(1));
                (cap[2].to_owned(), size)
            })
            .collect();
        let actual: Vec<(String, [u32; 3])> = find_entry_points(&chars(text))
            .into_iter()
            .map(|e| (e.name, e.workgroup_size))
            .collect();
        assert_eq!(actual, expected, "in {text:?}");
    }
}

#[test]
fn lines_and_tokens_are_split_as_the_standard_library_splits_them() {
    for text in samples() {
        let t = chars(text);
        let lines: Vec<String> = codeskew::split::split_lines(&t)
            .into_iter()
            .map(|l| l.into_iter().collect())
            .collect();
        let expected: Vec<String> = text.lines().map(|l| l.to_string()).collect();
        assert_eq!(lines, expected, "in {text:?}");
        let tokens: Vec<String> = codeskew::split::split_tokens(&t)
            .into_iter()
            .map(|l| l.into_iter().collect())
            .collect();
        let expected: Vec<String> = text.split_whitespace().map(|l| l.to_string()).collect();
        assert_eq!(tokens, expected, "in {text:?}");
        let trimmed: String = codeskew::split::trimmed(&t).into_iter().collect();
        assert_eq!(trimmed, text.trim(), "in {text:?}");
        let fields: Vec<String> = codeskew::split::split_fields(&t)
            .into_iter()
            .map(|l| l.into_iter().collect())
            .collect();
        let expected: Vec<String> = text.split(',').map(|l| l.to_string()).collect();
        assert_eq!(fields, expected, "in {text:?}");
    }
}

#[test]
fn whitespace_is_what_the_standard_library_calls_whitespace() {
    for code in 0..0x11000u32 {
        if let Some(c) = char::from_u32(code) {
            assert_eq!(codeskew::text::is_space_char(c), c.is_whitespace(), "at {code:#x}");
        }
    }
}

#[test]
fn numbers_are_read_as_the_standard_library_reads_them() {
    for text in ["0", "7", "007", "+5", "+", "-1", "", " 1", "1 ", "4294967295", "4294967296",
        "99999999999999999999999", "1_000", "0x10", "12a", "١"]
    {
        assert_eq!(
            codeskew::number::parse_u32_text(&chars(text)),
            text.parse::<u32>().ok(),
            "in {text:?}"
        );
    }
}

#[test]
fn numbers_are_written_as_the_standard_library_writes_them() {
    for n in [0usize, 1, 9, 10, 11, 99, 100, 12345, 4294967295, usize::MAX] {
        let text: String = codeskew::number::decimal_text(n).into_iter().collect();
        assert_eq!(text, n.to_string());
    }
    for n in [0u32, 1, 9, 10, 15, 16, 255, 256, 0x1f600, u32::MAX] {
        let text: String = codeskew::number::hex_literal_text(n).into_iter().collect();
        assert_eq!(text, format!("{n:#04x}"));
    }
}

/// A small fixed sequence of pseudo-random numbers.
struct Lcg(u64);

impl Lcg {
    fn next(&mut self) -> u64 {
        self.0 = self.0.wrapping_mul(6364136223846793005).wrapping_add(1442695040888963407);
        self.0 >> 33
    }

    fn text(&mut self, pieces: &[&str], max: u64) -> String {
        let len = self.next() % (max + 1);
        let mut out = String::new();
        for _ in 0..len {
            out.push_str(pieces[(self.next() % pieces.len() as u64) as usize]);
        }
        out
    }
}

#[test]
fn comments_agree_on_generated_text() {
    let pattern = Regex::new(r"(//.*|(?s:/\*.*?\*/))").unwrap();
    let pieces = ["/", "*", "a", " ", "\n", "\r", "//", "/*", "*/", "\u{e9}"];
    let mut rng = Lcg(1);
    for _ in 0..20000 {
        let text = rng.text(&pieces, 14);
        assert_eq!(strip_comments(&text), pattern.replace_all(&text, "").into_owned(), "in {text:?}");
    }
}

#[test]
fn words_agree_on_generated_text() {
    let pattern = Regex::new("[[:word:]]+").unwrap();
    let mut defines = DefinitionTable::new();
    defines.seed("a", "b");
    defines.seed("ab", "");
    defines.seed("_", "a_");
    defines.seed("b1", "+");
    defines.seed("\u{e9}", "x");
    let pp = Preprocessor::new(defines);
    let pieces = ["a", "b", "_", "1", " ", "+", "\u{e9}", "\u{4e3b}", "A", "\n"];
    let mut rng = Lcg(2);
    for _ in 0..20000 {
        let text = rng.text(&pieces, 12);
        let expected = pattern.replace_all(&text, |caps: &regex::Captures| {
            let name = &caps[0];
            pp.defines().value_of(name).unwrap_or(name.to_string())
        });
        assert_eq!(pp.subst_defines(&text), expected.into_owned(), "in {text:?}");
    }
}

#[test]
fn literals_agree_on_generated_text() {
    let pattern = Regex::new(r#""((?:[^\\"]|\\.)*)""#).unwrap();
    let pieces = ["\"", "\\", "a", "\n", " ", "\u{e9}", "\\\"", "\\\n"];
    let mut rng = Lcg(3);
    for _ in 0..20000 {
        let text = rng.text(&pieces, 12);
        let t = chars(&text);
        let mut all = Vec::new();
        let mut i = 0;
        while i < t.len() {
            match scan_literal(&t, i) {
                Some(e) => {
                    all.push((i, e));
                    i = e;
                }
                None => i += 1,
            }
        }
        let expected: Vec<(usize, usize)> = pattern
            .find_iter(&text)
            .map(|m| (text[..m.start()].chars().count(), text[..m.end()].chars().count()))
            .collect();
        assert_eq!(all, expected, "in {text:?}");
        assert_eq!(find_literal(&t), expected.first().copied(), "in {text:?}");
    }
}

#[test]
fn entry_points_agree_on_generated_text() {
    let pattern = Regex::new(r"(?s)@compute.*?@workgroup_size\((.*?)\).*?fn\s+(\w+)").unwrap();
    let pieces = [
        "@compute", "@workgroup_size(", ")", "fn", " ", "\n", "a", "_", "8", ",", "(", "@", "f",
        "n", "\u{e9}", "\u{a0}", "-", "@workgroup_size", "+1", "x9",
    ];
    let mut rng = Lcg(4);
    for _ in 0..20000 {
        let text = rng.text(&pieces, 16);
        let expected: Vec<(String, [u32; 3])> = pattern
            .captures_iter(&text)
            .map(|cap| {
                let mut sizes = cap[1].split(',').map(|s| s.trim().parse().unwrap_or(1));
                let size: [u32; 3] = std::array::from_fn(|_| sizes.next().unwrap_or(1));
                (cap[2].to_owned(), size)
            })
            .collect();
        let actual: Vec<(String, [u32; 3])> = find_entry_points(&chars(&text))
            .into_iter()
            .map(|e| (e.name, e.workgroup_size))
            .collect();
        assert_eq!(actual, expected, "in {text:?}");
    }
}

#[test]
fn word_characters_agree_with_the_pattern() {
    let word = Regex::new(r"^\w$").unwrap();
    let mut buffer = [0u8; 4];
    for code in (0..0x3000u32).chain(0xF900..0x10000).chain(0x1F000..0x1F800) {
        if let Some(c) = char::from_u32(code) {
            let text = format!("@compute @workgroup_size(1) fn {c}");
            let found = find_entry_points(&chars(&text));
            let is_word = word.is_match(c.encode_utf8(&mut buffer));
            assert_eq!(found.len() == 1, is_word, "at {code:#x}");
        }
    }
}

#[test]
fn splitting_agrees_on_generated_text() {
    let pieces = ["a", " ", "\n", "\r", "\r\n", "\t", ",", "\u{a0}", "\u{2028}", "b"];
    let mut rng = Lcg(5);
    for _ in 0..20000 {
        let text = rng.text(&pieces, 12);
        let t = chars(&text);
        let lines: Vec<String> = codeskew::split::split_lines(&t)
            .into_iter()
            .map(|l| l.into_iter().collect())
            .collect();
        let expected: Vec<String> = text.lines().map(|l| l.to_string()).collect();
        assert_eq!(lines, expected, "in {text:?}");
        let tokens: Vec<String> = codeskew::split::split_tokens(&t)
            .into_iter()
            .map(|l| l.into_iter().collect())
            .collect();
        let expected: Vec<String> = text.split_whitespace().map(|l| l.to_string()).collect();
        assert_eq!(tokens, expected, "in {text:?}");
        let trimmed: String = codeskew::split::trimmed(&t).into_iter().collect();
        assert_eq!(trimmed, text.trim(), "in {text:?}");
        let fields: Vec<String> = codeskew::split::split_fields(&t)
            .into_iter()
            .map(|l| l.into_iter().collect())
            .collect();
        let expected: Vec<String> = text.split(',').map(|l| l.to_string()).collect();
        assert_eq!(fields, expected, "in {text:?}");
    }
}

#[test]
fn numbers_agree_on_generated_text() {
    let pieces = ["0", "1", "9", "4", "2", "+", "-", " ", "a", "_"];
    let mut rng = Lcg(6);
    for _ in 0..20000 {
        let text = rng.text(&pieces, 11);
        assert_eq!(
            codeskew::number::parse_u32_text(&chars(&text)),
            text.parse::<u32>().ok(),
            "in {text:?}"
        );
    }
}
