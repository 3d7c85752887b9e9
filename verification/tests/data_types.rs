use codeskew::cli::{animated, output_size, OutputFormat};
use codeskew::config::GradientColors;
use codeskew::error::{CodeSkewError, WGSLError};
use codeskew::highlight::{SpanStyle, StyledLine, StyledSpan};
use codeskew::layout::{styled_chars, CharColor, StyledChar};
use codeskew::nerdfont::{
    suggest_system_monospace, system_monospace_candidates, FontLoadError, NerdFont, Platform,
};
use codeskew::shader_data::{ShaderTextData, TERMINAL_COLS, TERMINAL_ROWS};
use codeskew::toyrs::{construct_metadata_path, construct_texture_url};
use codeskew::readback::{padded_bytes_per_row, unpad_rows};
use codeskew::user_data::UserData;

fn styled(c: char, r: u8, g: u8, b: u8) -> StyledChar {
    StyledChar { char: c, color: CharColor { r, g, b } }
}

#[test]
fn test_shader_data_generation() {
    let line = vec![
        StyledChar { char: 'f', color: CharColor { r: 255, g: 100, b: 50 } },
        StyledChar { char: 'n', color: CharColor { r: 100, g: 255, b: 100 } },
    ];

    let layout = vec![line];
    let data = ShaderTextData::from_layout(&layout);

    assert_eq!(data.terminal_grid[0][0], 'f' as u32);
    assert_eq!(data.terminal_grid[0][1], 'n' as u32);
    assert_eq!(data.color_grid[0][0], 0xFF6432);
    assert_eq!(data.color_grid[0][1], 0x64FF64);
    assert_eq!(data.rows_used, 1);
    assert_eq!(data.cols_used, 2);
}

#[test]
fn new_shader_data_is_blank_and_white() {
    let data = ShaderTextData::new();
    assert_eq!(data.rows_used, 0);
    assert_eq!(data.cols_used, 0);
    for row in 0..TERMINAL_ROWS {
        for col in 0..TERMINAL_COLS {
            assert_eq!(data.terminal_grid[row][col], 0);
            assert_eq!(data.color_grid[row][col], 0xFFFFFF);
        }
    }
    let default = ShaderTextData::default();
    assert_eq!(default.rows_used, 0);
    assert_eq!(default.color_grid[29][79], 0xFFFFFF);
}

#[test]
fn layout_is_cut_to_the_grid() {
    let long: Vec<StyledChar> = (0..100).map(|i| styled('a', i as u8, 0, 1)).collect();
    let mut layout = vec![vec![styled('x', 1, 2, 3)], Vec::new(), long];
    for _ in 0..40 {
        layout.push(vec![styled('z', 0, 0, 0), styled('z', 0, 0, 0)]);
    }
    let data = ShaderTextData::from_layout(&layout);
    assert_eq!(data.rows_used, 30);
    assert_eq!(data.cols_used, 80);
    assert_eq!(data.terminal_grid[0][0], 'x' as u32);
    assert_eq!(data.color_grid[0][0], 0x010203);
    assert_eq!(data.terminal_grid[0][1], 0);
    assert_eq!(data.color_grid[0][1], 0xFFFFFF);
    assert_eq!(data.terminal_grid[1][0], 0);
    assert_eq!(data.terminal_grid[2][79], 'a' as u32);
    assert_eq!(data.color_grid[2][79], 0x4F0001);
    assert_eq!(data.terminal_grid[29][1], 'z' as u32);
    assert_eq!(data.color_grid[29][1], 0);
    assert_eq!(data.terminal_grid[29][2], 0);
}

#[test]
fn columns_used_is_the_width_of_the_widest_line() {
    let layout = vec![
        vec![styled('a', 0, 0, 0); 3],
        vec![styled('b', 0, 0, 0); 7],
        vec![styled('c', 0, 0, 0); 5],
    ];
    let data = ShaderTextData::from_layout(&layout);
    assert_eq!(data.rows_used, 3);
    assert_eq!(data.cols_used, 7);
    assert_eq!(ShaderTextData::from_layout(&[]).cols_used, 0);
}

#[test]
fn buffers_are_the_grids_row_after_row() {
    let layout = vec![vec![styled('a', 1, 1, 1)], vec![styled('b', 0, 0, 2), styled('c', 0, 3, 0)]];
    let data = ShaderTextData::from_layout(&layout);
    let chars = data.to_terminal_buffer();
    let colors = data.to_color_buffer();
    assert_eq!(chars.len(), 2400);
    assert_eq!(colors.len(), 2400);
    assert_eq!(chars[0], 'a' as u32);
    assert_eq!(chars[1], 0);
    assert_eq!(chars[80], 'b' as u32);
    assert_eq!(chars[81], 'c' as u32);
    assert_eq!(colors[0], 0x010101);
    assert_eq!(colors[80], 2);
    assert_eq!(colors[81], 0x000300);
    assert_eq!(colors[82], 0xFFFFFF);
    assert_eq!(colors[2399], 0xFFFFFF);
    assert_eq!(ShaderTextData::buffer_size(), 9600);
}

#[test]
fn gradient_colors_are_kept() {
    let colors = GradientColors::new("#1a1a1a".to_string(), "#4A4a4F".to_string());
    assert_eq!(colors.start(), "#1a1a1a");
    assert_eq!(colors.end(), "#4A4a4F");
    assert!(colors.validate().is_ok());
}

#[test]
fn colors_are_a_hash_and_six_hex_digits() {
    let colors = GradientColors::new(String::new(), String::new());
    assert!(colors.is_valid_color("#000000"));
    assert!(colors.is_valid_color("#abcdef"));
    assert!(colors.is_valid_color("#ABCDEF"));
    assert!(colors.is_valid_color("#09aF5c"));
    assert!(!colors.is_valid_color(""));
    assert!(!colors.is_valid_color("#"));
    assert!(!colors.is_valid_color("#12345"));
    assert!(!colors.is_valid_color("#1234567"));
    assert!(!colors.is_valid_color("1234567"));
    assert!(!colors.is_valid_color("#12345g"));
    assert!(!colors.is_valid_color("#12 456"));
    assert!(!colors.is_valid_color("#\u{e9}\u{e9}ab"));
    assert!(!colors.is_valid_color("#12345\u{e9}"));
    assert!(!colors.is_valid_color("#\u{660}12345"));
}

#[test]
fn first_invalid_color_is_reported() {
    let colors = GradientColors::new("red".to_string(), "blue".to_string());
    match colors.validate() {
        Err(CodeSkewError::ConfigError(msg)) => assert_eq!(msg, "Invalid gradient start color: red"),
        _ => panic!("expected a configuration error"),
    }
    let colors = GradientColors::new("#ff0000".to_string(), "blue".to_string());
    match colors.validate() {
        Err(e) => assert_eq!(e.message(), "Configuration error: Invalid gradient end color: blue"),
        Ok(()) => panic!("expected a configuration error"),
    }
}

#[test]
fn errors_say_their_kind_and_their_detail() {
    let d = || "detail".to_string();
    assert_eq!(CodeSkewError::FontError(d()).message(), "Font error: detail");
    assert_eq!(CodeSkewError::LayoutError(d()).message(), "Layout error: detail");
    assert_eq!(CodeSkewError::RenderingError(d()).message(), "Rendering error: detail");
    assert_eq!(CodeSkewError::ConfigError(d()).message(), "Configuration error: detail");
    assert_eq!(CodeSkewError::SyntaxError(d()).message(), "Syntax highlighting error: detail");
    assert_eq!(CodeSkewError::AnimationError(d()).message(), "Animation error: detail");
    assert_eq!(CodeSkewError::OutputError(d()).message(), "Output error: detail");
    assert_eq!(CodeSkewError::Unknown(d()).message(), "Unknown error: detail");
    let io = std::io::Error::new(std::io::ErrorKind::NotFound, "gone");
    assert_eq!(CodeSkewError::IoError(io).message(), "IO error: gone");
}

#[test]
fn shader_errors_are_reported_with_their_place() {
    let e = WGSLError::new("bad thing".to_string(), 12);
    assert_eq!(e.summary(), "bad thing");
    assert_eq!(e.line(), 12);
    assert_eq!(e.submit(), "12:0: bad thing");
    assert_eq!(WGSLError::handler("x", 0, 407), "0:407: x");
    let copy = e.clone();
    assert_eq!(copy.submit(), "12:0: bad thing");
}

#[test]
fn formats_have_lower_case_names() {
    assert_eq!(OutputFormat::Png.name(), "png");
    assert_eq!(OutputFormat::Svg.name(), "svg");
    assert_eq!(OutputFormat::Gif.name(), "gif");
    assert_eq!(OutputFormat::Webp.name(), "webp");
    assert_eq!(OutputFormat::Wgpu.name(), "wgpu");
    assert_eq!(OutputFormat::default(), OutputFormat::Png);
}

#[test]
fn format_follows_the_extension() {
    let of = |e: &str| OutputFormat::determine_format_from_extension(Some(e));
    assert_eq!(of("svg"), OutputFormat::Svg);
    assert_eq!(of("SVG"), OutputFormat::Svg);
    assert_eq!(of("gif"), OutputFormat::Gif);
    assert_eq!(of("GIF"), OutputFormat::Gif);
    assert_eq!(of("webp"), OutputFormat::Webp);
    assert_eq!(of("WEBP"), OutputFormat::Webp);
    assert_eq!(of("WebP"), OutputFormat::Webp);
    assert_eq!(of("png"), OutputFormat::Png);
    assert_eq!(of("Gif"), OutputFormat::Png);
    assert_eq!(of("jpeg"), OutputFormat::Png);
    assert_eq!(of(""), OutputFormat::Png);
    assert_eq!(OutputFormat::determine_format_from_extension(None), OutputFormat::Png);
}

#[test]
fn format_is_resolved_from_the_command_line() {
    let (png, svg, gif, webp, wgpu) = (
        OutputFormat::Png,
        OutputFormat::Svg,
        OutputFormat::Gif,
        OutputFormat::Webp,
        OutputFormat::Wgpu,
    );
    assert_eq!(OutputFormat::resolve(false, None, Some("svg"), false, false), svg);
    assert_eq!(OutputFormat::resolve(false, Some(png), Some("svg"), false, false), png);
    assert_eq!(OutputFormat::resolve(true, Some(png), Some("svg"), false, false), wgpu);
    assert_eq!(OutputFormat::resolve(true, None, None, true, false), wgpu);
    assert_eq!(OutputFormat::resolve(false, None, Some("png"), true, false), gif);
    assert_eq!(OutputFormat::resolve(false, Some(svg), None, true, false), gif);
    assert_eq!(OutputFormat::resolve(false, Some(webp), None, true, false), webp);
    assert_eq!(OutputFormat::resolve(false, None, None, false, true), webp);
    assert_eq!(OutputFormat::resolve(true, Some(gif), Some("gif"), true, true), webp);
}

#[test]
fn fonts_have_their_download_names() {
    assert_eq!(NerdFont::Iosevka.github_name(), "Iosevka");
    assert_eq!(NerdFont::FiraCodeNerdFontMono.github_name(), "FiraCode");
    assert_eq!(NerdFont::JetBrainsMono.github_name(), "JetBrainsMono");
    assert_eq!(NerdFont::CascaydiaCove.github_name(), "CascaydiaCove");
    assert_eq!(NerdFont::Hack.github_name(), "Hack");
}

#[test]
fn fonts_are_found_by_their_names() {
    assert_eq!(NerdFont::from_name("Iosevka"), NerdFont::Iosevka);
    assert_eq!(NerdFont::from_name("FiraCode"), NerdFont::FiraCodeNerdFontMono);
    assert_eq!(NerdFont::from_name("FiraCode Nerd Font Mono"), NerdFont::FiraCodeNerdFontMono);
    assert_eq!(NerdFont::from_name("JetBrains"), NerdFont::JetBrainsMono);
    assert_eq!(NerdFont::from_name("JetBrainsMono"), NerdFont::JetBrainsMono);
    assert_eq!(NerdFont::from_name("Cascadia"), NerdFont::CascaydiaCove);
    assert_eq!(NerdFont::from_name("CascaydiaCove"), NerdFont::CascaydiaCove);
    assert_eq!(NerdFont::from_name("SF"), NerdFont::Hack);
    assert_eq!(NerdFont::from_name("Hack"), NerdFont::Hack);
    assert_eq!(NerdFont::from_name("hack"), NerdFont::FiraCodeNerdFontMono);
    assert_eq!(NerdFont::from_name(""), NerdFont::FiraCodeNerdFontMono);
    assert_eq!(NerdFont::from("Cascadia"), NerdFont::CascaydiaCove);
    assert_eq!(NerdFont::from("unknown"), NerdFont::FiraCodeNerdFontMono);
}

#[test]
fn font_errors_carry_their_cause() {
    let utf8 = FontLoadError::InvalidUtf8("CODESKEW_FONT");
    assert!(matches!(utf8, FontLoadError::InvalidUtf8("CODESKEW_FONT")));
    let io = FontLoadError::Io(
        std::path::PathBuf::from("/fonts/none.ttf"),
        std::io::Error::new(std::io::ErrorKind::NotFound, "gone"),
    );
    match io {
        FontLoadError::Io(path, cause) => {
            assert_eq!(path, std::path::PathBuf::from("/fonts/none.ttf"));
            assert_eq!(cause.kind(), std::io::ErrorKind::NotFound);
        }
        FontLoadError::InvalidUtf8(_) => panic!("expected an I/O error"),
    }
}

#[test]
fn system_font_is_the_first_candidate_that_is_present() {
    assert_eq!(
        system_monospace_candidates(Platform::Linux),
        vec![
            "/usr/share/fonts/truetype/dejavu/DejaVuSansMono.ttf",
            "/usr/share/fonts/TTF/DejaVuSansMono.ttf"
        ]
    );
    assert_eq!(
        suggest_system_monospace(Platform::Linux, true, true),
        Some("/usr/share/fonts/truetype/dejavu/DejaVuSansMono.ttf")
    );
    assert_eq!(
        suggest_system_monospace(Platform::Linux, false, true),
        Some("/usr/share/fonts/TTF/DejaVuSansMono.ttf")
    );
    assert_eq!(suggest_system_monospace(Platform::Linux, false, false), None);
    assert_eq!(
        suggest_system_monospace(Platform::MacOs, true, false),
        Some("/System/Library/Fonts/Monaco.ttf")
    );
    assert_eq!(
        suggest_system_monospace(Platform::MacOs, false, true),
        Some("/System/Library/Fonts/Menlo.ttc")
    );
    assert_eq!(
        suggest_system_monospace(Platform::Windows, true, true),
        Some("C:/Windows/Fonts/consola.ttf")
    );
    assert_eq!(
        suggest_system_monospace(Platform::Windows, false, true),
        Some("C:/Windows/Fonts/lucon.ttf")
    );
    assert_eq!(suggest_system_monospace(Platform::Other, true, true), None);
    assert!(system_monospace_candidates(Platform::Other).is_empty());
}

#[test]
fn texture_addresses_are_resolved_against_the_base() {
    assert_eq!(construct_texture_url("http://x.org/a.png"), "http://x.org/a.png");
    assert_eq!(construct_texture_url("https://x.org/a.png"), "https://x.org/a.png");
    assert_eq!(construct_texture_url("textures/a.png"), "https://compute.toys/textures/a.png");
    assert_eq!(construct_texture_url("htt"), "https://compute.toys/htt");
    assert_eq!(construct_texture_url(""), "https://compute.toys/");
    assert_eq!(construct_metadata_path("shader.wgsl"), "shader.wgsl.json");
    assert_eq!(construct_metadata_path(""), ".json");
}

#[test]
fn styled_line_is_flattened_span_by_span() {
    let style = |r: u8| SpanStyle {
        foreground: (r, 2, 3),
        background: (0, 0, 0),
        is_bold: false,
        is_italic: false,
        is_underline: false,
    };
    let line = StyledLine {
        spans: vec![
            StyledSpan { text: "fn".to_string(), start: 0, end: 2, style: style(10) },
            StyledSpan { text: String::new(), start: 2, end: 2, style: style(20) },
            StyledSpan { text: " \u{e9}".to_string(), start: 2, end: 5, style: style(30) },
        ],
        line_number: 1,
    };
    let chars = styled_chars(&line);
    let flat: Vec<(char, u8, u8, u8)> =
        chars.iter().map(|c| (c.char, c.color.r, c.color.g, c.color.b)).collect();
    assert_eq!(
        flat,
        vec![('f', 10, 2, 3), ('n', 10, 2, 3), (' ', 30, 2, 3), ('\u{e9}', 30, 2, 3)]
    );
}

#[test]
fn tables_keep_the_order_of_their_arrival() {
    let mut tables = UserData::new();
    assert_eq!(tables.len(), 0);
    assert!(!tables.contains("a"));
    tables.add("b".to_string(), vec![1]);
    tables.add("a".to_string(), vec![2, 3]);
    tables.add("b".to_string(), vec![4]);
    tables.add("c".to_string(), Vec::new());
    assert_eq!(tables.len(), 3);
    assert!(tables.contains("a"));
    assert!(!tables.contains("d"));
    assert_eq!(tables.name_at(0), Some("b".to_string()));
    assert_eq!(tables.values_at(0), Some(vec![1, 4]));
    assert_eq!(tables.size_at(0), Some(2));
    assert_eq!(tables.name_at(1), Some("a".to_string()));
    assert_eq!(tables.values_at(1), Some(vec![2, 3]));
    assert_eq!(tables.name_at(2), Some("c".to_string()));
    assert_eq!(tables.size_at(2), Some(0));
    assert_eq!(tables.name_at(3), None);
    assert_eq!(tables.values_at(3), None);
    assert_eq!(tables.size_at(3), None);
}

#[test]
fn sticker_is_a_square_and_moves() {
    assert_eq!(output_size(false, 1200, 800), (1200, 800));
    assert_eq!(output_size(true, 1200, 800), (512, 512));
    assert!(animated(false, true));
    assert!(animated(true, false));
    assert!(!animated(false, false));
}

fn span(text: &str) -> StyledSpan {
    StyledSpan {
        text: text.to_string(),
        start: 0,
        end: text.len(),
        style: SpanStyle {
            foreground: (0, 0, 0),
            background: (0, 0, 0),
            is_bold: false,
            is_italic: false,
            is_underline: false,
        },
    }
}

#[test]
fn blank_lines_hold_whitespace_only() {
    let line = |texts: &[&str]| StyledLine {
        spans: texts.iter().map(|t| span(t)).collect(),
        line_number: 1,
    };
    assert!(line(&[]).is_blank());
    assert!(!line(&[]).has_text());
    assert!(line(&["", " \t", "\u{a0}\u{3000}"]).is_blank());
    assert!(!line(&[" ", " x "]).is_blank());
    assert!(line(&[" ", " x "]).has_text());
    for texts in [vec![""], vec![" a"], vec!["\u{200b}"], vec![" ", "\n"], vec!["\u{85}", "."]] {
        let expected = texts.iter().all(|t| t.trim().is_empty());
        assert_eq!(line(&texts).is_blank(), expected, "for {texts:?}");
    }
}

#[test]
fn line_length_counts_bytes() {
    let line = StyledLine {
        spans: vec![span("fn"), span(""), span(" \u{e9}\u{1F600}")],
        line_number: 3,
    };
    assert_eq!(line.byte_length(), Some(2 + 0 + 1 + 2 + 4));
    assert_eq!(StyledLine { spans: Vec::new(), line_number: 1 }.byte_length(), Some(0));
}

#[test]
fn rows_are_padded_to_the_alignment() {
    assert_eq!(padded_bytes_per_row(0, 4), Some(0));
    assert_eq!(padded_bytes_per_row(1, 4), Some(256));
    assert_eq!(padded_bytes_per_row(64, 4), Some(256));
    assert_eq!(padded_bytes_per_row(65, 4), Some(512));
    assert_eq!(padded_bytes_per_row(1200, 4), Some(4864));
    assert_eq!(padded_bytes_per_row(1200, 8), Some(9728));
    assert_eq!(padded_bytes_per_row(1073741760, 4), Some(4294967040));
    assert_eq!(padded_bytes_per_row(1073741761, 4), None);
    assert_eq!(padded_bytes_per_row(4294967295, 4294967295), None);
    for width in [3u32, 100, 255, 256, 257, 5000] {
        assert_eq!(padded_bytes_per_row(width, 1), Some(width.next_multiple_of(256)));
    }
}

#[test]
fn padding_is_removed_row_by_row() {
    let data: Vec<u8> = (0..20).collect();
    assert_eq!(unpad_rows(&data, 3, 8, 2), Some(vec![0, 1, 2, 8, 9, 10]));
    assert_eq!(unpad_rows(&data, 4, 8, 3), Some(vec![0, 1, 2, 3, 8, 9, 10, 11, 16, 17, 18, 19]));
    assert_eq!(unpad_rows(&data, 5, 8, 3), None);
    assert_eq!(unpad_rows(&data, 8, 8, 2), Some((0..16).collect()));
    assert_eq!(unpad_rows(&data, 9, 8, 1), None);
    assert_eq!(unpad_rows(&data, 0, 0, 7), Some(Vec::new()));
    assert_eq!(unpad_rows(&data, 20, 20, 1), Some(data.clone()));
    assert_eq!(unpad_rows(&data, 21, 21, 1), None);
    assert_eq!(unpad_rows(&data, 9, 8, 0), Some(Vec::new()));
    assert_eq!(unpad_rows(&data, 1, usize::MAX, 3), None);
    assert_eq!(unpad_rows(&[], 0, 5, 1), Some(Vec::new()));
}
