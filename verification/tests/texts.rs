use my_agent::number::{
    decimal_text, hex16, number_trouble_text, parse_u32, parse_u64, parse_up_to, parse_usize,
    signed_text,
};
use my_agent::order::is_text_before;
use my_agent::path::{
    file_name, file_stem, is_absolute, join_path, lies_within, parent, split_char, with_file_name,
};
use my_agent::text::{
    chars_of, contains, find_from, is_ascii_alphanumeric, is_blank, is_control, is_whitespace,
    join, matches_at, same_text, slice_text, split_lines, split_whitespace, starts_with,
    strip_prefix, text_of, to_ascii_lowercase, to_ascii_lowercase_char, trim_start_matches,
    trimmed, trimmed_end, trimmed_start,
};

const SAMPLES: [&str; 22] = [
    "",
    " ",
    "a",
    "  a  ",
    "\t你好\u{3000}",
    "a\nb",
    "a\r\nb\r\n",
    "a\rb\r",
    "\n\n",
    "\r\n",
    "x\n\r\n",
    "Rust 项目 偏好",
    "a b  c\td\u{a0}e",
    "\u{2028}x\u{2029}",
    "\u{85}y\u{1680}",
    "ABCxyzÄ",
    "////a//b",
    "aaa",
    "abab",
    "\u{200b}z",
    "🦀 crab",
    "--force",
];

#[test]
fn whitespace_and_control_agree_with_the_standard_library_on_every_character() {
    for code in 0..=0x10ffffu32 {
        if let Some(c) = char::from_u32(code) {
            assert_eq!(is_whitespace(c), c.is_whitespace(), "{code:x}");
            assert_eq!(is_control(c), c.is_control(), "{code:x}");
            assert_eq!(is_ascii_alphanumeric(c), c.is_ascii_alphanumeric(), "{code:x}");
            assert_eq!(to_ascii_lowercase_char(c), c.to_ascii_lowercase(), "{code:x}");
        }
    }
}

#[test]
fn trimming_and_splitting_agree_with_the_standard_library() {
    for sample in SAMPLES {
        assert_eq!(trimmed(sample), sample.trim());
        assert_eq!(trimmed_start(sample), sample.trim_start());
        assert_eq!(trimmed_end(sample), sample.trim_end());
        assert_eq!(trim_start_matches(sample, '/'), sample.trim_start_matches('/'));
        assert_eq!(is_blank(sample), sample.trim().is_empty());
        assert_eq!(split_lines(sample), sample.lines().collect::<Vec<&str>>());
        assert_eq!(split_whitespace(sample), sample.split_whitespace().collect::<Vec<&str>>());
        assert_eq!(split_char(sample, 'b'), sample.split('b').collect::<Vec<&str>>());
        assert_eq!(to_ascii_lowercase(sample), sample.to_ascii_lowercase());
        assert_eq!(text_of(&chars_of(sample)), sample);
    }
}

#[test]
fn searching_agrees_with_the_standard_library() {
    for sample in SAMPLES {
        for needle in SAMPLES {
            assert_eq!(contains(sample, needle), sample.contains(needle));
            assert_eq!(starts_with(sample, needle), sample.starts_with(needle));
            assert_eq!(strip_prefix(sample, needle).as_deref(), sample.strip_prefix(needle));
            assert_eq!(same_text(sample, needle), sample == needle);
            assert_eq!(is_text_before(sample, needle), sample < needle);
        }
    }
    let chars = chars_of("abcab");
    let needle = chars_of("ab");
    assert_eq!(find_from(&chars, &needle, 1), Some(3));
    assert_eq!(find_from(&chars, &needle, 4), None);
    assert!(matches_at(&chars, &needle, 3));
    assert!(!matches_at(&chars, &needle, 4));
    assert_eq!(slice_text(&chars, 1, 4), "bca");
}

#[test]
fn joining_puts_the_separator_between_the_parts() {
    let parts = vec!["a".to_owned(), String::new(), "c".to_owned()];
    assert_eq!(join(&parts, ", "), parts.join(", "));
    assert_eq!(join(&Vec::new(), ", "), "");
}

#[test]
fn numbers_are_written_as_the_standard_library_writes_them() {
    for n in [0u128, 1, 9, 10, 99, 100, 12345, u64::MAX as u128, u128::MAX] {
        assert_eq!(decimal_text(n), n.to_string());
    }
    for n in [0i64, -1, 1, i64::MIN, i64::MAX, -32800] {
        assert_eq!(signed_text(n), n.to_string());
    }
    for n in [0u64, 15, 16, 0xcbf2_9ce4_8422_2325, u64::MAX] {
        assert_eq!(hex16(n), format!("{n:016x}"));
    }
}

#[test]
fn numbers_are_read_as_the_standard_library_reads_them() {
    for text in [
        "", "+", "-", "0", "+7", "-1", "007", "1a", " 1", "１", "4294967295", "4294967296",
        "18446744073709551615", "18446744073709551616", "+18446744073709551616x", "++1",
    ] {
        assert_eq!(parse_u32(text), text.parse::<u32>().ok(), "{text}");
        assert_eq!(parse_u64(text), text.parse::<u64>().ok(), "{text}");
        assert_eq!(parse_usize(text), text.parse::<usize>().ok(), "{text}");
        assert_eq!(
            number_trouble_text(text, u64::MAX).map(str::to_owned),
            text.parse::<u64>().err().map(|error| error.to_string()),
            "{text}"
        );
        assert_eq!(
            number_trouble_text(text, u32::MAX as u64).map(str::to_owned),
            text.parse::<u32>().err().map(|error| error.to_string()),
            "{text}"
        );
    }
    assert_eq!(parse_up_to("100", 100), Some(100));
    assert_eq!(parse_up_to("101", 100), None);
}

#[test]
fn paths_are_taken_apart_as_the_standard_library_does() {
    for sample in [
        "", "/", "a", "a/", "/a", "/a/b", "a/b.md", "a/.hidden", "a/b.tar.gz", "..", "a/..",
        "/a//b/", "./a", "a/.", "/.", "/a/./b", "name.", ".x.y",
    ] {
        let path = std::path::Path::new(sample);
        let text = |part: &std::path::Path| part.to_str().unwrap().to_owned();
        assert_eq!(is_absolute(sample), path.is_absolute(), "{sample}");
        assert_eq!(
            file_name(sample).as_deref(),
            path.file_name().map(|name| name.to_str().unwrap()),
            "{sample}"
        );
        assert_eq!(
            file_stem(sample).as_deref(),
            path.file_stem().map(|name| name.to_str().unwrap()),
            "{sample}"
        );
        assert_eq!(parent(sample), path.parent().map(text), "{sample}");
        for other in ["", "x", "/x", "x/y", "./x"] {
            assert_eq!(join_path(sample, other), text(&path.join(other)), "{sample} {other}");
        }
        assert_eq!(with_file_name(sample, "new.md"), text(&path.with_file_name("new.md")), "{sample}");
    }
}

#[test]
fn a_path_lies_within_its_own_directories_only() {
    for (path, directory) in [
        ("/a/b", "/a"), ("/a/b", "/a/b"), ("/ab", "/a"), ("/a/b", "/"), ("/a", "/a/b"),
        ("/a/b/../c", "/a/b"),
    ] {
        assert_eq!(
            lies_within(path, directory),
            std::path::Path::new(path).starts_with(directory),
            "{path} {directory}"
        );
    }
}
