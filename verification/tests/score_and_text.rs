use semantic_file_finder::score::{is_nan_score, score_less_than, NEG_INF_KEY, NEG_ZERO_KEY, POS_INF_KEY};
use semantic_file_finder::text::{any_type_accepts, entry_accepts, first_chars, is_white_space_char, starts_with, trim};

/// The IEEE-754 total-order key of an `f32`, as the application computes it.
fn key(f: f32) -> i32 {
    let b = f.to_bits() as i32;
    if b < 0 {
        b ^ 0x7fff_ffff
    } else {
        b
    }
}

#[test]
fn keys_of_special_values() {
    assert_eq!(key(f32::INFINITY), POS_INF_KEY);
    assert_eq!(key(f32::NEG_INFINITY), NEG_INF_KEY);
    assert_eq!(key(-0.0), NEG_ZERO_KEY);
    assert_eq!(key(0.0), 0);
    assert!(is_nan_score(key(f32::NAN)));
    assert!(is_nan_score(key(-f32::NAN)));
    assert!(!is_nan_score(key(1.5)));
}

#[test]
fn key_comparison_matches_float_comparison() {
    let values = [
        f32::NEG_INFINITY, -3.5, -1.0, -0.0, 0.0, 1e-30, 0.25, 0.5, 0.75, 1.0, 1e30, f32::INFINITY, f32::NAN,
    ];
    for &a in values.iter() {
        for &b in values.iter() {
            assert_eq!(score_less_than(key(a), key(b)), a < b, "{} < {}", a, b);
        }
    }
}

#[test]
fn zero_signs_are_equal_scores() {
    assert!(!score_less_than(key(-0.0), key(0.0)));
    assert!(!score_less_than(key(0.0), key(-0.0)));
}

#[test]
fn prefix_check() {
    assert!(starts_with("/home/user/docs/a.txt", "/home/user"));
    assert!(starts_with("abc", ""));
    assert!(!starts_with("/home", "/home/user"));
    assert!(!starts_with("/srv/data", "/home"));
    assert!(starts_with("目录/文件.txt", "目录"));
}

#[test]
fn first_chars_counts_characters() {
    assert_eq!(first_chars("hello", 3), "hel");
    assert_eq!(first_chars("hi", 200), "hi");
    assert_eq!(first_chars("语义文件", 2), "语义");
    let long: String = std::iter::repeat('x').take(250).collect();
    assert_eq!(first_chars(&long, 200).chars().count(), 200);
}

#[test]
fn entry_accepts_trims_lowercases_and_ignores_the_dot() {
    assert!(entry_accepts(".txt", "txt"));
    assert!(entry_accepts("txt", "txt"));
    assert!(entry_accepts("  .TXT\t", "txt"));
    assert!(entry_accepts("PDF", "pdf"));
    assert!(!entry_accepts(".md", "txt"));
    assert!(!entry_accepts("..txt", "txt"));
}

#[test]
fn any_type_accepts_needs_one_match() {
    let types = vec![".md".to_string(), " Docx ".to_string()];
    assert!(any_type_accepts(&types, "docx"));
    assert!(any_type_accepts(&types, "md"));
    assert!(!any_type_accepts(&types, "txt"));
    assert!(!any_type_accepts(&Vec::new(), "txt"));
}

#[test]
fn trim_removes_unicode_white_space_at_both_ends() {
    assert_eq!(trim("  a b \t\n"), "a b");
    assert_eq!(trim("\u{3000}\u{a0}x\u{2028}"), "x");
    assert_eq!(trim(" \t "), "");
    assert_eq!(trim(""), "");
    assert_eq!(trim("abc"), "abc");
    for t in ["  .TXT\t", "\u{85}x\u{205f}", "\u{200b}y", " z\u{180e}"] {
        assert_eq!(trim(t), t.trim());
    }
    for c in ['\u{0}', 'a', ' ', '\t', '\u{85}', '\u{a0}', '\u{1680}', '\u{2000}', '\u{200a}', '\u{200b}', '\u{2028}', '\u{202f}', '\u{205f}', '\u{3000}', '\u{feff}', '\u{180e}'] {
        assert_eq!(is_white_space_char(c), c.is_whitespace(), "{:?}", c);
    }
}
