use coffee_break::text::{
    chars_of, decimal_text, has_prefix, has_substring, is_whitespace, repeat, replace_char,
    same_texts, skip_chars, text_of, trim,
};

#[test]
fn white_space_is_what_the_standard_library_calls_white_space() {
    let mut code: u32 = 0;
    while code <= 0x10FFFF {
        if let Some(c) = char::from_u32(code) {
            assert_eq!(is_whitespace(c), c.is_whitespace(), "U+{:04X}", code);
        }
        code += 1;
    }
}

#[test]
fn trim_takes_white_space_from_both_ends() {
    assert_eq!(trim("  mem \n"), "mem");
    assert_eq!(trim("\t rm  -rf  x\r\n"), "rm  -rf  x");
    assert_eq!(trim(""), "");
    assert_eq!(trim(" \u{3000}\u{a0} "), "");
    assert_eq!(trim("y"), "y");
    assert_eq!(trim("\u{2615} a \u{2615}"), "\u{2615} a \u{2615}");
}

#[test]
fn trim_agrees_with_the_standard_library() {
    let samples = [
        "", " ", "a", " a", "a ", " a b ", "\n\n", "\u{85}x\u{2028}", "x\u{200b}", "  remember  x  ",
        "\u{1680}\u{2000}q\u{205f}",
    ];
    for s in samples {
        assert_eq!(trim(s), s.trim());
    }
}

#[test]
fn decimal_text_writes_numerals() {
    assert_eq!(decimal_text(0), "0");
    assert_eq!(decimal_text(7), "7");
    assert_eq!(decimal_text(10), "10");
    assert_eq!(decimal_text(60), "60");
    assert_eq!(decimal_text(1234567890), "1234567890");
    assert_eq!(decimal_text(u64::MAX), "18446744073709551615");
}

#[test]
fn prefixes_and_substrings_are_found() {
    assert!(has_prefix("rm -rf x", "rm "));
    assert!(!has_prefix("rmdir x", "rm "));
    assert!(!has_prefix("rm", "rm "));
    assert!(has_prefix("anything", ""));
    assert!(has_substring("sudo rm x", " rm "));
    assert!(!has_substring("sudo rm", " rm "));
    assert!(!has_substring("farm x", " rm "));
    assert!(has_substring("", ""));
    assert!(has_substring("abc", "c"));
    assert!(!has_substring("ab", "abc"));
}

#[test]
fn repeat_and_replace_build_texts() {
    assert_eq!(repeat("  ", 0), "");
    assert_eq!(repeat("  ", 3), "      ");
    assert_eq!(repeat("=", 5), "=====");
    assert_eq!(replace_char("say \"hi\"", '"', "`\""), "say `\"hi`\"");
    assert_eq!(replace_char("C:\\a b\\c", '\\', "/"), "C:/a b/c");
    assert_eq!(replace_char("a b  c", ' ', "%20"), "a%20b%20%20c");
    assert_eq!(replace_char("", 'x', "y"), "");
}

#[test]
fn texts_are_cut_and_joined_by_characters() {
    let v = chars_of("a\u{2615}bc");
    assert_eq!(v, vec!['a', '\u{2615}', 'b', 'c']);
    assert_eq!(text_of(&v, 1, 3), "\u{2615}b");
    assert_eq!(text_of(&v, 2, 2), "");
    assert_eq!(skip_chars("remember \u{2615} beans", 9), "\u{2615} beans");
}

#[test]
fn lists_of_texts_are_compared_item_by_item() {
    let a = vec!["x".to_string(), "y".to_string()];
    assert!(same_texts(&a, &a.clone()));
    assert!(!same_texts(&a, &vec!["x".to_string()]));
    assert!(!same_texts(&a, &vec!["x".to_string(), "z".to_string()]));
    assert!(same_texts(&vec![], &vec![]));
}
