use asmchart::number::{append_decimal, append_hexadecimal, digit_str, parse_u8};
use asmchart::text::{
    has_word_at, locate_arrow, scan_run, scan_run_back, str_eq, to_chars, trim_str, CharClass,
};

fn chars(s: &str) -> Vec<char> {
    s.chars().collect()
}

#[test]
fn to_chars_gives_each_character() {
    assert_eq!(to_chars("a\u{e9}\u{1f600}z"), vec!['a', '\u{e9}', '\u{1f600}', 'z']);
    assert_eq!(to_chars(""), Vec::<char>::new());
}

#[test]
fn trim_str_agrees_with_std() {
    for s in [
        "",
        " ",
        "a",
        "  a b  ",
        "\t\n\r x \u{b}\u{c}",
        "\u{85}\u{a0}\u{1680}\u{2000}\u{200a}\u{2028}\u{2029}\u{202f}\u{205f}\u{3000}y\u{3000}",
        "\u{200b}z\u{200b}",
        "\u{1f}a\u{1f}",
        " \u{e9} ",
    ] {
        assert_eq!(trim_str(s), s.trim());
    }
}

#[test]
fn whitespace_class_is_the_unicode_property() {
    let mut c = 0u32;
    while c <= 0x10ffff {
        if let Some(ch) = char::from_u32(c) {
            assert_eq!(CharClass::Whitespace.has(ch), ch.is_whitespace());
        }
        c += 1;
    }
}

#[test]
fn classes_hold_what_they_say() {
    assert!(CharClass::Space.has(' '));
    assert!(!CharClass::Space.has('\t'));
    assert!(CharClass::Digit.has('0') && CharClass::Digit.has('9'));
    assert!(CharClass::Digit.has('\u{663}') && CharClass::Digit.has('\u{ff10}'));
    assert!(CharClass::Digit.has('\u{1d7ff}') && CharClass::Digit.has('\u{116e3}'));
    assert!(!CharClass::Digit.has('a') && !CharClass::Digit.has('\u{b2}'));
    assert!(!CharClass::Digit.has('\u{2160}') && !CharClass::Digit.has('\u{4e00}'));
    assert!(CharClass::Word.has('_') && CharClass::Word.has('Z') && CharClass::Word.has('5'));
    assert!(!CharClass::Word.has('-') && !CharClass::Word.has('.') && !CharClass::Word.has('\u{e9}'));
    assert!(CharClass::Except(';').has('a'));
    assert!(!CharClass::Except(';').has(';'));
}

#[test]
fn runs_end_at_the_first_outsider() {
    let s = chars("   12ab  ");
    assert_eq!(scan_run(&s, 0, CharClass::Space), 3);
    assert_eq!(scan_run(&s, 3, CharClass::Digit), 5);
    assert_eq!(scan_run(&s, 3, CharClass::Word), 7);
    assert_eq!(scan_run(&s, 5, CharClass::Digit), 5);
    assert_eq!(scan_run(&s, 7, CharClass::Space), 9);
    assert_eq!(scan_run(&s, 9, CharClass::Space), 9);
    assert_eq!(scan_run(&s, 0, CharClass::Except('a')), 5);
    assert_eq!(scan_run_back(&s, 9, CharClass::Space), 7);
    assert_eq!(scan_run_back(&s, 7, CharClass::Space), 7);
    assert_eq!(scan_run_back(&s, 3, CharClass::Space), 0);
    assert_eq!(scan_run_back(&s, 0, CharClass::Space), 0);
}

#[test]
fn arrow_is_found_leftmost() {
    assert_eq!(locate_arrow(&chars("a => b => c")), Some(2));
    assert_eq!(locate_arrow(&chars("=>")), Some(0));
    assert_eq!(locate_arrow(&chars("==>")), Some(1));
    assert_eq!(locate_arrow(&chars("a = > b")), None);
    assert_eq!(locate_arrow(&chars("=")), None);
    assert_eq!(locate_arrow(&chars("")), None);
    assert_eq!(locate_arrow(&chars("a >= b <= c =")), None);
}

#[test]
fn words_are_matched_in_place() {
    let s = chars("input[3:0]");
    assert!(has_word_at(&s, 0, "input"));
    assert!(has_word_at(&s, 2, "put"));
    assert!(has_word_at(&s, 10, ""));
    assert!(!has_word_at(&s, 0, "inout"));
    assert!(!has_word_at(&s, 8, "0]]"));
}

#[test]
fn strings_compare_by_characters() {
    assert!(str_eq("", ""));
    assert!(str_eq("then", "then"));
    assert!(!str_eq("then", "the"));
    assert!(!str_eq("then", "them"));
    assert!(!str_eq("e\u{301}", "\u{e9}"));
}

#[test]
fn decimal_notation() {
    for (n, expected) in [
        (0u32, "0"),
        (7, "7"),
        (10, "10"),
        (255, "255"),
        (1000, "1000"),
        (4294967295, "4294967295"),
    ] {
        let mut out = String::from("x");
        append_decimal(&mut out, n);
        assert_eq!(out, format!("x{}", expected));
    }
}

#[test]
fn hexadecimal_notation() {
    for (n, expected) in [
        (0u32, "0"),
        (9, "9"),
        (10, "a"),
        (15, "f"),
        (16, "10"),
        (255, "ff"),
        (70185981, "42ef3fd"),
        (4294967295, "ffffffff"),
    ] {
        let mut out = String::from("x");
        append_hexadecimal(&mut out, n);
        assert_eq!(out, format!("x{}", expected));
    }
    let mut n = 0u32;
    while n < 5000 {
        let mut out = String::new();
        append_hexadecimal(&mut out, n);
        assert_eq!(out, format!("{:x}", n));
        n += 7;
    }
}

#[test]
fn digits_have_one_character() {
    let expected = "0123456789abcdef";
    for d in 0u8..16 {
        assert_eq!(digit_str(d), &expected[d as usize..d as usize + 1]);
    }
}

#[test]
fn parse_u8_reads_eight_bits() {
    let s = chars("[0255:256:00:99999999999999999999]");
    assert_eq!(parse_u8(&s, 1, 5), Some(255));
    assert_eq!(parse_u8(&s, 6, 9), None);
    assert_eq!(parse_u8(&s, 10, 12), Some(0));
    assert_eq!(parse_u8(&s, 13, 33), None);
    assert_eq!(parse_u8(&s, 2, 4), Some(25));
    assert_eq!(parse_u8(&s, 3, 3), Some(0));
    assert_eq!(parse_u8(&s, 0, 3), None);
    assert_eq!(parse_u8(&s, 4, 7), None);
    let s = chars("1\u{663}2");
    assert_eq!(parse_u8(&s, 0, 1), Some(1));
    assert_eq!(parse_u8(&s, 0, 3), None);
    assert_eq!(parse_u8(&s, 1, 2), None);
}
