use pdx_syntax::result::{Error, SyntaxError, SyntaxErrorKind};
use pdx_syntax::text::{
    char_in_class, collect_string, push_decimal, read_byte, scan_run, scan_run_within,
    scan_trim_end, to_chars, CharClass,
};

fn chars(s: &str) -> Vec<char> {
    s.chars().collect()
}

#[test]
fn whitespace_class() {
    for c in [' ', '\t', '\n', '\r', '\u{b}', '\u{c}'] {
        assert!(char_in_class(c, CharClass::Space));
        assert!(!char_in_class(c, CharClass::Word));
        assert!(!char_in_class(c, CharClass::Name));
    }
    assert!(!char_in_class('a', CharClass::Space));
    assert!(!char_in_class('\u{a0}', CharClass::Space));
}

#[test]
fn word_and_name_classes() {
    for c in ['"', '{', '}', '=', '?', '<', '>'] {
        assert!(!char_in_class(c, CharClass::Word));
        assert!(!char_in_class(c, CharClass::Name));
    }
    for c in ['a', 'Z', '0', '_', '.', '-', '@', '#', '!', 'é'] {
        assert!(char_in_class(c, CharClass::Word));
        assert!(char_in_class(c, CharClass::Name));
    }
    assert!(char_in_class(':', CharClass::Word));
    assert!(!char_in_class(':', CharClass::Name));
}

#[test]
fn digit_quoted_and_line_classes() {
    assert!(char_in_class('0', CharClass::Digit));
    assert!(char_in_class('9', CharClass::Digit));
    assert!(!char_in_class('/', CharClass::Digit));
    assert!(!char_in_class(':', CharClass::Digit));
    assert!(!char_in_class('٣', CharClass::Digit));
    assert!(char_in_class('\n', CharClass::Quoted));
    assert!(!char_in_class('"', CharClass::Quoted));
    assert!(char_in_class('"', CharClass::Line));
    assert!(!char_in_class('\n', CharClass::Line));
}

#[test]
fn runs_are_maximal() {
    let text = chars("  abc=12 \n x");
    assert_eq!(scan_run(&text, 0, CharClass::Space), 2);
    assert_eq!(scan_run(&text, 2, CharClass::Word), 5);
    assert_eq!(scan_run(&text, 2, CharClass::Space), 2);
    assert_eq!(scan_run(&text, 6, CharClass::Digit), 8);
    assert_eq!(scan_run(&text, 8, CharClass::Space), 11);
    assert_eq!(scan_run(&text, 0, CharClass::Line), 9);
    assert_eq!(scan_run(&text, 10, CharClass::Line), 12);
    assert_eq!(scan_run(&text, 12, CharClass::Line), 12);
    assert_eq!(scan_run_within(&text, 8, 9, CharClass::Space), 9);
    assert_eq!(scan_run_within(&text, 2, 4, CharClass::Word), 4);
}

#[test]
fn trailing_whitespace_is_found() {
    let text = chars("ab \t c  \r");
    assert_eq!(scan_trim_end(&text, 0, 9), 6);
    assert_eq!(scan_trim_end(&text, 0, 4), 2);
    assert_eq!(scan_trim_end(&text, 2, 4), 2);
    assert_eq!(scan_trim_end(&text, 0, 0), 0);
}

#[test]
fn strings_and_buffers_convert() {
    let text = to_chars("héllo wörld");
    assert_eq!(text, chars("héllo wörld"));
    assert_eq!(collect_string(&text, 0, 5), "héllo");
    assert_eq!(collect_string(&text, 6, 11), "wörld");
    assert_eq!(collect_string(&text, 3, 3), "");
}

#[test]
fn decimal_of_numbers() {
    for (n, expected) in [
        (0usize, "0"),
        (7, "7"),
        (10, "10"),
        (255, "255"),
        (1000, "1000"),
        (9876543210, "9876543210"),
    ] {
        let mut out = String::from("n=");
        push_decimal(&mut out, n);
        assert_eq!(out, format!("n={}", expected));
    }
    let mut out = String::new();
    push_decimal(&mut out, usize::MAX);
    assert_eq!(out, format!("{}", usize::MAX));
}

#[test]
fn digits_that_fit_in_a_byte() {
    let text = chars("0 255 256 0042 1000000000000000000000000 ");
    assert_eq!(read_byte(&text, 0, 1), Some(0));
    assert_eq!(read_byte(&text, 2, 5), Some(255));
    assert_eq!(read_byte(&text, 6, 9), None);
    assert_eq!(read_byte(&text, 10, 14), Some(42));
    assert_eq!(read_byte(&text, 15, 40), None);
    assert_eq!(read_byte(&text, 3, 3), Some(0));
}

#[test]
fn violation_messages() {
    let cases = [
        (
            SyntaxErrorKind::UnterminatedString,
            "quoted literal is never closed, at offset 12",
        ),
        (
            SyntaxErrorKind::StrayQuestionMark,
            "`?` is not followed by `=`, at offset 12",
        ),
        (
            SyntaxErrorKind::ExpectedValue,
            "a value is expected, at offset 12",
        ),
        (
            SyntaxErrorKind::UnclosedBlock,
            "`{` is never closed, at offset 12",
        ),
        (
            SyntaxErrorKind::UnmatchedClose,
            "`}` closes nothing, at offset 12",
        ),
        (
            SyntaxErrorKind::NestingTooDeep,
            "blocks are nested too deep, at offset 12",
        ),
        (
            SyntaxErrorKind::MissingLanguage,
            "the language line is missing, at offset 12",
        ),
        (
            SyntaxErrorKind::InvalidLanguage,
            "the language line is malformed, at offset 12",
        ),
        (
            SyntaxErrorKind::InvalidKey,
            "a line does not start with a name and `:`, at offset 12",
        ),
        (
            SyntaxErrorKind::TagOutOfRange,
            "the number after `:` is above 255, at offset 12",
        ),
        (
            SyntaxErrorKind::InvalidValue,
            "the value is not a quoted literal, at offset 12",
        ),
    ];
    for (kind, expected) in cases {
        let violation = SyntaxError { kind, position: 12 };
        assert_eq!(violation.message(), expected);
        match violation.into_error() {
            Error::ParseError(m) => assert_eq!(m, expected),
            other => panic!("expected a parse error, got {:?}", other),
        }
    }
}

#[test]
fn error_messages_name_the_kind() {
    let parse = Error::ParseError("bad".to_string());
    assert_eq!(parse.message(), "ParseError: bad");
    let io = Error::IoError(std::io::Error::new(std::io::ErrorKind::NotFound, "gone"));
    assert_eq!(io.message(), "IoError: gone");
}
