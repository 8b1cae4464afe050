use pdx_syntax::localization::types::{Entry, Loc, LocList};
use pdx_syntax::localization::parse_localization;
use pdx_syntax::result::Error;

fn entry(key: &str, num: Option<u8>, value: &str) -> Entry {
    Entry {
        key: key.to_string(),
        num,
        value: value.to_string(),
    }
}

fn parse_error(text: &str) -> String {
    match parse_localization(text) {
        Err(Error::ParseError(m)) => m,
        other => panic!("expected a parse error, got {:?}", other),
    }
}

#[test]
fn language_and_one_entry() {
    let list = parse_localization("l_english:\n  KEY:0 \"Text\"\n").unwrap();
    assert_eq!(
        list,
        LocList {
            lang: Loc("l_english".to_string()),
            entries: vec![entry("KEY", Some(0), "\"Text\"")],
        }
    );
}

#[test]
fn number_is_optional() {
    let list = parse_localization("l_french:\nA: \"a\"\nB:\"b\"\nC:12\"c\"\nD:255   \"d\"").unwrap();
    assert_eq!(*list.lang, "l_french");
    assert_eq!(
        list.entries,
        vec![
            entry("A", None, "\"a\""),
            entry("B", None, "\"b\""),
            entry("C", Some(12), "\"c\""),
            entry("D", Some(255), "\"d\""),
        ]
    );
}

#[test]
fn longest_digit_run_is_the_number() {
    let list = parse_localization("l_english:\n K:007 \"7 \"up\"\" \r\n").unwrap();
    assert_eq!(list.entries, vec![entry("K", Some(7), "\"7 \"up\"\"")]);
}

#[test]
fn blank_lines_are_skipped() {
    let list = parse_localization("\n \t\r\n  l_german:  \r\n\n a.b:1 \"x\"\n\n\n c_d: \"y\"").unwrap();
    assert_eq!(
        list,
        LocList {
            lang: Loc("l_german".to_string()),
            entries: vec![entry("a.b", Some(1), "\"x\""), entry("c_d", None, "\"y\"")],
        }
    );
}

#[test]
fn language_alone_is_a_file_without_entries() {
    let list = parse_localization("l_english:").unwrap();
    assert_eq!(
        list,
        LocList {
            lang: Loc("l_english".to_string()),
            entries: vec![],
        }
    );
}

#[test]
fn missing_language_is_rejected() {
    assert_eq!(parse_error(""), "the language line is missing, at offset 0");
    assert_eq!(
        parse_error("\n  \n"),
        "the language line is missing, at offset 4"
    );
}

#[test]
fn malformed_language_is_rejected() {
    assert_eq!(
        parse_error("\nl_english\n"),
        "the language line is malformed, at offset 1"
    );
    assert_eq!(
        parse_error("l_english: x"),
        "the language line is malformed, at offset 0"
    );
    assert_eq!(
        parse_error(":"),
        "the language line is malformed, at offset 0"
    );
    assert_eq!(
        parse_error("KEY:0 \"Text\""),
        "the language line is malformed, at offset 0"
    );
}

#[test]
fn malformed_key_is_rejected() {
    assert_eq!(
        parse_error("l_english:\nKEY \"Text\""),
        "a line does not start with a name and `:`, at offset 11"
    );
    assert_eq!(
        parse_error("l_english:\n:0 \"Text\""),
        "a line does not start with a name and `:`, at offset 11"
    );
    assert_eq!(
        parse_error("l_english:\nK EY:0 \"Text\""),
        "a line does not start with a name and `:`, at offset 11"
    );
}

#[test]
fn number_above_a_byte_is_rejected() {
    assert_eq!(
        parse_error("l_english:\nA:1 \"a\"\nB:256 \"b\""),
        "the number after `:` is above 255, at offset 19"
    );
    assert_eq!(
        parse_error("l_english:\nB:99999999999999999999999999 \"b\""),
        "the number after `:` is above 255, at offset 11"
    );
}

#[test]
fn unquoted_value_is_rejected() {
    assert_eq!(
        parse_error("l_english:\nA:1 a"),
        "the value is not a quoted literal, at offset 11"
    );
    assert_eq!(
        parse_error("l_english:\nA:1 \"a"),
        "the value is not a quoted literal, at offset 11"
    );
    assert_eq!(
        parse_error("l_english:\nA:1 \""),
        "the value is not a quoted literal, at offset 11"
    );
    assert_eq!(
        parse_error("l_english:\nA:1"),
        "the value is not a quoted literal, at offset 11"
    );
    assert_eq!(
        parse_error("l_english:\nA:1 \"a\" # note"),
        "the value is not a quoted literal, at offset 11"
    );
}

#[test]
fn tagged_and_untagged_entries_render_differently() {
    assert_eq!(entry("KEY", Some(0), "\"Text\"").render(), "KEY:0 \"Text\"");
    assert_eq!(entry("KEY", None, "\"Text\"").render(), "KEY: \"Text\"");
    assert_eq!(entry("K", Some(255), "\"\"").render(), "K:255 \"\"");
    assert_eq!(entry("K", Some(10), "\"\"").render(), "K:10 \"\"");
}

#[test]
fn file_renders_language_then_entries() {
    let list = LocList {
        lang: Loc("l_english".to_string()),
        entries: vec![
            entry("A", Some(0), "\"first\""),
            entry("B", None, "\"second\""),
        ],
    };
    assert_eq!(
        list.render(),
        "l_english:\n  A:0 \"first\"\n  B: \"second\"\n"
    );
    let mut out = String::from("x");
    list.lang.write(&mut out);
    assert_eq!(out, "xl_english:");
}

#[test]
fn rendered_file_is_read_back() {
    let list = LocList {
        lang: Loc("l_english".to_string()),
        entries: vec![
            entry("A", Some(0), "\"first\""),
            entry("B", None, "\"second \"quoted\" text\""),
            entry("C.d-e", Some(200), "\"\""),
        ],
    };
    assert_eq!(parse_localization(&list.render()).unwrap(), list);
}

#[test]
fn parsed_file_round_trips() {
    let text = "\u{feff}l_english:\r\n KEY:0 \"Text\"\r\n\r\n OTHER:  \"More\"  \r\n";
    let list = parse_localization(text).unwrap();
    assert_eq!(*list.lang, "\u{feff}l_english");
    let rendered = list.render();
    assert_eq!(
        rendered,
        "\u{feff}l_english:\n  KEY:0 \"Text\"\n  OTHER: \"More\"\n"
    );
    assert_eq!(parse_localization(&rendered).unwrap(), list);
}

#[test]
fn appended_entry_is_rendered_last() {
    let mut list = parse_localization("l_english:\n  KEY:0 \"Text\"\n").unwrap();
    let before = list.render();
    list.entries.push(Entry {
        key: "test".to_string(),
        num: Some(123),
        value: "\"test\"".to_string(),
    });
    assert_eq!(list.render(), format!("{}  test:123 \"test\"\n", before));
    list.entries.push(entry("last", None, "\"z\""));
    assert_eq!(
        list.render(),
        format!("{}  test:123 \"test\"\n  last: \"z\"\n", before)
    );
    assert_eq!(parse_localization(&list.render()).unwrap(), list);
}
