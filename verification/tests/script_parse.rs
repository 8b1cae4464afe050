use pdx_syntax::result::Error;
use pdx_syntax::script::lexer::{tokenize, Token};
use pdx_syntax::script::types::{Entry, Key, Unit, Units, Value};
use pdx_syntax::script::{parse_script, parse_script_with_depth, DEFAULT_MAX_DEPTH};

fn ident(s: &str) -> Entry {
    Entry::Ident(s.to_string())
}

fn key(s: &str) -> Key {
    Key(ident(s))
}

fn word(s: &str) -> Value {
    Value::Primitive(ident(s))
}

fn block(units: Vec<Unit>) -> Value {
    Value::Units(Box::new(Units(units)))
}

fn tokens_of(text: &str) -> Vec<Token> {
    let chars: Vec<char> = text.chars().collect();
    tokenize(&chars).unwrap().0
}

fn offsets_of(text: &str) -> Vec<usize> {
    let chars: Vec<char> = text.chars().collect();
    tokenize(&chars).unwrap().1
}

fn parse_error(text: &str) -> String {
    match parse_script(text) {
        Err(Error::ParseError(m)) => m,
        other => panic!("expected a parse error, got {:?}", other),
    }
}

#[test]
fn key_value_pair() {
    let ast = parse_script("A = B").unwrap();
    assert_eq!(ast, Units(vec![Unit::KeyValue(key("A"), word("B"))]));
    assert_eq!(ast.len(), 1);
}

#[test]
fn questioned_nested_block() {
    let ast = parse_script("a ?= { b = c }").unwrap();
    assert_eq!(
        ast,
        Units(vec![Unit::Questioned(
            key("a"),
            block(vec![Unit::KeyValue(key("b"), word("c"))]),
        )])
    );
}

#[test]
fn relation_keeps_operator_text() {
    let ast = parse_script("x > 5").unwrap();
    assert_eq!(
        ast,
        Units(vec![Unit::Relation(key("x"), ">".to_string(), word("5"))])
    );
}

#[test]
fn every_relation_operator() {
    for op in [">", "<", ">=", "<=", "=="] {
        let text = format!("x {} 5", op);
        let ast = parse_script(&text).unwrap();
        assert_eq!(
            ast,
            Units(vec![Unit::Relation(key("x"), op.to_string(), word("5"))])
        );
    }
}

#[test]
fn operator_without_value_is_rejected() {
    assert_eq!(parse_error("{ a = }"), "a value is expected, at offset 6");
}

#[test]
fn unmatched_open_brace_is_rejected() {
    assert_eq!(parse_error("a = { b = c"), "`{` is never closed, at offset 4");
}

#[test]
fn unmatched_close_brace_is_rejected() {
    assert_eq!(parse_error("a = b }"), "`}` closes nothing, at offset 6");
    assert_eq!(parse_error("}"), "`}` closes nothing, at offset 0");
    assert_eq!(
        parse_error("a = { b }\n\n  } c"),
        "`}` closes nothing, at offset 13"
    );
}

#[test]
fn trailing_operator_is_rejected() {
    assert_eq!(parse_error("a ="), "a value is expected, at offset 3");
    assert_eq!(parse_error("a >= "), "a value is expected, at offset 5");
}

#[test]
fn leading_operator_is_rejected() {
    assert_eq!(parse_error("= a"), "a value is expected, at offset 0");
    assert_eq!(parse_error("a = = b"), "a value is expected, at offset 4");
    assert_eq!(
        parse_error("é = \"ü\" x ?= > y"),
        "a value is expected, at offset 13"
    );
}

#[test]
fn unterminated_string_is_rejected() {
    assert_eq!(
        parse_error("a = \"open"),
        "quoted literal is never closed, at offset 4"
    );
}

#[test]
fn lone_question_mark_is_rejected() {
    assert_eq!(
        parse_error("a ? b"),
        "`?` is not followed by `=`, at offset 2"
    );
    assert_eq!(parse_error("a ?"), "`?` is not followed by `=`, at offset 2");
}

#[test]
fn empty_text_is_an_empty_script() {
    assert_eq!(parse_script("").unwrap(), Units(vec![]));
    assert_eq!(parse_script(" \n\t\r\n ").unwrap(), Units(vec![]));
}

#[test]
fn empty_braces_are_the_empty_value() {
    let expected = Units(vec![Unit::KeyValue(key("a"), Value::Empty)]);
    assert_eq!(parse_script("a = {}").unwrap(), expected);
    assert_eq!(parse_script("a = { }").unwrap(), expected);
    assert_eq!(parse_script("a={\n}").unwrap(), expected);
}

#[test]
fn single_values() {
    let ast = parse_script("a \"b c\" {} { d }").unwrap();
    assert_eq!(
        ast,
        Units(vec![
            Unit::SingleValue(word("a")),
            Unit::SingleValue(Value::Primitive(Entry::RawStr("\"b c\"".to_string()))),
            Unit::SingleValue(Value::Empty),
            Unit::SingleValue(block(vec![Unit::SingleValue(word("d"))])),
        ])
    );
}

#[test]
fn entry_before_operator_is_a_key() {
    let ast = parse_script("a b = c d").unwrap();
    assert_eq!(
        ast,
        Units(vec![
            Unit::SingleValue(word("a")),
            Unit::KeyValue(key("b"), word("c")),
            Unit::SingleValue(word("d")),
        ])
    );
}

#[test]
fn quoted_key_and_value_keep_their_quotes() {
    let ast = parse_script("\"k 1\" = \"v = {2}\"").unwrap();
    assert_eq!(
        ast,
        Units(vec![Unit::KeyValue(
            Key(Entry::RawStr("\"k 1\"".to_string())),
            Value::Primitive(Entry::RawStr("\"v = {2}\"".to_string())),
        )])
    );
}

#[test]
fn tokens_need_no_whitespace_between_them() {
    let ast = parse_script("a={b>=1 c?=\"d\"}e").unwrap();
    assert_eq!(
        ast,
        Units(vec![
            Unit::KeyValue(
                key("a"),
                block(vec![
                    Unit::Relation(key("b"), ">=".to_string(), word("1")),
                    Unit::Questioned(
                        key("c"),
                        Value::Primitive(Entry::RawStr("\"d\"".to_string()))
                    ),
                ]),
            ),
            Unit::SingleValue(word("e")),
        ])
    );
}

#[test]
fn longest_operator_wins() {
    assert_eq!(
        tokens_of("a>=b"),
        vec![
            Token::Ident("a".to_string()),
            Token::Relation(">=".to_string()),
            Token::Ident("b".to_string()),
        ]
    );
    assert_eq!(
        tokens_of("== = <= < > ?="),
        vec![
            Token::Relation("==".to_string()),
            Token::Assign,
            Token::Relation("<=".to_string()),
            Token::Relation("<".to_string()),
            Token::Relation(">".to_string()),
            Token::Question,
        ]
    );
    assert_eq!(
        tokens_of("==="),
        vec![Token::Relation("==".to_string()), Token::Assign]
    );
}

#[test]
fn tokens_come_with_their_offsets() {
    assert_eq!(offsets_of(""), Vec::<usize>::new());
    assert_eq!(offsets_of("a"), vec![0]);
    assert_eq!(offsets_of("  ab>=\"c d\"\n{}x"), vec![2, 4, 6, 12, 13, 14]);
    assert_eq!(offsets_of("é = ü"), vec![0, 2, 4]);
}

#[test]
fn words_run_until_a_reserved_character() {
    assert_eq!(
        tokens_of("a.b:c-d_1@x#y{z}\"q\"w"),
        vec![
            Token::Ident("a.b:c-d_1@x#y".to_string()),
            Token::Open,
            Token::Ident("z".to_string()),
            Token::Close,
            Token::RawStr("\"q\"".to_string()),
            Token::Ident("w".to_string()),
        ]
    );
}

#[test]
fn quoted_literal_ends_at_the_next_quote() {
    assert_eq!(
        tokens_of("\"a\\\" b"),
        vec![
            Token::RawStr("\"a\\\"".to_string()),
            Token::Ident("b".to_string()),
        ]
    );
}

#[test]
fn non_ascii_words() {
    let ast = parse_script("名前 = \"値\"").unwrap();
    assert_eq!(
        ast,
        Units(vec![Unit::KeyValue(
            key("名前"),
            Value::Primitive(Entry::RawStr("\"値\"".to_string())),
        )])
    );
}

#[test]
fn nesting_within_the_bound_is_read() {
    let text = "a = { b = { c = d } }";
    assert!(parse_script_with_depth(text, 2).is_ok());
    assert!(parse_script_with_depth("a = {}", 0).is_ok());
    assert!(parse_script_with_depth("a = b", 0).is_ok());
}

#[test]
fn nesting_beyond_the_bound_is_rejected() {
    let text = "a = { b = { c = d } }";
    match parse_script_with_depth(text, 1) {
        Err(Error::ParseError(m)) => {
            assert_eq!(m, "blocks are nested too deep, at offset 10")
        }
        other => panic!("expected a parse error, got {:?}", other),
    }
    match parse_script_with_depth("{ a }", 0) {
        Err(Error::ParseError(m)) => {
            assert_eq!(m, "blocks are nested too deep, at offset 0")
        }
        other => panic!("expected a parse error, got {:?}", other),
    }
}

#[test]
fn default_bound_is_reached_and_not_passed() {
    let mut inside = String::new();
    for _ in 0..DEFAULT_MAX_DEPTH {
        inside.push_str("a = { ");
    }
    inside.push('b');
    for _ in 0..DEFAULT_MAX_DEPTH {
        inside.push_str(" }");
    }
    let ast = parse_script(&inside).unwrap();
    assert_eq!(parse_script(&ast.render()).unwrap(), ast);
    let beyond = format!("a = {{ {} }}", inside);
    assert!(matches!(parse_script(&beyond), Err(Error::ParseError(_))));
}
