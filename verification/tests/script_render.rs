use pdx_syntax::script::types::{Entry, Key, Unit, Units, Value};
use pdx_syntax::script::parse_script;

fn ident(s: &str) -> Entry {
    Entry::Ident(s.to_string())
}

fn pair(k: &str, v: Value) -> Unit {
    Unit::KeyValue(Key(ident(k)), v)
}

fn word(s: &str) -> Value {
    Value::Primitive(ident(s))
}

fn block(units: Vec<Unit>) -> Value {
    Value::Units(Box::new(Units(units)))
}

fn sample() -> Units {
    Units(vec![
        pair("a", word("b")),
        Unit::Questioned(
            Key(ident("c")),
            block(vec![
                Unit::Relation(Key(ident("d")), "<=".to_string(), word("1")),
                Unit::SingleValue(block(vec![
                    Unit::SingleValue(Value::Primitive(Entry::RawStr("\"e f\"".to_string()))),
                    pair("g", Value::Empty),
                ])),
            ]),
        ),
        Unit::SingleValue(Value::Empty),
    ])
}

#[test]
fn one_unit_per_line() {
    let ast = Units(vec![
        pair("a", word("b")),
        Unit::SingleValue(word("c")),
        Unit::Questioned(Key(ident("d")), word("e")),
        Unit::Relation(Key(ident("f")), "==".to_string(), word("g")),
        pair("h", Value::Empty),
    ]);
    assert_eq!(ast.render(), "a = b\nc\nd ?= e\nf == g\nh = {}\n");
}

#[test]
fn empty_script_renders_nothing() {
    assert_eq!(Units(vec![]).render(), "");
}

#[test]
fn blocks_indent_by_one_step() {
    assert_eq!(
        sample().render(),
        "a = b\n\
         c ?= {\n\
         \x20   d <= 1\n\
         \x20   {\n\
         \x20       \"e f\"\n\
         \x20       g = {}\n\
         \x20   }\n\
         }\n\
         {}\n"
    );
}

#[test]
fn recursive_write_appends_at_the_level() {
    let ast = Units(vec![pair("a", block(vec![pair("b", word("c"))]))]);
    let mut out = String::from("# head\n");
    ast.recursive_write(&mut out, 2);
    assert_eq!(
        out,
        "# head\n\
         \x20       a = {\n\
         \x20           b = c\n\
         \x20       }\n"
    );
}

#[test]
fn unit_and_value_write_without_line_end() {
    let unit = pair("a", block(vec![Unit::SingleValue(word("b"))]));
    let mut out = String::new();
    unit.recursive_write(&mut out, 1);
    assert_eq!(out, "    a = {\n        b\n    }");

    let mut out = String::new();
    unit.value().recursive_write(&mut out, 1);
    assert_eq!(out, "{\n    b\n}");

    let mut out = String::new();
    unit.value().recursive_write(&mut out, 0);
    assert_eq!(out, "{\nb\n}");

    let mut out = String::new();
    Value::Empty.recursive_write(&mut out, 7);
    assert_eq!(out, "{}");
}

#[test]
fn rendered_script_is_read_back() {
    let ast = sample();
    assert_eq!(parse_script(&ast.render()).unwrap(), ast);
}

#[test]
fn rendered_script_is_read_back_at_any_level() {
    let ast = sample();
    let mut out = String::new();
    ast.recursive_write(&mut out, 3);
    assert_eq!(parse_script(&out).unwrap(), ast);
}

#[test]
fn parsed_script_round_trips() {
    let text = "country = { tag = ABC name=\"A B C\" size >= 3 \
                cores = { 1 2 3 } flag ?= yes empty = {} }\nloose \"value\"";
    let ast = parse_script(text).unwrap();
    let rendered = ast.render();
    assert_eq!(
        rendered,
        "country = {\n\
         \x20   tag = ABC\n\
         \x20   name = \"A B C\"\n\
         \x20   size >= 3\n\
         \x20   cores = {\n\
         \x20       1\n\
         \x20       2\n\
         \x20       3\n\
         \x20   }\n\
         \x20   flag ?= yes\n\
         \x20   empty = {}\n\
         }\n\
         loose\n\
         \"value\"\n"
    );
    assert_eq!(parse_script(&rendered).unwrap(), ast);
    assert_eq!(parse_script(&rendered).unwrap().render(), rendered);
}

#[test]
fn appended_unit_is_rendered_last() {
    let mut ast = parse_script("a = b\nc = { d }").unwrap();
    let before = ast.render();
    ast.push(Unit::SingleValue(Value::Primitive(Entry::Ident(
        "TEST".to_string(),
    ))));
    assert_eq!(ast.render(), format!("{}TEST\n", before));
    ast.push(pair("x", block(vec![pair("y", word("z"))])));
    assert_eq!(
        ast.render(),
        format!("{}TEST\nx = {{\n    y = z\n}}\n", before)
    );
    assert_eq!(parse_script(&ast.render()).unwrap(), ast);
}

#[test]
fn key_and_units_deref_to_what_they_wrap() {
    let mut ast = parse_script("a = b").unwrap();
    assert_eq!(ast[0], pair("a", word("b")));
    if let Unit::KeyValue(k, _) = &mut ast[0] {
        assert_eq!(**k, ident("a"));
        **k = ident("renamed");
        assert_eq!(k.as_str(), "renamed");
    }
    assert_eq!(ast.render(), "renamed = b\n");
}
