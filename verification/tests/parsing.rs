//! End-to-end exercises of the parsing library: the primitive
//! combinators, the comment stripper, both expression grammars, and the
//! declaration grammar.

use vecs::ast::{Ast, Expression, ListEntry};
use vecs::basic::identifiers::parse_identifier;
use vecs::basic::regex::parse_regex;
use vecs::basic::strings::{parse_str, parse_whitespace};
use vecs::comments::{parse_comment, parse_inline_comment, parse_multiline_comment, strip_comments};
use vecs::components::{parse_component, parse_component_field, Component, ComponentField};
use vecs::events::{parse_event, parse_event_field, Event, EventField};
use vecs::expressions::common::{Expression as TExpression, Table, TableEntry};
use vecs::expressions::application::parse_application;
use vecs::expressions::integer::parse_integer;
use vecs::expressions::list::parse_list;
use vecs::expressions::symbol::parse_symbol;
use vecs::expressions::table::{parse_table, parse_table_entry};
use vecs::expressions::variable::parse_variable;
use vecs::function_like::{parse_function, Function};
use vecs::program::Parsed;
use vecs::source::ParseSrc;
use vecs::struct_like::{parse_struct, parse_struct_field, Struct, StructField};
use vecs::systems::{parse_system, System};

fn chars(s: &str) -> Vec<char> {
    s.chars().collect()
}

fn sym(s: &str) -> Expression {
    Expression::Symbol(s.to_string())
}

fn var(s: &str) -> Expression {
    Expression::Variable(s.to_string())
}

fn num(n: i128) -> Expression {
    Expression::Integer(n)
}

fn app(items: Vec<Expression>) -> Expression {
    Expression::Application(items)
}

fn list(entries: Vec<ListEntry>) -> Expression {
    Expression::List(entries)
}

#[test]
fn test_parse_str() {
    // Good.
    let text = chars("abcd");
    let target = chars("abc");
    let src = ParseSrc::new(&text);
    let result = parse_str(&target, src).expect("parse error");
    assert_eq!(result.value, "abc");
    assert_eq!(result.src.remaining_str(), "d");

    // Different characters.
    let text = chars("abc");
    let target = chars("def");
    let _ = parse_str(&target, ParseSrc::new(&text)).expect_err("parse not error");

    // Source too short.
    let text = chars("ab");
    let target = chars("abc");
    let _ = parse_str(&target, ParseSrc::new(&text)).expect_err("parse not error");
}

#[test]
fn test_parse_whitespace() {
    // Good.
    let text = chars("  a");
    let result = parse_whitespace(ParseSrc::new(&text)).expect("parse error");
    assert_eq!(result.src.remaining_str(), "a");

    // Different characters.
    let text = chars("abc");
    let result = parse_whitespace(ParseSrc::new(&text)).expect("parse error");
    assert_eq!(result.src.remaining_str(), "abc");
}

#[test]
fn test_parse_identifier() {
    // Good EOF.
    let text = chars("ab_c1");
    let result = parse_identifier(ParseSrc::new(&text)).expect("parse error");
    assert_eq!(result.value, "ab_c1");
    assert_eq!(result.src.remaining_str(), "");

    // Good.
    let text = chars("_ab_c1 x");
    let result = parse_identifier(ParseSrc::new(&text)).expect("parse error");
    assert_eq!(result.value, "_ab_c1");
    assert_eq!(result.src.remaining_str(), " x");

    // Different characters.
    let text = chars("1abc");
    let err = parse_identifier(ParseSrc::new(&text)).expect_err("parse not error");
    assert_eq!(err.location.byte_offset, 0);

    // Empty input.
    let text = chars("");
    let err = parse_identifier(ParseSrc::new(&text)).expect_err("parse not error");
    assert_eq!(err.location.byte_offset, 0);
    assert!(err.message.contains("source ended"));
}

#[test]
fn comments_test_parse_inline_comment_collect() {
    // Good EOF.
    let text = chars("// ab c");
    let result = parse_inline_comment(ParseSrc::new(&text)).expect("parse error");
    assert_eq!(result.value, "ab c");
    assert_eq!(result.src.remaining_str(), "");

    // Good EOL.
    let text = chars("// ab c\nd");
    let result = parse_inline_comment(ParseSrc::new(&text)).expect("parse error");
    assert_eq!(result.value, "ab c");
    assert_eq!(result.src.remaining_str(), "\nd");

    // Different characters.
    let text = chars("abc");
    let _ = parse_inline_comment(ParseSrc::new(&text)).expect_err("parse not error");
}

#[test]
fn test_parse_multiline_comment_collect() {
    // Good EOF.
    let text = chars("/* ab c */");
    let result = parse_multiline_comment(ParseSrc::new(&text)).expect("parse error");
    assert_eq!(result.value, "ab c");
    assert_eq!(result.src.remaining_str(), "");

    // Good EOL.
    let text = chars("/* ab c\nd*/\ne");
    let result = parse_multiline_comment(ParseSrc::new(&text)).expect("parse error");
    assert_eq!(result.value, "ab c\nd");
    assert_eq!(result.src.remaining_str(), "\ne");

    // Different characters.
    let text = chars("abc");
    let _ = parse_multiline_comment(ParseSrc::new(&text)).expect_err("parse not error");
}

#[test]
fn test_parse_comment_collect() {
    // Inline.
    let text = chars("// ab c\nx");
    let result = parse_comment(ParseSrc::new(&text)).expect("parse error");
    assert_eq!(result.value, "ab c");
    assert_eq!(result.src.remaining_str(), "\nx");

    // Multiline.
    let text = chars("/* ab c */\nx");
    let result = parse_comment(ParseSrc::new(&text)).expect("parse error");
    assert_eq!(result.value, "ab c");
    assert_eq!(result.src.remaining_str(), "\nx");

    // Different characters.
    let text = chars("abc");
    let _ = parse_comment(ParseSrc::new(&text)).expect_err("parse not error");
}

#[test]
fn test_parse_regex() {
    // Good EOF.
    let text = chars("12345");
    let result = parse_regex("^[0-9]+", ParseSrc::new(&text)).expect("parse error");
    assert_eq!(result.value, "12345");
    assert_eq!(result.src.remaining_str(), "");

    // Good.
    let text = chars("12345 6789");
    let result = parse_regex("^[0-9]+", ParseSrc::new(&text)).expect("parse error");
    assert_eq!(result.value, "12345");
    assert_eq!(result.src.remaining_str(), " 6789");

    // Different characters.
    let text = chars("abc1");
    let _ = parse_regex("^[0-9]+", ParseSrc::new(&text)).expect_err("parse not error");
}

#[test]
fn test_parse_integer() {
    // Good EOF.
    let text = chars("12_345");
    let result = parse_integer(ParseSrc::new(&text)).expect("parse error");
    assert_eq!(result.value, num(12345));
    assert_eq!(result.src.remaining_str(), "");

    // Good.
    let text = chars("12345 6789");
    let result = parse_integer(ParseSrc::new(&text)).expect("parse error");
    assert_eq!(result.value, num(12345));
    assert_eq!(result.src.remaining_str(), " 6789");

    // Different characters.
    let text = chars("abc1");
    let _ = parse_integer(ParseSrc::new(&text)).expect_err("parse not error");
}

#[test]
fn test_integer_too_large_is_rejected() {
    // One more than the largest value that fits.
    let text = chars("170141183460469231731687303715884105728");
    let err = parse_integer(ParseSrc::new(&text)).expect_err("parse not error");
    assert_eq!(err.location.byte_offset, 0);
    assert!(err.message.contains("too large"));

    // The largest value that fits.
    let text = chars("170141183460469231731687303715884105727");
    let result = parse_integer(ParseSrc::new(&text)).expect("parse error");
    assert_eq!(result.value, num(i128::MAX));
}

#[test]
fn test_parse_symbol() {
    // Good EOF.
    let text = chars("vec2");
    let result = parse_symbol(ParseSrc::new(&text)).expect("parse error");
    assert_eq!(result.value, sym("vec2"));
    assert_eq!(result.src.remaining_str(), "");

    // Good.
    let text = chars("vec3 vec2");
    let result = parse_symbol(ParseSrc::new(&text)).expect("parse error");
    assert_eq!(result.value, sym("vec3"));
    assert_eq!(result.src.remaining_str(), " vec2");

    // Different characters.
    let text = chars("1abc");
    let _ = parse_symbol(ParseSrc::new(&text)).expect_err("parse not error");
}

#[test]
fn test_parse_variable() {
    // Good EOF.
    let text = chars("$foo");
    let result = parse_variable(ParseSrc::new(&text)).expect("parse error");
    assert_eq!(result.value, var("foo"));
    assert_eq!(result.src.remaining_str(), "");

    // Good.
    let text = chars("$alice bob");
    let result = parse_variable(ParseSrc::new(&text)).expect("parse error");
    assert_eq!(result.value, var("alice"));
    assert_eq!(result.src.remaining_str(), " bob");

    // Different characters.
    let text = chars("abc1");
    let _ = parse_variable(ParseSrc::new(&text)).expect_err("parse not error");

    // Missing name after the marker.
    let text = chars("$ foo");
    let err = parse_variable(ParseSrc::new(&text)).expect_err("parse not error");
    assert_eq!(err.location.byte_offset, 1);
    assert!(err.message.contains("expected a variable name immediately after `$`"));
}

#[test]
fn test_parse_application() {
    // Good.
    let text = chars("foo $bar 100 { ...{ baz } }; a");
    let expected = app(vec![
        sym("foo"),
        var("bar"),
        num(100),
        list(vec![ListEntry::Embed(app(vec![list(vec![ListEntry::Expr(app(vec![sym(
            "baz",
        )]))])]))]),
    ]);
    let result = parse_application(ParseSrc::new(&text)).expect("parse error");
    assert_eq!(result.value, expected);
    assert_eq!(result.src.remaining_str(), "; a");

    // Invalid.
    let text = chars(" abc1");
    let _ = parse_application(ParseSrc::new(&text)).expect_err("parse not error");
}

#[test]
fn test_parse_list() {
    // Good empty.
    let text = chars("{} a");
    let result = parse_list(ParseSrc::new(&text)).expect("parse error");
    assert_eq!(result.value, list(vec![]));
    assert_eq!(result.src.remaining_str(), " a");

    // Good comma.
    let text = chars("{ foo, bar } a");
    let expected = list(vec![
        ListEntry::Expr(app(vec![sym("foo")])),
        ListEntry::Expr(app(vec![sym("bar")])),
    ]);
    let result = parse_list(ParseSrc::new(&text)).expect("parse error");
    assert_eq!(result.value, expected);
    assert_eq!(result.src.remaining_str(), " a");

    // Good comma trailing.
    let text = chars("{ foo, bar, } a");
    let expected = list(vec![
        ListEntry::Expr(app(vec![sym("foo")])),
        ListEntry::Expr(app(vec![sym("bar")])),
    ]);
    let result = parse_list(ParseSrc::new(&text)).expect("parse error");
    assert_eq!(result.value, expected);
    assert_eq!(result.src.remaining_str(), " a");

    // Good semicolon.
    let text = chars("{ foo; bar; } a");
    let expected = list(vec![
        ListEntry::Expr(app(vec![sym("foo")])),
        ListEntry::Expr(app(vec![sym("bar")])),
    ]);
    let result = parse_list(ParseSrc::new(&text)).expect("parse error");
    assert_eq!(result.value, expected);
    assert_eq!(result.src.remaining_str(), " a");

    // Good embed.
    let text = chars("{ 1, 2, ...{ 3, 4 }, } a");
    let expected = list(vec![
        ListEntry::Expr(app(vec![num(1)])),
        ListEntry::Expr(app(vec![num(2)])),
        ListEntry::Embed(app(vec![list(vec![
            ListEntry::Expr(app(vec![num(3)])),
            ListEntry::Expr(app(vec![num(4)])),
        ])])),
    ]);
    let result = parse_list(ParseSrc::new(&text)).expect("parse error");
    assert_eq!(result.value, expected);
    assert_eq!(result.src.remaining_str(), " a");

    // Invalid.
    let text = chars("abc1");
    let _ = parse_list(ParseSrc::new(&text)).expect_err("parse not error");

    // Invalid: Lone comma.
    let text = chars("{ , }");
    let _ = parse_list(ParseSrc::new(&text)).expect_err("parse not error");
}

fn tsym(s: &str) -> TExpression {
    TExpression::Symbol(s.to_string())
}

fn tvar(s: &str) -> TExpression {
    TExpression::Variable(s.to_string())
}

fn tint(n: i128) -> TExpression {
    TExpression::Integer(n)
}

#[test]
fn test_table_macro() {
    let mut t = Table::new();
    t.add_positional(TableEntry::Expr(tint(10)));
    t.add_positional(TableEntry::Expr(tsym("peter")));
    t.add_positional(TableEntry::Expr(tvar("pan")));
    t.add_keyed("key1".to_string(), tint(20));
    t.add_keyed("key2".to_string(), tsym("mona"));
    t.add_keyed("key3".to_string(), tvar("lisa"));

    let mut expected = Table::new();
    expected.add_positional(TableEntry::Expr(TExpression::Integer(10)));
    expected.add_positional(TableEntry::Expr(TExpression::Symbol("peter".to_string())));
    expected.add_positional(TableEntry::Expr(TExpression::Variable("pan".to_string())));
    expected.add_keyed("key1".to_string(), TExpression::Integer(20));
    expected.add_keyed("key2".to_string(), TExpression::Symbol("mona".to_string()));
    expected.add_keyed("key3".to_string(), TExpression::Variable("lisa".to_string()));

    assert_eq!(t, expected);
}

#[test]
fn test_table_keyed_last_write_wins() {
    let mut t = Table::new();
    t.add_keyed("max".to_string(), tint(1));
    t.add_keyed("max".to_string(), tint(2));

    let mut expected = Table::new();
    expected.add_keyed("max".to_string(), tint(2));

    assert_eq!(t, expected);
}

#[test]
fn test_parse_table_entry() {
    // Good positional.
    let mut table = Table::new();
    let mut expected_table = Table::new();
    expected_table.add_positional(TableEntry::Expr(tsym("foo")));
    let text = chars("foo a");
    let result = parse_table_entry(ParseSrc::new(&text), &mut table).expect("parse error");
    assert_eq!(table, expected_table);
    assert_eq!(result.src.remaining_str(), " a");

    // Good embedding.
    let mut table = Table::new();
    let mut expected_table = Table::new();
    expected_table.add_positional(TableEntry::Embed(tvar("bar")));
    let text = chars("...$bar a");
    let result = parse_table_entry(ParseSrc::new(&text), &mut table).expect("parse error");
    assert_eq!(table, expected_table);
    assert_eq!(result.src.remaining_str(), " a");

    // Good keyed.
    let mut table = Table::new();
    let mut expected_table = Table::new();
    expected_table.add_keyed("max".to_string(), tint(128));
    let text = chars("max = 128 a");
    let result = parse_table_entry(ParseSrc::new(&text), &mut table).expect("parse error");
    assert_eq!(table, expected_table);
    assert_eq!(result.src.remaining_str(), " a");

    // Different characters.
    let text = chars("#abc");
    let _ = parse_table(ParseSrc::new(&text)).expect_err("parse not error");
}

#[test]
fn test_parse_table() {
    // Good empty.
    let text = chars("{} a");
    let result = parse_table(ParseSrc::new(&text)).expect("parse error");
    assert_eq!(result.value, TExpression::Table(Table::new()));
    assert_eq!(result.src.remaining_str(), " a");

    // Good positional symbols.
    let text = chars("{ foo, bar, } a");
    let mut expected_table = Table::new();
    expected_table.add_positional(TableEntry::Expr(tsym("foo")));
    expected_table.add_positional(TableEntry::Expr(tsym("bar")));
    let result = parse_table(ParseSrc::new(&text)).expect("parse error");
    assert_eq!(result.value, TExpression::Table(expected_table));
    assert_eq!(result.src.remaining_str(), " a");

    // Good keyed.
    let text = chars("{ foo = $bar } a");
    let mut expected_table = Table::new();
    expected_table.add_keyed("foo".to_string(), tvar("bar"));
    let result = parse_table(ParseSrc::new(&text)).expect("parse error");
    assert_eq!(result.value, TExpression::Table(expected_table));
    assert_eq!(result.src.remaining_str(), " a");

    // Good mixed.
    let text = chars("{ 1, 2, foo = $bar, max = 50, } a");
    let mut expected_table = Table::new();
    expected_table.add_positional(TableEntry::Expr(tint(1)));
    expected_table.add_positional(TableEntry::Expr(tint(2)));
    expected_table.add_keyed("foo".to_string(), tvar("bar"));
    expected_table.add_keyed("max".to_string(), tint(50));
    let result = parse_table(ParseSrc::new(&text)).expect("parse error");
    assert_eq!(result.value, TExpression::Table(expected_table));
    assert_eq!(result.src.remaining_str(), " a");

    // Good embed.
    let text = chars("{ 1, 2, ...{ 3, 4 }, } a");
    let mut inner = Table::new();
    inner.add_positional(TableEntry::Expr(tint(3)));
    inner.add_positional(TableEntry::Expr(tint(4)));
    let mut expected_table = Table::new();
    expected_table.add_positional(TableEntry::Expr(tint(1)));
    expected_table.add_positional(TableEntry::Expr(tint(2)));
    expected_table.add_positional(TableEntry::Embed(TExpression::Table(inner)));
    let result = parse_table(ParseSrc::new(&text)).expect("parse error");
    assert_eq!(result.value, TExpression::Table(expected_table));
    assert_eq!(result.src.remaining_str(), " a");

    // Invalid.
    let text = chars("abc1");
    let _ = parse_table(ParseSrc::new(&text)).expect_err("parse not error");

    // Invalid: Lone comma.
    let text = chars("{ , }");
    let _ = parse_table(ParseSrc::new(&text)).expect_err("parse not error");

    // Invalid: Non-symbol key.
    let text = chars("{ $a = b }");
    let _ = parse_table(ParseSrc::new(&text)).expect_err("parse not error");

    // Invalid: Embed in keyed value.
    let text = chars("{ x = ...$x }");
    let _ = parse_table(ParseSrc::new(&text)).expect_err("parse not error");
}

#[test]
fn test_parse_struct_field() {
    // Good.
    let text = chars("int x; // a");
    let result = parse_struct_field(ParseSrc::new(&text)).expect("parse error");
    assert_eq!(result.value, StructField::new("int".to_string(), "x".to_string()));
    assert_eq!(result.src.remaining_str(), " // a");

    // Different characters.
    let text = chars(";abc");
    let _ = parse_struct_field(ParseSrc::new(&text)).expect_err("parse not error");
}

#[test]
fn test_parse_struct() {
    // Good.
    let text = chars("vec2 {double x;double y;struct metadata meta;} // math");
    let result = parse_struct(ParseSrc::new(&text)).expect("parse error");
    assert_eq!(
        result.value,
        Struct::new(
            "vec2".to_string(),
            vec![
                StructField::new("double".to_string(), "x".to_string()),
                StructField::new("double".to_string(), "y".to_string()),
                StructField::new("struct metadata".to_string(), "meta".to_string()),
            ],
        ),
    );
    assert_eq!(result.src.remaining_str(), " // math");

    // Good. No fields.
    let text = chars("vec0 {} // a");
    let result = parse_struct(ParseSrc::new(&text)).expect("parse error");
    assert_eq!(result.value, Struct::new("vec0".to_string(), vec![]));
    assert_eq!(result.src.remaining_str(), " // a");

    // Different characters.
    let text = chars(";abc");
    let _ = parse_struct(ParseSrc::new(&text)).expect_err("parse not error");
}

#[test]
fn test_parse_function() {
    // Good.
    let text = chars("render(transform, render) // b");
    let result = parse_function(ParseSrc::new(&text)).expect("parse error");
    assert_eq!(
        result.value,
        Function::new("render".to_string(), vec!["transform".to_string(), "render".to_string()]),
    );
    assert_eq!(result.src.remaining_str(), " // b");

    // Good. No components.
    let text = chars("render() // b");
    let result = parse_function(ParseSrc::new(&text)).expect("parse error");
    assert_eq!(result.value, Function::new("render".to_string(), vec![]));
    assert_eq!(result.src.remaining_str(), " // b");

    // Good. One component.
    let text = chars("move(transform) // b");
    let result = parse_function(ParseSrc::new(&text)).expect("parse error");
    assert_eq!(result.value, Function::new("move".to_string(), vec!["transform".to_string()]));
    assert_eq!(result.src.remaining_str(), " // b");

    // Good. Trailing comma.
    let text = chars("render(transform, render,) // b");
    let result = parse_function(ParseSrc::new(&text)).expect("parse error");
    assert_eq!(
        result.value,
        Function::new("render".to_string(), vec!["transform".to_string(), "render".to_string()]),
    );
    assert_eq!(result.src.remaining_str(), " // b");

    // Different characters.
    let text = chars(";abc");
    let _ = parse_function(ParseSrc::new(&text)).expect_err("parse not error");
}

#[test]
fn components_test_parse_component_field() {
    // Good.
    let text = chars("int x; // a");
    let result = parse_component_field(ParseSrc::new(&text)).expect("parse error");
    assert_eq!(result.value, ComponentField::new("int".to_string(), "x".to_string()));
    assert_eq!(result.src.remaining_str(), " // a");

    // Different characters.
    let text = chars(";abc");
    let _ = parse_component_field(ParseSrc::new(&text)).expect_err("parse not error");
}

#[test]
fn components_test_parse_component() {
    // Good.
    let text = chars("component vec2 {double x; double y; } // math");
    let result = parse_component(ParseSrc::new(&text)).expect("parse error");
    assert_eq!(
        result.value,
        Component::new(
            "vec2".to_string(),
            vec![
                ComponentField::new("double".to_string(), "x".to_string()),
                ComponentField::new("double".to_string(), "y".to_string()),
            ],
        ),
    );
    assert_eq!(result.src.remaining_str(), " // math");

    // Good. No fields.
    let text = chars("component vec0 {} // a");
    let result = parse_component(ParseSrc::new(&text)).expect("parse error");
    assert_eq!(result.value, Component::new("vec0".to_string(), vec![]));
    assert_eq!(result.src.remaining_str(), " // a");

    // Different characters.
    let text = chars(";abc");
    let _ = parse_component(ParseSrc::new(&text)).expect_err("parse not error");
}

#[test]
fn events_test_parse_event_field() {
    // Good.
    let text = chars("int x; // a");
    let result = parse_event_field(ParseSrc::new(&text)).expect("parse error");
    assert_eq!(result.value, EventField::new("int".to_string(), "x".to_string()));
    assert_eq!(result.src.remaining_str(), " // a");

    // Different characters.
    let text = chars(";abc");
    let _ = parse_event_field(ParseSrc::new(&text)).expect_err("parse not error");
}

#[test]
fn events_test_parse_event() {
    // Good.
    let text = chars("event clicked {double x; double y; } // math");
    let result = parse_event(ParseSrc::new(&text)).expect("parse error");
    assert_eq!(
        result.value,
        Event::new(
            "clicked".to_string(),
            vec![
                EventField::new("double".to_string(), "x".to_string()),
                EventField::new("double".to_string(), "y".to_string()),
            ],
        ),
    );
    assert_eq!(result.src.remaining_str(), " // math");

    // Good. No fields.
    let text = chars("event nothing {} // a");
    let result = parse_event(ParseSrc::new(&text)).expect("parse error");
    assert_eq!(result.value, Event::new("nothing".to_string(), vec![]));
    assert_eq!(result.src.remaining_str(), " // a");

    // Different characters.
    let text = chars(";abc");
    let _ = parse_event(ParseSrc::new(&text)).expect_err("parse not error");
}

#[test]
fn systems_test_parse_system() {
    // Good.
    let text = chars("system render(transform, render) // b");
    let result = parse_system(ParseSrc::new(&text)).expect("parse error");
    assert_eq!(
        result.value,
        System::new("render".to_string(), vec!["transform".to_string(), "render".to_string()]),
    );
    assert_eq!(result.src.remaining_str(), " // b");

    // Good. No components.
    let text = chars("system render() // b");
    let result = parse_system(ParseSrc::new(&text)).expect("parse error");
    assert_eq!(result.value, System::new("render".to_string(), vec![]));
    assert_eq!(result.src.remaining_str(), " // b");

    // Good. One component.
    let text = chars("system move(transform) // b");
    let result = parse_system(ParseSrc::new(&text)).expect("parse error");
    assert_eq!(result.value, System::new("move".to_string(), vec!["transform".to_string()]));
    assert_eq!(result.src.remaining_str(), " // b");

    // Good. Trailing comma.
    let text = chars("system render(transform, render,) // b");
    let result = parse_system(ParseSrc::new(&text)).expect("parse error");
    assert_eq!(
        result.value,
        System::new("render".to_string(), vec!["transform".to_string(), "render".to_string()]),
    );
    assert_eq!(result.src.remaining_str(), " // b");

    // Different characters.
    let text = chars(";abc");
    let _ = parse_system(ParseSrc::new(&text)).expect_err("parse not error");
}

#[test]
fn mod_test_strip_comments() {
    let mut src: Vec<char> = chars(
        "\n// this component is a component\ncomponent airton {\r\nint x;\n  // believe it or not \n  int y; // letter Y <\n}\n",
    );
    let target: Vec<char> = chars(
        "\n                                \ncomponent airton {\r\nint x;\n                       \n  int y;              \n}\n",
    );
    strip_comments(&mut src);
    assert_eq!(src, target);
}

#[test]
fn test_strip_comments_idempotent() {
    let mut once: Vec<char> = chars("a /* b\nc */ d // e\nf");
    strip_comments(&mut once);
    let mut twice = once.clone();
    strip_comments(&mut twice);
    assert_eq!(once, twice);
}

#[test]
fn mod_test_parse() {
    let text = chars(
        " component transform {\n double x;\n double y;\n };\n \n component render {\n texture_t texture;\n };\n \n event mouse_click {\n double x;\n double y;\n uint8_t button;\n };\n \n system move { transform };\n system render { transform, render };\n ",
    );
    let result = vecs::expressions::parse(ParseSrc::new(&text)).expect("parse error");
    assert_eq!(
        result.value,
        Ast(vec![
            app(vec![
                sym("component"),
                sym("transform"),
                list(vec![
                    ListEntry::Expr(app(vec![sym("double"), sym("x")])),
                    ListEntry::Expr(app(vec![sym("double"), sym("y")])),
                ]),
            ]),
            app(vec![
                sym("component"),
                sym("render"),
                list(vec![ListEntry::Expr(app(vec![sym("texture_t"), sym("texture")]))]),
            ]),
            app(vec![
                sym("event"),
                sym("mouse_click"),
                list(vec![
                    ListEntry::Expr(app(vec![sym("double"), sym("x")])),
                    ListEntry::Expr(app(vec![sym("double"), sym("y")])),
                    ListEntry::Expr(app(vec![sym("uint8_t"), sym("button")])),
                ]),
            ]),
            app(vec![
                sym("system"),
                sym("move"),
                list(vec![ListEntry::Expr(app(vec![sym("transform")]))]),
            ]),
            app(vec![
                sym("system"),
                sym("render"),
                list(vec![
                    ListEntry::Expr(app(vec![sym("transform")])),
                    ListEntry::Expr(app(vec![sym("render")])),
                ]),
            ]),
        ]),
    );
}

#[test]
fn test_parse_program() {
    let text = chars(
        " component transform { double x; double y; } component render { texture_t texture; } event mouse_click { double x; double y; uint8_t button; } system move(transform) system render(transform, render) ",
    );
    let result = vecs::program::parse(ParseSrc::new(&text)).expect("parse error");
    assert_eq!(
        result.value,
        Parsed {
            components: vec![
                Component::new(
                    "transform".to_string(),
                    vec![
                        ComponentField::new("double".to_string(), "x".to_string()),
                        ComponentField::new("double".to_string(), "y".to_string()),
                    ],
                ),
                Component::new(
                    "render".to_string(),
                    vec![ComponentField::new("texture_t".to_string(), "texture".to_string())],
                ),
            ],
            events: vec![Event::new(
                "mouse_click".to_string(),
                vec![
                    EventField::new("double".to_string(), "x".to_string()),
                    EventField::new("double".to_string(), "y".to_string()),
                    EventField::new("uint8_t".to_string(), "button".to_string()),
                ],
            )],
            systems: vec![
                System::new("move".to_string(), vec!["transform".to_string()]),
                System::new("render".to_string(), vec!["transform".to_string(), "render".to_string()]),
            ],
        },
    );
}

#[test]
fn test_end_to_end() {
    let text = chars(
        "component transform { double x; double y; }\nevent mouse_click { double x; double y; uint8_t button; }\nsystem move(transform)\n",
    );
    let result = vecs::program::parse(ParseSrc::new(&text)).expect("parse error");
    assert_eq!(result.value.components.len(), 1);
    assert_eq!(result.value.components[0].name, "transform");
    assert_eq!(
        result.value.components[0].fields,
        vec![
            ComponentField::new("double".to_string(), "x".to_string()),
            ComponentField::new("double".to_string(), "y".to_string()),
        ],
    );
    assert_eq!(result.value.events.len(), 1);
    assert_eq!(result.value.events[0].name, "mouse_click");
    assert_eq!(
        result.value.events[0].fields,
        vec![
            EventField::new("double".to_string(), "x".to_string()),
            EventField::new("double".to_string(), "y".to_string()),
            EventField::new("uint8_t".to_string(), "button".to_string()),
        ],
    );
    assert_eq!(result.value.systems.len(), 1);
    assert_eq!(result.value.systems[0].name, "move");
    assert_eq!(result.value.systems[0].params, vec!["transform".to_string()]);
}

#[test]
fn test_top_level_error_is_anchored_at_start() {
    let text = chars(";abc");
    let err = vecs::program::parse(ParseSrc::new(&text)).expect_err("parse not error");
    assert_eq!(err.location.byte_offset, 0);
    assert_eq!(err.location.line, 0);
    assert_eq!(err.location.column, 0);
    assert!(err.message.contains("expected component, event or system"));
    assert!(err.message.contains(";abc"));
}

#[test]
fn test_unrecognized_expression_is_named() {
    let text = chars("#boom rest");
    let err = vecs::expressions::parse(ParseSrc::new(&text)).expect_err("parse not error");
    assert_eq!(err.location.byte_offset, 0);
    assert!(err.message.contains("unrecognized expression: `#boom`"));
}

#[test]
fn test_crlf_counts_as_one_line() {
    let text = chars("a\r\nb");
    let mut cur = ParseSrc::new(&text);
    assert_eq!(cur.next(), Some('a'));
    assert_eq!(cur.next(), Some('\n'));
    assert_eq!(cur.location.line, 1);
    assert_eq!(cur.location.column, 0);
    assert_eq!(cur.location.byte_offset, 3);
    assert_eq!(cur.next(), Some('b'));
    assert_eq!(cur.next(), None);
}

#[test]
fn test_literal_match_consumes_its_own_length() {
    let text = chars("component x");
    let target = chars("component");
    let result = parse_str(&target, ParseSrc::new(&text)).expect("parse error");
    assert_eq!(result.span.len(), 9);
    assert_eq!(result.src.remaining_str(), " x");
}

#[test]
fn test_unterminated_block_comment_runs_to_end() {
    let text = chars("/* never closed");
    let result = parse_multiline_comment(ParseSrc::new(&text)).expect("parse error");
    assert_eq!(result.value, "never closed");
    assert_eq!(result.src.remaining_str(), "");
}

#[test]
fn test_strip_blanks_a_lone_line_comment() {
    let mut src: Vec<char> = "// xyz".chars().collect();
    strip_comments(&mut src);
    assert_eq!(src, "      ".chars().collect::<Vec<char>>());
    assert_eq!(src.len(), 6);
}

#[test]
fn test_generate_structs_and_union() {
    let text = chars(
        "component transform { double x; double y; } component render { texture_t texture; }",
    );
    let result = vecs::program::parse(ParseSrc::new(&text)).expect("parse error");
    let generated = vecs::generate::generate(&result.value);
    assert_eq!(
        generated,
        "struct v_component_transform {double x;double y;};\
         struct v_component_render {texture_t texture;};\
         union v_component {\
         struct v_component_transform transform;\
         struct v_component_render render;\
         };",
    );
}

#[test]
fn test_parse_table_semicolon_separators() {
    // Semicolon and comma are interchangeable separators.
    let text = chars("{ 1; 2 } a");
    let mut expected_table = Table::new();
    expected_table.add_positional(TableEntry::Expr(tint(1)));
    expected_table.add_positional(TableEntry::Expr(tint(2)));
    let result = parse_table(ParseSrc::new(&text)).expect("parse error");
    assert_eq!(result.value, TExpression::Table(expected_table));
    assert_eq!(result.src.remaining_str(), " a");

    // Mixed separators, trailing semicolon.
    let text = chars("{ 1; foo = $bar, 2; } a");
    let mut expected_table = Table::new();
    expected_table.add_positional(TableEntry::Expr(tint(1)));
    expected_table.add_keyed("foo".to_string(), tvar("bar"));
    expected_table.add_positional(TableEntry::Expr(tint(2)));
    let result = parse_table(ParseSrc::new(&text)).expect("parse error");
    assert_eq!(result.value, TExpression::Table(expected_table));
    assert_eq!(result.src.remaining_str(), " a");
}

#[test]
fn test_parse_component_multi_token_type() {
    // A field's type may span several identifiers; the last one before
    // the semicolon is the field's name.
    let text = chars("struct metadata meta; x");
    let result = parse_component_field(ParseSrc::new(&text)).expect("parse error");
    assert_eq!(
        result.value,
        ComponentField::new("struct metadata".to_string(), "meta".to_string()),
    );
    assert_eq!(result.src.remaining_str(), " x");

    let text = chars("component c { struct metadata meta; unsigned long long n; }");
    let result = parse_component(ParseSrc::new(&text)).expect("parse error");
    assert_eq!(
        result.value,
        Component::new(
            "c".to_string(),
            vec![
                ComponentField::new("struct metadata".to_string(), "meta".to_string()),
                ComponentField::new("unsigned long long".to_string(), "n".to_string()),
            ],
        ),
    );
    assert_eq!(result.src.remaining_str(), "");
}
