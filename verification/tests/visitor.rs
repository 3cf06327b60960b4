use mustache::compiler::parse;
use mustache::cursor::Lookahead;
use mustache::model::{CodeKind, Mustache, TemplateContext};
use mustache::syntax::ErrorKind;
use mustache::text::{
    append_text, blank, chars_of, copy_text, same_text, slice_of, text_of, trim,
};
use mustache::visitor::{compile_into, deliver, replay, DefaultMustacheVisitor, MustacheVisitor};

fn letters(s: &str) -> Vec<char> {
    s.chars().collect()
}

fn string(v: &Vec<char>) -> String {
    v.iter().collect()
}

fn fresh() -> DefaultMustacheVisitor {
    DefaultMustacheVisitor::new()
}

fn kinds(m: &Mustache) -> Vec<CodeKind> {
    m.codes.iter().map(|c| c.kind).collect()
}

#[test]
fn visitor_receives_the_instructions_in_order() {
    let mut mv = fresh();
    let r = compile_into(&mut mv, "a{{b}}{{#c}}d{{/c}}", "f");
    assert!(r.is_ok());
    assert_eq!(
        kinds(&mv.mustache),
        vec![CodeKind::Write, CodeKind::Value, CodeKind::Iterable, CodeKind::Eof]
    );
    assert_eq!(mv.mustache.codes[0].name, "a");
    assert_eq!(mv.mustache.codes[2].name, "c");
    assert_eq!(kinds(&mv.mustache.codes[2].mustache), vec![CodeKind::Write]);
    assert_eq!(mv.mustache.codes[2].mustache.codes[0].name, "d");
}

#[test]
fn visitor_is_untouched_by_a_refused_template() {
    let mut mv = fresh();
    assert!(compile_into(&mut mv, "x{{y}}", "f").is_ok());
    let before = format!("{:?}", mv.mustache);
    let r = compile_into(&mut mv, "a{{#b}}", "f");
    assert_eq!(r.unwrap_err().kind, ErrorKind::MissingCloseTag);
    assert_eq!(format!("{:?}", mv.mustache), before);
}

#[test]
fn visitor_keeps_adding_over_compiles() {
    let mut mv = fresh();
    assert!(compile_into(&mut mv, "{{a}}", "f").is_ok());
    assert!(compile_into(&mut mv, "{{{b}}}", "g").is_ok());
    assert_eq!(
        kinds(&mv.mustache),
        vec![CodeKind::Value, CodeKind::Eof, CodeKind::UnescapedValue, CodeKind::Eof]
    );
    assert_eq!(mv.mustache.codes[2].ctx.file, "g");
}

#[test]
fn replay_gives_what_parse_built() {
    let t = "a\n{{#s}}\n{{x}}{{%p q}}\n{{/s}}{{=<% %>=}}<%>z%><%! c %>";
    let built = parse(t, "f").unwrap();
    let expected = format!("{:?}", built);
    let mut mv = fresh();
    replay(built, &mut mv);
    assert_eq!(format!("{:?}", mv.mustache), expected);
}

#[test]
fn deliver_reduces_an_instruction_to_what_its_kind_uses() {
    let body = parse("x", "f").unwrap();
    let mut code = parse("{{v}}", "f").unwrap().codes.remove(0);
    code.appended = String::from("extra");
    code.mustache = body;
    let mut mv = fresh();
    deliver(code, &mut mv);
    assert_eq!(mv.mustache.codes.len(), 1);
    assert_eq!(mv.mustache.codes[0].kind, CodeKind::Value);
    assert_eq!(mv.mustache.codes[0].name, "v");
    assert!(mv.mustache.codes[0].appended.is_empty());
    assert!(mv.mustache.codes[0].mustache.codes.is_empty());
}

#[test]
fn default_visitor_starts_from_an_empty_list() {
    let mv = fresh();
    let ctx = TemplateContext {
        sm: String::from("{{"),
        em: String::from("}}"),
        file: String::from("f"),
        line: 1,
        start_of_line: true,
    };
    assert!(mv.mustache(&ctx).codes.is_empty());
    let copy = ctx.duplicate();
    assert!(copy == ctx);
}

#[test]
fn lookahead_peek_does_not_consume() {
    let mut cursor = Lookahead::new(letters("ab"));
    assert_eq!(cursor.peek(), Some('a'));
    assert_eq!(cursor.peek(), Some('a'));
    assert_eq!(cursor.next(), Some('a'));
    assert_eq!(cursor.next(), Some('b'));
    assert_eq!(cursor.peek(), None);
    assert_eq!(cursor.next(), None);
    assert_eq!(cursor.next(), None);
}

#[test]
fn lookahead_next_without_peek() {
    let mut cursor = Lookahead::new(letters("xy"));
    assert_eq!(cursor.next(), Some('x'));
    assert_eq!(cursor.peek(), Some('y'));
    assert_eq!(cursor.next(), Some('y'));
    assert_eq!(cursor.next(), None);
}

#[test]
fn trim_removes_blanks_at_both_ends() {
    assert_eq!(string(&trim(&letters("  a b \t\r\n"))), "a b");
    assert_eq!(string(&trim(&letters(" \t "))), "");
    assert_eq!(string(&trim(&letters(""))), "");
    assert_eq!(string(&trim(&letters("x"))), "x");
}

#[test]
fn text_helpers() {
    assert!(blank(' ') && blank('\t') && blank('\r') && blank('\n'));
    assert!(!blank('a'));
    assert!(same_text(&letters("ab"), &letters("ab")));
    assert!(!same_text(&letters("ab"), &letters("ac")));
    assert!(!same_text(&letters("ab"), &letters("abc")));
    assert_eq!(string(&slice_of(&letters("hello"), 1, 3)), "el");
    assert_eq!(string(&copy_text(&letters("hello"))), "hello");
    let mut buf = letters("ab");
    append_text(&mut buf, &letters("cdef"), 2);
    assert_eq!(string(&buf), "abcd");
}

#[test]
fn texts_and_strings_convert_both_ways() {
    assert_eq!(text_of(&letters("h\u{e9}llo")), "h\u{e9}llo");
    assert_eq!(text_of(&letters("")), "");
    assert_eq!(chars_of("a\u{4e16}b"), vec!['a', '\u{4e16}', 'b']);
    assert_eq!(chars_of(""), Vec::<char>::new());
    assert_eq!(text_of(&chars_of("round trip")), "round trip");
}
