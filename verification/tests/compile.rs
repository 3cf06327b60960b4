use mustache::compiler::{parse, CompileError};
use mustache::model::{Code, CodeKind, Mustache, TemplateContext};
use mustache::syntax::ErrorKind;

fn show_code(c: &Code) -> String {
    let name = c.name.clone();
    match c.kind {
        CodeKind::Write => format!("write({:?})", name),
        CodeKind::Value => format!("value({})", name),
        CodeKind::UnescapedValue => format!("raw({})", name),
        CodeKind::Iterable => format!("#{}[{}]", name, show(&c.mustache)),
        CodeKind::NonIterable => format!("^{}[{}]", name, show(&c.mustache)),
        CodeKind::Extend => format!("<{}[{}]", name, show(&c.mustache)),
        CodeKind::Name => format!("${}[{}]", name, show(&c.mustache)),
        CodeKind::Partial => format!("partial({})", name),
        CodeKind::Pragma => format!("pragma({},{:?})", name, c.appended),
        CodeKind::Comment => format!("comment({:?})", name),
        CodeKind::Delimiters => format!("delims({},{})", name, c.appended),
        CodeKind::Eof => String::from("eof"),
    }
}

fn show(m: &Mustache) -> String {
    let parts: Vec<String> = m.codes.iter().map(show_code).collect();
    parts.join(" ")
}

fn run(template: &str) -> Result<Mustache, CompileError> {
    parse(template, "t.mustache")
}

fn events(template: &str) -> String {
    match run(template) {
        Ok(m) => show(&m),
        Err(e) => panic!("refused: {:?} at line {}", e.kind, e.line),
    }
}

fn refusal(template: &str) -> (ErrorKind, usize) {
    match run(template) {
        Ok(m) => panic!("accepted: {}", show(&m)),
        Err(e) => {
            assert_eq!(e.file, "t.mustache");
            (e.kind, e.line)
        }
    }
}

#[test]
fn compile() {
    assert_eq!(events("{{name}}"), "value(name) eof");
    assert_eq!(events("{{#test}}{{name}}{{/test}}"), "#test[value(name)] eof");
}

#[test]
fn plain_text_is_written_once() {
    assert_eq!(events("hello"), "write(\"hello\") eof");
    assert_eq!(
        events("one\ntwo\r\nthree { four } five\n"),
        "write(\"one\\ntwo\\r\\nthree { four } five\\n\") eof"
    );
}

#[test]
fn empty_template_is_only_the_end() {
    assert_eq!(events(""), "eof");
}

#[test]
fn lone_carriage_return_is_dropped() {
    assert_eq!(events("a\rb"), "write(\"ab\") eof");
    assert_eq!(events("a\r\r\nb"), "write(\"a\\r\\nb\") eof");
    assert_eq!(events("a\r\n\nb"), "write(\"a\\r\\n\\nb\") eof");
}

#[test]
fn standalone_section_lines_are_elided() {
    assert_eq!(
        events("a\n{{#s}}\n{{x}}\n{{/s}}\nb\n"),
        "write(\"a\\n\") #s[value(x)] write(\"b\\n\") eof"
    );
}

#[test]
fn standalone_indentation_is_elided() {
    assert_eq!(
        events("a\n  {{#s}}  \nbody\n\t{{/s}}\r\nb"),
        "write(\"a\\n\") #s[write(\"body\\n\")] write(\"b\") eof"
    );
}

#[test]
fn inline_tags_keep_the_text_around_them() {
    assert_eq!(events("x{{y}}z"), "write(\"x\") value(y) write(\"z\") eof");
    assert_eq!(
        events(" a {{#s}} b {{/s}} c \n"),
        "write(\" a \") #s[write(\" b \")] write(\" c \\n\") eof"
    );
}

#[test]
fn inline_block_at_line_start_keeps_its_blanks() {
    assert_eq!(events("  {{#s}}x{{/s}}\n"), "write(\"  \") #s[write(\"x\")] write(\"\\n\") eof");
}

#[test]
fn two_tags_on_a_line_keep_the_line_feed() {
    assert_eq!(events("{{a}}{{b}}\n"), "value(a) value(b) write(\"\\n\") eof");
    assert_eq!(events("{{#s}}{{/s}}\n"), "#s[] write(\"\\n\") eof");
}

#[test]
fn delimiter_change_holds_from_the_tag_on() {
    assert_eq!(
        events("{{=<% %>=}}<%x%>{{y}}"),
        "delims(<%,%>) value(x) write(\"{{y}}\") eof"
    );
}

#[test]
fn delimiter_change_ends_with_the_block() {
    assert_eq!(
        events("{{#s}}{{=| |=}}|a|{{b}}|/s|{{c}}|d|"),
        "#s[delims(|,|) value(a) write(\"{{b}}\")] value(c) write(\"|d|\") eof"
    );
}

#[test]
fn delimiters_of_three_characters() {
    assert_eq!(
        events("{{=<<< >>>=}}<<a<<<b>>c>>>{{"),
        "delims(<<<,>>>) write(\"<<a\") value(b>>c) write(\"{{\") eof"
    );
}

#[test]
fn malformed_delimiter_tags() {
    assert_eq!(refusal("{{=<%=}}"), (ErrorKind::MalformedDelimiterTag, 1));
    assert_eq!(refusal("{{=a b c=}}"), (ErrorKind::MalformedDelimiterTag, 1));
    assert_eq!(refusal("\n{{=a b}}"), (ErrorKind::MalformedDelimiterTag, 2));
    assert_eq!(refusal("{{=}}"), (ErrorKind::MalformedDelimiterTag, 1));
}

#[test]
fn mismatched_close_tag_is_refused() {
    assert_eq!(refusal("{{#a}}{{/b}}"), (ErrorKind::MismatchedCloseTag, 1));
}

#[test]
fn unclosed_section_is_refused() {
    assert_eq!(refusal("{{#a}}text"), (ErrorKind::MissingCloseTag, 1));
    assert_eq!(refusal("{{#a}}\n\ntext"), (ErrorKind::MissingCloseTag, 3));
}

#[test]
fn unexpected_close_tag_is_refused() {
    assert_eq!(refusal("a\n{{/a}}"), (ErrorKind::UnexpectedCloseTag, 2));
}

#[test]
fn empty_tags_are_refused() {
    assert_eq!(refusal("{{}}"), (ErrorKind::EmptyTag, 1));
    assert_eq!(refusal("{{#}}"), (ErrorKind::EmptyTag, 1));
    assert_eq!(refusal("{{  }}"), (ErrorKind::EmptyTag, 1));
    assert_eq!(refusal("{{> }}"), (ErrorKind::EmptyTag, 1));
}

#[test]
fn unclosed_tag_is_refused() {
    assert_eq!(refusal("a\nb{{name"), (ErrorKind::UnclosedTag, 2));
    assert_eq!(refusal("{{name}"), (ErrorKind::UnclosedTag, 1));
}

#[test]
fn unescaped_values() {
    assert_eq!(events("{{{name}}}"), "raw(name) eof");
    assert_eq!(events("{{& name }}"), "raw(name) eof");
    assert_eq!(events("{{=<% %>=}}<%{name}%>"), "delims(<%,%>) raw(name) eof");
}

#[test]
fn improperly_closed_unescaped_values_are_refused() {
    assert_eq!(refusal("{{{name}}"), (ErrorKind::ImproperlyClosedUnescapedValue, 1));
    assert_eq!(refusal("{{{name}} "), (ErrorKind::ImproperlyClosedUnescapedValue, 1));
    assert_eq!(
        refusal("{{=<% %>=}}<%{name%>"),
        (ErrorKind::ImproperlyClosedUnescapedValue, 1)
    );
}

#[test]
fn every_kind_of_tag() {
    assert_eq!(
        events("{{#a}}1{{/a}}{{^b}}2{{/b}}{{<c}}3{{/c}}{{$d}}4{{/d}}{{>e}}{{%f g h}}{{! i }}{{!}}{{ j }}"),
        "#a[write(\"1\")] ^b[write(\"2\")] <c[write(\"3\")] $d[write(\"4\")] partial(e) \
         pragma(f,\"g h\") comment(\"i\") comment(\"\") value(j) eof"
    );
}

#[test]
fn pragma_without_arguments() {
    assert_eq!(events("{{%strict}}"), "pragma(strict,\"\") eof");
}

#[test]
fn nested_blocks_close_by_name() {
    assert_eq!(
        events("{{#a}}{{#b}}x{{/b}}{{/a}}"),
        "#a[#b[write(\"x\")]] eof"
    );
    assert_eq!(refusal("{{#a}}{{#b}}x{{/a}}{{/b}}"), (ErrorKind::MismatchedCloseTag, 1));
}

#[test]
fn contexts_carry_line_delimiters_and_source() {
    let m = run("a\nb{{x}}\n  {{>p}}").unwrap();
    assert_eq!(show(&m), "write(\"a\\nb\") value(x) write(\"\\n  \") partial(p) eof");
    let value = &m.codes[1].ctx;
    assert_eq!(value.line, 2);
    assert!(!value.start_of_line);
    assert_eq!(value.sm, "{{");
    assert_eq!(value.em, "}}");
    assert_eq!(value.file, "t.mustache");
    let partial = &m.codes[3].ctx;
    assert_eq!(partial.line, 3);
    assert!(partial.start_of_line);
    let first = &m.codes[0].ctx;
    assert_eq!(first.line, 2);
}

#[test]
fn block_context_is_that_of_its_opening_tag() {
    let m = run("{{#s}}\n\n{{/s}}\n").unwrap();
    assert_eq!(m.codes[0].ctx.line, 1);
    assert!(m.codes[0].ctx.start_of_line);
    assert_eq!(m.codes[1].kind, CodeKind::Eof);
    assert_eq!(m.codes[1].ctx.line, 4);
}

#[test]
fn contexts_are_equal_by_their_fields() {
    let a = run("{{x}}").unwrap();
    let b = run("{{y}}").unwrap();
    let c = run("\n{{y}}").unwrap();
    assert!(a.codes[0].ctx == b.codes[0].ctx);
    assert!(a.codes[0].ctx != c.codes[0].ctx);
    let d = TemplateContext {
        sm: String::from("{{"),
        em: String::from("}}"),
        file: String::from("t.mustache"),
        line: 1,
        start_of_line: true,
    };
    assert!(a.codes[0].ctx == d);
}

#[test]
fn compiling_twice_gives_the_same_tree() {
    let t = "a\n{{#s}}\n {{x}} {{{y}}}\n{{/s}}\n{{=<% %>=}}<%z%>\n";
    assert_eq!(events(t), events(t));
    assert_eq!(format!("{:?}", run(t).unwrap()), format!("{:?}", run(t).unwrap()));
}

#[test]
fn one_character_delimiters() {
    assert_eq!(
        events("{{={ }=}}{a}{{b}}{&c}"),
        "delims({,}) value(a) raw(b) raw(c) eof"
    );
    assert_eq!(refusal("{{={ }=}}{{b}"), (ErrorKind::ImproperlyClosedUnescapedValue, 1));
}

#[test]
fn broken_end_delimiter_belongs_to_the_tag() {
    assert_eq!(events("{{a}b}}"), "value(a}b) eof");
}

#[test]
fn lone_start_character_is_text() {
    assert_eq!(events("a{b{{c}}{"), "write(\"a{b\") value(c) write(\"{\") eof");
}

#[test]
fn standalone_value_line_is_elided() {
    assert_eq!(events("a\n{{x}}\nb"), "write(\"a\\n\") value(x) write(\"b\") eof");
    assert_eq!(events("a\n{{x}} y\nb"), "write(\"a\\n\") value(x) write(\" y\\nb\") eof");
}

#[test]
fn close_tag_after_text_keeps_the_text() {
    assert_eq!(
        events("{{#s}}\none\n two {{/s}}\n"),
        "#s[write(\"one\\n two \")] write(\"\\n\") eof"
    );
}

#[test]
fn empty_unescaped_value_with_other_delimiters() {
    assert_eq!(refusal("{{=<% %>=}}<%{ }%>"), (ErrorKind::EmptyTag, 1));
}

#[test]
fn error_line_counts_line_feeds() {
    assert_eq!(refusal("\n\r\n\n{{#a}}\n{{/b}}"), (ErrorKind::MismatchedCloseTag, 5));
}

#[test]
fn context_after_a_delimiter_change() {
    let m = run("{{=<% %>=}}<%x%>").unwrap();
    assert_eq!(m.codes[0].ctx.sm, "{{");
    assert_eq!(m.codes[0].ctx.em, "}}");
    assert_eq!(m.codes[1].ctx.sm, "<%");
    assert_eq!(m.codes[1].ctx.em, "%>");
}

#[test]
fn characters_beyond_ascii_pass_through() {
    let m = run("h\u{e9}llo {{n\u{e4}me}} \u{4e16}").unwrap();
    assert_eq!(m.codes[0].name, "h\u{e9}llo ");
    assert_eq!(m.codes[1].name, "n\u{e4}me");
    assert_eq!(m.codes[2].name, " \u{4e16}");
}
