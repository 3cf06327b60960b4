//! The receiver of a compiled template's instructions, one call for each.

use vstd::prelude::*;
use crate::compiler::{parse, CompileError};
use crate::model::{as_event, Code, CodeKind, CodeView, Mustache, TemplateContext};
use crate::laws::lemma_compiled_are_events;
use crate::syntax::{compiled, leaf, Outcome};

verus! {

/// A block instruction.
pub open spec fn block(kind: CodeKind, ctx: TemplateContext, name: Seq<char>, body: Mustache)
    -> CodeView {
    CodeView { kind, ctx: ctx@, name, appended: Seq::empty(), body: body.view() }
}

/// Receives the instructions of a template in their order. `seen` is the
/// list of what was received so far; every call adds one instruction to it.
pub trait MustacheVisitor {
    /// The instructions received so far, first to last.
    spec fn seen(&self) -> Seq<CodeView>;

    /// An empty list of instructions to start from.
    fn mustache(&self, ctx: &TemplateContext) -> (r: Mustache)
        ensures
            r.view() == Seq::<CodeView>::empty(),
    ;

    /// A block that is rendered for a value that holds, once for each item.
    fn iterable(&mut self, ctx: &TemplateContext, variable: String, mustache: Mustache)
        ensures
            final(self).seen() == old(self).seen().push(
                block(CodeKind::Iterable, *ctx, variable@, mustache),
            ),
    ;

    /// A block that is rendered for a value that is missing or empty.
    fn non_iterable(&mut self, ctx: &TemplateContext, variable: String, mustache: Mustache)
        ensures
            final(self).seen() == old(self).seen().push(
                block(CodeKind::NonIterable, *ctx, variable@, mustache),
            ),
    ;

    /// A reference to another template.
    fn partial(&mut self, ctx: &TemplateContext, variable: String)
        ensures
            final(self).seen() == old(self).seen().push(
                leaf(CodeKind::Partial, ctx@, variable@, Seq::empty()),
            ),
    ;

    /// A variable; `encoded` tells whether its value is to be escaped.
    fn value(&mut self, ctx: &TemplateContext, variable: String, encoded: bool)
        ensures
            final(self).seen() == old(self).seen().push(
                leaf(
                    if encoded {
                        CodeKind::Value
                    } else {
                        CodeKind::UnescapedValue
                    },
                    ctx@,
                    variable@,
                    Seq::empty(),
                ),
            ),
    ;

    /// Text that is written as it stands.
    fn write(&mut self, ctx: &TemplateContext, text: String)
        ensures
            final(self).seen() == old(self).seen().push(
                leaf(CodeKind::Write, ctx@, text@, Seq::empty()),
            ),
    ;

    /// A pragma with its arguments.
    fn pragma(&mut self, ctx: &TemplateContext, pragma: String, args: String)
        ensures
            final(self).seen() == old(self).seen().push(
                leaf(CodeKind::Pragma, ctx@, pragma@, args@),
            ),
    ;

    /// The end of the template.
    fn eof(&mut self, ctx: &TemplateContext)
        ensures
            final(self).seen() == old(self).seen().push(
                leaf(CodeKind::Eof, ctx@, Seq::empty(), Seq::empty()),
            ),
    ;

    /// A block that extends a parent template.
    fn extend(&mut self, ctx: &TemplateContext, variable: String, mustache: Mustache)
        ensures
            final(self).seen() == old(self).seen().push(
                block(CodeKind::Extend, *ctx, variable@, mustache),
            ),
    ;

    /// A named block that replaces the parent's block of that name.
    fn name(&mut self, ctx: &TemplateContext, variable: String, mustache: Mustache)
        ensures
            final(self).seen() == old(self).seen().push(
                block(CodeKind::Name, *ctx, variable@, mustache),
            ),
    ;

    /// A comment.
    fn comment(&mut self, ctx: &TemplateContext, comment: String)
        ensures
            final(self).seen() == old(self).seen().push(
                leaf(CodeKind::Comment, ctx@, comment@, Seq::empty()),
            ),
    ;

    /// A change of delimiters; `ctx` holds the ones in force before it.
    fn delimiters(&mut self, ctx: &TemplateContext, start: String, end: String)
        ensures
            final(self).seen() == old(self).seen().push(
                leaf(CodeKind::Delimiters, ctx@, start@, end@),
            ),
    ;
}

/// The visitor that keeps what it receives as a list of instructions.
pub struct DefaultMustacheVisitor {
    pub mustache: Mustache,
}

impl DefaultMustacheVisitor {
    /// A visitor that has received nothing.
    pub fn new() -> (r: DefaultMustacheVisitor)
        ensures
            r.seen() == Seq::<CodeView>::empty(),
    {
        DefaultMustacheVisitor { mustache: empty_mustache() }
    }

    fn keep(
        &mut self,
        kind: CodeKind,
        ctx: &TemplateContext,
        name: String,
        appended: String,
        body: Mustache,
    )
        ensures
            final(self).mustache.view() == old(self).mustache.view().push(
                CodeView {
                    kind,
                    ctx: ctx@,
                    name: name@,
                    appended: appended@,
                    body: body.view(),
                },
            ),
    {
        let ghost before = self.mustache.view();
        let code = Code { kind, ctx: ctx.duplicate(), name, appended, mustache: body };
        self.mustache.codes.push(code);
        assert(self.mustache.view() =~= before.push(code.view()));
    }
}

/// A list without instructions.
pub fn empty_mustache() -> (r: Mustache)
    ensures
        r.view() == Seq::<CodeView>::empty(),
{
    let r = Mustache { codes: Vec::new() };
    assert(r.view() =~= Seq::empty());
    r
}

impl MustacheVisitor for DefaultMustacheVisitor {
    open spec fn seen(&self) -> Seq<CodeView> {
        self.mustache.view()
    }

    fn mustache(&self, ctx: &TemplateContext) -> (r: Mustache) {
        empty_mustache()
    }

    fn iterable(&mut self, ctx: &TemplateContext, variable: String, mustache: Mustache) {
        self.keep(CodeKind::Iterable, ctx, variable, String::new(), mustache);
    }

    fn non_iterable(&mut self, ctx: &TemplateContext, variable: String, mustache: Mustache) {
        self.keep(CodeKind::NonIterable, ctx, variable, String::new(), mustache);
    }

    fn partial(&mut self, ctx: &TemplateContext, variable: String) {
        self.keep(CodeKind::Partial, ctx, variable, String::new(), empty_mustache());
    }

    fn value(&mut self, ctx: &TemplateContext, variable: String, encoded: bool) {
        let kind = if encoded {
            CodeKind::Value
        } else {
            CodeKind::UnescapedValue
        };
        self.keep(kind, ctx, variable, String::new(), empty_mustache());
    }

    fn write(&mut self, ctx: &TemplateContext, text: String) {
        self.keep(CodeKind::Write, ctx, text, String::new(), empty_mustache());
    }

    fn pragma(&mut self, ctx: &TemplateContext, pragma: String, args: String) {
        self.keep(CodeKind::Pragma, ctx, pragma, args, empty_mustache());
    }

    fn eof(&mut self, ctx: &TemplateContext) {
        self.keep(CodeKind::Eof, ctx, String::new(), String::new(), empty_mustache());
    }

    fn extend(&mut self, ctx: &TemplateContext, variable: String, mustache: Mustache) {
        self.keep(CodeKind::Extend, ctx, variable, String::new(), mustache);
    }

    fn name(&mut self, ctx: &TemplateContext, variable: String, mustache: Mustache) {
        self.keep(CodeKind::Name, ctx, variable, String::new(), mustache);
    }

    fn comment(&mut self, ctx: &TemplateContext, comment: String) {
        self.keep(CodeKind::Comment, ctx, comment, String::new(), empty_mustache());
    }

    fn delimiters(&mut self, ctx: &TemplateContext, start: String, end: String) {
        self.keep(CodeKind::Delimiters, ctx, start, end, empty_mustache());
    }
}

/// Hands one instruction to the visitor, by the call that its kind has.
pub fn deliver<V: MustacheVisitor>(code: Code, mv: &mut V)
    ensures
        final(mv).seen() == old(mv).seen().push(as_event(code.view())),
{
    let Code { kind, ctx, name, appended, mustache } = code;
    match kind {
        CodeKind::Write => mv.write(&ctx, name),
        CodeKind::Value => mv.value(&ctx, name, true),
        CodeKind::UnescapedValue => mv.value(&ctx, name, false),
        CodeKind::Iterable => mv.iterable(&ctx, name, mustache),
        CodeKind::NonIterable => mv.non_iterable(&ctx, name, mustache),
        CodeKind::Extend => mv.extend(&ctx, name, mustache),
        CodeKind::Name => mv.name(&ctx, name, mustache),
        CodeKind::Partial => mv.partial(&ctx, name),
        CodeKind::Pragma => mv.pragma(&ctx, name, appended),
        CodeKind::Comment => mv.comment(&ctx, name),
        CodeKind::Delimiters => mv.delimiters(&ctx, name, appended),
        CodeKind::Eof => mv.eof(&ctx),
    }
}

/// Hands the instructions of `m` to the visitor, first to last. A block is
/// handed over whole, with its body.
pub fn replay<V: MustacheVisitor>(m: Mustache, mv: &mut V)
    ensures
        final(mv).seen() == old(mv).seen() + m.view().map_values(|c: CodeView| as_event(c)),
{
    let ghost all = m.codes@;
    let ghost events = m.view().map_values(|c: CodeView| as_event(c));
    let ghost before = mv.seen();
    let mut rest = m.codes;
    let mut stack: Vec<Code> = Vec::new();
    while rest.len() > 0
        invariant
            rest@ == all.subrange(0, rest@.len() as int),
            stack@.len() + rest@.len() == all.len(),
            forall|j: int| 0 <= j < stack@.len() ==> stack@[j] == all[all.len() - 1 - j],
        decreases rest@.len(),
    {
        let code = rest.pop().unwrap();
        stack.push(code);
    }
    while stack.len() > 0
        invariant
            stack@.len() <= all.len(),
            all == m.codes@,
            before == old(mv).seen(),
            events == m.view().map_values(|c: CodeView| as_event(c)),
            forall|j: int| 0 <= j < stack@.len() ==> stack@[j] == all[all.len() - 1 - j],
            mv.seen() == before + events.subrange(0, all.len() - stack@.len()),
        decreases stack@.len(),
    {
        let ghost done = all.len() - stack@.len();
        let code = stack.pop().unwrap();
        assert(code == all[done]);
        assert(events[done] == as_event(code.view()));
        deliver(code, mv);
        assert(events.subrange(0, done + 1) =~= events.subrange(0, done).push(events[done]));
        assert(mv.seen() =~= before + events.subrange(0, done + 1));
    }
    assert(events.subrange(0, all.len() as int) =~= events);
}

/// Compiles the template `template`, known as `file`, and hands its
/// instructions to the visitor, first to last. A template that is refused
/// leaves the visitor as it was.
pub fn compile_into<V: MustacheVisitor>(mv: &mut V, template: &str, file: &str) -> (r: Result<
    (),
    CompileError,
>)
    ensures
        match compiled(template@, file@) {
            Outcome::Done { codes, pos, tr } => r is Ok && final(mv).seen() == old(mv).seen()
                + codes,
            Outcome::Failed { kind, line } => final(mv).seen() == old(mv).seen() && match r {
                Ok(_) => false,
                Err(e) => e.kind == kind && e.line == line && e.file@ == file@,
            },
        },
{
    match parse(template, file) {
        Err(e) => Err(e),
        Ok(m) => {
            proof {
                lemma_compiled_are_events(template@, file@);
                assert(m.view().map_values(|c: CodeView| as_event(c)) =~= m.view());
            }
            replay(m, mv);
            Ok(())
        },
    }
}

} // verus!
