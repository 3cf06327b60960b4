//! The instruction tree that compiling a template yields.

use vstd::prelude::*;

verus! {

/// What accompanies every instruction: the delimiters in force, the name of
/// the source, the line and whether nothing but blanks came before on it.
#[derive(Debug)]
pub struct TemplateContext {
    pub sm: String,
    pub em: String,
    pub file: String,
    pub line: usize,
    pub start_of_line: bool,
}

/// The mathematical value of a `TemplateContext`.
pub struct ContextView {
    pub sm: Seq<char>,
    pub em: Seq<char>,
    pub file: Seq<char>,
    pub line: int,
    pub start_of_line: bool,
}

impl View for TemplateContext {
    type V = ContextView;

    open spec fn view(&self) -> ContextView {
        ContextView {
            sm: self.sm@,
            em: self.em@,
            file: self.file@,
            line: self.line as int,
            start_of_line: self.start_of_line,
        }
    }
}

impl TemplateContext {
    /// A context with the same fields.
    pub fn duplicate(&self) -> (r: TemplateContext)
        ensures
            r@ == self@,
    {
        TemplateContext {
            sm: self.sm.clone(),
            em: self.em.clone(),
            file: self.file.clone(),
            line: self.line,
            start_of_line: self.start_of_line,
        }
    }
}

impl PartialEq for TemplateContext {
    fn eq(&self, other: &TemplateContext) -> (r: bool) {
        self.sm == other.sm && self.em == other.em && self.file == other.file && self.line
            == other.line && self.start_of_line == other.start_of_line
    }
}

impl vstd::std_specs::cmp::PartialEqSpecImpl for TemplateContext {
    open spec fn obeys_eq_spec() -> bool {
        true
    }

    open spec fn eq_spec(&self, other: &TemplateContext) -> bool {
        self@ == other@
    }
}

impl Eq for TemplateContext {}

/// The kind of an instruction.
#[derive(Clone, Copy, Debug, PartialEq, Eq, Structural)]
pub enum CodeKind {
    Write,
    Value,
    UnescapedValue,
    Iterable,
    NonIterable,
    Extend,
    Name,
    Partial,
    Pragma,
    Comment,
    Delimiters,
    Eof,
}

/// One instruction. `name` is the text written, the variable, the partial,
/// the pragma, the comment or the new start delimiter; `appended` holds a
/// pragma's arguments or the new end delimiter; `mustache` is the body of a
/// block and empty otherwise.
#[derive(Debug)]
pub struct Code {
    pub kind: CodeKind,
    pub ctx: TemplateContext,
    pub name: String,
    pub appended: String,
    pub mustache: Mustache,
}

/// An ordered list of instructions.
#[derive(Debug)]
pub struct Mustache {
    pub codes: Vec<Code>,
}

/// The mathematical value of a `Code`.
pub struct CodeView {
    pub kind: CodeKind,
    pub ctx: ContextView,
    pub name: Seq<char>,
    pub appended: Seq<char>,
    pub body: Seq<CodeView>,
}

/// The kinds of instruction that hold a body.
pub open spec fn is_block_kind(kind: CodeKind) -> bool {
    kind == CodeKind::Iterable || kind == CodeKind::NonIterable || kind == CodeKind::Extend
        || kind == CodeKind::Name
}

/// The kinds of instruction that use the second text.
pub open spec fn has_appended(kind: CodeKind) -> bool {
    kind == CodeKind::Pragma || kind == CodeKind::Delimiters
}

/// The instruction `c` reduced to what its kind uses: no body unless it is
/// a block, no second text unless it is a pragma or a change of
/// delimiters, no text at all for the end mark.
pub open spec fn as_event(c: CodeView) -> CodeView {
    CodeView {
        kind: c.kind,
        ctx: c.ctx,
        name: if c.kind == CodeKind::Eof {
            Seq::empty()
        } else {
            c.name
        },
        appended: if has_appended(c.kind) {
            c.appended
        } else {
            Seq::empty()
        },
        body: if is_block_kind(c.kind) {
            c.body
        } else {
            Seq::empty()
        },
    }
}

impl Code {
    /// The mathematical value of the instruction, body included.
    pub open spec fn view(&self) -> CodeView
        decreases self,
    {
        CodeView {
            kind: self.kind,
            ctx: self.ctx@,
            name: self.name@,
            appended: self.appended@,
            body: self.mustache.view(),
        }
    }
}

impl Mustache {
    /// The mathematical values of the instructions, in their order.
    pub open spec fn view(&self) -> Seq<CodeView>
        decreases self,
    {
        Seq::new(
            self.codes@.len(),
            |i: int|
                if 0 <= i < self.codes@.len() {
                    self.codes@[i].view()
                } else {
                    arbitrary()
                },
        )
    }
}

} // verus!
