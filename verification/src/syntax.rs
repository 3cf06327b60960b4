//! What a compiled template is: the mathematical description of the scan,
//! from the characters of a template to its instruction tree.

use vstd::prelude::*;
use crate::model::{CodeKind, CodeView, ContextView};
use crate::text::{is_blank, trimmed};

verus! {

/// The state of the current line, threaded through the whole scan.
#[derive(Clone, Copy, Debug)]
pub struct Tracker {
    /// The current line, counted from 1; it stops at the largest `usize`.
    pub line: usize,
    /// No character other than a blank has been taken as text on this line.
    pub only_ws: bool,
    /// Nothing but blanks has been seen on this line: no text, no tag.
    pub start_of_line: bool,
    /// The line holds one tag so far, and only blanks came before it.
    pub lone_tag: bool,
    /// A carriage return is pending.
    pub saw_cr: bool,
}

/// Why a template was refused.
#[derive(Clone, Copy, Debug, PartialEq, Eq, Structural)]
pub enum ErrorKind {
    EmptyTag,
    UnclosedTag,
    ImproperlyClosedUnescapedValue,
    MissingCloseTag,
    UnexpectedCloseTag,
    MismatchedCloseTag,
    MalformedDelimiterTag,
    /// The character source could not be read. The scan itself never reports
    /// it: it is for those who read the source.
    SourceReadError,
}

/// The mathematical value of one level of the scan: the delimiters in force,
/// the text not yet written, where in it the current line starts, and the
/// instructions built so far.
pub struct FrameView {
    pub sm: Seq<char>,
    pub em: Seq<char>,
    pub out: Seq<char>,
    pub line_start: int,
    pub codes: Seq<CodeView>,
}

/// How the scan of one level ends.
pub enum Outcome {
    /// The level is complete: its instructions, the offset after it and the
    /// line state there.
    Done { codes: Seq<CodeView>, pos: int, tr: Tracker },
    /// The template is refused at `line`.
    Failed { kind: ErrorKind, line: usize },
}

/// The line state at the start of a template.
pub open spec fn first_line() -> Tracker {
    Tracker { line: 1, only_ws: true, start_of_line: true, lone_tag: false, saw_cr: false }
}

/// A level with nothing pending and nothing built.
pub open spec fn fresh_frame(sm: Seq<char>, em: Seq<char>) -> FrameView {
    FrameView { sm, em, out: Seq::empty(), line_start: 0, codes: Seq::empty() }
}

/// The number of the line after `line`.
pub open spec fn next_line(line: usize) -> usize {
    if line < usize::MAX {
        (line + 1) as usize
    } else {
        line
    }
}

/// The line state after the character `c` was taken as text.
pub open spec fn after_text(tr: Tracker, c: char) -> Tracker {
    Tracker {
        only_ws: tr.only_ws && is_blank(c),
        start_of_line: tr.start_of_line && is_blank(c),
        saw_cr: false,
        ..tr
    }
}

/// The line state after the start of a delimiter that did not complete:
/// its characters are text, and count as no blanks.
pub open spec fn after_broken_delimiter(tr: Tracker) -> Tracker {
    Tracker { only_ws: false, start_of_line: false, saw_cr: false, ..tr }
}

/// The line state after a tag.
pub open spec fn after_tag(tr: Tracker) -> Tracker {
    Tracker { lone_tag: tr.start_of_line, start_of_line: false, saw_cr: false, ..tr }
}

/// The line state after a line feed.
pub open spec fn after_newline(tr: Tracker) -> Tracker {
    Tracker {
        line: next_line(tr.line),
        only_ws: true,
        start_of_line: true,
        lone_tag: false,
        saw_cr: false,
    }
}

/// The pending text after a line feed. The line feed, with a pending
/// carriage return before it, is kept unless the line held blanks and one
/// tag only; in that case the line's own pending blanks go too.
pub open spec fn on_newline(fr: FrameView, tr: Tracker) -> FrameView {
    let out = if tr.lone_tag && tr.only_ws {
        fr.out.subrange(0, fr.line_start)
    } else if tr.saw_cr {
        fr.out.push('\r').push('\n')
    } else {
        fr.out.push('\n')
    };
    FrameView { out, line_start: out.len() as int, ..fr }
}

/// The context that an instruction emitted now carries.
pub open spec fn ctx_of(fr: FrameView, file: Seq<char>, tr: Tracker) -> ContextView {
    ContextView {
        sm: fr.sm,
        em: fr.em,
        file,
        line: tr.line as int,
        start_of_line: tr.start_of_line,
    }
}

/// An instruction without a body.
pub open spec fn leaf(kind: CodeKind, ctx: ContextView, name: Seq<char>, appended: Seq<char>)
    -> CodeView {
    CodeView { kind, ctx, name, appended, body: Seq::empty() }
}

/// The level after its pending text was written out. Empty text writes
/// nothing. With `drop_line` the pending text of the current line is
/// discarded instead of written.
pub open spec fn flushed(fr: FrameView, ctx: ContextView, drop_line: bool) -> FrameView {
    let text = if drop_line {
        fr.out.subrange(0, fr.line_start)
    } else {
        fr.out
    };
    FrameView {
        out: Seq::empty(),
        line_start: 0,
        codes: if text.len() == 0 {
            fr.codes
        } else {
            fr.codes.push(leaf(CodeKind::Write, ctx, text, Seq::empty()))
        },
        ..fr
    }
}

/// The level with one more instruction.
pub open spec fn pushed(fr: FrameView, code: CodeView) -> FrameView {
    FrameView { codes: fr.codes.push(code), ..fr }
}

/// How many characters of `d`, at least `k`, stand at `pos` in `s`, given
/// that the first `k` do.
pub open spec fn common_prefix(s: Seq<char>, pos: int, d: Seq<char>, k: int) -> int
    decreases d.len() - k,
{
    if 0 <= k < d.len() && 0 <= pos + k < s.len() && s[pos + k] == d[k] {
        common_prefix(s, pos, d, k + 1)
    } else {
        k
    }
}

/// The raw text of the tag whose content starts at `pos`, with the offset
/// after its end delimiter; `None` where the template ends first. `acc` is
/// the text gathered so far. The start of an end delimiter that does not
/// complete belongs to the tag's text.
pub open spec fn scan_tag(s: Seq<char>, pos: int, em: Seq<char>, acc: Seq<char>) -> Option<
    (Seq<char>, int),
>
    decreases s.len() - pos,
{
    if pos < 0 || pos >= s.len() || em.len() == 0 {
        None
    } else if s[pos] == em[0] {
        let k = common_prefix(s, pos, em, 1);
        if k == em.len() {
            Some((acc, pos + k))
        } else if 1 <= k <= em.len() && pos + k <= s.len() {
            scan_tag(s, pos + k, em, acc + em.subrange(0, k))
        } else {
            None
        }
    } else {
        scan_tag(s, pos + 1, em, acc.push(s[pos]))
    }
}

/// The sigils that open a block.
pub open spec fn is_block_sigil(c: char) -> bool {
    c == '#' || c == '^' || c == '<' || c == '$'
}

/// The characters that select a tag's kind.
pub open spec fn is_sigil(c: char) -> bool {
    is_block_sigil(c) || c == '/' || c == '>' || c == '{' || c == '&' || c == '%' || c == '!'
        || c == '='
}

/// The kind of block that a sigil opens.
pub open spec fn block_kind(c: char) -> CodeKind {
    if c == '#' {
        CodeKind::Iterable
    } else if c == '^' {
        CodeKind::NonIterable
    } else if c == '<' {
        CodeKind::Extend
    } else {
        CodeKind::Name
    }
}

/// The name in a tag's raw text: what follows the sigil, or the whole text
/// where there is none, without the blanks around it.
pub open spec fn tag_name(raw: Seq<char>) -> Seq<char> {
    if raw.len() > 0 && is_sigil(raw[0]) {
        trimmed(raw.subrange(1, raw.len() as int))
    } else {
        trimmed(raw)
    }
}

/// A tag is empty where it holds nothing, or no name where its kind needs
/// one. A comment and a change of delimiters need none.
pub open spec fn is_empty_tag(raw: Seq<char>) -> bool {
    raw.len() == 0 || (raw[0] != '!' && raw[0] != '=' && tag_name(raw).len() == 0)
}

/// The length of the run of characters other than blanks that starts at `i`.
pub open spec fn word_run(s: Seq<char>, i: int) -> int
    decreases s.len() - i,
{
    if 0 <= i < s.len() && !is_blank(s[i]) {
        1 + word_run(s, i + 1)
    } else {
        0
    }
}

/// The length of the run of characters other than a space that starts at `i`.
pub open spec fn until_space(s: Seq<char>, i: int) -> int
    decreases s.len() - i,
{
    if 0 <= i < s.len() && s[i] != ' ' {
        1 + until_space(s, i + 1)
    } else {
        0
    }
}

/// A pragma's name: its text up to the first space.
pub open spec fn pragma_name(text: Seq<char>) -> Seq<char> {
    text.subrange(0, until_space(text, 0))
}

/// A pragma's arguments: what follows the first space, as it stands.
pub open spec fn pragma_args(text: Seq<char>) -> Seq<char> {
    let k = until_space(text, 0);
    if k < text.len() {
        text.subrange(k + 1, text.len() as int)
    } else {
        Seq::empty()
    }
}

/// The two delimiters that the tag `=start end=` names; `None` unless the
/// text between the two `=` is two words divided by blanks.
pub open spec fn delimiters_of(raw: Seq<char>) -> Option<(Seq<char>, Seq<char>)> {
    if raw.len() < 2 || raw[0] != '=' || raw.last() != '=' {
        None
    } else {
        let inner = trimmed(raw.subrange(1, raw.len() - 1));
        let a = word_run(inner, 0);
        let rest = trimmed(inner.subrange(a, inner.len() as int));
        if a > 0 && rest.len() > 0 && word_run(rest, 0) == rest.len() {
            Some((inner.subrange(0, a), rest))
        } else {
            None
        }
    }
}

/// What a tag that neither opens nor closes a block does to its level: the
/// pending text is written, then the tag's own instruction follows. `pos`
/// is the offset after the tag; the result holds the offset at which the
/// scan goes on.
pub open spec fn leaf_step(
    s: Seq<char>,
    pos: int,
    raw: Seq<char>,
    tr: Tracker,
    fr: FrameView,
    file: Seq<char>,
) -> Result<(FrameView, int), ErrorKind> {
    let ctx = ctx_of(fr, file, tr);
    let base = flushed(fr, ctx, false);
    let name = tag_name(raw);
    let none = Seq::<char>::empty();
    let c = raw[0];
    if c == '>' {
        Ok((pushed(base, leaf(CodeKind::Partial, ctx, name, none)), pos))
    } else if c == '{' {
        if fr.em.len() > 0 && fr.em.last() == '}' {
            if 0 <= pos < s.len() && s[pos] == '}' {
                Ok((pushed(base, leaf(CodeKind::UnescapedValue, ctx, name, none)), pos + 1))
            } else {
                Err(ErrorKind::ImproperlyClosedUnescapedValue)
            }
        } else if name.len() == 0 || name.last() != '}' {
            Err(ErrorKind::ImproperlyClosedUnescapedValue)
        } else if trimmed(name.drop_last()).len() == 0 {
            Err(ErrorKind::EmptyTag)
        } else {
            Ok(
                (
                    pushed(
                        base,
                        leaf(CodeKind::UnescapedValue, ctx, trimmed(name.drop_last()), none),
                    ),
                    pos,
                ),
            )
        }
    } else if c == '&' {
        Ok((pushed(base, leaf(CodeKind::UnescapedValue, ctx, name, none)), pos))
    } else if c == '%' {
        Ok(
            (
                pushed(base, leaf(CodeKind::Pragma, ctx, pragma_name(name), pragma_args(name))),
                pos,
            ),
        )
    } else if c == '!' {
        Ok((pushed(base, leaf(CodeKind::Comment, ctx, name, none)), pos))
    } else if c == '=' {
        match delimiters_of(raw) {
            None => Err(ErrorKind::MalformedDelimiterTag),
            Some((a, b)) => Ok(
                (
                    FrameView {
                        sm: a,
                        em: b,
                        ..pushed(base, leaf(CodeKind::Delimiters, ctx, a, b))
                    },
                    pos,
                ),
            ),
        }
    } else {
        Ok((pushed(base, leaf(CodeKind::Value, ctx, name, none)), pos))
    }
}

/// How a level ends at a closing tag named `name`, met with the line state
/// `tr`; `pos` is the offset after the tag. Pending text is written, but
/// for the blanks before a closing tag that is the first thing on its line.
pub open spec fn close_step(
    pos: int,
    name: Seq<char>,
    tr: Tracker,
    fr: FrameView,
    tag: Option<Seq<char>>,
    file: Seq<char>,
) -> Outcome {
    match tag {
        None => Outcome::Failed { kind: ErrorKind::UnexpectedCloseTag, line: tr.line },
        Some(t) => if t != name {
            Outcome::Failed { kind: ErrorKind::MismatchedCloseTag, line: tr.line }
        } else {
            Outcome::Done {
                codes: flushed(fr, ctx_of(fr, file, tr), tr.start_of_line && tr.only_ws).codes,
                pos,
                tr: after_tag(tr),
            }
        },
    }
}

/// How a level ends where the template ends: the outermost level writes its
/// pending text and marks the end; any other level lacks its closing tag.
pub open spec fn end_step(
    pos: int,
    tr: Tracker,
    fr: FrameView,
    tag: Option<Seq<char>>,
    file: Seq<char>,
) -> Outcome {
    if tag is Some {
        Outcome::Failed { kind: ErrorKind::MissingCloseTag, line: tr.line }
    } else {
        let ctx = ctx_of(fr, file, tr);
        Outcome::Done {
            codes: flushed(fr, ctx, false).codes.push(
                leaf(CodeKind::Eof, ctx, Seq::empty(), Seq::empty()),
            ),
            pos,
            tr,
        }
    }
}

/// The level after a block that it holds was closed. `open` is the line
/// state at the block's tag, `now` the one after its closing tag. The
/// level's pending text is written before the block; the blanks before the
/// opening tag are discarded where the line held blanks only and the block
/// goes over more than one line.
pub open spec fn block_step(
    sigil: char,
    name: Seq<char>,
    body: Seq<CodeView>,
    open: Tracker,
    now: Tracker,
    fr: FrameView,
    file: Seq<char>,
) -> FrameView {
    let ctx = ctx_of(fr, file, open);
    pushed(
        flushed(fr, ctx, open.only_ws && now.line != open.line),
        CodeView { kind: block_kind(sigil), ctx, name, appended: Seq::empty(), body },
    )
}

/// The scan of one level of `s` from `pos` on: `tag` names the block that
/// the level is the body of (`None` for the outermost), `fr` and `tr` are
/// the level and the line as they stand at `pos`.
///
/// The tests that an offset lies after `pos` and within `s` make the
/// definition well-founded. They never fail: a tag ends after its start,
/// and a level ends at or after the offset it started from.
///
/// The definition is opaque. The lemmas that follow unfold it by one step,
/// one for each thing that can stand at `pos`; `reveal_with_fuel` unfolds
/// it on a given template.
#[verifier::opaque]
pub open spec fn parse_frame(
    s: Seq<char>,
    pos: int,
    tr: Tracker,
    fr: FrameView,
    tag: Option<Seq<char>>,
    file: Seq<char>,
) -> Outcome
    decreases s.len() - pos,
{
    if pos < 0 || pos >= s.len() || fr.sm.len() == 0 {
        end_step(pos, tr, fr, tag, file)
    } else if s[pos] == '\r' {
        parse_frame(s, pos + 1, Tracker { saw_cr: true, ..tr }, fr, tag, file)
    } else if s[pos] == '\n' {
        parse_frame(s, pos + 1, after_newline(tr), on_newline(fr, tr), tag, file)
    } else if s[pos] != fr.sm[0] {
        parse_frame(
            s,
            pos + 1,
            after_text(tr, s[pos]),
            FrameView { out: fr.out.push(s[pos]), ..fr },
            tag,
            file,
        )
    } else {
        let k = common_prefix(s, pos, fr.sm, 1);
        let here = Tracker { saw_cr: false, ..tr };
        if k < 1 || k > fr.sm.len() || pos + k > s.len() {
            end_step(pos, tr, fr, tag, file)
        } else if k != fr.sm.len() {
            parse_frame(
                s,
                pos + k,
                after_broken_delimiter(tr),
                FrameView { out: fr.out + fr.sm.subrange(0, k), ..fr },
                tag,
                file,
            )
        } else {
            match scan_tag(s, pos + k, fr.em, Seq::empty()) {
                None => Outcome::Failed { kind: ErrorKind::UnclosedTag, line: tr.line },
                Some((raw, after)) => if is_empty_tag(raw) {
                    Outcome::Failed { kind: ErrorKind::EmptyTag, line: tr.line }
                } else if is_block_sigil(raw[0]) {
                    if after <= pos || after > s.len() {
                        Outcome::Failed { kind: ErrorKind::UnclosedTag, line: tr.line }
                    } else {
                        match parse_frame(
                            s,
                            after,
                            after_tag(here),
                            fresh_frame(fr.sm, fr.em),
                            Some(tag_name(raw)),
                            file,
                        ) {
                            Outcome::Failed { kind, line } => Outcome::Failed { kind, line },
                            Outcome::Done { codes, pos: resume, tr: now } => if resume <= pos || resume
                                > s.len() {
                                Outcome::Failed { kind: ErrorKind::UnclosedTag, line: tr.line }
                            } else {
                                parse_frame(
                                    s,
                                    resume,
                                    now,
                                    block_step(raw[0], tag_name(raw), codes, here, now, fr, file),
                                    tag,
                                    file,
                                )
                            },
                        }
                    }
                } else if raw[0] == '/' {
                    close_step(after, tag_name(raw), here, fr, tag, file)
                } else {
                    match leaf_step(s, after, raw, here, fr, file) {
                        Err(kind) => Outcome::Failed { kind, line: tr.line },
                        Ok((next, resume)) => if resume <= pos || resume > s.len() {
                            Outcome::Failed { kind: ErrorKind::UnclosedTag, line: tr.line }
                        } else {
                            parse_frame(s, resume, after_tag(here), next, tag, file)
                        },
                    }
                }
            }
        }
    }
}

/// Whether a complete start delimiter stands at `pos`.
pub open spec fn tag_at(s: Seq<char>, pos: int, fr: FrameView) -> bool {
    &&& 0 <= pos < s.len()
    &&& fr.sm.len() > 0
    &&& s[pos] != '\r'
    &&& s[pos] != '\n'
    &&& s[pos] == fr.sm[0]
    &&& common_prefix(s, pos, fr.sm, 1) == fr.sm.len()
    &&& pos + fr.sm.len() <= s.len()
}

/// The line state in which a tag is handled: a pending carriage return is
/// forgotten.
pub open spec fn at_tag(tr: Tracker) -> Tracker {
    Tracker { saw_cr: false, ..tr }
}

/// At the end of the source a level ends.
pub proof fn lemma_at_end(
    s: Seq<char>,
    pos: int,
    tr: Tracker,
    fr: FrameView,
    tag: Option<Seq<char>>,
    file: Seq<char>,
)
    requires
        pos >= s.len(),
    ensures
        parse_frame(s, pos, tr, fr, tag, file) == end_step(pos, tr, fr, tag, file),
{
    reveal(parse_frame);
}

/// A carriage return is held back.
pub proof fn lemma_at_cr(
    s: Seq<char>,
    pos: int,
    tr: Tracker,
    fr: FrameView,
    tag: Option<Seq<char>>,
    file: Seq<char>,
)
    requires
        0 <= pos < s.len(),
        fr.sm.len() > 0,
        s[pos] == '\r',
    ensures
        parse_frame(s, pos, tr, fr, tag, file) == parse_frame(
            s,
            pos + 1,
            Tracker { saw_cr: true, ..tr },
            fr,
            tag,
            file,
        ),
{
    reveal(parse_frame);
}

/// A line feed ends the line.
pub proof fn lemma_at_newline(
    s: Seq<char>,
    pos: int,
    tr: Tracker,
    fr: FrameView,
    tag: Option<Seq<char>>,
    file: Seq<char>,
)
    requires
        0 <= pos < s.len(),
        fr.sm.len() > 0,
        s[pos] == '\n',
    ensures
        parse_frame(s, pos, tr, fr, tag, file) == parse_frame(
            s,
            pos + 1,
            after_newline(tr),
            on_newline(fr, tr),
            tag,
            file,
        ),
{
    reveal(parse_frame);
}

/// A character that starts no delimiter is text.
pub proof fn lemma_at_text(
    s: Seq<char>,
    pos: int,
    tr: Tracker,
    fr: FrameView,
    tag: Option<Seq<char>>,
    file: Seq<char>,
)
    requires
        0 <= pos < s.len(),
        fr.sm.len() > 0,
        s[pos] != '\r',
        s[pos] != '\n',
        s[pos] != fr.sm[0],
    ensures
        parse_frame(s, pos, tr, fr, tag, file) == parse_frame(
            s,
            pos + 1,
            after_text(tr, s[pos]),
            FrameView { out: fr.out.push(s[pos]), ..fr },
            tag,
            file,
        ),
{
    reveal(parse_frame);
}

/// The start of a delimiter that does not complete is text.
pub proof fn lemma_at_broken_delimiter(
    s: Seq<char>,
    pos: int,
    tr: Tracker,
    fr: FrameView,
    tag: Option<Seq<char>>,
    file: Seq<char>,
)
    requires
        0 <= pos < s.len(),
        fr.sm.len() > 0,
        s[pos] != '\r',
        s[pos] != '\n',
        s[pos] == fr.sm[0],
        1 <= common_prefix(s, pos, fr.sm, 1) < fr.sm.len(),
        pos + common_prefix(s, pos, fr.sm, 1) <= s.len(),
    ensures
        parse_frame(s, pos, tr, fr, tag, file) == parse_frame(
            s,
            pos + common_prefix(s, pos, fr.sm, 1),
            after_broken_delimiter(tr),
            FrameView { out: fr.out + fr.sm.subrange(0, common_prefix(s, pos, fr.sm, 1)), ..fr },
            tag,
            file,
        ),
{
    reveal(parse_frame);
}

/// A tag that the source ends in is refused.
pub proof fn lemma_at_unclosed_tag(
    s: Seq<char>,
    pos: int,
    tr: Tracker,
    fr: FrameView,
    tag: Option<Seq<char>>,
    file: Seq<char>,
)
    requires
        tag_at(s, pos, fr),
        scan_tag(s, pos + fr.sm.len(), fr.em, Seq::empty()) is None,
    ensures
        parse_frame(s, pos, tr, fr, tag, file) == (Outcome::Failed {
            kind: ErrorKind::UnclosedTag,
            line: tr.line,
        }),
{
    reveal(parse_frame);
}

/// An empty tag is refused.
pub proof fn lemma_at_empty_tag(
    s: Seq<char>,
    pos: int,
    tr: Tracker,
    fr: FrameView,
    tag: Option<Seq<char>>,
    file: Seq<char>,
    raw: Seq<char>,
    after: int,
)
    requires
        tag_at(s, pos, fr),
        scan_tag(s, pos + fr.sm.len(), fr.em, Seq::empty()) == Some((raw, after)),
        is_empty_tag(raw),
    ensures
        parse_frame(s, pos, tr, fr, tag, file) == (Outcome::Failed {
            kind: ErrorKind::EmptyTag,
            line: tr.line,
        }),
{
    reveal(parse_frame);
}

/// A tag that opens a block has the block's body compiled as a level of
/// its own, up to the closing tag; the scan goes on after it.
pub proof fn lemma_at_block_tag(
    s: Seq<char>,
    pos: int,
    tr: Tracker,
    fr: FrameView,
    tag: Option<Seq<char>>,
    file: Seq<char>,
    raw: Seq<char>,
    after: int,
)
    requires
        tag_at(s, pos, fr),
        scan_tag(s, pos + fr.sm.len(), fr.em, Seq::empty()) == Some((raw, after)),
        !is_empty_tag(raw),
        is_block_sigil(raw[0]),
        pos < after <= s.len(),
    ensures
        parse_frame(s, pos, tr, fr, tag, file) == match parse_frame(
            s,
            after,
            after_tag(at_tag(tr)),
            fresh_frame(fr.sm, fr.em),
            Some(tag_name(raw)),
            file,
        ) {
            Outcome::Failed { kind, line } => Outcome::Failed { kind, line },
            Outcome::Done { codes, pos: resume, tr: now } => if resume <= pos || resume
                > s.len() {
                Outcome::Failed { kind: ErrorKind::UnclosedTag, line: tr.line }
            } else {
                parse_frame(
                    s,
                    resume,
                    now,
                    block_step(raw[0], tag_name(raw), codes, at_tag(tr), now, fr, file),
                    tag,
                    file,
                )
            },
        },
{
    reveal(parse_frame);
}

/// A closing tag ends the level.
pub proof fn lemma_at_close_tag(
    s: Seq<char>,
    pos: int,
    tr: Tracker,
    fr: FrameView,
    tag: Option<Seq<char>>,
    file: Seq<char>,
    raw: Seq<char>,
    after: int,
)
    requires
        tag_at(s, pos, fr),
        scan_tag(s, pos + fr.sm.len(), fr.em, Seq::empty()) == Some((raw, after)),
        !is_empty_tag(raw),
        raw[0] == '/',
    ensures
        parse_frame(s, pos, tr, fr, tag, file) == close_step(
            after,
            tag_name(raw),
            at_tag(tr),
            fr,
            tag,
            file,
        ),
{
    reveal(parse_frame);
}

/// Any other tag adds its instruction, and the scan goes on.
pub proof fn lemma_at_leaf_tag(
    s: Seq<char>,
    pos: int,
    tr: Tracker,
    fr: FrameView,
    tag: Option<Seq<char>>,
    file: Seq<char>,
    raw: Seq<char>,
    after: int,
)
    requires
        tag_at(s, pos, fr),
        scan_tag(s, pos + fr.sm.len(), fr.em, Seq::empty()) == Some((raw, after)),
        !is_empty_tag(raw),
        !is_block_sigil(raw[0]),
        raw[0] != '/',
    ensures
        parse_frame(s, pos, tr, fr, tag, file) == match leaf_step(
            s,
            after,
            raw,
            at_tag(tr),
            fr,
            file,
        ) {
            Err(kind) => Outcome::Failed { kind, line: tr.line },
            Ok((next, resume)) => if resume <= pos || resume > s.len() {
                Outcome::Failed { kind: ErrorKind::UnclosedTag, line: tr.line }
            } else {
                parse_frame(s, resume, after_tag(at_tag(tr)), next, tag, file)
            },
        },
{
    reveal(parse_frame);
}

/// The start delimiter that a template begins with.
pub open spec fn default_sm() -> Seq<char> {
    seq!['{', '{']
}

/// The end delimiter that a template begins with.
pub open spec fn default_em() -> Seq<char> {
    seq!['}', '}']
}

/// What compiling the template `s`, known as `file`, yields.
pub open spec fn compiled(s: Seq<char>, file: Seq<char>) -> Outcome {
    parse_frame(s, 0, first_line(), fresh_frame(default_sm(), default_em()), None, file)
}

} // verus!
