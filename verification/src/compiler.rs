//! The compiler: a single pass over the characters of a template that
//! builds its instruction tree.

use vstd::prelude::*;
use crate::cursor::Lookahead;
use crate::model::{Code, CodeKind, Mustache, TemplateContext};
use crate::syntax::{
    at_tag, lemma_at_block_tag, lemma_at_broken_delimiter, lemma_at_close_tag, lemma_at_cr,
    lemma_at_empty_tag, lemma_at_end, lemma_at_leaf_tag, lemma_at_newline, lemma_at_text,
    lemma_at_unclosed_tag, tag_at, after_broken_delimiter, after_newline, after_tag,
    after_text, block_kind, block_step, common_prefix, compiled, ctx_of, delimiters_of,
    flushed, fresh_frame, is_block_sigil, is_sigil, leaf, leaf_step, on_newline, parse_frame,
    pushed, scan_tag, tag_name, until_space, word_run, ErrorKind, FrameView, Outcome, Tracker,
};
use crate::text::{append_text, blank, chars_of, copy_text, same_text, slice_of, text_of, trim};

verus! {

/// A refusal: why, in which source and on which line.
#[derive(Debug)]
pub struct CompileError {
    pub kind: ErrorKind,
    pub file: String,
    pub line: usize,
}

/// Whether the result `r` of a compile is the outcome `o` for a source
/// known as `file`.
pub open spec fn agrees(r: Result<Mustache, CompileError>, o: Outcome, file: Seq<char>) -> bool {
    match o {
        Outcome::Done { codes, pos, tr } => match r {
            Ok(m) => m.view() == codes,
            Err(_) => false,
        },
        Outcome::Failed { kind, line } => match r {
            Ok(_) => false,
            Err(e) => e.kind == kind && e.line == line && e.file@ == file,
        },
    }
}

/// One level of the scan: the delimiters in force, the text not yet
/// written and the instructions built so far.
struct Frame {
    sm: Vec<char>,
    em: Vec<char>,
    out: Vec<char>,
    line_start: usize,
    body: Mustache,
}

impl Frame {
    spec fn view(&self) -> FrameView {
        FrameView {
            sm: self.sm@,
            em: self.em@,
            out: self.out@,
            line_start: self.line_start as int,
            codes: self.body.view(),
        }
    }

    spec fn wf(&self) -> bool {
        &&& self.sm@.len() > 0
        &&& self.em@.len() > 0
        &&& self.line_start <= self.out@.len()
    }

    fn new(sm: Vec<char>, em: Vec<char>) -> (r: Frame)
        requires
            sm@.len() > 0,
            em@.len() > 0,
        ensures
            r.wf(),
            r@ == fresh_frame(sm@, em@),
    {
        let r = Frame {
            sm,
            em,
            out: Vec::new(),
            line_start: 0,
            body: Mustache { codes: Vec::new() },
        };
        assert(r.body.view() =~= Seq::empty());
        r
    }

    fn context(&self, file: &str, tr: &Tracker) -> (c: TemplateContext)
        ensures
            c@ == ctx_of(self@, file@, *tr),
    {
        TemplateContext {
            sm: text_of(&self.sm),
            em: text_of(&self.em),
            file: file.to_owned(),
            line: tr.line,
            start_of_line: tr.start_of_line,
        }
    }

    fn push(&mut self, code: Code)
        requires
            old(self).wf(),
        ensures
            final(self).wf(),
            final(self)@ == pushed(old(self)@, code.view()),
    {
        let ghost before = self.body.view();
        self.body.codes.push(code);
        assert(self.body.view() =~= before.push(code.view()));
    }

    fn flush(&mut self, ctx: TemplateContext, drop_line: bool)
        requires
            old(self).wf(),
        ensures
            final(self).wf(),
            final(self)@ == flushed(old(self)@, ctx@, drop_line),
    {
        let mut text: Vec<char> = Vec::new();
        core::mem::swap(&mut text, &mut self.out);
        if drop_line {
            text.truncate(self.line_start);
        }
        self.line_start = 0;
        if text.len() > 0 {
            let code = make_leaf(CodeKind::Write, ctx, text, Vec::new());
            self.push(code);
        }
    }

    fn newline(&mut self, tr: &Tracker)
        requires
            old(self).wf(),
        ensures
            final(self).wf(),
            final(self)@ == on_newline(old(self)@, *tr),
    {
        if tr.lone_tag && tr.only_ws {
            self.out.truncate(self.line_start);
        } else {
            if tr.saw_cr {
                self.out.push('\r');
            }
            self.out.push('\n');
        }
        self.line_start = self.out.len();
    }
}

/// An instruction without a body.
fn make_leaf(kind: CodeKind, ctx: TemplateContext, name: Vec<char>, appended: Vec<char>) -> (r:
    Code)
    ensures
        r.view() == leaf(kind, ctx@, name@, appended@),
{
    let r = Code {
        kind,
        ctx,
        name: text_of(&name),
        appended: text_of(&appended),
        mustache: Mustache { codes: Vec::new() },
    };
    assert(r.mustache.view() =~= Seq::empty());
    r
}

fn block_sigil(c: char) -> (r: bool)
    ensures
        r == is_block_sigil(c),
{
    c == '#' || c == '^' || c == '<' || c == '$'
}

fn sigil(c: char) -> (r: bool)
    ensures
        r == is_sigil(c),
{
    block_sigil(c) || c == '/' || c == '>' || c == '{' || c == '&' || c == '%' || c == '!'
        || c == '='
}

fn kind_of_block(c: char) -> (r: CodeKind)
    ensures
        r == block_kind(c),
{
    if c == '#' {
        CodeKind::Iterable
    } else if c == '^' {
        CodeKind::NonIterable
    } else if c == '<' {
        CodeKind::Extend
    } else {
        CodeKind::Name
    }
}

fn name_of_tag(raw: &Vec<char>) -> (r: Vec<char>)
    ensures
        r@ == tag_name(raw@),
{
    if raw.len() > 0 && sigil(raw[0]) {
        let rest = slice_of(raw, 1, raw.len());
        trim(&rest)
    } else {
        trim(raw)
    }
}

/// After the first character of the delimiter `d` was taken from the
/// cursor, takes as many of the following as continue it.
fn match_rest(cursor: &mut Lookahead, d: &Vec<char>) -> (k: usize)
    requires
        d@.len() >= 1,
        1 <= old(cursor).offset() <= old(cursor).source().len(),
    ensures
        final(cursor).source() == old(cursor).source(),
        k == common_prefix(old(cursor).source(), old(cursor).offset() - 1, d@, 1),
        1 <= k <= d@.len(),
        final(cursor).offset() == old(cursor).offset() - 1 + k,
        final(cursor).offset() <= old(cursor).source().len(),
{
    let ghost src = cursor.source();
    let ghost start = cursor.offset() - 1;
    let mut k: usize = 1;
    let mut going: bool = true;
    while going && k < d.len()
        invariant
            1 <= k <= d@.len(),
            cursor.source() == src,
            cursor.offset() == start + k,
            cursor.offset() <= src.len(),
            common_prefix(src, start, d@, k as int) == common_prefix(src, start, d@, 1),
            !going ==> common_prefix(src, start, d@, k as int) == k,
        decreases d@.len() - k + if going { 1int } else { 0int },
    {
        match cursor.peek() {
            Some(c) => {
                if c == d[k] {
                    cursor.next();
                    k += 1;
                } else {
                    going = false;
                }
            },
            None => {
                going = false;
            },
        }
    }
    k
}

/// Takes a tag's raw text from the cursor, up to and with its end
/// delimiter; `None` where the source ends first.
fn scan_tag_text(cursor: &mut Lookahead, em: &Vec<char>) -> (r: Option<Vec<char>>)
    requires
        em@.len() >= 1,
    ensures
        final(cursor).source() == old(cursor).source(),
        final(cursor).offset() >= old(cursor).offset(),
        final(cursor).offset() <= old(cursor).source().len(),
        match scan_tag(old(cursor).source(), old(cursor).offset(), em@, Seq::empty()) {
            None => r is None,
            Some((raw, after)) => r is Some && r.unwrap()@ == raw && final(cursor).offset()
                == after,
        },
{
    let ghost src = cursor.source();
    let ghost goal = scan_tag(src, cursor.offset(), em@, Seq::empty());
    let ghost from = cursor.offset();
    let mut acc: Vec<char> = Vec::new();
    loop
        invariant
            em@.len() >= 1,
            src == old(cursor).source(),
            from == old(cursor).offset(),
            goal == scan_tag(src, from, em@, Seq::empty()),
            cursor.source() == src,
            cursor.offset() >= from,
            scan_tag(src, cursor.offset(), em@, acc@) == goal,
        decreases src.len() - cursor.offset(),
    {
        match cursor.next() {
            None => {
                return None;
            },
            Some(c) => {
                if c == em[0] {
                    let k = match_rest(cursor, em);
                    if k == em.len() {
                        return Some(acc);
                    }
                    append_text(&mut acc, em, k);
                } else {
                    acc.push(c);
                }
            },
        }
    }
}

/// The length of the run of characters other than blanks at the start of `s`.
fn word_len(s: &Vec<char>) -> (k: usize)
    ensures
        k == word_run(s@, 0),
        k <= s@.len(),
{
    let mut k: usize = 0;
    while k < s.len() && !blank(s[k])
        invariant
            k <= s@.len(),
            k + word_run(s@, k as int) == word_run(s@, 0),
        decreases s@.len() - k,
    {
        k += 1;
    }
    k
}

/// The length of the run of characters other than a space at the start of `s`.
fn space_index(s: &Vec<char>) -> (k: usize)
    ensures
        k == until_space(s@, 0),
        k <= s@.len(),
{
    let mut k: usize = 0;
    while k < s.len() && s[k] != ' '
        invariant
            k <= s@.len(),
            k + until_space(s@, k as int) == until_space(s@, 0),
        decreases s@.len() - k,
    {
        k += 1;
    }
    k
}

/// Reads the two delimiters out of a tag of the form `=start end=`.
fn split_delimiters(raw: &Vec<char>) -> (r: Option<(Vec<char>, Vec<char>)>)
    ensures
        match delimiters_of(raw@) {
            None => r is None,
            Some((a, b)) => r is Some && r.unwrap().0@ == a && r.unwrap().1@ == b && a.len() > 0
                && b.len() > 0,
        },
{
    let n: usize = raw.len();
    if n < 2 || raw[0] != '=' || raw[n - 1] != '=' {
        return None;
    }
    let between = slice_of(raw, 1, n - 1);
    let inner = trim(&between);
    let a: usize = word_len(&inner);
    let tail = slice_of(&inner, a, inner.len());
    let rest = trim(&tail);
    if a > 0 && rest.len() > 0 && word_len(&rest) == rest.len() {
        Some((slice_of(&inner, 0, a), rest))
    } else {
        None
    }
}

/// Handles a tag that neither opens nor closes a block: writes the pending
/// text and adds the tag's instruction to the level.
fn leaf_tag(
    cursor: &mut Lookahead,
    frame: &mut Frame,
    raw: &Vec<char>,
    name: Vec<char>,
    tr: &Tracker,
    file: &str,
) -> (r: Result<(), ErrorKind>)
    requires
        raw@.len() > 0,
        name@ == tag_name(raw@),
        old(frame).wf(),
    ensures
        final(cursor).source() == old(cursor).source(),
        final(cursor).offset() >= old(cursor).offset(),
        old(cursor).offset() <= old(cursor).source().len()
            ==> final(cursor).offset() <= old(cursor).source().len(),
        match leaf_step(old(cursor).source(), old(cursor).offset(), raw@, *tr, old(frame)@, file@) {
            Err(kind) => r == Err::<(), ErrorKind>(kind),
            Ok((next, resume)) => r is Ok && final(frame)@ == next && final(frame).wf()
                && final(cursor).offset() == resume,
        },
{
    let c = raw[0];
    let ctx = frame.context(file, tr);
    if c == '>' {
        frame.flush(frame.context(file, tr), false);
        frame.push(make_leaf(CodeKind::Partial, ctx, name, Vec::new()));
        Ok(())
    } else if c == '{' {
        if frame.em[frame.em.len() - 1] == '}' {
            match cursor.next() {
                Some('}') => {
                    frame.flush(frame.context(file, tr), false);
                    frame.push(make_leaf(CodeKind::UnescapedValue, ctx, name, Vec::new()));
                    Ok(())
                },
                _ => Err(ErrorKind::ImproperlyClosedUnescapedValue),
            }
        } else if name.len() == 0 || name[name.len() - 1] != '}' {
            Err(ErrorKind::ImproperlyClosedUnescapedValue)
        } else {
            let front = slice_of(&name, 0, name.len() - 1);
            let inner = trim(&front);
            if inner.len() == 0 {
                Err(ErrorKind::EmptyTag)
            } else {
                frame.flush(frame.context(file, tr), false);
                frame.push(make_leaf(CodeKind::UnescapedValue, ctx, inner, Vec::new()));
                Ok(())
            }
        }
    } else if c == '&' {
        frame.flush(frame.context(file, tr), false);
        frame.push(make_leaf(CodeKind::UnescapedValue, ctx, name, Vec::new()));
        Ok(())
    } else if c == '%' {
        let k: usize = space_index(&name);
        let pragma = slice_of(&name, 0, k);
        let args = if k < name.len() {
            slice_of(&name, k + 1, name.len())
        } else {
            Vec::new()
        };
        frame.flush(frame.context(file, tr), false);
        frame.push(make_leaf(CodeKind::Pragma, ctx, pragma, args));
        Ok(())
    } else if c == '!' {
        frame.flush(frame.context(file, tr), false);
        frame.push(make_leaf(CodeKind::Comment, ctx, name, Vec::new()));
        Ok(())
    } else if c == '=' {
        match split_delimiters(raw) {
            None => Err(ErrorKind::MalformedDelimiterTag),
            Some((a, b)) => {
                frame.flush(frame.context(file, tr), false);
                frame.push(make_leaf(CodeKind::Delimiters, ctx, copy_text(&a), copy_text(&b)));
                frame.sm = a;
                frame.em = b;
                Ok(())
            },
        }
    } else {
        frame.flush(frame.context(file, tr), false);
        frame.push(make_leaf(CodeKind::Value, ctx, name, Vec::new()));
        Ok(())
    }
}

fn line_after_newline(tr: Tracker) -> (r: Tracker)
    ensures
        r == after_newline(tr),
{
    Tracker {
        line: if tr.line < usize::MAX {
            tr.line + 1
        } else {
            tr.line
        },
        only_ws: true,
        start_of_line: true,
        lone_tag: false,
        saw_cr: false,
    }
}

fn line_after_text(tr: Tracker, c: char) -> (r: Tracker)
    ensures
        r == after_text(tr, c),
{
    let b = blank(c);
    Tracker {
        line: tr.line,
        only_ws: tr.only_ws && b,
        start_of_line: tr.start_of_line && b,
        lone_tag: tr.lone_tag,
        saw_cr: false,
    }
}

fn line_after_broken_delimiter(tr: Tracker) -> (r: Tracker)
    ensures
        r == after_broken_delimiter(tr),
{
    Tracker {
        line: tr.line,
        only_ws: false,
        start_of_line: false,
        lone_tag: tr.lone_tag,
        saw_cr: false,
    }
}

fn line_after_tag(tr: Tracker) -> (r: Tracker)
    ensures
        r == after_tag(tr),
{
    Tracker {
        line: tr.line,
        only_ws: tr.only_ws,
        start_of_line: false,
        lone_tag: tr.start_of_line,
        saw_cr: false,
    }
}

fn refusal(kind: ErrorKind, file: &str, line: usize) -> (r: Result<Mustache, CompileError>)
    ensures
        agrees(r, Outcome::Failed { kind, line }, file@),
{
    Err(CompileError { kind, file: file.to_owned(), line })
}

/// The mathematical value of the name of the block that a level is the
/// body of.
pub open spec fn tag_view(tag: Option<&str>) -> Option<Seq<char>> {
    match tag {
        Some(t) => Some(t@),
        None => None,
    }
}

/// Compiles one level of a template from the cursor on: the whole
/// template where `tag` is `None`, else the body of the block that `tag`
/// names, up to and with its closing tag. `sm` and `em` are the delimiters
/// at the start of the level, `tracker` is the state of the current line.
pub fn compile_internal(
    cursor: &mut Lookahead,
    tag: Option<&str>,
    tracker: &mut Tracker,
    file: &str,
    sm: &str,
    em: &str,
) -> (r: Result<Mustache, CompileError>)
    requires
        sm@.len() > 0,
        em@.len() > 0,
    ensures
        final(cursor).source() == old(cursor).source(),
        final(cursor).offset() >= old(cursor).offset(),
        agrees(
            r,
            parse_frame(
                old(cursor).source(),
                old(cursor).offset(),
                *old(tracker),
                fresh_frame(sm@, em@),
                tag_view(tag),
                file@,
            ),
            file@,
        ),
        match parse_frame(
            old(cursor).source(),
            old(cursor).offset(),
            *old(tracker),
            fresh_frame(sm@, em@),
            tag_view(tag),
            file@,
        ) {
            Outcome::Done { codes, pos, tr } => final(cursor).offset() == pos && *final(tracker)
                == tr && pos <= old(cursor).source().len(),
            Outcome::Failed { kind, line } => true,
        },
    decreases old(cursor).source().len() - old(cursor).offset(),
{
    let ghost src = cursor.source();
    let ghost from = cursor.offset();
    let ghost tagv = tag_view(tag);
    let ghost goal = parse_frame(src, from, *tracker, fresh_frame(sm@, em@), tagv, file@);
    let mut frame = Frame::new(chars_of(sm), chars_of(em));
    loop
        invariant
            src == old(cursor).source(),
            from == old(cursor).offset(),
            tagv == tag_view(tag),
            goal == parse_frame(src, from, *old(tracker), fresh_frame(sm@, em@), tagv, file@),
            cursor.source() == src,
            cursor.offset() >= from,
            frame.wf(),
            parse_frame(src, cursor.offset(), *tracker, frame@, tagv, file@) == goal,
        decreases src.len() - cursor.offset(),
    {
        let ghost pos = cursor.offset();
        let ghost fr = frame@;
        let ghost tr = *tracker;
        let c = match cursor.next() {
            Some(c) => c,
            None => {
                proof {
                    lemma_at_end(src, pos, tr, fr, tagv, file@);
                }
                if tag.is_some() {
                    return refusal(ErrorKind::MissingCloseTag, file, tracker.line);
                }
                frame.flush(frame.context(file, tracker), false);
                frame.push(make_leaf(CodeKind::Eof, frame.context(file, tracker), Vec::new(), Vec::new()));
                return Ok(frame.body);
            },
        };
        if c == '\r' {
            tracker.saw_cr = true;
            proof {
                lemma_at_cr(src, pos, tr, fr, tagv, file@);
            }
            continue;
        }
        if c == '\n' {
            frame.newline(tracker);
            *tracker = line_after_newline(*tracker);
            proof {
                lemma_at_newline(src, pos, tr, fr, tagv, file@);
            }
            continue;
        }
        if c != frame.sm[0] {
            frame.out.push(c);
            *tracker = line_after_text(*tracker, c);
            assert(frame@ == (FrameView { out: fr.out.push(c), ..fr }));
            proof {
                lemma_at_text(src, pos, tr, fr, tagv, file@);
            }
            continue;
        }
        let k: usize = match_rest(cursor, &frame.sm);
        if k != frame.sm.len() {
            append_text(&mut frame.out, &frame.sm, k);
            *tracker = line_after_broken_delimiter(*tracker);
            assert(frame@ == (FrameView { out: fr.out + fr.sm.subrange(0, k as int), ..fr }));
            proof {
                lemma_at_broken_delimiter(src, pos, tr, fr, tagv, file@);
            }
            continue;
        }
        tracker.saw_cr = false;
        let ghost here = *tracker;
        assert(tag_at(src, pos, fr));
        assert(here == at_tag(tr));
        let raw = match scan_tag_text(cursor, &frame.em) {
            Some(raw) => raw,
            None => {
                proof {
                    lemma_at_unclosed_tag(src, pos, tr, fr, tagv, file@);
                }
                return refusal(ErrorKind::UnclosedTag, file, tracker.line);
            },
        };
        let name = name_of_tag(&raw);
        let ghost after = cursor.offset();
        assert(scan_tag(src, pos + fr.sm.len(), fr.em, Seq::empty()) == Some((raw@, after)));
        if raw.len() == 0 || (raw[0] != '!' && raw[0] != '=' && name.len() == 0) {
            proof {
                lemma_at_empty_tag(src, pos, tr, fr, tagv, file@, raw@, after);
            }
            return refusal(ErrorKind::EmptyTag, file, tracker.line);
        }
        let s: char = raw[0];
        if block_sigil(s) {
            proof {
                lemma_at_block_tag(src, pos, tr, fr, tagv, file@, raw@, after);
            }
            let open: Tracker = *tracker;
            *tracker = line_after_tag(open);
            let block_name = text_of(&name);
            let sm_now = text_of(&frame.sm);
            let em_now = text_of(&frame.em);
            let body = match compile_internal(
                cursor,
                Some(block_name.as_str()),
                tracker,
                file,
                sm_now.as_str(),
                em_now.as_str(),
            ) {
                Ok(body) => body,
                Err(e) => {
                    return Err(e);
                },
            };
            let ghost codes = body.view();
            let ghost now = *tracker;
            frame.flush(frame.context(file, &open), open.only_ws && tracker.line != open.line);
            let code = Code {
                kind: kind_of_block(s),
                ctx: frame.context(file, &open),
                name: block_name,
                appended: String::new(),
                mustache: body,
            };
            frame.push(code);
            assert(frame@ == block_step(s, tag_name(raw@), codes, here, now, fr, file@));
            continue;
        }
        if s == '/' {
            proof {
                lemma_at_close_tag(src, pos, tr, fr, tagv, file@, raw@, after);
            }
            match tag {
                None => {
                    return refusal(ErrorKind::UnexpectedCloseTag, file, tracker.line);
                },
                Some(t) => {
                    if !same_text(&chars_of(t), &name) {
                        return refusal(ErrorKind::MismatchedCloseTag, file, tracker.line);
                    }
                    frame.flush(
                        frame.context(file, tracker),
                        tracker.start_of_line && tracker.only_ws,
                    );
                    *tracker = line_after_tag(*tracker);
                    return Ok(frame.body);
                },
            }
        }
        let here_now: Tracker = *tracker;
        proof {
            lemma_at_leaf_tag(src, pos, tr, fr, tagv, file@, raw@, after);
        }
        match leaf_tag(cursor, &mut frame, &raw, name, &here_now, file) {
            Err(kind) => {
                return refusal(kind, file, tracker.line);
            },
            Ok(_) => {
                *tracker = line_after_tag(here_now);
            },
        }
    }
}

/// Compiles the template `template`, known as `file`, with the delimiters
/// `{{` and `}}` at its start.
pub fn parse(template: &str, file: &str) -> (r: Result<Mustache, CompileError>)
    ensures
        agrees(r, compiled(template@, file@), file@),
{
    let mut cursor = Lookahead::new(chars_of(template));
    let mut tracker = Tracker {
        line: 1,
        only_ws: true,
        start_of_line: true,
        lone_tag: false,
        saw_cr: false,
    };
    proof {
        reveal_strlit("{{");
        reveal_strlit("}}");
        assert("{{"@ =~= crate::syntax::default_sm());
        assert("}}"@ =~= crate::syntax::default_em());
    }
    compile_internal(&mut cursor, None, &mut tracker, file, "{{", "}}")
}

} // verus!
