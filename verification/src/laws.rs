//! What holds of every compile.

use vstd::prelude::*;
use crate::compiler::{agrees, CompileError};
use crate::model::{as_event, CodeKind, CodeView, Mustache};
use crate::syntax::{
    after_broken_delimiter, after_newline, after_text, common_prefix, compiled, ctx_of,
    default_em, default_sm, end_step, first_line, fresh_frame, leaf, lemma_at_broken_delimiter,
    lemma_at_cr, lemma_at_end, lemma_at_newline, lemma_at_text, on_newline, parse_frame,
    after_tag, block_step, is_block_sigil, is_empty_tag, leaf_step, scan_tag, tag_name,
    lemma_at_close_tag, tag_at, delimiters_of, word_run, ErrorKind, FrameView, Outcome,
    Tracker, at_tag, flushed, is_sigil, lemma_at_leaf_tag, pushed,
};
use crate::text::{is_blank, trimmed};

verus! {

/// No start delimiter `{{` stands anywhere in `s`.
pub open spec fn has_no_tag(s: Seq<char>) -> bool {
    forall|i: int| 0 <= i && i + 1 < s.len() ==> !(#[trigger] s[i] == '{' && s[i + 1] == '{')
}

/// Every carriage return in `s` is followed at once by a line feed.
pub open spec fn carriage_returns_paired(s: Seq<char>) -> bool {
    forall|i: int| 0 <= i < s.len() && #[trigger] s[i] == '\r' ==> i + 1 < s.len() && s[i + 1] == '\n'
}

/// The text that a pending carriage return stands for.
pub open spec fn held_back(tr: Tracker) -> Seq<char> {
    if tr.saw_cr {
        seq!['\r']
    } else {
        Seq::empty()
    }
}

/// From any point of a template without tags on, the outermost level takes
/// the rest as text and ends with all of the template pending.
pub proof fn lemma_text_runs_to_the_end(
    s: Seq<char>,
    pos: int,
    tr: Tracker,
    fr: FrameView,
    file: Seq<char>,
)
    requires
        has_no_tag(s),
        carriage_returns_paired(s),
        0 <= pos <= s.len(),
        fr.sm == default_sm(),
        fr.em == default_em(),
        !tr.lone_tag,
        tr.saw_cr ==> pos >= 1 && s[pos - 1] == '\r',
        fr.out + held_back(tr) == s.subrange(0, pos),
    ensures
        parse_frame(s, pos, tr, fr, None, file) is Done,
        parse_frame(s, pos, tr, fr, None, file)->pos == s.len(),
        parse_frame(s, pos, tr, fr, None, file)->codes == end_step(
            s.len() as int,
            parse_frame(s, pos, tr, fr, None, file)->tr,
            FrameView { out: s, ..fr },
            None,
            file,
        )->codes,
    decreases s.len() - pos,
{
    if pos == s.len() {
        lemma_at_end(s, pos, tr, fr, None, file);
        assert(fr.out =~= s);
    } else {
        let c = s[pos];
        if c == '\r' {
            lemma_at_cr(s, pos, tr, fr, None, file);
            let next = Tracker { saw_cr: true, ..tr };
            assert(fr.out + held_back(next) =~= s.subrange(0, pos + 1));
            lemma_text_runs_to_the_end(s, pos + 1, next, fr, file);
        } else if c == '\n' {
            lemma_at_newline(s, pos, tr, fr, None, file);
            let next = on_newline(fr, tr);
            assert(next.out + held_back(after_newline(tr)) =~= s.subrange(0, pos + 1)) by {
                assert(s.subrange(0, pos + 1) =~= s.subrange(0, pos).push('\n'));
            }
            lemma_text_runs_to_the_end(s, pos + 1, after_newline(tr), next, file);
        } else if c != '{' {
            lemma_at_text(s, pos, tr, fr, None, file);
            let next = FrameView { out: fr.out.push(c), ..fr };
            assert(next.out + held_back(after_text(tr, c)) =~= s.subrange(0, pos + 1)) by {
                assert(s.subrange(0, pos + 1) =~= s.subrange(0, pos).push(c));
            }
            lemma_text_runs_to_the_end(s, pos + 1, after_text(tr, c), next, file);
        } else {
            assert(common_prefix(s, pos, fr.sm, 1) == 1) by {
                reveal_with_fuel(common_prefix, 2);
            }
            lemma_at_broken_delimiter(s, pos, tr, fr, None, file);
            let next = FrameView { out: fr.out + fr.sm.subrange(0, 1), ..fr };
            assert(next.out + held_back(after_broken_delimiter(tr)) =~= s.subrange(0, pos + 1)) by {
                assert(s.subrange(0, pos + 1) =~= s.subrange(0, pos).push(c));
            }
            lemma_text_runs_to_the_end(s, pos + 1, after_broken_delimiter(tr), next, file);
        }
    }
}

/// A template that holds no tag, and no carriage return but before a line
/// feed, compiles to one instruction that writes the whole template as it
/// stands, followed by the end mark. The empty template compiles to the end
/// mark alone.
pub proof fn lemma_text_without_tags_is_written_once(s: Seq<char>, file: Seq<char>)
    requires
        has_no_tag(s),
        carriage_returns_paired(s),
    ensures
        compiled(s, file) is Done,
        compiled(s, file)->pos == s.len(),
        ({
            let ctx = ctx_of(fresh_frame(default_sm(), default_em()), file, compiled(s, file)->tr);
            let none = Seq::<char>::empty();
            compiled(s, file)->codes == if s.len() == 0 {
                seq![leaf(CodeKind::Eof, ctx, none, none)]
            } else {
                seq![leaf(CodeKind::Write, ctx, s, none), leaf(CodeKind::Eof, ctx, none, none)]
            }
        }),
{
    let fr = fresh_frame(default_sm(), default_em());
    assert(fr.out + held_back(first_line()) =~= s.subrange(0, 0));
    lemma_text_runs_to_the_end(s, 0, first_line(), fr, file);
    let ctx = ctx_of(fr, file, compiled(s, file)->tr);
    let none = Seq::<char>::empty();
    if s.len() == 0 {
        assert(compiled(s, file)->codes =~= seq![leaf(CodeKind::Eof, ctx, none, none)]);
    } else {
        assert(compiled(s, file)->codes =~= seq![
            leaf(CodeKind::Write, ctx, s, none),
            leaf(CodeKind::Eof, ctx, none, none),
        ]);
    }
}

/// Compiling is a function of the template and the name of its source: two
/// results of compiling the same template under the same name hold the same
/// instructions, or the same refusal.
pub proof fn lemma_same_template_same_result(
    first: Result<Mustache, CompileError>,
    second: Result<Mustache, CompileError>,
    s: Seq<char>,
    file: Seq<char>,
)
    requires
        agrees(first, compiled(s, file), file),
        agrees(second, compiled(s, file), file),
    ensures
        match (first, second) {
            (Ok(a), Ok(b)) => a.view() == b.view(),
            (Err(a), Err(b)) => a.kind == b.kind && a.line == b.line && a.file@ == b.file@,
            _ => false,
        },
{
}

/// The characters of a delimiter that are counted as standing at `pos` do
/// stand there: if the first `k` characters of `d` stand at `pos`, so do
/// the first `common_prefix(s, pos, d, k)`.
pub proof fn lemma_prefix_stands_in_source(s: Seq<char>, pos: int, d: Seq<char>, k: int)
    requires
        0 <= k <= d.len(),
        0 <= pos,
        pos + k <= s.len(),
        s.subrange(pos, pos + k) == d.subrange(0, k),
    ensures
        s.subrange(pos, pos + common_prefix(s, pos, d, k)) == d.subrange(
            0,
            common_prefix(s, pos, d, k),
        ),
    decreases d.len() - k,
{
    lemma_prefix_in_reach(s, pos, d, k);
    if 0 <= k < d.len() && 0 <= pos + k < s.len() && s[pos + k] == d[k] {
        assert(s.subrange(pos, pos + k + 1) =~= s.subrange(pos, pos + k).push(s[pos + k]));
        assert(d.subrange(0, k + 1) =~= d.subrange(0, k).push(d[k]));
        lemma_prefix_stands_in_source(s, pos, d, k + 1);
    }
}

/// A tag's raw text is what stands in the template between the start
/// delimiter and the end delimiter: the text gathered before `pos`, then
/// the template from `pos` to the tag's end, is the raw text followed by
/// the end delimiter.
pub proof fn lemma_tag_text_is_source(s: Seq<char>, pos: int, em: Seq<char>, acc: Seq<char>)
    ensures
        match scan_tag(s, pos, em, acc) {
            Some((raw, after)) => pos < after <= s.len() && acc + s.subrange(pos, after) == raw
                + em,
            None => true,
        },
    decreases s.len() - pos,
{
    lemma_tag_ends_later(s, pos, em, acc);
    if pos < 0 || pos >= s.len() || em.len() == 0 {
    } else if s[pos] == em[0] {
        let k = common_prefix(s, pos, em, 1);
        lemma_prefix_in_reach(s, pos, em, 1);
        assert(s.subrange(pos, pos + 1) =~= em.subrange(0, 1));
        lemma_prefix_stands_in_source(s, pos, em, 1);
        if k == em.len() {
            assert(em.subrange(0, k) =~= em);
        } else {
            let next = acc + em.subrange(0, k);
            lemma_tag_text_is_source(s, pos + k, em, next);
            lemma_tag_ends_later(s, pos + k, em, next);
            match scan_tag(s, pos + k, em, next) {
                Some((raw, after)) => {
                    assert(acc + s.subrange(pos, after) =~= next + s.subrange(pos + k, after)) by {
                        assert(s.subrange(pos, after) =~= s.subrange(pos, pos + k) + s.subrange(
                            pos + k,
                            after,
                        ));
                    }
                },
                None => {},
            }
        }
    } else {
        let next = acc.push(s[pos]);
        lemma_tag_text_is_source(s, pos + 1, em, next);
        lemma_tag_ends_later(s, pos + 1, em, next);
        match scan_tag(s, pos + 1, em, next) {
            Some((raw, after)) => {
                assert(acc + s.subrange(pos, after) =~= next + s.subrange(pos + 1, after));
            },
            None => {},
        }
    }
}

/// A tag's end lies after its start, within the template.
pub proof fn lemma_tag_ends_later(s: Seq<char>, pos: int, em: Seq<char>, acc: Seq<char>)
    ensures
        match scan_tag(s, pos, em, acc) {
            Some((raw, after)) => pos < after <= s.len(),
            None => true,
        },
    decreases s.len() - pos,
{
    if pos < 0 || pos >= s.len() || em.len() == 0 {
    } else if s[pos] == em[0] {
        let k = common_prefix(s, pos, em, 1);
        if k == em.len() {
            lemma_prefix_in_reach(s, pos, em, 1);
        } else if 1 <= k <= em.len() && pos + k <= s.len() {
            lemma_tag_ends_later(s, pos + k, em, acc + em.subrange(0, k));
        }
    } else {
        lemma_tag_ends_later(s, pos + 1, em, acc.push(s[pos]));
    }
}

/// The characters of a delimiter that stand at `pos` lie within the
/// template.
pub proof fn lemma_prefix_in_reach(s: Seq<char>, pos: int, d: Seq<char>, k: int)
    requires
        0 <= k <= d.len(),
        0 <= pos,
        pos + k <= s.len(),
    ensures
        k <= common_prefix(s, pos, d, k) <= d.len(),
        pos + common_prefix(s, pos, d, k) <= s.len(),
    decreases d.len() - k,
{
    if 0 <= k < d.len() && 0 <= pos + k < s.len() && s[pos + k] == d[k] {
        lemma_prefix_in_reach(s, pos, d, k + 1);
    }
}

/// Every instruction of `codes` holds what its kind uses and no more.
pub open spec fn all_events(codes: Seq<CodeView>) -> bool {
    forall|i: int| 0 <= i < codes.len() ==> as_event(#[trigger] codes[i]) == codes[i]
}

/// A level that ends well ends at or after the offset it started from and
/// within the template, on a line that is not before the one it started on: the line number never
/// goes back, within a level and from a block to what holds it. Each of its
/// instructions holds what its kind uses and no more.
pub proof fn lemma_level_goes_forward(
    s: Seq<char>,
    pos: int,
    tr: Tracker,
    fr: FrameView,
    tag: Option<Seq<char>>,
    file: Seq<char>,
)
    requires
        all_events(fr.codes),
    ensures
        match parse_frame(s, pos, tr, fr, tag, file) {
            Outcome::Done { codes, pos: end, tr: last } => all_events(codes) && last.line
                >= tr.line && end >= pos && (pos <= s.len() ==> end <= s.len()),
            Outcome::Failed { kind, line } => true,
        },
    decreases s.len() - pos,
{
    reveal(parse_frame);
    if pos < 0 || pos >= s.len() || fr.sm.len() == 0 {
    } else if s[pos] == '\r' {
        lemma_level_goes_forward(s, pos + 1, Tracker { saw_cr: true, ..tr }, fr, tag, file);
    } else if s[pos] == '\n' {
        lemma_level_goes_forward(s, pos + 1, after_newline(tr), on_newline(fr, tr), tag, file);
    } else if s[pos] != fr.sm[0] {
        lemma_level_goes_forward(
            s,
            pos + 1,
            after_text(tr, s[pos]),
            FrameView { out: fr.out.push(s[pos]), ..fr },
            tag,
            file,
        );
    } else {
        let k = common_prefix(s, pos, fr.sm, 1);
        let here = Tracker { saw_cr: false, ..tr };
        if k < 1 || k > fr.sm.len() || pos + k > s.len() {
        } else if k != fr.sm.len() {
            lemma_level_goes_forward(
                s,
                pos + k,
                after_broken_delimiter(tr),
                FrameView { out: fr.out + fr.sm.subrange(0, k), ..fr },
                tag,
                file,
            );
        } else {
            lemma_tag_ends_later(s, pos + k, fr.em, Seq::empty());
            match scan_tag(s, pos + k, fr.em, Seq::empty()) {
                None => {},
                Some((raw, after)) => {
                    if is_empty_tag(raw) {
                    } else if is_block_sigil(raw[0]) {
                        if after > pos && after <= s.len() {
                            let inner = parse_frame(
                                s,
                                after,
                                after_tag(here),
                                fresh_frame(fr.sm, fr.em),
                                Some(tag_name(raw)),
                                file,
                            );
                            lemma_level_goes_forward(
                                s,
                                after,
                                after_tag(here),
                                fresh_frame(fr.sm, fr.em),
                                Some(tag_name(raw)),
                                file,
                            );
                            match inner {
                                Outcome::Failed { kind, line } => {},
                                Outcome::Done { codes, pos: resume, tr: now } => {
                                    if resume > pos && resume <= s.len() {
                                        lemma_level_goes_forward(
                                            s,
                                            resume,
                                            now,
                                            block_step(
                                                raw[0],
                                                tag_name(raw),
                                                codes,
                                                here,
                                                now,
                                                fr,
                                                file,
                                            ),
                                            tag,
                                            file,
                                        );
                                    }
                                },
                            }
                        }
                    } else if raw[0] == '/' {
                    } else {
                        match leaf_step(s, after, raw, here, fr, file) {
                            Err(kind) => {},
                            Ok((next, resume)) => {
                                if resume > pos && resume <= s.len() {
                                    lemma_level_goes_forward(
                                        s,
                                        resume,
                                        after_tag(here),
                                        next,
                                        tag,
                                        file,
                                    );
                                }
                            },
                        }
                    }
                },
            }
        }
    }
}

/// The instructions of a compiled template hold what their kinds use and
/// no more.
pub proof fn lemma_compiled_are_events(s: Seq<char>, file: Seq<char>)
    ensures
        compiled(s, file) is Done ==> all_events(compiled(s, file)->codes),
{
    lemma_level_goes_forward(
        s,
        0,
        first_line(),
        fresh_frame(default_sm(), default_em()),
        None,
        file,
    );
}

/// A closing tag whose name is not that of the block it stands in is
/// refused: it never closes the block.
pub proof fn lemma_mismatched_close_is_refused(
    s: Seq<char>,
    pos: int,
    tr: Tracker,
    fr: FrameView,
    open: Seq<char>,
    file: Seq<char>,
    raw: Seq<char>,
    after: int,
)
    requires
        tag_at(s, pos, fr),
        scan_tag(s, pos + fr.sm.len(), fr.em, Seq::empty()) == Some((raw, after)),
        !is_empty_tag(raw),
        raw[0] == '/',
        tag_name(raw) != open,
    ensures
        parse_frame(s, pos, tr, fr, Some(open), file) == (Outcome::Failed {
            kind: ErrorKind::MismatchedCloseTag,
            line: tr.line,
        }),
{
    lemma_at_close_tag(s, pos, tr, fr, Some(open), file, raw, after);
}

/// A closing tag outside any block is refused.
pub proof fn lemma_close_without_block_is_refused(
    s: Seq<char>,
    pos: int,
    tr: Tracker,
    fr: FrameView,
    file: Seq<char>,
    raw: Seq<char>,
    after: int,
)
    requires
        tag_at(s, pos, fr),
        scan_tag(s, pos + fr.sm.len(), fr.em, Seq::empty()) == Some((raw, after)),
        !is_empty_tag(raw),
        raw[0] == '/',
    ensures
        parse_frame(s, pos, tr, fr, None, file) == (Outcome::Failed {
            kind: ErrorKind::UnexpectedCloseTag,
            line: tr.line,
        }),
{
    lemma_at_close_tag(s, pos, tr, fr, None, file, raw, after);
}

/// No complete start delimiter `sm` stands at or after `pos` in `s`.
pub open spec fn no_tag_from(s: Seq<char>, pos: int, sm: Seq<char>) -> bool {
    forall|i: int|
        pos <= i < s.len() ==> !(#[trigger] s[i] == sm[0] && common_prefix(s, i, sm, 1)
            == sm.len())
}

/// A block that is open where the tags of a template end is refused: the
/// body of the block `open` cannot end where the template does.
pub proof fn lemma_unclosed_block_is_refused(
    s: Seq<char>,
    pos: int,
    tr: Tracker,
    fr: FrameView,
    open: Seq<char>,
    file: Seq<char>,
)
    requires
        0 <= pos <= s.len(),
        fr.sm.len() > 0,
        no_tag_from(s, pos, fr.sm),
    ensures
        parse_frame(s, pos, tr, fr, Some(open), file) is Failed,
        parse_frame(s, pos, tr, fr, Some(open), file)->kind == ErrorKind::MissingCloseTag,
        parse_frame(s, pos, tr, fr, Some(open), file)->line >= tr.line,
    decreases s.len() - pos,
{
    let tag = Some(open);
    if pos == s.len() {
        lemma_at_end(s, pos, tr, fr, tag, file);
    } else if s[pos] == '\r' {
        lemma_at_cr(s, pos, tr, fr, tag, file);
        lemma_unclosed_block_is_refused(
            s,
            pos + 1,
            Tracker { saw_cr: true, ..tr },
            fr,
            open,
            file,
        );
    } else if s[pos] == '\n' {
        lemma_at_newline(s, pos, tr, fr, tag, file);
        lemma_unclosed_block_is_refused(
            s,
            pos + 1,
            after_newline(tr),
            on_newline(fr, tr),
            open,
            file,
        );
    } else if s[pos] != fr.sm[0] {
        lemma_at_text(s, pos, tr, fr, tag, file);
        lemma_unclosed_block_is_refused(
            s,
            pos + 1,
            after_text(tr, s[pos]),
            FrameView { out: fr.out.push(s[pos]), ..fr },
            open,
            file,
        );
    } else {
        let k = common_prefix(s, pos, fr.sm, 1);
        lemma_prefix_in_reach(s, pos, fr.sm, 1);
        lemma_at_broken_delimiter(s, pos, tr, fr, tag, file);
        lemma_unclosed_block_is_refused(
            s,
            pos + k,
            after_broken_delimiter(tr),
            FrameView { out: fr.out + fr.sm.subrange(0, k), ..fr },
            open,
            file,
        );
    }
}

/// A run of characters other than blanks ends within the text.
pub proof fn lemma_word_run_in_reach(s: Seq<char>, i: int)
    requires
        0 <= i <= s.len(),
    ensures
        0 <= word_run(s, i) <= s.len() - i,
    decreases s.len() - i,
{
    if i < s.len() && !crate::text::is_blank(s[i]) {
        lemma_word_run_in_reach(s, i + 1);
    }
}

/// The delimiters that a tag names are never empty.
pub proof fn lemma_named_delimiters_are_not_empty(raw: Seq<char>)
    ensures
        match delimiters_of(raw) {
            Some((sm, em)) => sm.len() > 0 && em.len() > 0,
            None => true,
        },
{
    if raw.len() >= 2 {
        lemma_word_run_in_reach(crate::text::trimmed(raw.subrange(1, raw.len() - 1)), 0);
    }
}

/// A tag leaves its level with delimiters that are not empty, whatever its
/// kind: a level never scans with an empty delimiter.
pub proof fn lemma_delimiters_stay_not_empty(
    s: Seq<char>,
    pos: int,
    raw: Seq<char>,
    tr: Tracker,
    fr: FrameView,
    file: Seq<char>,
)
    requires
        fr.sm.len() > 0,
        fr.em.len() > 0,
    ensures
        match leaf_step(s, pos, raw, tr, fr, file) {
            Ok((next, resume)) => next.sm.len() > 0 && next.em.len() > 0,
            Err(kind) => true,
        },
{
    lemma_named_delimiters_are_not_empty(raw);
}

/// A block leaves the delimiters of the level that holds it as they were
/// at its opening tag, whatever was changed inside it.
pub proof fn lemma_delimiters_are_scoped(
    sigil: char,
    name: Seq<char>,
    body: Seq<CodeView>,
    open: Tracker,
    now: Tracker,
    fr: FrameView,
    file: Seq<char>,
)
    ensures
        block_step(sigil, name, body, open, now, fr, file).sm == fr.sm,
        block_step(sigil, name, body, open, now, fr, file).em == fr.em,
{
}

/// A line that held blanks and one tag only leaves nothing behind: not its
/// line feed, nor the blanks of its own that were pending. The line feed of
/// any other line is kept, after a carriage return where one came just
/// before it.
pub proof fn lemma_standalone_line_is_elided(fr: FrameView, tr: Tracker)
    requires
        0 <= fr.line_start <= fr.out.len(),
    ensures
        tr.lone_tag && tr.only_ws ==> on_newline(fr, tr).out == fr.out.subrange(0, fr.line_start),
        !(tr.lone_tag && tr.only_ws) && tr.saw_cr ==> on_newline(fr, tr).out == fr.out + seq![
            '\r',
            '\n',
        ],
        !(tr.lone_tag && tr.only_ws) && !tr.saw_cr ==> on_newline(fr, tr).out == fr.out + seq![
            '\n',
        ],
        on_newline(fr, tr).line_start == on_newline(fr, tr).out.len(),
{
    assert(fr.out.push('\r').push('\n') =~= fr.out + seq!['\r', '\n']);
    assert(fr.out.push('\n') =~= fr.out + seq!['\n']);
}

/// Text that holds no `{`, no carriage return and no line feed.
pub open spec fn is_plain(t: Seq<char>) -> bool {
    forall|i: int| 0 <= i < t.len() ==> #[trigger] t[i] != '{' && t[i] != '\r' && t[i] != '\n'
}

/// Text that holds blanks only.
pub open spec fn all_blank(t: Seq<char>) -> bool {
    forall|i: int| 0 <= i < t.len() ==> is_blank(#[trigger] t[i])
}

/// The line state after the plain text `t` was taken.
pub open spec fn after_plain(tr: Tracker, t: Seq<char>) -> Tracker {
    if t.len() == 0 {
        tr
    } else {
        Tracker {
            only_ws: tr.only_ws && all_blank(t),
            start_of_line: tr.start_of_line && all_blank(t),
            saw_cr: false,
            ..tr
        }
    }
}

/// Plain text before a start delimiter that begins with `{` is gathered as
/// it stands.
pub proof fn lemma_plain_text_is_gathered(
    s: Seq<char>,
    pos: int,
    end: int,
    tr: Tracker,
    fr: FrameView,
    tag: Option<Seq<char>>,
    file: Seq<char>,
)
    requires
        0 <= pos <= end <= s.len(),
        fr.sm.len() > 0,
        fr.sm[0] == '{',
        is_plain(s.subrange(pos, end)),
    ensures
        parse_frame(s, pos, tr, fr, tag, file) == parse_frame(
            s,
            end,
            after_plain(tr, s.subrange(pos, end)),
            FrameView { out: fr.out + s.subrange(pos, end), ..fr },
            tag,
            file,
        ),
    decreases end - pos,
{
    let t = s.subrange(pos, end);
    if pos == end {
        assert(fr.out + t =~= fr.out);
    } else {
        let c = s[pos];
        assert(t[0] == c);
        lemma_at_text(s, pos, tr, fr, tag, file);
        let rest = s.subrange(pos + 1, end);
        assert forall|i: int| 0 <= i < rest.len() implies #[trigger] rest[i] != '{' && rest[i]
            != '\r' && rest[i] != '\n' by {
            assert(rest[i] == t[i + 1]);
        }
        let fr1 = FrameView { out: fr.out.push(c), ..fr };
        lemma_plain_text_is_gathered(s, pos + 1, end, after_text(tr, c), fr1, tag, file);
        assert(fr1.out + rest =~= fr.out + t);
        assert(all_blank(t) == (is_blank(c) && all_blank(rest))) by {
            if is_blank(c) && all_blank(rest) {
                assert forall|i: int| 0 <= i < t.len() implies is_blank(#[trigger] t[i]) by {
                    if i > 0 {
                        assert(t[i] == rest[i - 1]);
                    }
                }
            }
            if all_blank(t) {
                assert(is_blank(t[0]));
                assert forall|i: int| 0 <= i < rest.len() implies is_blank(
                    #[trigger] rest[i],
                ) by {
                    assert(rest[i] == t[i + 1]);
                }
            }
        }
        assert(after_plain(after_text(tr, c), rest) == after_plain(tr, t));
    }
}

/// A delimiter that stands whole at `pos` is counted whole.
pub proof fn lemma_whole_delimiter_is_counted(s: Seq<char>, pos: int, d: Seq<char>, k: int)
    requires
        0 <= k <= d.len(),
        0 <= pos,
        pos + d.len() <= s.len(),
        s.subrange(pos, pos + d.len()) == d,
    ensures
        common_prefix(s, pos, d, k) == d.len(),
    decreases d.len() - k,
{
    if k < d.len() {
        assert(s[pos + k] == s.subrange(pos, pos + d.len())[k]);
        lemma_whole_delimiter_is_counted(s, pos, d, k + 1);
    }
}

/// A tag whose text holds no character that starts the end delimiter ends
/// at the first end delimiter, and its raw text is what stands before it.
pub proof fn lemma_tag_ends_at_delimiter(
    s: Seq<char>,
    pos: int,
    end: int,
    em: Seq<char>,
    acc: Seq<char>,
)
    requires
        0 <= pos <= end,
        em.len() > 0,
        end + em.len() <= s.len(),
        forall|i: int| pos <= i < end ==> s[i] != em[0],
        s.subrange(end, end + em.len()) == em,
    ensures
        scan_tag(s, pos, em, acc) == Some((acc + s.subrange(pos, end), end + em.len())),
    decreases end - pos,
{
    if pos == end {
        assert(s[end] == s.subrange(end, end + em.len())[0]);
        lemma_whole_delimiter_is_counted(s, end, em, 1);
        assert(acc + s.subrange(pos, end) =~= acc);
    } else {
        lemma_tag_ends_at_delimiter(s, pos + 1, end, em, acc.push(s[pos]));
        assert(acc.push(s[pos]) + s.subrange(pos + 1, end) =~= acc + s.subrange(pos, end));
    }
}

/// The instructions for plain text `x`, a tag that names the variable `y`
/// and plain text `z`, all on the first line of the source `file`.
pub open spec fn inline_value_codes(x: Seq<char>, y: Seq<char>, z: Seq<char>, file: Seq<char>)
    -> Seq<CodeView> {
    let fr = fresh_frame(default_sm(), default_em());
    let before = at_tag(after_plain(first_line(), x));
    let after = after_plain(after_tag(before), z);
    let head = pushed(
        flushed(FrameView { out: x, ..fr }, ctx_of(fr, file, before), false),
        leaf(CodeKind::Value, ctx_of(fr, file, before), trimmed(y), Seq::empty()),
    );
    flushed(FrameView { out: z, ..head }, ctx_of(fr, file, after), false).codes.push(
        leaf(CodeKind::Eof, ctx_of(fr, file, after), Seq::empty(), Seq::empty()),
    )
}

/// A tag inside a line keeps the text around it as it stands: plain text
/// `x`, then `{{`, a variable's name `y` and `}}`, then plain text `z`
/// compile to a write of `x`, the value of the trimmed `y`, a write of `z`
/// and the end mark, where an empty text is not written.
pub proof fn lemma_inline_tag_keeps_text(
    x: Seq<char>,
    y: Seq<char>,
    z: Seq<char>,
    file: Seq<char>,
)
    requires
        is_plain(x),
        is_plain(z),
        y.len() > 0,
        !is_sigil(y[0]),
        trimmed(y).len() > 0,
        forall|i: int| 0 <= i < y.len() ==> y[i] != '}',
    ensures
        compiled(x + default_sm() + y + default_em() + z, file) is Done,
        compiled(x + default_sm() + y + default_em() + z, file)->codes == inline_value_codes(
            x,
            y,
            z,
            file,
        ),
{
    let sm = default_sm();
    let em = default_em();
    let s = x + sm + y + em + z;
    let fr = fresh_frame(sm, em);
    let p1 = x.len() as int;
    let p2 = p1 + 2;
    let p3 = p2 + y.len();
    let p4 = p3 + 2;
    assert(s.len() == p4 + z.len());
    assert(s.subrange(0, p1) =~= x);
    assert(s.subrange(p1, p2) =~= sm);
    assert(s.subrange(p2, p3) =~= y);
    assert(s.subrange(p3, p4) =~= em);
    assert(s.subrange(p4, s.len() as int) =~= z);
    lemma_plain_text_is_gathered(s, 0, p1, first_line(), fr, None, file);
    let tr1 = after_plain(first_line(), x);
    let fr1 = FrameView { out: fr.out + x, ..fr };
    assert(fr1.out =~= x);
    assert(s[p1] == sm[0]) by {
        assert(s[p1] == s.subrange(p1, p2)[0]);
    }
    lemma_whole_delimiter_is_counted(s, p1, sm, 1);
    assert(tag_at(s, p1, fr1));
    assert forall|i: int| p2 <= i < p3 implies s[i] != em[0] by {
        assert(s[i] == s.subrange(p2, p3)[i - p2]);
    }
    lemma_tag_ends_at_delimiter(s, p2, p3, em, Seq::empty());
    assert(Seq::<char>::empty() + s.subrange(p2, p3) =~= y);
    lemma_at_leaf_tag(s, p1, tr1, fr1, None, file, y, p4);
    let before = at_tag(tr1);
    let ctx = ctx_of(fr1, file, before);
    let head = pushed(
        flushed(fr1, ctx, false),
        leaf(CodeKind::Value, ctx, trimmed(y), Seq::empty()),
    );
    assert(leaf_step(s, p4, y, before, fr1, file) == Ok::<(FrameView, int), ErrorKind>(
        (head, p4),
    ));
    lemma_plain_text_is_gathered(s, p4, s.len() as int, after_tag(before), head, None, file);
    let tr2 = after_plain(after_tag(before), z);
    let fr2 = FrameView { out: head.out + z, ..head };
    assert(fr2.out =~= z);
    lemma_at_end(s, s.len() as int, tr2, fr2, None, file);
}

} // verus!
