//! A summary of the differences between two multi-line debug strings: the
//! lines only in the actual value marked `-`, those only in the expected
//! value marked `+`, runs of common lines shortened, and paired lines diffed
//! character by character. Colors are ANSI escape codes, used when the
//! caller says the output supports them.

use vstd::prelude::*;
use crate::matcher_support::edit_distance::{
    actual_side, change_count, edit_list, edit_view, edit_views, expected_side, lemma_search_congr, outcome_views,
    prefix_keeps_actual, prefix_within_edits, search,
    transcript_for, views, within_edits, Difference, Edit, Mode, MAX_DISTANCE,
};
use crate::text::{decimal, lines, push_all, push_decimal, push_str, split_lines, views_of};

verus! {

/// The ANSI styles of the summary.
#[derive(Clone, Copy, PartialEq, Eq, Structural)]
pub enum Style {
    /// No style.
    Plain,
    /// Italic, for comments.
    Comment,
    /// Green and bold, for text only in the expected value.
    ExpectedOnly,
    /// Red and bold, for text only in the actual value.
    ActualOnly,
    /// Green, for matching text on an expected line.
    ExpectedWithMatch,
    /// Red, for matching text on an actual line.
    ActualWithMatch,
}

/// The escape sequence that turns a style on.
pub open spec fn style_code(s: Style) -> Seq<char> {
    match s {
        Style::Plain => Seq::empty(),
        Style::Comment => seq!['\x1B', '[', '3', 'm'],
        Style::ExpectedOnly => seq!['\x1B', '[', '1', ';', '3', '2', 'm'],
        Style::ActualOnly => seq!['\x1B', '[', '1', ';', '3', '1', 'm'],
        Style::ExpectedWithMatch => seq!['\x1B', '[', '3', '2', 'm'],
        Style::ActualWithMatch => seq!['\x1B', '[', '3', '1', 'm'],
    }
}

/// The escape sequence that resets all styles.
pub open spec fn reset_code() -> Seq<char> {
    seq!['\x1B', '[', '0', 'm']
}

fn push_style_code(out: &mut Vec<char>, s: Style)
    ensures
        final(out)@ == old(out)@ + style_code(s),
{
    let ghost start = out@;
    match s {
        Style::Plain => {},
        Style::Comment => {
            out.push('\x1B');
            out.push('[');
            out.push('3');
            out.push('m');
        },
        Style::ExpectedOnly => {
            out.push('\x1B');
            out.push('[');
            out.push('1');
            out.push(';');
            out.push('3');
            out.push('2');
            out.push('m');
        },
        Style::ActualOnly => {
            out.push('\x1B');
            out.push('[');
            out.push('1');
            out.push(';');
            out.push('3');
            out.push('1');
            out.push('m');
        },
        Style::ExpectedWithMatch => {
            out.push('\x1B');
            out.push('[');
            out.push('3');
            out.push('2');
            out.push('m');
        },
        Style::ActualWithMatch => {
            out.push('\x1B');
            out.push('[');
            out.push('3');
            out.push('1');
            out.push('m');
        },
    }
    assert(out@ =~= start + style_code(s));
}

fn push_reset_code(out: &mut Vec<char>)
    ensures
        final(out)@ == old(out)@ + reset_code(),
{
    let ghost start = out@;
    out.push('\x1B');
    out.push('[');
    out.push('0');
    out.push('m');
    assert(out@ =~= start + reset_code());
}

/// The text of a summary so far and the style in effect at its end.
pub struct Sv {
    pub text: Seq<char>,
    pub last: Style,
}

/// Ending the style in effect, when colors are on.
pub open spec fn sv_reset(s: Sv, color: bool) -> Sv {
    if s.last != Style::Plain && color {
        Sv { text: s.text + reset_code(), last: Style::Plain }
    } else {
        s
    }
}

/// Switching to `style`, when colors are on and it is not in effect.
pub open spec fn sv_set(s: Sv, style: Style, color: bool) -> Sv {
    if !color || s.last == style {
        s
    } else {
        Sv {
            text: s.text + (if s.last != Style::Plain {
                reset_code()
            } else {
                Seq::empty()
            }) + style_code(style),
            last: style,
        }
    }
}

/// Appending unstyled text.
pub open spec fn sv_plain(s: Sv, x: Seq<char>, color: bool) -> Sv {
    let r = sv_reset(s, color);
    Sv { text: r.text + x, last: r.last }
}

/// Appending text in `style`.
pub open spec fn sv_styled(s: Sv, style: Style, x: Seq<char>, color: bool) -> Sv {
    let r = sv_set(s, style, color);
    Sv { text: r.text + x, last: r.last }
}

/// Starting a new line marked with `marker` (` `, `-` or `+`).
pub open spec fn sv_new_line(s: Sv, marker: char, color: bool) -> Sv {
    sv_plain(s, seq!['\n', marker], color)
}

/// The text of a summary being built, and the style in effect at its end.
pub struct SummaryBuilder {
    pub summary: Vec<char>,
    pub last_ansi_style: Style,
    pub color: bool,
}

impl SummaryBuilder {
    /// The text and style of the summary.
    pub open spec fn sv(&self) -> Sv {
        Sv { text: self.summary@, last: self.last_ansi_style }
    }

    /// An empty summary.
    pub fn new(color: bool) -> (b: SummaryBuilder)
        ensures
            b.sv() == (Sv { text: Seq::empty(), last: Style::Plain }),
            b.color == color,
    {
        SummaryBuilder { summary: Vec::new(), last_ansi_style: Style::Plain, color }
    }

    /// Ends the style in effect.
    pub fn reset_ansi(&mut self)
        ensures
            final(self).sv() == sv_reset(old(self).sv(), old(self).color),
            final(self).color == old(self).color,
    {
        if self.last_ansi_style != Style::Plain && self.color {
            push_reset_code(&mut self.summary);
            self.last_ansi_style = Style::Plain;
        }
    }

    /// Switches to `ansi_style`.
    pub fn set_ansi(&mut self, ansi_style: Style)
        ensures
            final(self).sv() == sv_set(old(self).sv(), ansi_style, old(self).color),
            final(self).color == old(self).color,
    {
        if !self.color || self.last_ansi_style == ansi_style {
            return;
        }
        if self.last_ansi_style != Style::Plain {
            push_reset_code(&mut self.summary);
        }
        push_style_code(&mut self.summary, ansi_style);
        self.last_ansi_style = ansi_style;
    }

    /// Appends unstyled text.
    pub fn push_str(&mut self, element: &[char])
        ensures
            final(self).sv() == sv_plain(old(self).sv(), element@, old(self).color),
            final(self).color == old(self).color,
    {
        self.reset_ansi();
        push_all(&mut self.summary, element);
    }

    /// Appends text in `style`.
    pub fn push_styled(&mut self, style: Style, element: &[char])
        ensures
            final(self).sv() == sv_styled(old(self).sv(), style, element@, old(self).color),
            final(self).color == old(self).color,
    {
        self.set_ansi(style);
        push_all(&mut self.summary, element);
    }

    /// Appends one character in `style`.
    pub fn push_char(&mut self, style: Style, element: char)
        ensures
            final(self).sv() == sv_styled(old(self).sv(), style, seq![element], old(self).color),
            final(self).color == old(self).color,
    {
        self.set_ansi(style);
        self.summary.push(element);
        assert(self.summary@ =~= sv_set(old(self).sv(), style, old(self).color).text + seq![element]);
    }

    /// Starts a new line marked with `marker`.
    pub fn new_line(&mut self, marker: char)
        ensures
            final(self).sv() == sv_new_line(old(self).sv(), marker, old(self).color),
            final(self).color == old(self).color,
    {
        self.reset_ansi();
        self.summary.push('\n');
        self.summary.push(marker);
        assert(self.summary@ =~= sv_reset(old(self).sv(), old(self).color).text + seq!['\n', marker]);
    }
}


/// What the summary holds back until the next edit decides how to print it.
pub enum BufView {
    Empty,
    Common(Seq<Seq<char>>),
    ExtraActual(Seq<char>),
    ExtraExpected(Seq<char>),
}

/// The lines `ls`, each on a new unmarked line.
pub open spec fn sv_lines(s: Sv, ls: Seq<Seq<char>>, color: bool) -> Sv
    decreases ls.len(),
{
    if ls.len() == 0 {
        s
    } else {
        sv_plain(sv_new_line(sv_lines(s, ls.drop_last(), color), ' ', color), ls.last(), color)
    }
}

/// How many common lines are kept before and after omitted ones.
pub const COMMON_LINES_CONTEXT_SIZE: usize = 2;

/// The comment that stands for `n` omitted common lines.
pub open spec fn omitted_comment(n: nat) -> Seq<char> {
    "<---- "@ + decimal(n) + " common lines omitted ---->"@
}

/// A run of common lines: all of them when there are at most five, else
/// the first two, a comment for the omitted ones, and the last two.
pub open spec fn sv_common(s: Sv, ls: Seq<Seq<char>>, color: bool) -> Sv {
    if ls.len() <= 2 * COMMON_LINES_CONTEXT_SIZE + 1 {
        sv_lines(s, ls, color)
    } else {
        let head = sv_lines(s, ls.take(2), color);
        let comment = sv_styled(
            sv_new_line(head, ' ', color),
            Style::Comment,
            omitted_comment((ls.len() - 4) as nat),
            color,
        );
        sv_lines(comment, ls.skip(ls.len() - 2), color)
    }
}

/// Printing what the buffer holds.
pub open spec fn sv_flush(s: Sv, b: BufView, color: bool) -> Sv {
    match b {
        BufView::Empty => s,
        BufView::Common(ls) => sv_common(s, ls, color),
        BufView::ExtraActual(a) => sv_styled(sv_new_line(s, '-', color), Style::ActualOnly, a, color),
        BufView::ExtraExpected(e) => sv_styled(
            sv_new_line(s, '+', color),
            Style::ExpectedOnly,
            e,
            color,
        ),
    }
}

/// The lines held back by a summary.
pub enum Buffer<'a> {
    Empty,
    CommonLineBuffer(Vec<&'a [char]>),
    ExtraActualLineChunk(&'a [char]),
    ExtraExpectedLineChunk(&'a [char]),
}

/// The texts of lines.
pub open spec fn line_views<'a>(v: Seq<&'a [char]>) -> Seq<Seq<char>> {
    v.map_values(|l: &'a [char]| l@)
}

impl<'a> Buffer<'a> {
    /// What the buffer holds.
    pub open spec fn bv(&self) -> BufView {
        match self {
            Buffer::Empty => BufView::Empty,
            Buffer::CommonLineBuffer(v) => BufView::Common(line_views(v@)),
            Buffer::ExtraActualLineChunk(a) => BufView::ExtraActual(a@),
            Buffer::ExtraExpectedLineChunk(e) => BufView::ExtraExpected(e@),
        }
    }

    /// Prints the buffer into `summary`.
    pub fn flush(&self, summary: &mut SummaryBuilder)
        ensures
            final(summary).sv() == sv_flush(old(summary).sv(), self.bv(), old(summary).color),
            final(summary).color == old(summary).color,
    {
        match self {
            Buffer::Empty => {},
            Buffer::CommonLineBuffer(common_lines) => {
                flush_common_lines(common_lines.as_slice(), summary);
            },
            Buffer::ExtraActualLineChunk(extra_actual) => {
                summary.new_line('-');
                summary.push_styled(Style::ActualOnly, extra_actual);
            },
            Buffer::ExtraExpectedLineChunk(extra_expected) => {
                summary.new_line('+');
                summary.push_styled(Style::ExpectedOnly, extra_expected);
            },
        }
    }
}

/// Prints `ls[from..to]`, each on a new unmarked line.
fn push_lines<'a>(ls: &[&'a [char]], from: usize, to: usize, summary: &mut SummaryBuilder)
    requires
        from <= to <= ls@.len(),
    ensures
        final(summary).sv() == sv_lines(old(summary).sv(), line_views(ls@.subrange(from as int, to as int)), old(summary).color),
        final(summary).color == old(summary).color,
{
    let ghost start = summary.sv();
    let mut i: usize = from;
    while i < to
        invariant
            from <= i <= to <= ls@.len(),
            summary.color == old(summary).color,
            start == old(summary).sv(),
            summary.sv() == sv_lines(start, line_views(ls@.subrange(from as int, i as int)), summary.color),
        decreases to - i,
    {
        summary.new_line(' ');
        summary.push_str(ls[i]);
        proof {
            let before = line_views(ls@.subrange(from as int, i as int));
            let after = line_views(ls@.subrange(from as int, i + 1));
            assert(after.drop_last() =~= before);
            assert(after.last() == ls@[i as int]@);
        }
        i = i + 1;
    }
}

/// Prints a run of common lines, shortening runs of more than five.
fn flush_common_lines<'a>(common_lines: &[&'a [char]], summary: &mut SummaryBuilder)
    ensures
        final(summary).sv() == sv_common(old(summary).sv(), line_views(common_lines@), old(summary).color),
        final(summary).color == old(summary).color,
{
    let n = common_lines.len();
    assert(common_lines@.subrange(0, n as int) =~= common_lines@);
    if n <= 2 * COMMON_LINES_CONTEXT_SIZE + 1 {
        push_lines(common_lines, 0, n, summary);
        return;
    }
    push_lines(common_lines, 0, COMMON_LINES_CONTEXT_SIZE, summary);
    assert(line_views(common_lines@.subrange(0, 2)) =~= line_views(common_lines@).take(2));
    summary.new_line(' ');
    let mut comment: Vec<char> = Vec::new();
    push_str(&mut comment, "<---- ");
    push_decimal(&mut comment, n - 2 * COMMON_LINES_CONTEXT_SIZE);
    push_str(&mut comment, " common lines omitted ---->");
    summary.push_styled(Style::Comment, comment.as_slice());
    push_lines(common_lines, n - COMMON_LINES_CONTEXT_SIZE, n, summary);
    assert(line_views(common_lines@.subrange(n - 2, n as int)) =~= line_views(common_lines@).skip(n - 2));
}

/// A line edit, by the texts of the lines.
pub enum SEdit {
    ExtraActual(Seq<char>),
    ExtraExpected(Seq<char>),
    Both(Seq<char>),
    AdditionalActual,
}

/// A line edit by the texts of its lines.
pub open spec fn sedit<T: View<V = Seq<char>>>(e: Edit<T>) -> SEdit {
    match e {
        Edit::ExtraActual(t) => SEdit::ExtraActual(t@),
        Edit::ExtraExpected(t) => SEdit::ExtraExpected(t@),
        Edit::Both(t) => SEdit::Both(t@),
        Edit::AdditionalActual => SEdit::AdditionalActual,
    }
}

/// Line edits by the texts of their lines.
pub open spec fn sedits<T: View<V = Seq<char>>>(es: Seq<Edit<T>>) -> Seq<SEdit> {
    es.map_values(|e: Edit<T>| sedit(e))
}

/// The actual line of a character diff so far: a `-` line with the
/// characters only in the actual line in one style and the common ones in
/// another.
pub open spec fn inline_actual(es: Seq<Edit<char>>, color: bool) -> Sv
    decreases es.len(),
{
    if es.len() == 0 {
        sv_new_line(Sv { text: Seq::empty(), last: Style::Plain }, '-', color)
    } else {
        let s = inline_actual(es.drop_last(), color);
        match es.last() {
            Edit::ExtraActual(c) => sv_styled(s, Style::ActualOnly, seq![c], color),
            Edit::Both(c) => sv_styled(s, Style::ActualWithMatch, seq![c], color),
            _ => s,
        }
    }
}

/// The expected line of a character diff so far.
pub open spec fn inline_expected(es: Seq<Edit<char>>, color: bool) -> Sv
    decreases es.len(),
{
    if es.len() == 0 {
        sv_new_line(Sv { text: Seq::empty(), last: Style::Plain }, '+', color)
    } else {
        let s = inline_expected(es.drop_last(), color);
        match es.last() {
            Edit::ExtraExpected(c) => sv_styled(s, Style::ExpectedOnly, seq![c], color),
            Edit::Both(c) => sv_styled(s, Style::ExpectedWithMatch, seq![c], color),
            _ => s,
        }
    }
}

/// The character edit list that stands for the pair of lines `a` and `e`:
/// the one that the search of `edit_list` finds, a transcript of `a` into
/// `e` with as few added or dropped characters as possible (at most
/// [`MAX_DISTANCE`]); or none, and the lines are then printed whole, when
/// the lines are equal, too long to count with `i32`, or more than
/// [`MAX_DISTANCE`] edits apart.
pub open spec fn choice_ok(a: Seq<char>, e: Seq<char>, choice: Option<Seq<Edit<char>>>) -> bool {
    match choice {
        Some(es) => {
            &&& search(a, e, Mode::Exact, 0, 0) == Some(Some(es))
            &&& transcript_for(Mode::Exact, es, a, e)
            &&& change_count(es) <= MAX_DISTANCE
            &&& forall|d: int| #[trigger] within_edits(a, e, d) ==> change_count(es) <= d
        },
        None => (a == e || a.len() >= i32::MAX || e.len() >= i32::MAX || !within_edits(
            a,
            e,
            MAX_DISTANCE as int,
        )) && (a.len() >= i32::MAX || e.len() >= i32::MAX || !(search(a, e, Mode::Exact, 0, 0) matches Some(
            Some(_),
        ))),
    }
}

/// Printing the actual line `a` and the expected line `e` as a pair: diffed
/// by the character edits of `choice`, or whole.
pub open spec fn sv_inline(s: Sv, a: Seq<char>, e: Seq<char>, choice: Option<Seq<Edit<char>>>, color: bool) -> Sv {
    match choice {
        Some(es) => sv_plain(
            sv_plain(s, sv_reset(inline_actual(es, color), color).text, color),
            sv_reset(inline_expected(es, color), color).text,
            color,
        ),
        None => sv_styled(
            sv_new_line(sv_styled(sv_new_line(s, '-', color), Style::ActualOnly, a, color), '+', color),
            Style::ExpectedOnly,
            e,
            color,
        ),
    }
}

/// The state of a summary: its text and what it holds back.
pub struct SumState {
    pub sv: Sv,
    pub buf: BufView,
}

/// The comment that stands for the omitted rest of the actual value.
pub open spec fn remaining_comment() -> Seq<char> {
    "<---- remaining lines omitted ---->"@
}

/// Feeding one line edit to a summary; `choice` is the character diff used
/// if the edit pairs two lines. No state when that choice does not fit.
pub open spec fn sum_step(st: SumState, e: SEdit, choice: Option<Seq<Edit<char>>>, color: bool) -> Option<SumState> {
    match e {
        SEdit::Both(l) => match st.buf {
            BufView::Common(ls) => Some(SumState { sv: st.sv, buf: BufView::Common(ls.push(l)) }),
            _ => Some(SumState { sv: sv_flush(st.sv, st.buf, color), buf: BufView::Common(seq![l]) }),
        },
        SEdit::ExtraActual(a) => match st.buf {
            BufView::ExtraExpected(x) => if choice_ok(a, x, choice) {
                Some(SumState { sv: sv_inline(st.sv, a, x, choice, color), buf: BufView::Empty })
            } else {
                None
            },
            _ => Some(SumState { sv: sv_flush(st.sv, st.buf, color), buf: BufView::ExtraActual(a) }),
        },
        SEdit::ExtraExpected(x) => match st.buf {
            BufView::ExtraActual(a) => if choice_ok(a, x, choice) {
                Some(SumState { sv: sv_inline(st.sv, a, x, choice, color), buf: BufView::Empty })
            } else {
                None
            },
            _ => Some(SumState { sv: sv_flush(st.sv, st.buf, color), buf: BufView::ExtraExpected(x) }),
        },
        SEdit::AdditionalActual => Some(SumState {
            sv: sv_styled(
                sv_new_line(sv_flush(st.sv, st.buf, color), ' ', color),
                Style::Comment,
                remaining_comment(),
                color,
            ),
            buf: BufView::Empty,
        }),
    }
}

/// The empty summary.
pub open spec fn sum_start() -> SumState {
    SumState { sv: Sv { text: Seq::empty(), last: Style::Plain }, buf: BufView::Empty }
}

/// Feeding the line edits `es` in order, with one choice of character diff
/// for each.
pub open spec fn sum_run(es: Seq<SEdit>, choices: Seq<Option<Seq<Edit<char>>>>, color: bool) -> Option<SumState>
    decreases es.len(),
{
    if choices.len() != es.len() {
        None
    } else if es.len() == 0 {
        Some(sum_start())
    } else {
        match sum_run(es.drop_last(), choices.drop_last(), color) {
            Some(st) => sum_step(st, es.last(), choices.last(), color),
            None => None,
        }
    }
}

/// The summary text of the line edits `es`, with those choices of
/// character diffs.
pub open spec fn summary_of(es: Seq<SEdit>, choices: Seq<Option<Seq<Edit<char>>>>, color: bool) -> Option<Seq<char>> {
    match sum_run(es, choices, color) {
        Some(st) => Some(sv_reset(sv_flush(st.sv, st.buf, color), color).text),
        None => None,
    }
}

/// `text` summarizes the line edits `es`: for some fitting choice of the
/// character diffs of the paired lines.
pub open spec fn is_summary(es: Seq<SEdit>, color: bool, text: Seq<char>) -> bool {
    exists|choices: Seq<Option<Seq<Edit<char>>>>| #[trigger] summary_of(es, choices, color) == Some(text)
}

/// A summary being built from line edits.
pub struct BufferedSummary<'a> {
    pub summary: SummaryBuilder,
    pub buffer: Buffer<'a>,
}

impl<'a> BufferedSummary<'a> {
    /// The state of the summary.
    pub open spec fn state(&self) -> SumState {
        SumState { sv: self.summary.sv(), buf: self.buffer.bv() }
    }

    /// Prints what the buffer holds and empties it.
    fn flush_buffer(&mut self)
        ensures
            final(self).summary.sv() == sv_flush(old(self).summary.sv(), old(self).buffer.bv(), old(self).summary.color),
            final(self).buffer.bv() == BufView::Empty,
            final(self).summary.color == old(self).summary.color,
    {
        let mut b = Buffer::Empty;
        std::mem::swap(&mut b, &mut self.buffer);
        b.flush(&mut self.summary);
    }

    /// Appends a line common to both values.
    fn feed_common_lines(&mut self, common_line: &'a [char])
        ensures
            Some(final(self).state()) == sum_step(old(self).state(), SEdit::Both(common_line@), None, old(self).summary.color),
            final(self).summary.color == old(self).summary.color,
    {
        let mut b = Buffer::Empty;
        std::mem::swap(&mut b, &mut self.buffer);
        match b {
            Buffer::CommonLineBuffer(mut lines) => {
                let ghost before = lines@;
                lines.push(common_line);
                assert(line_views(lines@) =~= line_views(before).push(common_line@));
                self.buffer = Buffer::CommonLineBuffer(lines);
            },
            other => {
                other.flush(&mut self.summary);
                let lines = vec![common_line];
                assert(line_views(lines@) =~= seq![common_line@]);
                self.buffer = Buffer::CommonLineBuffer(lines);
            },
        }
    }

    /// Appends a line only in the actual value; `choice` is the character
    /// diff used if it pairs with a held-back expected line.
    fn feed_extra_actual(&mut self, extra_actual: &'a [char]) -> (choice: Ghost<Option<Seq<Edit<char>>>>)
        ensures
            Some(final(self).state()) == sum_step(old(self).state(), SEdit::ExtraActual(extra_actual@), choice@, old(self).summary.color),
            final(self).summary.color == old(self).summary.color,
    {
        let mut b = Buffer::Empty;
        std::mem::swap(&mut b, &mut self.buffer);
        match b {
            Buffer::ExtraExpectedLineChunk(extra_expected) => {
                let choice = print_inline_diffs(&mut self.summary, extra_actual, extra_expected);
                choice
            },
            other => {
                other.flush(&mut self.summary);
                self.buffer = Buffer::ExtraActualLineChunk(extra_actual);
                Ghost(None)
            },
        }
    }

    /// Appends a line only in the expected value; `choice` is the character
    /// diff used if it pairs with a held-back actual line.
    fn feed_extra_expected(&mut self, extra_expected: &'a [char]) -> (choice: Ghost<Option<Seq<Edit<char>>>>)
        ensures
            Some(final(self).state()) == sum_step(old(self).state(), SEdit::ExtraExpected(extra_expected@), choice@, old(self).summary.color),
            final(self).summary.color == old(self).summary.color,
    {
        let mut b = Buffer::Empty;
        std::mem::swap(&mut b, &mut self.buffer);
        match b {
            Buffer::ExtraActualLineChunk(extra_actual) => {
                let choice = print_inline_diffs(&mut self.summary, extra_actual, extra_expected);
                choice
            },
            other => {
                other.flush(&mut self.summary);
                self.buffer = Buffer::ExtraExpectedLineChunk(extra_expected);
                Ghost(None)
            },
        }
    }

    /// Appends the comment for the omitted rest of the actual value.
    fn feed_additional_actual(&mut self)
        ensures
            Some(final(self).state()) == sum_step(old(self).state(), SEdit::AdditionalActual, None, old(self).summary.color),
            final(self).summary.color == old(self).summary.color,
    {
        self.flush_buffer();
        self.summary.new_line(' ');
        let comment = crate::text::chars_of("<---- remaining lines omitted ---->");
        self.summary.push_styled(Style::Comment, comment.as_slice());
    }

    /// The summary of the line edits `edits`.
    pub fn from_edits(edits: &[Edit<&'a [char]>], color: bool) -> (r: Vec<char>)
        ensures
            is_summary(sedits(edits@), color, r@),
    {
        let mut this = BufferedSummary { summary: SummaryBuilder::new(color), buffer: Buffer::Empty };
        let ghost mut choices: Seq<Option<Seq<Edit<char>>>> = Seq::empty();
        let mut i: usize = 0;
        while i < edits.len()
            invariant
                i <= edits@.len(),
                this.summary.color == color,
                choices.len() == i,
                sum_run(sedits(edits@).take(i as int), choices, color) == Some(this.state()),
            decreases edits@.len() - i,
        {
            let ghost es = sedits(edits@);
            let ghost before = this.state();
            let choice: Ghost<Option<Seq<Edit<char>>>> = match edits[i] {
                Edit::Both(same) => {
                    this.feed_common_lines(same);
                    Ghost(None)
                },
                Edit::ExtraActual(actual) => this.feed_extra_actual(actual),
                Edit::ExtraExpected(expected) => this.feed_extra_expected(expected),
                Edit::AdditionalActual => {
                    this.feed_additional_actual();
                    Ghost(None)
                },
            };
            proof {
                let next = choices.push(choice@);
                assert(es.take(i + 1).drop_last() =~= es.take(i as int));
                assert(next.drop_last() =~= choices);
                assert(es.take(i + 1).last() == sedit(edits@[i as int]));
                choices = next;
            }
            i = i + 1;
        }
        this.flush_buffer();
        this.summary.reset_ansi();
        proof {
            assert(sedits(edits@).take(edits@.len() as int) =~= sedits(edits@));
            assert(summary_of(sedits(edits@), choices, color) == Some(this.summary.summary@));
        }
        this.summary.summary
    }
}

/// Prints the actual line `a` and the expected line `e` as a pair, diffed
/// character by character when they are related.
fn print_inline_diffs(summary: &mut SummaryBuilder, actual_line: &[char], expected_line: &[char]) -> (choice: Ghost<Option<Seq<Edit<char>>>>)
    ensures
        choice_ok(actual_line@, expected_line@, choice@),
        final(summary).sv() == sv_inline(old(summary).sv(), actual_line@, expected_line@, choice@, old(summary).color),
        final(summary).color == old(summary).color,
{
    let color = summary.color;
    if actual_line.len() < i32::MAX as usize && expected_line.len() < i32::MAX as usize {
        let line_edits = edit_list(actual_line, expected_line, Mode::Exact);
        assert(views(actual_line@) =~= actual_line@);
        assert(views(expected_line@) =~= expected_line@);
        if let Difference::Editable(edit_list) = line_edits {
            let mut actual_summary = SummaryBuilder::new(color);
            actual_summary.new_line('-');
            let mut expected_summary = SummaryBuilder::new(color);
            expected_summary.new_line('+');
            let mut k: usize = 0;
            while k < edit_list.len()
                invariant
                    k <= edit_list@.len(),
                    transcript_for(Mode::Exact, edit_list@, actual_line@, expected_line@),
                    actual_summary.color == color,
                    expected_summary.color == color,
                    actual_summary.sv() == inline_actual(edit_list@.take(k as int), color),
                    expected_summary.sv() == inline_expected(edit_list@.take(k as int), color),
                decreases edit_list@.len() - k,
            {
                proof {
                    assert(edit_list@.take(k + 1).drop_last() =~= edit_list@.take(k as int));
                    assert(edit_list@.take(k + 1).last() == edit_list@[k as int]);
                }
                match edit_list[k] {
                    Edit::ExtraActual(c) => actual_summary.push_char(Style::ActualOnly, c),
                    Edit::ExtraExpected(c) => expected_summary.push_char(Style::ExpectedOnly, c),
                    Edit::Both(c) => {
                        actual_summary.push_char(Style::ActualWithMatch, c);
                        expected_summary.push_char(Style::ExpectedWithMatch, c);
                    },
                    Edit::AdditionalActual => {
                        assert(!(edit_list@[k as int] is AdditionalActual));
                    },
                }
                k = k + 1;
            }
            assert(edit_list@.take(edit_list@.len() as int) =~= edit_list@);
            actual_summary.reset_ansi();
            expected_summary.reset_ansi();
            summary.push_str(actual_summary.summary.as_slice());
            summary.push_str(expected_summary.summary.as_slice());
            return Ghost(Some(edit_list@));
        }
    }
    summary.new_line('-');
    summary.push_styled(Style::ActualOnly, actual_line);
    summary.new_line('+');
    summary.push_styled(Style::ExpectedOnly, expected_line);
    Ghost(None)
}

/// The lines that line edits take from the actual value.
pub open spec fn s_actual_side(es: Seq<SEdit>) -> Seq<Seq<char>>
    decreases es.len(),
{
    if es.len() == 0 {
        Seq::empty()
    } else {
        let r = s_actual_side(es.drop_last());
        match es.last() {
            SEdit::ExtraActual(t) => r.push(t),
            SEdit::Both(t) => r.push(t),
            _ => r,
        }
    }
}

/// The lines that line edits take from the expected value.
pub open spec fn s_expected_side(es: Seq<SEdit>) -> Seq<Seq<char>>
    decreases es.len(),
{
    if es.len() == 0 {
        Seq::empty()
    } else {
        let r = s_expected_side(es.drop_last());
        match es.last() {
            SEdit::ExtraExpected(t) => r.push(t),
            SEdit::Both(t) => r.push(t),
            _ => r,
        }
    }
}

/// What a line edit list returned in `mode` says of the lines `a` and `x`
/// (see `transcript_for`).
pub open spec fn s_transcript_for(mode: Mode, es: Seq<SEdit>, a: Seq<Seq<char>>, x: Seq<Seq<char>>) -> bool {
    let no_additional = |k: Seq<SEdit>| forall|i: int| 0 <= i < k.len() ==> !(k[i] is AdditionalActual);
    &&& s_expected_side(es) == x
    &&& !(forall|i: int| 0 <= i < es.len() ==> es[i] is Both)
    &&& match mode {
        Mode::Exact => no_additional(es) && s_actual_side(es) == a,
        Mode::Prefix => (es.len() > 0 ==> no_additional(es.drop_last())) && exists|m: int|
            0 <= m <= a.len() && s_actual_side(es) == a.take(m),
        Mode::Contains => exists|i: int, j: int|
            0 <= i <= j <= a.len() && s_actual_side(es) == a.subrange(i, j),
    }
}

proof fn lemma_sides_by_text<'a>(e: Seq<Edit<&'a [char]>>)
    ensures
        s_actual_side(sedits(e)) == actual_side(e),
        s_expected_side(sedits(e)) == expected_side(e),
    decreases e.len(),
{
    if e.len() > 0 {
        lemma_sides_by_text(e.drop_last());
        assert(sedits(e).drop_last() =~= sedits(e.drop_last()));
        assert(sedits(e).last() == sedit(e.last()));
    }
}

proof fn lemma_transcript_by_text<'a>(mode: Mode, e: Seq<Edit<&'a [char]>>, a: Seq<Seq<char>>, x: Seq<Seq<char>>)
    requires
        transcript_for(mode, e, a, x),
    ensures
        s_transcript_for(mode, sedits(e), a, x),
{
    lemma_sides_by_text(e);
    let se = sedits(e);
    assert(se.len() == e.len());
    assert forall|i: int| 0 <= i < se.len() implies (se[i] is AdditionalActual <==> e[i] is AdditionalActual)
        && (se[i] is Both <==> e[i] is Both) by {
        assert(se[i] == sedit(e[i]));
    }
    if e.len() > 0 {
        assert(sedits(e.drop_last()) =~= se.drop_last());
        lemma_sides_by_text(e.drop_last());
        assert forall|i: int| 0 <= i < se.drop_last().len() implies (se.drop_last()[i] is AdditionalActual <==> e.drop_last()[i] is AdditionalActual) by {
            assert(se.drop_last()[i] == se[i]);
        }
    }
}

/// The number of line edits that add or drop a line.
pub open spec fn s_change_count(es: Seq<SEdit>) -> nat
    decreases es.len(),
{
    if es.len() == 0 {
        0
    } else {
        s_change_count(es.drop_last()) + if es.last() is ExtraActual || es.last() is ExtraExpected {
            1nat
        } else {
            0nat
        }
    }
}

/// In a line edit list for a prefix, an extra expected line just before the
/// marker of the omitted actual lines comes right after the actual line that
/// stands at that point, when the actual lines go on there.
pub open spec fn s_prefix_keeps_actual(es: Seq<SEdit>, la: Seq<Seq<char>>) -> bool {
    es.len() >= 2 && es[es.len() - 2] is ExtraExpected && s_actual_side(es).len() < la.len() ==> es.len()
        >= 3 && es[es.len() - 3] is ExtraActual
}

/// What the line edit list that a difference summary shows is, as
/// `edit_list` gives it: a transcript of `la` into `le` in `mode` with at
/// most [`MAX_DISTANCE`] added or dropped lines, no more than the edit
/// distance of the lines (in [`Mode::Prefix`], one more than that of the
/// closest prefix of `la`), and in [`Mode::Prefix`] keeping the actual line
/// that faces a last extra expected line.
pub open spec fn owed_line_edits(mode: Mode, es: Seq<SEdit>, la: Seq<Seq<char>>, le: Seq<Seq<char>>) -> bool {
    &&& s_transcript_for(mode, es, la, le)
    &&& s_change_count(es) <= MAX_DISTANCE + if mode is Prefix {
        1int
    } else {
        0int
    }
    &&& !(mode is Prefix) ==> forall|d: int| #[trigger] within_edits(la, le, d) ==> s_change_count(es) <= d
    &&& mode is Prefix ==> forall|d: int| #[trigger] prefix_within_edits(la, le, d) ==> s_change_count(es) <= d
        + 1
    &&& mode is Prefix ==> s_prefix_keeps_actual(es, la)
}

proof fn lemma_change_count_by_text<'a>(e: Seq<Edit<&'a [char]>>)
    ensures
        s_change_count(sedits(e)) == change_count(e),
    decreases e.len(),
{
    if e.len() > 0 {
        lemma_change_count_by_text(e.drop_last());
        assert(sedits(e).drop_last() =~= sedits(e.drop_last()));
        assert(sedits(e).last() == sedit(e.last()));
    }
}

/// The line edits that `edit_list` returns, by the texts of their lines,
/// are what a difference summary owes.
proof fn lemma_owed_by_text<'a>(mode: Mode, e: Seq<Edit<&'a [char]>>, a: Seq<Seq<char>>, x: Seq<Seq<char>>)
    requires
        transcript_for(mode, e, a, x),
        change_count(e) <= MAX_DISTANCE + if mode is Prefix {
            1int
        } else {
            0int
        },
        !(mode is Prefix) ==> forall|d: int| #[trigger] within_edits(a, x, d) ==> change_count(e) <= d,
        mode is Prefix ==> forall|d: int| #[trigger] prefix_within_edits(a, x, d) ==> change_count(e) <= d + 1,
        mode is Prefix ==> prefix_keeps_actual(e, a),
    ensures
        owed_line_edits(mode, sedits(e), a, x),
{
    lemma_transcript_by_text(mode, e, a, x);
    lemma_change_count_by_text(e);
    lemma_sides_by_text(e);
    let se = sedits(e);
    if se.len() >= 3 {
        assert(se[se.len() - 2] == sedit(e[e.len() - 2]));
        assert(se[se.len() - 3] == sedit(e[e.len() - 3]));
    } else if se.len() >= 2 {
        assert(se[se.len() - 2] == sedit(e[e.len() - 2]));
    }
}

/// A line of text, as the search for line edits compares it.
pub struct LineText {
    pub text: Seq<char>,
}

impl View for LineText {
    type V = Seq<char>;

    open spec fn view(&self) -> Seq<char> {
        self.text
    }
}

/// The lines `ls` as line texts.
pub open spec fn line_texts(ls: Seq<Seq<char>>) -> Seq<LineText> {
    ls.map_values(|l: Seq<char>| LineText { text: l })
}

/// A line edit by its text.
pub open spec fn sedit_of(e: Edit<Seq<char>>) -> SEdit {
    match e {
        Edit::ExtraActual(t) => SEdit::ExtraActual(t),
        Edit::ExtraExpected(t) => SEdit::ExtraExpected(t),
        Edit::Both(t) => SEdit::Both(t),
        Edit::AdditionalActual => SEdit::AdditionalActual,
    }
}

/// The line edits that the search of `edit_list` finds between the lines
/// `la` and `le` in `mode` (nothing when it finds none).
pub open spec fn searched_line_edits(la: Seq<Seq<char>>, le: Seq<Seq<char>>, mode: Mode) -> Seq<SEdit> {
    match search(line_texts(la), line_texts(le), mode, 0, 0) {
        Some(Some(e)) => edit_views(e).map_values(|d: Edit<Seq<char>>| sedit_of(d)),
        _ => Seq::empty(),
    }
}

/// The line edits that `edit_list` returned on line slices are, by their
/// texts, those that the search finds on the lines.
proof fn lemma_searched<'a>(sa: Seq<&'a [char]>, se: Seq<&'a [char]>, mode: Mode, e: Seq<Edit<&'a [char]>>)
    requires
        search(sa, se, mode, 0, 0) == Some(Some(e)),
    ensures
        sedits(e) == searched_line_edits(views(sa), views(se), mode),
{
    let la = views(sa);
    let le = views(se);
    assert(views(line_texts(la)) =~= la);
    assert(views(line_texts(le)) =~= le);
    lemma_search_congr(sa, se, line_texts(la), line_texts(le), mode, 0, 0);
    let o = search(line_texts(la), line_texts(le), mode, 0, 0);
    let e2 = o->0->0;
    assert(edit_views(e2) == edit_views(e));
    assert(sedits(e) =~= edit_views(e).map_values(|d: Edit<Seq<char>>| sedit_of(d))) by {
        assert forall|i: int| 0 <= i < e.len() implies sedits(e)[i] == edit_views(e).map_values(
            |d: Edit<Seq<char>>| sedit_of(d),
        )[i] by {
            assert(edit_views(e)[i] == edit_view(e[i]));
        }
    }
}

/// The lines `la` and `le` are too far apart to be summarized line by line
/// in `mode`: more than [`MAX_DISTANCE`] insertions and deletions of lines
/// apart (in [`Mode::Prefix`], also from every prefix of `la`), or too many
/// to count with `i32`.
pub open spec fn lines_unrelated(la: Seq<Seq<char>>, le: Seq<Seq<char>>, mode: Mode) -> bool {
    ||| la.len() >= i32::MAX
    ||| le.len() >= i32::MAX
    ||| !within_edits(la, le, MAX_DISTANCE as int) && (mode is Prefix ==> !prefix_within_edits(
        la,
        le,
        MAX_DISTANCE as int,
    ))
}

/// The header of a difference summary.
pub open spec fn header_text(color: bool) -> Seq<char> {
    if color {
        "Difference(-"@ + style_code(Style::ActualOnly) + "actual"@ + reset_code() + " / +"@
            + style_code(Style::ExpectedOnly) + "expected"@ + reset_code() + "):"@
    } else {
        "Difference(-actual / +expected):"@
    }
}

/// The header of a difference summary, colored when `color` is on.
pub fn summary_header(color: bool) -> (r: Vec<char>)
    ensures
        r@ == header_text(color),
{
    let mut v: Vec<char> = Vec::new();
    if color {
        push_str(&mut v, "Difference(-");
        push_style_code(&mut v, Style::ActualOnly);
        push_str(&mut v, "actual");
        push_reset_code(&mut v);
        push_str(&mut v, " / +");
        push_style_code(&mut v, Style::ExpectedOnly);
        push_str(&mut v, "expected");
        push_reset_code(&mut v);
        push_str(&mut v, "):");
    } else {
        push_str(&mut v, "Difference(-actual / +expected):");
    }
    v
}

/// What a difference summary of the lines `la` (actual) and `le`
/// (expected) is: nothing when the actual value has fewer than two lines, a
/// note when the lines are equal, nothing when they are unrelated
/// ([`lines_unrelated`]), and otherwise a header followed by the summary of
/// the line edits that the search of `edit_list` finds between `la` and
/// `le` in `mode` ([`searched_line_edits`], which has what
/// [`owed_line_edits`] says).
pub open spec fn is_diff(la: Seq<Seq<char>>, le: Seq<Seq<char>>, mode: Mode, color: bool, r: Seq<char>) -> bool {
    if la.len() < 2 {
        r == Seq::<char>::empty()
    } else if la == le {
        r == "No difference found between debug strings."@
    } else if lines_unrelated(la, le, mode) {
        r == Seq::<char>::empty()
    } else {
        exists|es: Seq<SEdit>, s: Seq<char>|
            owed_line_edits(mode, es, la, le) && es == searched_line_edits(la, le, mode) && #[trigger] is_summary(
                es,
                color,
                s,
            ) && r == seq!['\n'] + header_text(color) + s
    }
}

/// Whether two lists of lines are equal.
fn same_lines(a: &[&[char]], b: &[&[char]]) -> (r: bool)
    ensures
        r == (line_views(a@) == line_views(b@)),
{
    if a.len() != b.len() {
        assert(line_views(a@).len() != line_views(b@).len());
        return false;
    }
    let mut i: usize = 0;
    while i < a.len()
        invariant
            a@.len() == b@.len(),
            i <= a@.len(),
            forall|k: int| 0 <= k < i ==> a@[k]@ == b@[k]@,
        decreases a@.len() - i,
    {
        if !crate::matcher_support::edit_distance::chars_equal(a[i], b[i]) {
            assert(line_views(a@)[i as int] != line_views(b@)[i as int]);
            return false;
        }
        i = i + 1;
    }
    assert(line_views(a@) =~= line_views(b@));
    true
}

/// Slices of each of `ls`.
fn slices_of(ls: &Vec<Vec<char>>) -> (r: Vec<&[char]>)
    ensures
        line_views(r@) == views_of(ls@),
{
    let mut r: Vec<&[char]> = Vec::new();
    let mut i: usize = 0;
    while i < ls.len()
        invariant
            i <= ls@.len(),
            line_views(r@) == views_of(ls@).take(i as int),
        decreases ls@.len() - i,
    {
        let ghost before = r@;
        r.push(ls[i].as_slice());
        assert(line_views(r@) =~= line_views(before).push(ls@[i as int]@));
        assert(views_of(ls@).take(i + 1) =~= views_of(ls@).take(i as int).push(ls@[i as int]@));
        i = i + 1;
    }
    assert(views_of(ls@).take(ls@.len() as int) =~= views_of(ls@));
    r
}

/// The difference summary of the debug strings `actual_debug` and
/// `expected_debug`, line by line (see [`is_diff`]).
pub fn create_diff(actual_debug: &str, expected_debug: &str, diff_mode: Mode, color: bool) -> (r: String)
    ensures
        is_diff(lines(actual_debug@), lines(expected_debug@), diff_mode, color, r@),
{
    let a = crate::text::chars_of(actual_debug);
    let e = crate::text::chars_of(expected_debug);
    let a_lines = split_lines(a.as_slice());
    let e_lines = split_lines(e.as_slice());
    if a_lines.len() < 2 {
        return String::new();
    }
    let a_slices = slices_of(&a_lines);
    let e_slices = slices_of(&e_lines);
    let ghost la = lines(actual_debug@);
    let ghost le = lines(expected_debug@);
    if a_slices.len() >= i32::MAX as usize || e_slices.len() >= i32::MAX as usize {
        if same_lines(a_slices.as_slice(), e_slices.as_slice()) {
            return String::from_str("No difference found between debug strings.");
        }
        return String::new();
    }
    assert(views(a_slices@) =~= line_views(a_slices@));
    assert(views(e_slices@) =~= line_views(e_slices@));
    match edit_list(a_slices.as_slice(), e_slices.as_slice(), diff_mode) {
        Difference::Equal => String::from_str("No difference found between debug strings."),
        Difference::Editable(edits) => {
            let summary = BufferedSummary::from_edits(edits.as_slice(), color);
            let header = summary_header(color);
            let mut out: Vec<char> = Vec::new();
            out.push('\n');
            push_all(&mut out, header.as_slice());
            push_all(&mut out, summary.as_slice());
            proof {
                lemma_owed_by_text(diff_mode, edits@, la, le);
                lemma_searched(a_slices@, e_slices@, diff_mode, edits@);
                assert(is_summary(sedits(edits@), color, summary@));
                assert(out@ =~= seq!['\n'] + header_text(color) + summary@);
            }
            crate::text::string_of(out.as_slice())
        },
        Difference::Unrelated => String::new(),
    }
}

/// What a difference summary computed on the lines in reverse order is: as
/// [`is_diff`], but the line edits turn the reversed lines of `la` into the
/// reversed lines of `le` (and so does the test for unrelated lines), and
/// the summary lists them back in order.
pub open spec fn is_diff_reversed(la: Seq<Seq<char>>, le: Seq<Seq<char>>, mode: Mode, color: bool, r: Seq<char>) -> bool {
    if la.len() < 2 {
        r == Seq::<char>::empty()
    } else if la == le {
        r == "No difference found between debug strings."@
    } else if lines_unrelated(la.reverse(), le.reverse(), mode) {
        r == Seq::<char>::empty()
    } else {
        exists|es: Seq<SEdit>, s: Seq<char>|
            owed_line_edits(mode, es, la.reverse(), le.reverse()) && es == searched_line_edits(
                la.reverse(),
                le.reverse(),
                mode,
            ) && #[trigger] is_summary(es.reverse(), color, s)
                && r == seq!['\n'] + header_text(color) + s
    }
}

/// `v` in reverse order.
fn reversed<T: Copy>(v: &[T]) -> (r: Vec<T>)
    ensures
        r@ == v@.reverse(),
{
    let mut r: Vec<T> = Vec::new();
    let mut i: usize = v.len();
    while i > 0
        invariant
            i <= v@.len(),
            r@ == v@.subrange(i as int, v@.len() as int).reverse(),
        decreases i,
    {
        i = i - 1;
        r.push(v[i]);
        assert(r@ =~= v@.subrange(i as int, v@.len() as int).reverse());
    }
    assert(v@.subrange(0, v@.len() as int) =~= v@);
    r
}

/// The difference summary of the debug strings, computed on their lines
/// in reverse order, so that common lines at the end are matched first (see
/// [`is_diff_reversed`]).
pub fn create_diff_reversed(actual_debug: &str, expected_debug: &str, diff_mode: Mode, color: bool) -> (r: String)
    ensures
        is_diff_reversed(lines(actual_debug@), lines(expected_debug@), diff_mode, color, r@),
{
    let a = crate::text::chars_of(actual_debug);
    let e = crate::text::chars_of(expected_debug);
    let a_lines = split_lines(a.as_slice());
    let e_lines = split_lines(e.as_slice());
    if a_lines.len() < 2 {
        return String::new();
    }
    let a_slices = slices_of(&a_lines);
    let e_slices = slices_of(&e_lines);
    let ghost la = lines(actual_debug@);
    let ghost le = lines(expected_debug@);
    if a_slices.len() >= i32::MAX as usize || e_slices.len() >= i32::MAX as usize {
        if same_lines(a_slices.as_slice(), e_slices.as_slice()) {
            return String::from_str("No difference found between debug strings.");
        }
        return String::new();
    }
    let a_rev = reversed(a_slices.as_slice());
    let e_rev = reversed(e_slices.as_slice());
    assert(views(a_rev@) =~= la.reverse());
    assert(views(e_rev@) =~= le.reverse());
    match edit_list(a_rev.as_slice(), e_rev.as_slice(), diff_mode) {
        Difference::Equal => {
            assert(la =~= la.reverse().reverse());
            assert(le =~= le.reverse().reverse());
            String::from_str("No difference found between debug strings.")
        },
        Difference::Editable(edits) => {
            let back = reversed(edits.as_slice());
            let summary = BufferedSummary::from_edits(back.as_slice(), color);
            let header = summary_header(color);
            let mut out: Vec<char> = Vec::new();
            out.push('\n');
            push_all(&mut out, header.as_slice());
            push_all(&mut out, summary.as_slice());
            proof {
                lemma_owed_by_text(diff_mode, edits@, la.reverse(), le.reverse());
                lemma_searched(a_rev@, e_rev@, diff_mode, edits@);
                assert(sedits(back@) =~= sedits(edits@).reverse());
                assert(is_summary(sedits(edits@).reverse(), color, summary@));
                assert(out@ =~= seq!['\n'] + header_text(color) + summary@);
            }
            crate::text::string_of(out.as_slice())
        },
        Difference::Unrelated => String::new(),
    }
}

} // verus!
