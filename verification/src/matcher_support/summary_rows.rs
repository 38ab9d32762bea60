//! What a plain (uncolored) difference summary shows: one row per line,
//! each a marker (`-` for the actual value, `+` for the expected value,
//! ` ` for both or for a comment) and a text; and what those rows say of
//! the two values, proved of every summary.

use vstd::prelude::*;
use crate::matcher_support::edit_distance::{actual_side, expected_side, Edit, Mode};
use crate::matcher_support::summarize_diff::{
    choice_ok, header_text, inline_actual, inline_expected, is_diff, is_diff_reversed, is_summary,
    lines_unrelated, omitted_comment, owed_line_edits, remaining_comment, s_actual_side,
    s_expected_side, s_transcript_for, searched_line_edits, sum_run, sum_start, sum_step,
    summary_of, sv_common, sv_flush, sv_inline, sv_lines, sv_reset, BufView, SEdit, SumState, Sv,
    COMMON_LINES_CONTEXT_SIZE,
};

verus! {

/// A row of a summary: its marker and its text.
pub type Row = (char, Seq<char>);

/// The text of `rows`: each on a line of its own, after its marker.
pub open spec fn rows_text(rows: Seq<Row>) -> Seq<char>
    decreases rows.len(),
{
    if rows.len() == 0 {
        Seq::empty()
    } else {
        rows_text(rows.drop_last()) + seq!['\n', rows.last().0] + rows.last().1
    }
}

/// The texts of the rows marked with `m`, in order.
pub open spec fn marked(rows: Seq<Row>, m: char) -> Seq<Seq<char>>
    decreases rows.len(),
{
    if rows.len() == 0 {
        Seq::empty()
    } else {
        marked(rows.drop_last(), m) + if rows.last().0 == m {
            seq![rows.last().1]
        } else {
            Seq::empty()
        }
    }
}

/// `c` reads like a comment of a summary.
pub open spec fn is_comment_text(c: Seq<char>) -> bool {
    c == remaining_comment() || exists|n: nat| c == #[trigger] omitted_comment(n)
}

/// The texts of the rows that show lines of the actual value: those marked
/// `-`, and those marked ` ` that are no comment.
pub open spec fn actual_rows(rows: Seq<Row>) -> Seq<Seq<char>>
    decreases rows.len(),
{
    if rows.len() == 0 {
        Seq::empty()
    } else {
        let l = rows.last();
        actual_rows(rows.drop_last()) + if l.0 == '-' || (l.0 == ' ' && !is_comment_text(l.1)) {
            seq![l.1]
        } else {
            Seq::empty()
        }
    }
}

/// The texts of the rows that show lines of the expected value: those
/// marked `+`, and those marked ` ` that are no comment.
pub open spec fn expected_rows(rows: Seq<Row>) -> Seq<Seq<char>>
    decreases rows.len(),
{
    if rows.len() == 0 {
        Seq::empty()
    } else {
        let l = rows.last();
        expected_rows(rows.drop_last()) + if l.0 == '+' || (l.0 == ' ' && !is_comment_text(l.1)) {
            seq![l.1]
        } else {
            Seq::empty()
        }
    }
}

/// `s` is a subsequence of `t`: `t` holds the elements of `s` in order,
/// maybe with others between them.
pub open spec fn subseq<A>(s: Seq<A>, t: Seq<A>) -> bool
    decreases s.len() + t.len(),
{
    if s.len() == 0 {
        true
    } else if t.len() == 0 {
        false
    } else {
        (s.last() == t.last() && subseq(s.drop_last(), t.drop_last())) || subseq(s, t.drop_last())
    }
}

/// The lines that line edits take from the actual value alone, in order.
pub open spec fn s_actual_only(es: Seq<SEdit>) -> Seq<Seq<char>>
    decreases es.len(),
{
    if es.len() == 0 {
        Seq::empty()
    } else {
        s_actual_only(es.drop_last()) + match es.last() {
            SEdit::ExtraActual(l) => seq![l],
            _ => Seq::empty(),
        }
    }
}

/// The lines that line edits take from the expected value alone, in
/// order.
pub open spec fn s_expected_only(es: Seq<SEdit>) -> Seq<Seq<char>>
    decreases es.len(),
{
    if es.len() == 0 {
        Seq::empty()
    } else {
        s_expected_only(es.drop_last()) + match es.last() {
            SEdit::ExtraExpected(l) => seq![l],
            _ => Seq::empty(),
        }
    }
}

proof fn lemma_rows_concat(r1: Seq<Row>, r2: Seq<Row>)
    ensures
        rows_text(r1 + r2) == rows_text(r1) + rows_text(r2),
        marked(r1 + r2, '-') == marked(r1, '-') + marked(r2, '-'),
        marked(r1 + r2, '+') == marked(r1, '+') + marked(r2, '+'),
        actual_rows(r1 + r2) == actual_rows(r1) + actual_rows(r2),
        expected_rows(r1 + r2) == expected_rows(r1) + expected_rows(r2),
    decreases r2.len(),
{
    if r2.len() == 0 {
        assert(r1 + r2 =~= r1);
        assert(rows_text(r1) + rows_text(r2) =~= rows_text(r1));
        assert(marked(r1, '-') + marked(r2, '-') =~= marked(r1, '-'));
        assert(marked(r1, '+') + marked(r2, '+') =~= marked(r1, '+'));
        assert(actual_rows(r1) + actual_rows(r2) =~= actual_rows(r1));
        assert(expected_rows(r1) + expected_rows(r2) =~= expected_rows(r1));
    } else {
        lemma_rows_concat(r1, r2.drop_last());
        assert((r1 + r2).drop_last() =~= r1 + r2.drop_last());
        assert((r1 + r2).last() == r2.last());
        assert(rows_text(r1 + r2) =~= rows_text(r1) + rows_text(r2));
        assert(marked(r1 + r2, '-') =~= marked(r1, '-') + marked(r2, '-'));
        assert(marked(r1 + r2, '+') =~= marked(r1, '+') + marked(r2, '+'));
        assert(actual_rows(r1 + r2) =~= actual_rows(r1) + actual_rows(r2));
        assert(expected_rows(r1 + r2) =~= expected_rows(r1) + expected_rows(r2));
    }
}

proof fn lemma_one_row(r: Row)
    ensures
        rows_text(seq![r]) == seq!['\n', r.0] + r.1,
        marked(seq![r], '-') == (if r.0 == '-' { seq![r.1] } else { Seq::<Seq<char>>::empty() }),
        marked(seq![r], '+') == (if r.0 == '+' { seq![r.1] } else { Seq::<Seq<char>>::empty() }),
        actual_rows(seq![r]) == (if r.0 == '-' || (r.0 == ' ' && !is_comment_text(r.1)) {
            seq![r.1]
        } else {
            Seq::<Seq<char>>::empty()
        }),
        expected_rows(seq![r]) == (if r.0 == '+' || (r.0 == ' ' && !is_comment_text(r.1)) {
            seq![r.1]
        } else {
            Seq::<Seq<char>>::empty()
        }),
{
    let rs: Seq<Row> = seq![r];
    assert(rs.drop_last() =~= Seq::<Row>::empty());
    assert(rs.last() == r);
    assert(rows_text(rs.drop_last()) =~= Seq::<char>::empty());
    assert(marked(rs.drop_last(), '-') =~= Seq::<Seq<char>>::empty());
    assert(marked(rs.drop_last(), '+') =~= Seq::<Seq<char>>::empty());
    assert(actual_rows(rs.drop_last()) =~= Seq::<Seq<char>>::empty());
    assert(expected_rows(rs.drop_last()) =~= Seq::<Seq<char>>::empty());
    assert(Seq::<char>::empty() + seq!['\n', r.0] + r.1 =~= seq!['\n', r.0] + r.1);
    assert(rows_text(rs) =~= seq!['\n', r.0] + r.1);
    assert(marked(rs, '-') =~= (if r.0 == '-' { seq![r.1] } else { Seq::<Seq<char>>::empty() }));
    assert(marked(rs, '+') =~= (if r.0 == '+' { seq![r.1] } else { Seq::<Seq<char>>::empty() }));
    assert(actual_rows(rs) =~= (if r.0 == '-' || (r.0 == ' ' && !is_comment_text(r.1)) {
        seq![r.1]
    } else {
        Seq::<Seq<char>>::empty()
    }));
    assert(expected_rows(rs) =~= (if r.0 == '+' || (r.0 == ' ' && !is_comment_text(r.1)) {
        seq![r.1]
    } else {
        Seq::<Seq<char>>::empty()
    }));
}

proof fn lemma_subseq_refl<A>(t: Seq<A>)
    ensures
        subseq(t, t),
    decreases t.len(),
{
    if t.len() > 0 {
        lemma_subseq_refl(t.drop_last());
    }
}

/// A subsequence of `t` is one of `t` followed by more elements.
proof fn lemma_subseq_extend<A>(s: Seq<A>, t: Seq<A>, u: Seq<A>)
    requires
        subseq(s, t),
    ensures
        subseq(s, t + u),
    decreases u.len(),
{
    if u.len() == 0 {
        assert(t + u =~= t);
    } else {
        lemma_subseq_extend(s, t, u.drop_last());
        assert((t + u).drop_last() =~= t + u.drop_last());
        if s.len() > 0 {
            assert(subseq(s, t + u));
        }
    }
}

/// A subsequence of `t` is one of more elements followed by `t`.
proof fn lemma_subseq_prepend<A>(s: Seq<A>, u: Seq<A>, t: Seq<A>)
    requires
        subseq(s, t),
    ensures
        subseq(s, u + t),
    decreases s.len() + t.len(),
{
    if s.len() == 0 {
    } else if t.len() == 0 {
    } else {
        assert((u + t).drop_last() =~= u + t.drop_last());
        assert((u + t).last() == t.last());
        if s.last() == t.last() && subseq(s.drop_last(), t.drop_last()) {
            lemma_subseq_prepend(s.drop_last(), u, t.drop_last());
        } else {
            lemma_subseq_prepend(s, u, t.drop_last());
        }
    }
}

/// Subsequences of two sequences put together are one of the two put
/// together.
proof fn lemma_subseq_concat<A>(s1: Seq<A>, t1: Seq<A>, s2: Seq<A>, t2: Seq<A>)
    requires
        subseq(s1, t1),
        subseq(s2, t2),
    ensures
        subseq(s1 + s2, t1 + t2),
    decreases s2.len() + t2.len(),
{
    if s2.len() == 0 {
        assert(s1 + s2 =~= s1);
        lemma_subseq_extend(s1, t1, t2);
    } else {
        assert(t2.len() > 0);
        assert((s1 + s2).drop_last() =~= s1 + s2.drop_last());
        assert((s1 + s2).last() == s2.last());
        assert((t1 + t2).drop_last() =~= t1 + t2.drop_last());
        assert((t1 + t2).last() == t2.last());
        if s2.last() == t2.last() && subseq(s2.drop_last(), t2.drop_last()) {
            lemma_subseq_concat(s1, t1, s2.drop_last(), t2.drop_last());
        } else {
            lemma_subseq_concat(s1, t1, s2, t2.drop_last());
        }
    }
}


/// The lines `ls` as unmarked rows.
pub open spec fn space_rows(ls: Seq<Seq<char>>) -> Seq<Row> {
    ls.map_values(|l: Seq<char>| (' ', l))
}

/// The rows that a run of common lines prints.
pub open spec fn common_rows(ls: Seq<Seq<char>>) -> Seq<Row> {
    if ls.len() <= 2 * COMMON_LINES_CONTEXT_SIZE + 1 {
        space_rows(ls)
    } else {
        space_rows(ls.take(2)) + seq![(' ', omitted_comment((ls.len() - 4) as nat))] + space_rows(
            ls.skip(ls.len() - 2),
        )
    }
}

/// The rows that printing a held-back buffer adds.
pub open spec fn flush_rows(b: BufView) -> Seq<Row> {
    match b {
        BufView::Empty => Seq::empty(),
        BufView::Common(ls) => common_rows(ls),
        BufView::ExtraActual(a) => seq![('-', a)],
        BufView::ExtraExpected(x) => seq![('+', x)],
    }
}

proof fn lemma_lines_rows(s: Sv, ls: Seq<Seq<char>>)
    ensures
        sv_lines(s, ls, false).text == s.text + rows_text(space_rows(ls)),
    decreases ls.len(),
{
    if ls.len() == 0 {
        assert(rows_text(space_rows(ls)) =~= Seq::<char>::empty());
        assert(s.text + Seq::<char>::empty() =~= s.text);
    } else {
        lemma_lines_rows(s, ls.drop_last());
        assert(space_rows(ls).drop_last() =~= space_rows(ls.drop_last()));
        assert(space_rows(ls).last() == (' ', ls.last()));
        assert(sv_lines(s, ls, false).text =~= s.text + rows_text(space_rows(ls)));
    }
}

proof fn lemma_space_rows_sides(ls: Seq<Seq<char>>)
    ensures
        marked(space_rows(ls), '-') == Seq::<Seq<char>>::empty(),
        marked(space_rows(ls), '+') == Seq::<Seq<char>>::empty(),
        subseq(actual_rows(space_rows(ls)), ls),
        subseq(expected_rows(space_rows(ls)), ls),
    decreases ls.len(),
{
    if ls.len() > 0 {
        lemma_space_rows_sides(ls.drop_last());
        let r = space_rows(ls);
        assert(r.drop_last() =~= space_rows(ls.drop_last()));
        assert(r.last() == (' ', ls.last()));
        assert(marked(r, '-') =~= marked(r.drop_last(), '-'));
        assert(marked(r, '+') =~= marked(r.drop_last(), '+'));
        if is_comment_text(ls.last()) {
            assert(actual_rows(r) =~= actual_rows(r.drop_last()));
            assert(expected_rows(r) =~= expected_rows(r.drop_last()));
            assert(ls =~= ls.drop_last() + seq![ls.last()]);
            lemma_subseq_extend(actual_rows(r), ls.drop_last(), seq![ls.last()]);
            lemma_subseq_extend(expected_rows(r), ls.drop_last(), seq![ls.last()]);
        } else {
            assert(actual_rows(r) =~= actual_rows(r.drop_last()).push(ls.last()));
            assert(expected_rows(r) =~= expected_rows(r.drop_last()).push(ls.last()));
            assert(actual_rows(r).drop_last() =~= actual_rows(r.drop_last()));
            assert(expected_rows(r).drop_last() =~= expected_rows(r.drop_last()));
        }
    }
}

proof fn lemma_common_rows(s: Sv, ls: Seq<Seq<char>>)
    ensures
        sv_common(s, ls, false).text == s.text + rows_text(common_rows(ls)),
        marked(common_rows(ls), '-') == Seq::<Seq<char>>::empty(),
        marked(common_rows(ls), '+') == Seq::<Seq<char>>::empty(),
        subseq(actual_rows(common_rows(ls)), ls),
        subseq(expected_rows(common_rows(ls)), ls),
{
    if ls.len() <= 2 * COMMON_LINES_CONTEXT_SIZE + 1 {
        lemma_lines_rows(s, ls);
        lemma_space_rows_sides(ls);
    } else {
        let n = (ls.len() - 4) as nat;
        let h = ls.take(2);
        let t = ls.skip(ls.len() - 2);
        let c: Seq<Row> = seq![(' ', omitted_comment(n))];
        lemma_lines_rows(s, h);
        let head = sv_lines(s, h, false);
        let comment = Sv { text: head.text + seq!['\n', ' '] + omitted_comment(n), last: head.last };
        lemma_lines_rows(comment, t);
        lemma_space_rows_sides(h);
        lemma_space_rows_sides(t);
        lemma_rows_concat(space_rows(h), c);
        lemma_rows_concat(space_rows(h) + c, space_rows(t));
        assert(is_comment_text(omitted_comment(n)));
        lemma_one_row((' ', omitted_comment(n)));
        assert(sv_common(s, ls, false).text =~= s.text + rows_text(common_rows(ls)));
        let m = ls.subrange(2, ls.len() - 2);
        assert(ls =~= h + (m + t));
        lemma_subseq_prepend(actual_rows(space_rows(t)), m, t);
        lemma_subseq_prepend(expected_rows(space_rows(t)), m, t);
        lemma_subseq_concat(actual_rows(space_rows(h)), h, actual_rows(space_rows(t)), m + t);
        lemma_subseq_concat(expected_rows(space_rows(h)), h, expected_rows(space_rows(t)), m + t);
        assert(actual_rows(common_rows(ls)) =~= actual_rows(space_rows(h)) + actual_rows(space_rows(t)));
        assert(expected_rows(common_rows(ls)) =~= expected_rows(space_rows(h)) + expected_rows(space_rows(t)));
        assert(marked(common_rows(ls), '-') =~= Seq::<Seq<char>>::empty());
        assert(marked(common_rows(ls), '+') =~= Seq::<Seq<char>>::empty());
    }
}

proof fn lemma_flush_rows(s: Sv, b: BufView)
    ensures
        sv_flush(s, b, false).text == s.text + rows_text(flush_rows(b)),
{
    match b {
        BufView::Empty => {
            assert(s.text + rows_text(flush_rows(b)) =~= s.text);
        },
        BufView::Common(ls) => {
            lemma_common_rows(s, ls);
        },
        BufView::ExtraActual(a) => {
            lemma_one_row(('-', a));
            assert(sv_flush(s, b, false).text =~= s.text + rows_text(flush_rows(b)));
        },
        BufView::ExtraExpected(x) => {
            lemma_one_row(('+', x));
            assert(sv_flush(s, b, false).text =~= s.text + rows_text(flush_rows(b)));
        },
    }
}

proof fn lemma_inline_sides(es: Seq<Edit<char>>)
    ensures
        inline_actual(es, false).text == seq!['\n', '-'] + actual_side(es),
        inline_expected(es, false).text == seq!['\n', '+'] + expected_side(es),
    decreases es.len(),
{
    if es.len() == 0 {
        assert(inline_actual(es, false).text =~= seq!['\n', '-'] + actual_side(es));
        assert(inline_expected(es, false).text =~= seq!['\n', '+'] + expected_side(es));
    } else {
        lemma_inline_sides(es.drop_last());
        assert(inline_actual(es, false).text =~= seq!['\n', '-'] + actual_side(es));
        assert(inline_expected(es, false).text =~= seq!['\n', '+'] + expected_side(es));
    }
}

/// A pair of lines prints as a `-` row with the actual line and a `+` row
/// with the expected one.
proof fn lemma_inline_rows(s: Sv, a: Seq<char>, x: Seq<char>, choice: Option<Seq<Edit<char>>>)
    requires
        choice_ok(a, x, choice),
    ensures
        sv_inline(s, a, x, choice, false).text == s.text + rows_text(seq![('-', a), ('+', x)]),
{
    let rs: Seq<Row> = seq![('-', a), ('+', x)];
    lemma_one_row(('-', a));
    lemma_one_row(('+', x));
    lemma_rows_concat(seq![('-', a)], seq![('+', x)]);
    assert(seq![('-', a)] + seq![('+', x)] =~= rs);
    assert(rows_text(rs) =~= seq!['\n', '-'] + a + seq!['\n', '+'] + x);
    match choice {
        Some(es) => {
            lemma_inline_sides(es);
            assert(sv_inline(s, a, x, choice, false).text =~= s.text + rows_text(rs));
        },
        None => {
            assert(sv_inline(s, a, x, choice, false).text =~= s.text + rows_text(rs));
        },
    }
}


/// The lines of the actual value that a buffer holds back.
spec fn pend_actual(b: BufView) -> Seq<Seq<char>> {
    match b {
        BufView::Common(ls) => ls,
        BufView::ExtraActual(a) => seq![a],
        _ => Seq::empty(),
    }
}

/// The lines of the expected value that a buffer holds back.
spec fn pend_expected(b: BufView) -> Seq<Seq<char>> {
    match b {
        BufView::Common(ls) => ls,
        BufView::ExtraExpected(x) => seq![x],
        _ => Seq::empty(),
    }
}

/// The line only in the actual value that a buffer holds back.
spec fn pend_actual_only(b: BufView) -> Seq<Seq<char>> {
    match b {
        BufView::ExtraActual(a) => seq![a],
        _ => Seq::empty(),
    }
}

/// The line only in the expected value that a buffer holds back.
spec fn pend_expected_only(b: BufView) -> Seq<Seq<char>> {
    match b {
        BufView::ExtraExpected(x) => seq![x],
        _ => Seq::empty(),
    }
}

/// The summary state `st` after the line edits `es` prints the rows `rs`,
/// which show the lines `p` of the actual side and `q` of the expected
/// side before what the buffer holds back.
spec fn rows_inv(es: Seq<SEdit>, st: SumState, rs: Seq<Row>, p: Seq<Seq<char>>, q: Seq<Seq<char>>) -> bool {
    &&& st.sv.text == rows_text(rs)
    &&& marked(rs, '-') + pend_actual_only(st.buf) == s_actual_only(es)
    &&& marked(rs, '+') + pend_expected_only(st.buf) == s_expected_only(es)
    &&& s_actual_side(es) == p + pend_actual(st.buf)
    &&& s_expected_side(es) == q + pend_expected(st.buf)
    &&& subseq(actual_rows(rs), p)
    &&& subseq(expected_rows(rs), q)
}

proof fn lemma_flush_sides(s: Sv, b: BufView)
    ensures
        sv_flush(s, b, false).text == s.text + rows_text(flush_rows(b)),
        marked(flush_rows(b), '-') == pend_actual_only(b),
        marked(flush_rows(b), '+') == pend_expected_only(b),
        subseq(actual_rows(flush_rows(b)), pend_actual(b)),
        subseq(expected_rows(flush_rows(b)), pend_expected(b)),
{
    lemma_flush_rows(s, b);
    match b {
        BufView::Empty => {
            assert(marked(flush_rows(b), '-') =~= pend_actual_only(b));
            assert(marked(flush_rows(b), '+') =~= pend_expected_only(b));
        },
        BufView::Common(ls) => {
            lemma_common_rows(s, ls);
        },
        BufView::ExtraActual(a) => {
            lemma_one_row(('-', a));
            lemma_subseq_refl(seq![a]);
        },
        BufView::ExtraExpected(x) => {
            lemma_one_row(('+', x));
            lemma_subseq_refl(seq![x]);
        },
    }
}

proof fn lemma_pair_rows(a: Seq<char>, x: Seq<char>)
    ensures
        marked(seq![('-', a), ('+', x)], '-') == seq![a],
        marked(seq![('-', a), ('+', x)], '+') == seq![x],
        actual_rows(seq![('-', a), ('+', x)]) == seq![a],
        expected_rows(seq![('-', a), ('+', x)]) == seq![x],
{
    lemma_one_row(('-', a));
    lemma_one_row(('+', x));
    lemma_rows_concat(seq![('-', a)], seq![('+', x)]);
    assert(seq![('-', a)] + seq![('+', x)] =~= seq![('-', a), ('+', x)]);
    assert(Seq::<Seq<char>>::empty() + seq![x] =~= seq![x]);
    assert(seq![a] + Seq::<Seq<char>>::empty() =~= seq![a]);
}

/// One more line edit keeps the rows invariant.
proof fn lemma_step_rows(
    es: Seq<SEdit>,
    e: SEdit,
    c: Option<Seq<Edit<char>>>,
    st: SumState,
    rs: Seq<Row>,
    p: Seq<Seq<char>>,
    q: Seq<Seq<char>>,
) -> (out: (Seq<Row>, Seq<Seq<char>>, Seq<Seq<char>>))
    requires
        rows_inv(es, st, rs, p, q),
        sum_step(st, e, c, false) is Some,
    ensures
        rows_inv(es.push(e), sum_step(st, e, c, false)->0, out.0, out.1, out.2),
{
    let n = es.push(e);
    assert(n.drop_last() =~= es);
    assert(n.last() == e);
    let nst = sum_step(st, e, c, false)->0;
    let empty = Seq::<Seq<char>>::empty();
    let flushed = rs + flush_rows(st.buf);
    lemma_flush_sides(st.sv, st.buf);
    lemma_rows_concat(rs, flush_rows(st.buf));
    lemma_subseq_concat(actual_rows(rs), p, actual_rows(flush_rows(st.buf)), pend_actual(st.buf));
    lemma_subseq_concat(expected_rows(rs), q, expected_rows(flush_rows(st.buf)), pend_expected(st.buf));
    let fp = p + pend_actual(st.buf);
    let fq = q + pend_expected(st.buf);
    match e {
        SEdit::Both(l) => {
            match st.buf {
                BufView::Common(ls) => {
                    assert(s_actual_side(n) =~= p + ls.push(l));
                    assert(s_expected_side(n) =~= q + ls.push(l));
                    assert(s_actual_only(n) =~= s_actual_only(es));
                    assert(s_expected_only(n) =~= s_expected_only(es));
                    (rs, p, q)
                },
                _ => {
                    assert(s_actual_side(n) =~= fp + seq![l]);
                    assert(s_expected_side(n) =~= fq + seq![l]);
                    assert(s_actual_only(n) =~= marked(flushed, '-') + empty);
                    assert(s_expected_only(n) =~= marked(flushed, '+') + empty);
                    (flushed, fp, fq)
                },
            }
        },
        SEdit::ExtraActual(a) => {
            match st.buf {
                BufView::ExtraExpected(x) => {
                    let pr: Seq<Row> = seq![('-', a), ('+', x)];
                    lemma_inline_rows(st.sv, a, x, c);
                    lemma_pair_rows(a, x);
                    lemma_rows_concat(rs, pr);
                    lemma_subseq_refl(seq![a]);
                    lemma_subseq_refl(seq![x]);
                    lemma_subseq_concat(actual_rows(rs), p, seq![a], seq![a]);
                    lemma_subseq_concat(expected_rows(rs), q, seq![x], seq![x]);
                    assert(s_actual_side(n) =~= (p + seq![a]) + empty);
                    assert(s_expected_side(n) =~= (q + seq![x]) + empty);
                    assert(s_actual_only(n) =~= marked(rs + pr, '-') + empty);
                    assert(s_expected_only(n) =~= marked(rs + pr, '+') + empty);
                    (rs + pr, p + seq![a], q + seq![x])
                },
                _ => {
                    assert(s_actual_side(n) =~= fp + seq![a]);
                    assert(s_expected_side(n) =~= fq + empty);
                    assert(s_actual_only(n) =~= marked(flushed, '-') + seq![a]);
                    assert(s_expected_only(n) =~= marked(flushed, '+') + empty);
                    (flushed, fp, fq)
                },
            }
        },
        SEdit::ExtraExpected(x) => {
            match st.buf {
                BufView::ExtraActual(a) => {
                    let pr: Seq<Row> = seq![('-', a), ('+', x)];
                    lemma_inline_rows(st.sv, a, x, c);
                    lemma_pair_rows(a, x);
                    lemma_rows_concat(rs, pr);
                    lemma_subseq_refl(seq![a]);
                    lemma_subseq_refl(seq![x]);
                    lemma_subseq_concat(actual_rows(rs), p, seq![a], seq![a]);
                    lemma_subseq_concat(expected_rows(rs), q, seq![x], seq![x]);
                    assert(s_actual_side(n) =~= (p + seq![a]) + empty);
                    assert(s_expected_side(n) =~= (q + seq![x]) + empty);
                    assert(s_actual_only(n) =~= marked(rs + pr, '-') + empty);
                    assert(s_expected_only(n) =~= marked(rs + pr, '+') + empty);
                    (rs + pr, p + seq![a], q + seq![x])
                },
                _ => {
                    assert(s_actual_side(n) =~= fp + empty);
                    assert(s_expected_side(n) =~= fq + seq![x]);
                    assert(s_actual_only(n) =~= marked(flushed, '-') + empty);
                    assert(s_expected_only(n) =~= marked(flushed, '+') + seq![x]);
                    (flushed, fp, fq)
                },
            }
        },
        SEdit::AdditionalActual => {
            let cr: Seq<Row> = seq![(' ', remaining_comment())];
            assert(is_comment_text(remaining_comment()));
            lemma_one_row((' ', remaining_comment()));
            lemma_rows_concat(flushed, cr);
            assert(actual_rows(flushed + cr) =~= actual_rows(flushed));
            assert(expected_rows(flushed + cr) =~= expected_rows(flushed));
            assert(nst.sv.text =~= rows_text(flushed + cr));
            assert(s_actual_side(n) =~= fp + empty);
            assert(s_expected_side(n) =~= fq + empty);
            assert(s_actual_only(n) =~= marked(flushed + cr, '-') + empty);
            assert(s_expected_only(n) =~= marked(flushed + cr, '+') + empty);
            (flushed + cr, fp, fq)
        },
    }
}


proof fn lemma_run_rows(es: Seq<SEdit>, choices: Seq<Option<Seq<Edit<char>>>>) -> (out: (
    Seq<Row>,
    Seq<Seq<char>>,
    Seq<Seq<char>>,
))
    requires
        sum_run(es, choices, false) is Some,
    ensures
        rows_inv(es, sum_run(es, choices, false)->0, out.0, out.1, out.2),
    decreases es.len(),
{
    if es.len() == 0 {
        let st = sum_start();
        let e = Seq::<Seq<char>>::empty();
        assert(rows_text(Seq::<Row>::empty()) =~= st.sv.text);
        assert(marked(Seq::<Row>::empty(), '-') + e =~= s_actual_only(es));
        assert(marked(Seq::<Row>::empty(), '+') + e =~= s_expected_only(es));
        assert(s_actual_side(es) =~= e + e);
        assert(s_expected_side(es) =~= e + e);
        (Seq::<Row>::empty(), e, e)
    } else {
        let prev = es.drop_last();
        let (rs, p, q) = lemma_run_rows(prev, choices.drop_last());
        let st = sum_run(prev, choices.drop_last(), false)->0;
        assert(prev.push(es.last()) =~= es);
        lemma_step_rows(prev, es.last(), choices.last(), st, rs, p, q)
    }
}

/// A plain summary of line edits, read row by row: its `-` rows are, in
/// order, exactly the lines that the edits take from the actual value
/// alone, and its `+` rows exactly those taken from the expected value
/// alone, whichever lines the summary pairs; the rows that show lines of the
/// actual value (`-` rows and unmarked lines) list lines of the actual side
/// of the edits in their order, and likewise for the expected value.
pub proof fn law_summary_rows(es: Seq<SEdit>, s: Seq<char>)
    requires
        is_summary(es, false, s),
    ensures
        exists|rs: Seq<Row>|
            {
                &&& #[trigger] rows_text(rs) == s
                &&& marked(rs, '-') == s_actual_only(es)
                &&& marked(rs, '+') == s_expected_only(es)
                &&& subseq(actual_rows(rs), s_actual_side(es))
                &&& subseq(expected_rows(rs), s_expected_side(es))
            },
{
    let choices = choose|choices: Seq<Option<Seq<Edit<char>>>>| #[trigger] summary_of(es, choices, false) == Some(s);
    let st = sum_run(es, choices, false)->0;
    let (rs, p, q) = lemma_run_rows(es, choices);
    let all = rs + flush_rows(st.buf);
    lemma_flush_sides(st.sv, st.buf);
    lemma_rows_concat(rs, flush_rows(st.buf));
    lemma_subseq_concat(actual_rows(rs), p, actual_rows(flush_rows(st.buf)), pend_actual(st.buf));
    lemma_subseq_concat(expected_rows(rs), q, expected_rows(flush_rows(st.buf)), pend_expected(st.buf));
    assert(sv_reset(sv_flush(st.sv, st.buf, false), false).text == s);
    assert(rows_text(all) == s);
}


proof fn lemma_side_concat(x: Seq<SEdit>, y: Seq<SEdit>)
    ensures
        s_actual_side(x + y) == s_actual_side(x) + s_actual_side(y),
        s_expected_side(x + y) == s_expected_side(x) + s_expected_side(y),
        s_actual_only(x + y) == s_actual_only(x) + s_actual_only(y),
        s_expected_only(x + y) == s_expected_only(x) + s_expected_only(y),
    decreases y.len(),
{
    if y.len() == 0 {
        assert(x + y =~= x);
        assert(s_actual_side(x) + s_actual_side(y) =~= s_actual_side(x));
        assert(s_expected_side(x) + s_expected_side(y) =~= s_expected_side(x));
        assert(s_actual_only(x) + s_actual_only(y) =~= s_actual_only(x));
        assert(s_expected_only(x) + s_expected_only(y) =~= s_expected_only(x));
    } else {
        lemma_side_concat(x, y.drop_last());
        assert((x + y).drop_last() =~= x + y.drop_last());
        assert((x + y).last() == y.last());
        assert(s_actual_side(x + y) =~= s_actual_side(x) + s_actual_side(y));
        assert(s_expected_side(x + y) =~= s_expected_side(x) + s_expected_side(y));
        assert(s_actual_only(x + y) =~= s_actual_only(x) + s_actual_only(y));
        assert(s_expected_only(x + y) =~= s_expected_only(x) + s_expected_only(y));
    }
}

/// Line edits listed backwards take the lines of each value backwards.
proof fn lemma_side_reverse(es: Seq<SEdit>)
    ensures
        s_actual_side(es.reverse()) == s_actual_side(es).reverse(),
        s_expected_side(es.reverse()) == s_expected_side(es).reverse(),
    decreases es.len(),
{
    if es.len() > 0 {
        let one = seq![es.last()];
        lemma_side_reverse(es.drop_last());
        assert(es.reverse() =~= one + es.drop_last().reverse());
        assert(es =~= es.drop_last() + one);
        lemma_side_concat(one, es.drop_last().reverse());
        lemma_side_concat(es.drop_last(), one);
        assert(one.drop_last() =~= Seq::<SEdit>::empty());
        assert(one.last() == es.last());
        assert(s_actual_side(one.drop_last()).len() == 0);
        assert(s_expected_side(one.drop_last()).len() == 0);
        let a1 = s_actual_side(one);
        let x1 = s_expected_side(one);
        assert(a1.len() <= 1);
        assert(x1.len() <= 1);
        assert(a1.reverse() =~= a1);
        assert(x1.reverse() =~= x1);
        assert((s_actual_side(es.drop_last()) + a1).reverse() =~= a1.reverse() + s_actual_side(
            es.drop_last(),
        ).reverse());
        assert((s_expected_side(es.drop_last()) + x1).reverse() =~= x1.reverse() + s_expected_side(
            es.drop_last(),
        ).reverse());
    }
}

/// The actual side of a line edit transcript is a contiguous part of the
/// actual lines, all of them in [`Mode::Exact`].
proof fn lemma_transcript_part(mode: Mode, es: Seq<SEdit>, la: Seq<Seq<char>>, le: Seq<Seq<char>>) -> (ij: (int, int))
    requires
        s_transcript_for(mode, es, la, le),
    ensures
        0 <= ij.0 <= ij.1 <= la.len(),
        s_actual_side(es) == la.subrange(ij.0, ij.1),
        mode is Exact ==> ij.0 == 0 && ij.1 == la.len(),
        s_expected_side(es) == le,
{
    match mode {
        Mode::Exact => {
            assert(la.subrange(0, la.len() as int) =~= la);
            (0, la.len() as int)
        },
        Mode::Prefix => {
            let m = choose|m: int| 0 <= m <= la.len() && s_actual_side(es) == la.take(m);
            (0, m)
        },
        Mode::Contains => {
            let (i, j) = choose|i: int, j: int| 0 <= i <= j <= la.len() && s_actual_side(es) == la.subrange(i, j);
            (i, j)
        },
    }
}

/// What is a subsequence of a part of `t` is one of `t`.
proof fn lemma_subseq_of_part<A>(s: Seq<A>, t: Seq<A>, i: int, j: int)
    requires
        0 <= i <= j <= t.len(),
        subseq(s, t.subrange(i, j)),
    ensures
        subseq(s, t),
{
    lemma_subseq_prepend(s, t.take(i), t.subrange(i, j));
    lemma_subseq_extend(s, t.take(i) + t.subrange(i, j), t.skip(j));
    assert(t.take(i) + t.subrange(i, j) + t.skip(j) =~= t);
}

/// A plain difference summary, read row by row: after the header, its `-`
/// rows are exactly the lines that the line edits found between the actual
/// lines `la` and the expected lines `le` take from `la` alone, in order,
/// and its `+` rows those they take from `le` alone; the rows that show
/// actual lines list lines of `la` in their order, and the rows that show
/// expected lines list lines of `le` in their order.
pub proof fn law_diff_rows(la: Seq<Seq<char>>, le: Seq<Seq<char>>, mode: Mode, r: Seq<char>)
    requires
        is_diff(la, le, mode, false, r),
        la.len() >= 2,
        la != le,
        !lines_unrelated(la, le, mode),
    ensures
        exists|rs: Seq<Row>|
            {
                &&& r == seq!['\n'] + header_text(false) + #[trigger] rows_text(rs)
                &&& marked(rs, '-') == s_actual_only(searched_line_edits(la, le, mode))
                &&& marked(rs, '+') == s_expected_only(searched_line_edits(la, le, mode))
                &&& subseq(actual_rows(rs), la)
                &&& subseq(expected_rows(rs), le)
            },
{
    let (es, s) = choose|es: Seq<SEdit>, s: Seq<char>|
        owed_line_edits(mode, es, la, le) && es == searched_line_edits(la, le, mode) && #[trigger] is_summary(
            es,
            false,
            s,
        ) && r == seq!['\n'] + header_text(false) + s;
    law_summary_rows(es, s);
    let rs = choose|rs: Seq<Row>|
        {
            &&& #[trigger] rows_text(rs) == s
            &&& marked(rs, '-') == s_actual_only(es)
            &&& marked(rs, '+') == s_expected_only(es)
            &&& subseq(actual_rows(rs), s_actual_side(es))
            &&& subseq(expected_rows(rs), s_expected_side(es))
        };
    let (i, j) = lemma_transcript_part(mode, es, la, le);
    lemma_subseq_of_part(actual_rows(rs), la, i, j);
    assert(rows_text(rs) == s);
}

/// A difference summary computed on the lines in reverse order lists the
/// lines in their original order: it is the summary of line edits that take
/// all of the expected lines `le` in order, and a contiguous part of the
/// actual lines `la` in order (all of them in [`Mode::Exact`]).
pub proof fn law_reversed_diff_in_order(la: Seq<Seq<char>>, le: Seq<Seq<char>>, mode: Mode, color: bool, r: Seq<char>)
    requires
        is_diff_reversed(la, le, mode, color, r),
        la.len() >= 2,
        la != le,
        !lines_unrelated(la.reverse(), le.reverse(), mode),
    ensures
        exists|es: Seq<SEdit>, s: Seq<char>, i: int, j: int|
            #![trigger is_summary(es, color, s), la.subrange(i, j)]
            {
                &&& r == seq!['\n'] + header_text(color) + s
                &&& is_summary(es, color, s)
                &&& s_expected_side(es) == le
                &&& 0 <= i <= j <= la.len()
                &&& s_actual_side(es) == la.subrange(i, j)
                &&& mode is Exact ==> i == 0 && j == la.len()
            },
{
    let (es, s) = choose|es: Seq<SEdit>, s: Seq<char>|
        owed_line_edits(mode, es, la.reverse(), le.reverse()) && es == searched_line_edits(
            la.reverse(),
            le.reverse(),
            mode,
        ) && #[trigger] is_summary(es.reverse(), color, s) && r == seq!['\n'] + header_text(color) + s;
    let n = la.len() as int;
    let (i, j) = lemma_transcript_part(mode, es, la.reverse(), le.reverse());
    lemma_side_reverse(es);
    assert(la.reverse().subrange(i, j).reverse() =~= la.subrange(n - j, n - i));
    assert(le.reverse().reverse() =~= le);
    assert(s_actual_side(es.reverse()) == la.subrange(n - j, n - i));
}

/// A plain difference summary computed on the lines in reverse order,
/// read row by row: the rows that show actual lines list lines of `la` in
/// their original order, and the rows that show expected lines list lines
/// of `le` in their original order.
pub proof fn law_reversed_diff_rows(la: Seq<Seq<char>>, le: Seq<Seq<char>>, mode: Mode, r: Seq<char>)
    requires
        is_diff_reversed(la, le, mode, false, r),
        la.len() >= 2,
        la != le,
        !lines_unrelated(la.reverse(), le.reverse(), mode),
    ensures
        exists|rs: Seq<Row>|
            {
                &&& r == seq!['\n'] + header_text(false) + #[trigger] rows_text(rs)
                &&& subseq(actual_rows(rs), la)
                &&& subseq(expected_rows(rs), le)
            },
{
    law_reversed_diff_in_order(la, le, mode, false, r);
    let (es, s, i, j) = choose|es: Seq<SEdit>, s: Seq<char>, i: int, j: int|
        #![trigger is_summary(es, false, s), la.subrange(i, j)]
        {
            &&& r == seq!['\n'] + header_text(false) + s
            &&& is_summary(es, false, s)
            &&& s_expected_side(es) == le
            &&& 0 <= i <= j <= la.len()
            &&& s_actual_side(es) == la.subrange(i, j)
            &&& mode is Exact ==> i == 0 && j == la.len()
        };
    law_summary_rows(es, s);
    let rs = choose|rs: Seq<Row>|
        {
            &&& #[trigger] rows_text(rs) == s
            &&& marked(rs, '-') == s_actual_only(es)
            &&& marked(rs, '+') == s_expected_only(es)
            &&& subseq(actual_rows(rs), s_actual_side(es))
            &&& subseq(expected_rows(rs), s_expected_side(es))
        };
    lemma_subseq_of_part(actual_rows(rs), la, i, j);
    assert(rows_text(rs) == s);
}

} // verus!
