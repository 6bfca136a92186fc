//! What holds of texts and of the room that they take.

use crate::style::{Color, Style};
use crate::text::{
    law_trimmed_has_no_white_space_at_its_ends, line_columns, line_feed, lines_columns,
    lines_from, repeated, rows_of, spans_columns, styled, text_columns, text_lines, trimmed,
    white_around, white_space, widest, wrapped_rows, LineView, SpanView,
};
use vstd::prelude::*;

verus! {

/// A text without white space at its ends is trimmed to itself, and one of white
/// space alone to nothing.
pub proof fn law_trimming_keeps_what_has_no_white_space_around_it(s: Seq<char>)
    ensures
        s.len() > 0 && !white_space(s.first()) && !white_space(s.last()) ==> trimmed(s) == s,
        (forall|i: int| 0 <= i < s.len() ==> !white_space(#[trigger] s[i])) ==> trimmed(s) == s,
        (forall|i: int| 0 <= i < s.len() ==> white_space(#[trigger] s[i])) ==> trimmed(s).len()
            == 0,
{
    law_trimmed_has_no_white_space_at_its_ends(s);
    let (from, to) = choose|from: int, to: int| #[trigger]
        white_around(s, from, to) && trimmed(s) == s.subrange(from, to);
    if s.len() > 0 && !white_space(s[0]) && !white_space(s[s.len() - 1]) {
        assert(from == 0 && to == s.len());
        assert(s.subrange(0, s.len() as int) =~= s);
    }
    if forall|i: int| 0 <= i < s.len() ==> white_space(#[trigger] s[i]) {
        if trimmed(s).len() > 0 {
            assert(trimmed(s).first() == s[from]);
        }
    }
}

/// White space around a text is all that trimming takes off.
pub proof fn law_trimming_takes_off_white_space_around_a_text(
    ahead: Seq<char>,
    s: Seq<char>,
    behind: Seq<char>,
)
    requires
        s.len() > 0,
        !white_space(s.first()),
        !white_space(s.last()),
        forall|i: int| 0 <= i < ahead.len() ==> white_space(#[trigger] ahead[i]),
        forall|i: int| 0 <= i < behind.len() ==> white_space(#[trigger] behind[i]),
    ensures
        trimmed(ahead + s + behind) == s,
{
    let whole = ahead + s + behind;
    law_trimmed_has_no_white_space_at_its_ends(whole);
    let (from, to) = choose|from: int, to: int| #[trigger]
        white_around(whole, from, to) && trimmed(whole) == whole.subrange(from, to);
    let (a, n) = (ahead.len() as int, s.len() as int);
    assert(whole[a] == s[0]);
    assert(whole[a + n - 1] == s[n - 1]);
    assert(from <= a && a + n <= to);
    assert(trimmed(whole).first() == whole[from]);
    assert(trimmed(whole).last() == whole[to - 1]);
    if from < a {
        assert(whole[from] == ahead[from]);
    }
    if to > a + n {
        assert(whole[to - 1] == behind[to - 1 - a - n]);
    }
    assert(whole.subrange(a, a + n) =~= s);
}

/// A repeated character is all that there is, as often as was asked for.
pub proof fn law_repeated_character(c: char, n: nat)
    ensures
        repeated(c, n).len() == n,
        forall|i: int| 0 <= i < n ==> #[trigger] repeated(c, n)[i] == c,
{
}

/// A line feed further on.
proof fn lemma_line_feed_shifts(ahead: Seq<char>, s: Seq<char>, from: int)
    requires
        0 <= from,
    ensures
        line_feed(ahead + s, ahead.len() + from) == match line_feed(s, from) {
            Some(at) => Some(ahead.len() + at),
            None => None,
        },
        line_feed(s, from) matches Some(at) ==> from <= at < s.len(),
    decreases s.len() - from,
{
    if from < s.len() {
        assert((ahead + s)[ahead.len() + from] == s[from]);
        lemma_line_feed_shifts(ahead, s, from + 1);
    }
}

/// The lines further on.
proof fn lemma_lines_shift(ahead: Seq<char>, s: Seq<char>, from: int)
    requires
        0 <= from,
    ensures
        lines_from(ahead + s, ahead.len() + from) == lines_from(s, from),
    decreases s.len() - from,
{
    let whole = ahead + s;
    let n = ahead.len() as int;
    if from < s.len() {
        lemma_line_feed_shifts(ahead, s, from);
        match line_feed(s, from) {
            None => {
                assert(whole.subrange(n + from, whole.len() as int) =~= s.subrange(
                    from,
                    s.len() as int,
                ));
            },
            Some(at) => {
                lemma_lines_shift(ahead, s, at + 1);
                assert(whole.subrange(n + from, n + at) =~= s.subrange(from, at));
            },
        }
    }
}

/// The first line feed of a text whose beginning holds none.
proof fn lemma_first_line_feed(a: Seq<char>, b: Seq<char>, from: int)
    requires
        0 <= from <= a.len(),
        forall|i: int| 0 <= i < a.len() ==> #[trigger] a[i] != '\n',
    ensures
        b.len() == 0 ==> line_feed(a + b, from) is None,
        b.len() > 0 && b[0] == '\n' ==> line_feed(a + b, from) == Some(a.len() as int),
    decreases a.len() - from,
{
    if from < a.len() {
        assert((a + b)[from] == a[from]);
        lemma_first_line_feed(a, b, from + 1);
    } else if b.len() > 0 {
        assert((a + b)[from] == b[0]);
    }
}

/// A text without a line feed is one line, or none when it is empty. A line feed ends
/// a line, together with a carriage return directly ahead of it, and the rest of the
/// text gives the other lines.
pub proof fn law_line_feeds_end_lines(line: Seq<char>, rest: Seq<char>)
    requires
        forall|i: int| 0 <= i < line.len() ==> #[trigger] line[i] != '\n',
    ensures
        line.len() == 0 ==> text_lines(line).len() == 0,
        line.len() > 0 ==> text_lines(line) == seq![line],
        text_lines(line + seq!['\n'] + rest) == seq![
            if line.len() > 0 && line.last() == '\r' {
                line.drop_last()
            } else {
                line
            },
        ] + text_lines(rest),
{
    let none = Seq::<char>::empty();
    lemma_first_line_feed(line, none, 0);
    assert(line + none =~= line);
    assert(line.subrange(0, line.len() as int) =~= line);
    let ended = line + seq!['\n'];
    let whole = ended + rest;
    let tail = seq!['\n'] + rest;
    assert(whole =~= line + tail);
    lemma_first_line_feed(line, tail, 0);
    lemma_lines_shift(ended, rest, 0);
    assert(whole.subrange(0, line.len() as int) =~= line);
}

/// The width of a line is the sum of the widths of its pieces, and a piece is as
/// wide as unicode-width measures, or as it has characters where all of them are
/// printable ASCII.
pub proof fn law_width_of_a_line(a: Seq<SpanView>, span: SpanView, style: Style)
    ensures
        spans_columns(Seq::empty()) == 0,
        (forall|i: int| 0 <= i < span.text.len() ==> ' ' <= #[trigger] span.text[i] <= '~')
            ==> spans_columns(a.push(span)) == spans_columns(a) + span.text.len(),
        !(forall|i: int| 0 <= i < span.text.len() ==> ' ' <= #[trigger] span.text[i] <= '~')
            ==> spans_columns(a.push(span)) == spans_columns(a) + text_columns(span.text),
        spans_columns(a) <= usize::MAX ==> line_columns(LineView { spans: a, style })
            == spans_columns(a),
        spans_columns(a) > usize::MAX ==> line_columns(LineView { spans: a, style }) == usize::MAX,
{
    assert(a.push(span).drop_last() =~= a);
}

/// Each line of a list has its own width.
pub proof fn law_widths_of_lines(lines: Seq<LineView>, i: int)
    requires
        0 <= i < lines.len(),
    ensures
        lines_columns(lines).len() == lines.len(),
        lines_columns(lines)[i] == line_columns(lines[i]),
{
    lemma_columns_are_counted(lines[i].spans);
}

/// No width is negative.
proof fn lemma_columns_are_counted(spans: Seq<SpanView>)
    ensures
        spans_columns(spans) >= 0,
    decreases spans.len(),
{
    if spans.len() > 0 {
        lemma_columns_are_counted(spans.drop_last());
    }
}

/// The largest width is one of the widths, or zero when there is none, and no width
/// is larger.
pub proof fn law_widest_is_the_largest(widths: Seq<usize>)
    ensures
        forall|i: int| 0 <= i < widths.len() ==> #[trigger] widths[i] <= widest(widths),
        widths.len() == 0 ==> widest(widths) == 0,
        widths.len() > 0 ==> exists|i: int|
            0 <= i < widths.len() && #[trigger] widths[i] == widest(widths),
    decreases widths.len(),
{
    if widths.len() > 0 {
        let rest = widths.drop_last();
        let n = widths.len() - 1;
        law_widest_is_the_largest(rest);
        assert forall|i: int| 0 <= i < widths.len() implies #[trigger] widths[i] <= widest(
            widths,
        ) by {
            if i < n {
                assert(rest[i] == widths[i]);
            }
        }
        if widest(widths) == widths[n] {
            assert(widths[n] == widest(widths));
        } else {
            let i = choose|i: int| 0 <= i < rest.len() && #[trigger] rest[i] == widest(rest);
            assert(widths[i] == widest(widths));
        }
    }
}

/// A line takes as many rows as hold it, at least one and none to spare, and lines
/// take their rows together.
pub proof fn law_rows_of_wrapped_lines(widths: Seq<usize>, width: usize, inner: int)
    requires
        inner > 0,
    ensures
        ({
            let rows = rows_of(width as int, inner);
            &&& rows >= 1
            &&& width <= rows * inner
            &&& rows > 1 ==> (rows - 1) * inner < width
            &&& wrapped_rows(Seq::empty(), inner) == 0
            &&& wrapped_rows(widths.push(width), inner) == wrapped_rows(widths, inner) + rows
        }),
{
    assert(widths.push(width).drop_last() =~= widths);
    let (w, n) = (width as int, inner);
    let q = (w + n - 1) / n;
    assert(w <= q * n && (q - 1) * n < w) by (nonlinear_arith)
        requires
            w >= 0,
            n > 0,
            q == (w + n - 1) / n,
    ;
    assert(q < 1 ==> w <= 0) by (nonlinear_arith)
        requires
            w <= q * n,
            n > 0,
            w >= 0,
    ;
}

/// A line of one text holds that text and nothing else, and no piece where the text
/// is empty.
pub proof fn law_line_of_one_text(text: Seq<char>, style: Style)
    ensures
        styled(text, style).style == style,
        text.len() == 0 ==> styled(text, style).spans.len() == 0,
        text.len() > 0 ==> {
            let line = styled(text, style);
            &&& line.spans.len() == 1
            &&& line.spans[0].text == text
            &&& line.spans[0].style == (Style { fg: None::<Color>, bg: None::<Color>, dim: false })
        },
{
}

} // verus!
