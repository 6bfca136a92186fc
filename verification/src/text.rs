//! Characters, strings and styled lines of text.

use crate::geometry::{greater, lesser};
use crate::style::{plain, plain_style, Style};
use unicode_width::UnicodeWidthStr;
use vstd::prelude::*;

verus! {

/// Takes the last character off a string.
///
/// Specifies `std::string::String::pop`: an empty string stays empty and gives
/// nothing, any other loses its last character and gives it.
pub assume_specification[ String::pop ](s: &mut String) -> (last: Option<char>)
    ensures
        old(s)@.len() == 0 ==> last is None && final(s)@ == old(s)@,
        old(s)@.len() > 0 ==> last == Some(old(s)@.last()) && final(s)@ == old(s)@.drop_last(),
;

// ---------------------------------------------------------------------------
// Characters
// ---------------------------------------------------------------------------

/// The character is one of `0` to `9`.
pub open spec fn digit(c: char) -> bool {
    '0' <= c <= '9'
}

/// The character is an ASCII letter or digit.
pub open spec fn alphanumeric(c: char) -> bool {
    digit(c) || 'a' <= c <= 'z' || 'A' <= c <= 'Z'
}

/// The character is a control code (general category Cc of Unicode).
pub open spec fn control(c: char) -> bool {
    c <= '\u{1f}' || '\u{7f}' <= c <= '\u{9f}'
}

/// The character has the Unicode property White_Space.
pub open spec fn white_space(c: char) -> bool {
    ||| '\u{9}' <= c <= '\u{d}'
    ||| c == ' '
    ||| c == '\u{85}'
    ||| c == '\u{a0}'
    ||| c == '\u{1680}'
    ||| '\u{2000}' <= c <= '\u{200a}'
    ||| c == '\u{2028}'
    ||| c == '\u{2029}'
    ||| c == '\u{202f}'
    ||| c == '\u{205f}'
    ||| c == '\u{3000}'
}

/// The character is one of `0` to `9`.
pub fn is_digit(c: char) -> (yes: bool)
    ensures
        yes == digit(c),
{
    '0' <= c && c <= '9'
}

/// The character is an ASCII letter or digit.
pub fn is_alphanumeric(c: char) -> (yes: bool)
    ensures
        yes == alphanumeric(c),
{
    is_digit(c) || ('a' <= c && c <= 'z') || ('A' <= c && c <= 'Z')
}

/// The character is a control code.
pub fn is_control(c: char) -> (yes: bool)
    ensures
        yes == control(c),
{
    c <= '\u{1f}' || ('\u{7f}' <= c && c <= '\u{9f}')
}

/// The character counts as white space.
pub fn is_white_space(c: char) -> (yes: bool)
    ensures
        yes == white_space(c),
{
    ('\u{9}' <= c && c <= '\u{d}') || c == ' ' || c == '\u{85}' || c == '\u{a0}' || c == '\u{1680}'
        || ('\u{2000}' <= c && c <= '\u{200a}') || c == '\u{2028}' || c == '\u{2029}' || c
        == '\u{202f}' || c == '\u{205f}' || c == '\u{3000}'
}

// ---------------------------------------------------------------------------
// Strings
// ---------------------------------------------------------------------------

/// `s` without the white space at its ends.
pub open spec fn trimmed(s: Seq<char>) -> Seq<char>
    decreases s.len(),
{
    if s.len() == 0 {
        s
    } else if white_space(s.first()) {
        trimmed(s.drop_first())
    } else if white_space(s.last()) {
        trimmed(s.drop_last())
    } else {
        s
    }
}

/// The part of `s` between the white space at its ends.
pub fn trim<'a>(s: &'a str) -> (part: &'a str)
    ensures
        part@ == trimmed(s@),
{
    let mut from: usize = 0;
    let mut to: usize = s.unicode_len();
    assert(s@.subrange(0, s@.len() as int) =~= s@);
    while from < to && is_white_space(s.get_char(from))
        invariant
            from <= to,
            to == s@.len(),
            trimmed(s@) == trimmed(s@.subrange(from as int, to as int)),
        decreases to - from,
    {
        let ghost rest = s@.subrange(from as int, to as int);
        assert(rest.drop_first() =~= s@.subrange(from + 1, to as int));
        from += 1;
    }
    while from < to && is_white_space(s.get_char(to - 1))
        invariant
            from <= to <= s@.len(),
            from < to ==> !white_space(s@[from as int]),
            trimmed(s@) == trimmed(s@.subrange(from as int, to as int)),
        decreases to,
    {
        let ghost rest = s@.subrange(from as int, to as int);
        assert(rest.drop_last() =~= s@.subrange(from as int, to - 1));
        to -= 1;
    }
    s.substring_char(from, to)
}

/// Nothing but white space stands ahead of `from` and from `to` on.
pub open spec fn white_around(s: Seq<char>, from: int, to: int) -> bool {
    &&& 0 <= from <= to <= s.len()
    &&& forall|i: int| 0 <= i < from ==> white_space(#[trigger] s[i])
    &&& forall|i: int| to <= i < s.len() ==> white_space(#[trigger] s[i])
}

/// What trimming leaves of a text, and where it stands.
proof fn lemma_trimmed(s: Seq<char>) -> (range: (int, int))
    ensures
        white_around(s, range.0, range.1),
        trimmed(s) == s.subrange(range.0, range.1),
        trimmed(s).len() > 0 ==> !white_space(trimmed(s).first()) && !white_space(
            trimmed(s).last(),
        ),
    decreases s.len(),
{
    if s.len() == 0 {
        assert(s =~= s.subrange(0, 0));
        (0, 0)
    } else if white_space(s.first()) {
        let rest = s.drop_first();
        let (from, to) = lemma_trimmed(rest);
        assert(rest.subrange(from, to) =~= s.subrange(from + 1, to + 1));
        assert forall|i: int| 0 <= i < from + 1 implies white_space(#[trigger] s[i]) by {
            if i > 0 {
                assert(s[i] == rest[i - 1]);
            }
        }
        assert forall|i: int| to + 1 <= i < s.len() implies white_space(#[trigger] s[i]) by {
            assert(s[i] == rest[i - 1]);
        }
        (from + 1, to + 1)
    } else if white_space(s.last()) {
        let rest = s.drop_last();
        let (from, to) = lemma_trimmed(rest);
        assert(rest.subrange(from, to) =~= s.subrange(from, to));
        assert forall|i: int| 0 <= i < from implies white_space(#[trigger] s[i]) by {
            assert(s[i] == rest[i]);
        }
        assert forall|i: int| to <= i < s.len() implies white_space(#[trigger] s[i]) by {
            if i < rest.len() {
                assert(s[i] == rest[i]);
            }
        }
        (from, to)
    } else {
        assert(s =~= s.subrange(0, s.len() as int));
        (0, s.len() as int)
    }
}

/// Trimming leaves no white space at either end, and takes nothing but white space
/// off the ends.
pub proof fn law_trimmed_has_no_white_space_at_its_ends(s: Seq<char>)
    ensures
        trimmed(s).len() > 0 ==> !white_space(trimmed(s).first()) && !white_space(
            trimmed(s).last(),
        ),
        trimmed(trimmed(s)) == trimmed(s),
        exists|from: int, to: int| #[trigger]
            white_around(s, from, to) && trimmed(s) == s.subrange(from, to),
{
    let (from, to) = lemma_trimmed(s);
    assert(white_around(s, from, to));
}

/// `wanted` occurs in `s`.
pub fn contains_char(s: &str, wanted: char) -> (found: bool)
    ensures
        found == s@.contains(wanted),
{
    let mut found = false;
    for c in it: s.chars()
        invariant
            found == exists|i: int| 0 <= i < it.index() && s@[i] == wanted,
            it.seq() == s@,
    {
        if c == wanted {
            found = true;
        }
    }
    found
}

/// `n` times the character `c`.
pub open spec fn repeated(c: char, n: nat) -> Seq<char> {
    Seq::new(n, |i: int| c)
}

/// A string of `n` times the character `c`.
pub fn repeat_char(c: char, n: usize) -> (s: String)
    ensures
        s@ == repeated(c, n as nat),
{
    let mut s = String::new();
    let mut i: usize = 0;
    while i < n
        invariant
            i <= n,
            s@ =~= repeated(c, i as nat),
        decreases n - i,
    {
        s.push(c);
        i += 1;
    }
    s
}

/// Where the first line feed of `s` stands, if there is one, at or behind
/// `from`.
pub open spec fn line_feed(s: Seq<char>, from: int) -> Option<int>
    decreases s.len() - from,
{
    if from >= s.len() {
        None
    } else if s[from] == '\n' {
        Some(from)
    } else {
        line_feed(s, from + 1)
    }
}

/// `s` without a carriage return at its end.
pub open spec fn without_return(s: Seq<char>) -> Seq<char> {
    if s.len() > 0 && s.last() == '\r' {
        s.drop_last()
    } else {
        s
    }
}

/// The lines of `s` from character `from` on. A line ends at a line feed, which
/// may follow a carriage return; the last line may end without one.
pub open spec fn lines_from(s: Seq<char>, from: int) -> Seq<Seq<char>>
    decreases s.len() - from,
    via lines_from_decreases
{
    if from >= s.len() {
        Seq::empty()
    } else {
        match line_feed(s, from) {
            None => seq![s.subrange(from, s.len() as int)],
            Some(at) => seq![without_return(s.subrange(from, at))] + lines_from(s, at + 1),
        }
    }
}

#[via_fn]
proof fn lines_from_decreases(s: Seq<char>, from: int) {
    lemma_line_feed(s, from);
}

/// The lines of a text.
pub open spec fn text_lines(s: Seq<char>) -> Seq<Seq<char>> {
    lines_from(s, 0)
}

/// What the first line feed is.
proof fn lemma_line_feed(s: Seq<char>, from: int)
    ensures
        match line_feed(s, from) {
            Some(at) => {
                &&& from <= at < s.len()
                &&& s[at] == '\n'
                &&& forall|i: int| from <= i < at ==> s[i] != '\n'
            },
            None => forall|i: int| from <= i < s.len() ==> s[i] != '\n',
        },
    decreases s.len() - from,
{
    if from < s.len() && s[from] != '\n' {
        lemma_line_feed(s, from + 1);
    }
}

/// The characters of a string.
pub fn to_chars(s: &str) -> (chars: Vec<char>)
    ensures
        chars@ == s@,
{
    let mut chars: Vec<char> = Vec::new();
    for c in it: s.chars()
        invariant
            it.seq() == s@,
            chars@ =~= s@.take(it.index()),
    {
        chars.push(c);
    }
    chars
}

/// A string of the characters `from` up to `to`.
pub fn from_chars(chars: &Vec<char>, from: usize, to: usize) -> (s: String)
    requires
        from <= to <= chars@.len(),
    ensures
        s@ == chars@.subrange(from as int, to as int),
{
    let mut s = String::new();
    let mut i: usize = from;
    while i < to
        invariant
            from <= i <= to <= chars@.len(),
            s@ =~= chars@.subrange(from as int, i as int),
        decreases to - i,
    {
        s.push(chars[i]);
        i += 1;
    }
    s
}

/// What the strings of a list hold.
pub open spec fn string_views(strings: Seq<String>) -> Seq<Seq<char>> {
    strings.map_values(|s: String| s@)
}

/// Splits a text into its lines.
pub fn split_lines(text: &str) -> (lines: Vec<String>)
    ensures
        string_views(lines@) == text_lines(text@),
{
    let chars = to_chars(text);
    let ghost s = text@;
    let mut lines: Vec<String> = Vec::new();
    let mut from: usize = 0;
    assert(string_views(lines@) + lines_from(s, 0) =~= text_lines(s));
    while from < chars.len()
        invariant
            from <= chars@.len(),
            chars@ == s,
            string_views(lines@) + lines_from(s, from as int) == text_lines(s),
        decreases chars.len() - from,
    {
        let ghost before = string_views(lines@);
        let mut at: usize = from;
        while at < chars.len() && chars[at] != '\n'
            invariant
                from <= at <= chars@.len(),
                chars@ == s,
                line_feed(s, from as int) == line_feed(s, at as int),
            decreases chars.len() - at,
        {
            at += 1;
        }
        if at == chars.len() {
            let line = from_chars(&chars, from, at);
            let ghost shown = line@;
            lines.push(line);
            from = at;
            assert(string_views(lines@) =~= before.push(shown));
            assert(string_views(lines@) + lines_from(s, from as int) =~= before + seq![shown]);
        } else {
            let to = if at > from && chars[at - 1] == '\r' {
                at - 1
            } else {
                at
            };
            let line = from_chars(&chars, from, to);
            let ghost shown = line@;
            assert(shown =~= without_return(s.subrange(from as int, at as int)));
            lines.push(line);
            from = at + 1;
            assert(string_views(lines@) =~= before.push(shown));
            assert(string_views(lines@) + lines_from(s, from as int) =~= before + (seq![shown]
                + lines_from(s, from as int)));
        }
    }
    assert(string_views(lines@) + lines_from(s, from as int) =~= string_views(lines@));
    lines
}

// ---------------------------------------------------------------------------
// Styled lines
// ---------------------------------------------------------------------------

/// A piece of text with one style.
#[derive(Debug)]
pub struct Span {
    pub text: String,
    pub style: Style,
}

/// A line of text: its pieces, and the style beneath theirs.
#[derive(Debug)]
pub struct Line {
    pub spans: Vec<Span>,
    pub style: Style,
}

/// What a piece of text holds.
pub struct SpanView {
    pub text: Seq<char>,
    pub style: Style,
}

/// What a line holds.
#[verifier::ext_equal]
pub struct LineView {
    pub spans: Seq<SpanView>,
    pub style: Style,
}

impl View for Span {
    type V = SpanView;

    open spec fn view(&self) -> SpanView {
        SpanView { text: self.text@, style: self.style }
    }
}

impl View for Line {
    type V = LineView;

    open spec fn view(&self) -> LineView {
        LineView { spans: self.spans@.map_values(|span: Span| span@), style: self.style }
    }
}

/// What the lines of a list hold.
pub open spec fn line_views(lines: Seq<Line>) -> Seq<LineView> {
    lines.map_values(|line: Line| line@)
}

/// A line of one piece of text without a style of its own, in `style`. An empty
/// text is no piece.
pub open spec fn styled(text: Seq<char>, style: Style) -> LineView {
    LineView {
        spans: if text.len() == 0 {
            Seq::empty()
        } else {
            seq![SpanView { text, style: plain() }]
        },
        style,
    }
}

/// A line without text.
pub open spec fn blank() -> LineView {
    LineView { spans: Seq::empty(), style: plain() }
}

impl Line {
    /// A line of `text`, which holds no line feed, in `style`.
    pub fn styled(text: String, style: Style) -> (line: Line)
        ensures
            line@ == styled(text@, style),
    {
        let mut spans: Vec<Span> = Vec::new();
        if !text.as_str().is_empty() {
            spans.push(Span { text, style: plain_style() });
        }
        let line = Line { spans, style };
        assert(line@.spans =~= styled(text@, style).spans);
        line
    }

    /// A line without text.
    pub fn blank() -> (line: Line)
        ensures
            line@ == blank(),
    {
        let line = Line { spans: Vec::new(), style: plain_style() };
        assert(line@.spans =~= Seq::empty());
        line
    }
}

// ---------------------------------------------------------------------------
// Width on the screen
// ---------------------------------------------------------------------------

/// The number of columns that `UnicodeWidthStr::width` gives for a text.
pub uninterp spec fn text_columns(text: Seq<char>) -> usize;

/// Every character of `text` is printable ASCII.
pub open spec fn printable_ascii(text: Seq<char>) -> bool {
    forall|i: int| 0 <= i < text.len() ==> ' ' <= #[trigger] text[i] <= '~'
}

/// The number of columns that a text takes on the screen.
///
/// Calls `unicode_width::UnicodeWidthStr::width` on a string. What is claimed:
/// the result is settled by the characters of the text alone, and a text of
/// printable ASCII takes one column for each character.
#[verifier::external_body]
pub(crate) fn text_width(text: &str) -> (columns: usize)
    ensures
        columns == text_columns(text@),
        printable_ascii(text@) ==> columns == text@.len(),
{
    UnicodeWidthStr::width(text)
}

/// The width of a piece of text: one column for each character of printable ASCII.
pub open spec fn piece_columns(text: Seq<char>) -> int {
    if printable_ascii(text) {
        text.len() as int
    } else {
        text_columns(text) as int
    }
}

/// The sum of the widths of `spans`.
pub open spec fn spans_columns(spans: Seq<SpanView>) -> int
    decreases spans.len(),
{
    if spans.len() == 0 {
        0
    } else {
        spans_columns(spans.drop_last()) + piece_columns(spans.last().text)
    }
}

/// The number of characters of `spans`.
pub open spec fn spans_chars(spans: Seq<SpanView>) -> nat
    decreases spans.len(),
{
    if spans.len() == 0 {
        0
    } else {
        spans_chars(spans.drop_last()) + spans.last().text.len()
    }
}

/// Every piece of the line is printable ASCII.
pub open spec fn ascii_line(line: LineView) -> bool {
    forall|i: int| 0 <= i < line.spans.len() ==> printable_ascii((#[trigger] line.spans[i]).text)
}

/// The width of a line: the sum of the widths of its pieces, as far as it can be
/// counted.
pub open spec fn line_columns(line: LineView) -> int {
    lesser(spans_columns(line.spans), usize::MAX as int)
}

/// A line of printable ASCII is as wide as it has characters.
pub proof fn law_ascii_line_is_as_wide_as_its_characters(line: LineView)
    requires
        ascii_line(line),
    ensures
        spans_columns(line.spans) == spans_chars(line.spans),
        line_columns(line) == lesser(spans_chars(line.spans) as int, usize::MAX as int),
    decreases line.spans.len(),
{
    if line.spans.len() > 0 {
        let rest = LineView { spans: line.spans.drop_last(), ..line };
        assert forall|i: int| 0 <= i < rest.spans.len() implies printable_ascii(
            (#[trigger] rest.spans[i]).text,
        ) by {
            assert(rest.spans[i] == line.spans[i]);
        }
        law_ascii_line_is_as_wide_as_its_characters(rest);
        assert(printable_ascii(line.spans[line.spans.len() - 1].text));
    }
}

/// The widths of the lines of a list.
pub open spec fn lines_columns(lines: Seq<LineView>) -> Seq<usize> {
    lines.map_values(|line: LineView| line_columns(line) as usize)
}

/// The width of a line.
pub fn line_width(line: &Line) -> (columns: usize)
    ensures
        columns == line_columns(line@),
        ascii_line(line@) ==> columns == lesser(spans_chars(line@.spans) as int, usize::MAX as int),
{
    let mut columns: usize = 0;
    let mut i: usize = 0;
    while i < line.spans.len()
        invariant
            i <= line.spans@.len(),
            columns == lesser(spans_columns(line@.spans.take(i as int)), usize::MAX as int),
        decreases line.spans.len() - i,
    {
        let ghost (now, next) = (line@.spans.take(i as int), line@.spans.take(i + 1));
        assert(next.drop_last() =~= now);
        assert(next.last().text == line.spans@[i as int].text@);
        columns = columns.saturating_add(text_width(line.spans[i].text.as_str()));
        i += 1;
    }
    assert(line@.spans.take(line@.spans.len() as int) =~= line@.spans);
    proof {
        if ascii_line(line@) {
            law_ascii_line_is_as_wide_as_its_characters(line@);
        }
    }
    columns
}

/// The widths of the lines of a list.
pub fn line_widths(lines: &Vec<Line>) -> (widths: Vec<usize>)
    ensures
        widths@ == lines_columns(line_views(lines@)),
        forall|i: int|
            0 <= i < lines@.len() && ascii_line(lines@[i]@) ==> #[trigger] widths@[i] == lesser(
                spans_chars(lines@[i]@.spans) as int,
                usize::MAX as int,
            ),
{
    let mut widths: Vec<usize> = Vec::new();
    let mut i: usize = 0;
    while i < lines.len()
        invariant
            i <= lines@.len(),
            widths@ =~= lines_columns(line_views(lines@)).take(i as int),
            forall|j: int|
                0 <= j < i && ascii_line(lines@[j]@) ==> #[trigger] widths@[j] == lesser(
                    spans_chars(lines@[j]@.spans) as int,
                    usize::MAX as int,
                ),
        decreases lines.len() - i,
    {
        widths.push(line_width(&lines[i]));
        i += 1;
    }
    assert(widths@ =~= lines_columns(line_views(lines@)));
    widths
}

/// The largest of `widths`, or zero when there is none.
pub open spec fn widest(widths: Seq<usize>) -> int
    decreases widths.len(),
{
    if widths.len() == 0 {
        0
    } else {
        greater(widest(widths.drop_last()), widths.last() as int)
    }
}

/// The largest of `widths`, or zero when there is none.
pub fn max_width(widths: &Vec<usize>) -> (most: usize)
    ensures
        most == widest(widths@),
{
    let mut most: usize = 0;
    let mut i: usize = 0;
    while i < widths.len()
        invariant
            i <= widths@.len(),
            most == widest(widths@.take(i as int)),
        decreases widths.len() - i,
    {
        assert(widths@.take(i + 1).drop_last() =~= widths@.take(i as int));
        if widths[i] > most {
            most = widths[i];
        }
        i += 1;
    }
    assert(widths@.take(widths@.len() as int) =~= widths@);
    most
}

/// How many rows of `inner` columns a line of the given width takes when it is
/// wrapped: at least one.
pub open spec fn rows_of(width: int, inner: int) -> int {
    greater((width + inner - 1) / inner, 1)
}

/// How many rows of `inner` columns lines of the given widths take when they are
/// wrapped.
pub open spec fn wrapped_rows(widths: Seq<usize>, inner: int) -> int
    decreases widths.len(),
{
    if widths.len() == 0 {
        0
    } else {
        wrapped_rows(widths.drop_last(), inner) + rows_of(widths.last() as int, inner)
    }
}

/// Lines that fit into `inner` columns take one row each.
pub proof fn law_lines_that_fit_take_one_row_each(widths: Seq<usize>, inner: int)
    requires
        inner > 0,
        forall|i: int| 0 <= i < widths.len() ==> #[trigger] widths[i] <= inner,
    ensures
        wrapped_rows(widths, inner) == widths.len(),
    decreases widths.len(),
{
    if widths.len() > 0 {
        let rest = widths.drop_last();
        assert forall|i: int| 0 <= i < rest.len() implies #[trigger] rest[i] <= inner by {
            assert(rest[i] == widths[i]);
        }
        law_lines_that_fit_take_one_row_each(rest, inner);
        let w = widths[widths.len() - 1] as int;
        assert((w + inner - 1) / inner <= 1) by (nonlinear_arith)
            requires
                0 <= w <= inner,
                inner > 0,
        ;
    }
}

/// The height of a card around lines of the given widths, wrapped at `inner`
/// columns: their rows and one row of border above and below, but at most
/// `limit`.
pub fn card_height(widths: &Vec<usize>, inner: usize, limit: u16) -> (height: u16)
    requires
        inner > 0,
    ensures
        height == lesser(wrapped_rows(widths@, inner as int) + 2, limit as int),
{
    let mut rows: usize = 0;
    let mut i: usize = 0;
    while i < widths.len()
        invariant
            inner > 0,
            i <= widths@.len(),
            rows == lesser(wrapped_rows(widths@.take(i as int), inner as int), usize::MAX as int),
        decreases widths.len() - i,
    {
        assert(widths@.take(i + 1).drop_last() =~= widths@.take(i as int));
        let width = widths[i];
        let (whole, part) = (width / inner, width % inner);
        proof {
            let (w, n) = (width as int, inner as int);
            assert((w + n - 1) / n == w / n + if w % n != 0 {
                1int
            } else {
                0int
            }) by (nonlinear_arith)
                requires
                    w >= 0,
                    n > 0,
            ;
        }
        if part != 0 {
            rows = rows.saturating_add(whole).saturating_add(1);
        } else if whole > 1 {
            rows = rows.saturating_add(whole);
        } else {
            rows = rows.saturating_add(1);
        }
        i += 1;
    }
    assert(widths@.take(widths@.len() as int) =~= widths@);
    let height = rows.saturating_add(2);
    if height < limit as usize {
        height as u16
    } else {
        limit
    }
}

} // verus!
