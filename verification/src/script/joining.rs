//! What becomes of the tokens of two source texts when a line break joins the texts.

use vstd::prelude::*;
use crate::script::lexer::{Item, Spanned, TokenView};
use crate::script::ScriptErrorView;

verus! {

/// The line breaks of a text from a place on.
pub open spec fn line_breaks(src: Seq<char>, pos: int) -> int
    decreases src.len() - pos,
{
    if 0 <= pos < src.len() {
        line_breaks(src, pos + 1) + (if src[pos] == '\n' {
            1int
        } else {
            0
        })
    } else {
        0
    }
}

/// Two texts with a line break between them.
pub open spec fn joined(a: Seq<char>, b: Seq<char>) -> Seq<char> {
    a + seq!['\n'] + b
}

/// Tokens so many lines further down.
pub open spec fn lowered(tokens: Seq<Spanned<TokenView>>, lines: int) -> Seq<Spanned<TokenView>> {
    tokens.map_values(
        |t: Spanned<TokenView>| Spanned { line: (t.line + lines) as u32, ..t },
    )
}

/// The same outcome so many lines further down.
pub open spec fn moved_down(
    r: Result<Seq<Spanned<TokenView>>, ScriptErrorView>,
    lines: int,
) -> Result<Seq<Spanned<TokenView>>, ScriptErrorView> {
    match r {
        Ok(tokens) => Ok(lowered(tokens, lines)),
        Err(e) => Err(ScriptErrorView { line: e.line + lines, ..e }),
    }
}

/// What stands at a place, so many characters further on.
spec fn shifted(item: Item, by: int) -> Item {
    match item {
        Item::Skip(end) => Item::Skip(end + by),
        Item::Token(t, end) => Item::Token(t, end + by),
        other => other,
    }
}

/// Runs of characters of the first text end where they ended.
proof fn lemma_runs_in_front(a: Seq<char>, b: Seq<char>, pos: int)
    requires
        0 <= pos <= a.len(),
    ensures
        crate::script::lexer::word_end(joined(a, b), pos) == crate::script::lexer::word_end(a, pos),
        crate::script::lexer::line_end(joined(a, b), pos) == crate::script::lexer::line_end(a, pos),
        crate::text::digits_end(joined(a, b), pos) == crate::text::digits_end(a, pos),
    decreases a.len() - pos,
{
    let s = joined(a, b);
    if pos < a.len() {
        assert(s[pos] == a[pos]);
        lemma_runs_in_front(a, b, pos + 1);
    } else {
        assert(s[pos] == '\n');
        assert(crate::script::lexer::word_end(s, pos) == pos);
        assert(crate::script::lexer::line_end(s, pos) == pos);
        assert(crate::text::digits_end(s, pos) == pos);
    }
}

/// Runs of characters of the second text end where they ended, behind the first text.
proof fn lemma_runs_behind(a: Seq<char>, b: Seq<char>, pos: int)
    requires
        0 <= pos <= b.len(),
    ensures
        ({
            let by = a.len() as int + 1;
            let s = joined(a, b);
            &&& crate::script::lexer::word_end(s, by + pos) == by + crate::script::lexer::word_end(
                b,
                pos,
            )
            &&& crate::script::lexer::line_end(s, by + pos) == by + crate::script::lexer::line_end(
                b,
                pos,
            )
            &&& crate::text::digits_end(s, by + pos) == by + crate::text::digits_end(b, pos)
        }),
    decreases b.len() - pos,
{
    let by = a.len() as int + 1;
    let s = joined(a, b);
    if pos < b.len() {
        assert(s[by + pos] == b[pos]);
        lemma_runs_behind(a, b, pos + 1);
        assert(by + pos + 1 == by + (pos + 1));
    }
}

/// What stands at a place of the first text stands there in the joined text.
proof fn lemma_item_in_front(a: Seq<char>, b: Seq<char>, pos: int)
    requires
        0 <= pos < a.len(),
    ensures
        crate::script::lexer::item_at(joined(a, b), pos) == crate::script::lexer::item_at(a, pos),
{
    let s = joined(a, b);
    let n = a.len() as int;
    assert(s[pos] == a[pos]);
    assert(s[n] == '\n');
    if pos + 1 < n {
        assert(s[pos + 1] == a[pos + 1]);
    }
    lemma_runs_in_front(a, b, pos);
    lemma_runs_in_front(a, b, pos + 1);
    crate::script::lexer::lemma_run_ends(a, pos);
    crate::script::lexer::lemma_run_ends(a, pos + 1);
    let word = crate::script::lexer::word_end(a, pos + 1);
    assert(s.subrange(pos, word) =~= a.subrange(pos, word));
    assert(crate::script::lexer::number_starts(s, pos) == crate::script::lexer::number_starts(
        a,
        pos,
    ));
    if crate::script::lexer::number_starts(a, pos) {
        crate::script::lexer::lemma_number_end(a, pos);
        let whole = crate::text::digits_end(a, pos);
        if whole < n {
            assert(s[whole] == a[whole]);
            lemma_runs_in_front(a, b, whole + 1);
            crate::script::lexer::lemma_run_ends(a, whole + 1);
        }
        let m = crate::script::lexer::mantissa_end(a, pos);
        assert(crate::script::lexer::mantissa_end(s, pos) == m);
        if m < n {
            assert(s[m] == a[m]);
            if m + 1 < n {
                assert(s[m + 1] == a[m + 1]);
                lemma_runs_in_front(a, b, m + 2);
                crate::script::lexer::lemma_run_ends(a, m + 2);
            }
            lemma_runs_in_front(a, b, m + 1);
            crate::script::lexer::lemma_run_ends(a, m + 1);
        }
        let end = crate::script::lexer::number_end(a, pos);
        assert(crate::script::lexer::number_end(s, pos) == end);
        assert(s.subrange(pos, end) =~= a.subrange(pos, end));
    }
}

/// What stands at a place of the second text stands behind the first text in the joined text.
proof fn lemma_item_behind(a: Seq<char>, b: Seq<char>, pos: int)
    requires
        0 <= pos < b.len(),
    ensures
        crate::script::lexer::item_at(joined(a, b), a.len() + 1 + pos) == shifted(
            crate::script::lexer::item_at(b, pos),
            a.len() as int + 1,
        ),
{
    let s = joined(a, b);
    let by = a.len() as int + 1;
    let n = b.len() as int;
    assert forall|i: int| 0 <= i < n implies s[by + i] == #[trigger] b[i] by {}
    assert(s[by + pos] == b[pos]);
    if pos + 1 < n {
        assert(s[by + (pos + 1)] == b[pos + 1]);
    }
    lemma_runs_behind(a, b, pos);
    lemma_runs_behind(a, b, pos + 1);
    assert(by + (pos + 1) == by + pos + 1);
    crate::script::lexer::lemma_run_ends(b, pos);
    crate::script::lexer::lemma_run_ends(b, pos + 1);
    let word = crate::script::lexer::word_end(b, pos + 1);
    assert(s.subrange(by + pos, by + word) =~= b.subrange(pos, word));
    assert(crate::script::lexer::number_starts(s, by + pos) == crate::script::lexer::number_starts(
        b,
        pos,
    ));
    if crate::script::lexer::number_starts(b, pos) {
        crate::script::lexer::lemma_number_end(b, pos);
        let whole = crate::text::digits_end(b, pos);
        if whole < n {
            assert(s[by + whole] == b[whole]);
            lemma_runs_behind(a, b, whole + 1);
            assert(by + (whole + 1) == by + whole + 1);
        }
        let m = crate::script::lexer::mantissa_end(b, pos);
        assert(crate::script::lexer::mantissa_end(s, by + pos) == by + m);
        if m < n {
            assert(s[by + m] == b[m]);
            if m + 1 < n {
                assert(s[by + (m + 1)] == b[m + 1]);
                lemma_runs_behind(a, b, m + 2);
                assert(by + (m + 2) == by + m + 2);
            }
            lemma_runs_behind(a, b, m + 1);
            assert(by + (m + 1) == by + m + 1);
        }
        let end = crate::script::lexer::number_end(b, pos);
        assert(crate::script::lexer::number_end(s, by + pos) == by + end);
        assert(s.subrange(by + pos, by + end) =~= b.subrange(pos, end));
    }
}

/// No line break stands in a run of characters.
proof fn lemma_runs_unbroken(src: Seq<char>, pos: int)
    requires
        0 <= pos <= src.len(),
    ensures
        forall|i: int|
            pos <= i < crate::script::lexer::word_end(src, pos) ==> #[trigger] src[i] != '\n',
        forall|i: int|
            pos <= i < crate::script::lexer::line_end(src, pos) ==> #[trigger] src[i] != '\n',
        forall|i: int| pos <= i < crate::text::digits_end(src, pos) ==> #[trigger] src[i] != '\n',
    decreases src.len() - pos,
{
    if pos < src.len() {
        lemma_runs_unbroken(src, pos + 1);
    }
}

/// No line break stands in blanks, comments and tokens.
proof fn lemma_item_unbroken(src: Seq<char>, pos: int)
    requires
        0 <= pos < src.len(),
    ensures
        match crate::script::lexer::item_at(src, pos) {
            Item::Skip(end) => forall|i: int| pos <= i < end ==> #[trigger] src[i] != '\n',
            Item::Token(_, end) => forall|i: int| pos <= i < end ==> #[trigger] src[i] != '\n',
            _ => true,
        },
{
    lemma_runs_unbroken(src, pos);
    lemma_runs_unbroken(src, pos + 1);
    crate::script::lexer::lemma_run_ends(src, pos);
    crate::script::lexer::lemma_run_ends(src, pos + 1);
    if crate::script::lexer::number_starts(src, pos) {
        crate::script::lexer::lemma_number_end(src, pos);
        let whole = crate::text::digits_end(src, pos);
        if whole < src.len() {
            lemma_runs_unbroken(src, whole + 1);
        }
        let m = crate::script::lexer::mantissa_end(src, pos);
        if crate::script::lexer::exponent_mark(src, m) {
            lemma_runs_unbroken(src, crate::script::lexer::exponent_digits(src, m));
        }
    }
}

/// A stretch without line breaks leaves the count alone.
proof fn lemma_breaks_kept(src: Seq<char>, pos: int, end: int)
    requires
        0 <= pos <= end <= src.len(),
        forall|i: int| pos <= i < end ==> #[trigger] src[i] != '\n',
    ensures
        line_breaks(src, pos) == line_breaks(src, end),
    decreases end - pos,
{
    if pos < end {
        lemma_breaks_kept(src, pos + 1, end);
    }
}

/// The tokens of the joined text from a place of the first text on.
proof fn lemma_front(a: Seq<char>, b: Seq<char>, pos: int, line: int, col: int)
    requires
        0 <= pos <= a.len(),
    ensures
        crate::script::lexer::tokens_from(joined(a, b), pos, line, col) == (
        match crate::script::lexer::tokens_from(a, pos, line, col) {
            Ok(tokens) => crate::script::lexer::after(
                tokens,
                crate::script::lexer::tokens_from(
                    joined(a, b),
                    a.len() as int + 1,
                    line + line_breaks(a, pos) + 1,
                    1,
                ),
            ),
            Err(e) => Err(e),
        }),
    decreases a.len() - pos,
{
    let s = joined(a, b);
    if pos == a.len() {
        assert(s[pos] == '\n');
        assert(crate::script::lexer::item_at(s, pos) == Item::LineBreak);
        let rest = crate::script::lexer::tokens_from(s, a.len() as int + 1, line + 1, 1);
        if let Ok(r) = rest {
            assert(Seq::<Spanned<TokenView>>::empty() + r =~= r);
        }
    } else {
        lemma_item_in_front(a, b, pos);
        crate::script::lexer::lemma_item_advances(a, pos);
        lemma_item_unbroken(a, pos);
        match crate::script::lexer::item_at(a, pos) {
            Item::Skip(end) => {
                lemma_breaks_kept(a, pos, end);
                lemma_front(a, b, end, line, col + (end - pos));
            },
            Item::LineBreak => {
                lemma_front(a, b, pos + 1, line + 1, 1);
                assert(line + 1 + line_breaks(a, pos + 1) == line + line_breaks(a, pos));
            },
            Item::Token(t, end) => {
                lemma_breaks_kept(a, pos, end);
                lemma_front(a, b, end, line, col + (end - pos));
                let first = seq![Spanned { node: t, line: line as u32, col: col as u32 }];
                let behind = crate::script::lexer::tokens_from(
                    s,
                    a.len() as int + 1,
                    line + line_breaks(a, pos) + 1,
                    1,
                );
                if let Ok(rest) = crate::script::lexer::tokens_from(
                    a,
                    end,
                    line,
                    col + (end - pos),
                ) {
                    if let Ok(r) = behind {
                        assert(first + (rest + r) =~= (first + rest) + r);
                    }
                }
            },
            Item::Bad(_) => {},
        }
    }
}

/// The tokens of the joined text from a place of the second text on.
proof fn lemma_back(a: Seq<char>, b: Seq<char>, pos: int, line: int, col: int, lines: int)
    requires
        0 <= pos <= b.len(),
        0 <= lines <= a.len() + 1,
        1 <= line <= pos + 1,
        1 <= col <= pos + 1,
        a.len() + 1 + b.len() < u32::MAX,
    ensures
        crate::script::lexer::tokens_from(joined(a, b), a.len() + 1 + pos, line + lines, col)
            == moved_down(crate::script::lexer::tokens_from(b, pos, line, col), lines),
    decreases b.len() - pos,
{
    let s = joined(a, b);
    let by = a.len() as int + 1;
    if pos == b.len() {
        assert(lowered(Seq::empty(), lines) =~= Seq::empty());
    } else {
        lemma_item_behind(a, b, pos);
        crate::script::lexer::lemma_item_advances(b, pos);
        match crate::script::lexer::item_at(b, pos) {
            Item::Skip(end) => {
                lemma_back(a, b, end, line, col + (end - pos), lines);
                assert(by + end - (by + pos) == end - pos);
            },
            Item::LineBreak => {
                lemma_back(a, b, pos + 1, line + 1, 1, lines);
                assert(by + (pos + 1) == by + pos + 1);
                assert(line + 1 + lines == line + lines + 1);
            },
            Item::Token(t, end) => {
                lemma_back(a, b, end, line, col + (end - pos), lines);
                assert(by + end - (by + pos) == end - pos);
                let first = Spanned { node: t, line: line as u32, col: col as u32 };
                let low = Spanned { node: t, line: (line + lines) as u32, col: col as u32 };
                if let Ok(rest) = crate::script::lexer::tokens_from(
                    b,
                    end,
                    line,
                    col + (end - pos),
                ) {
                    assert(lowered(seq![first] + rest, lines) =~= seq![low] + lowered(rest, lines));
                }
            },
            Item::Bad(_) => {},
        }
    }
}

proof fn lemma_breaks_bounded(src: Seq<char>, pos: int)
    requires
        0 <= pos <= src.len(),
    ensures
        0 <= line_breaks(src, pos) <= src.len() - pos,
    decreases src.len() - pos,
{
    if pos < src.len() {
        lemma_breaks_bounded(src, pos + 1);
    }
}

/// A line break between two texts parts their tokens: the joined text has the tokens of the first
/// text, then those of the second, as many lines further down as the first text and the line break
/// take, and in the same columns. The first error of the joined text is that of the first text, or
/// else that of the second, as many lines further down.
pub proof fn law_joined_texts(a: Seq<char>, b: Seq<char>)
    requires
        joined(a, b).len() < u32::MAX,
    ensures
        ({
            let second = moved_down(
                crate::script::lexer::tokens_of(b),
                line_breaks(a, 0) + 1,
            );
            crate::script::lexer::tokens_of(joined(a, b)) == (
            match crate::script::lexer::tokens_of(a) {
                Ok(first) => match second {
                    Ok(rest) => Ok(first + rest),
                    Err(e) => Err(e),
                },
                Err(e) => Err(e),
            })
        }),
{
    lemma_front(a, b, 0, 1, 1);
    lemma_breaks_bounded(a, 0);
    lemma_back(a, b, 0, 1, 1, line_breaks(a, 0) + 1);
    assert(a.len() + 1 + 0 == a.len() + 1);
}

} // verus!
