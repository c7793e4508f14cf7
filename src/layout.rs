//! What the picker draws: the input on the first row, then for each listed
//! clip its number and up to five of its lines, with a footer counting the
//! lines left out.
use vstd::prelude::*;
use vstd::string::StringExecFns;

use crate::property_names::{decimal, with_number};

verus! {

/// How many lines of a clip are drawn.
pub const SHOWN_LINES: usize = 5;

/// The column where a clip's lines start, right of its number.
pub const TEXT_COLUMN: u16 = 20;

/// How a piece of text is drawn.
#[derive(Clone, Copy, Debug, PartialEq, Eq, Structural)]
pub enum Style {
    Input,
    Normal,
    Highlight,
}

/// A piece of text at a text row and a pixel column.
#[derive(Debug)]
pub struct TextItem {
    pub row: usize,
    pub column: u16,
    pub text: String,
    pub style: Style,
}

pub struct TextItemView {
    pub row: nat,
    pub column: nat,
    pub text: Seq<char>,
    pub style: Style,
}

impl View for TextItem {
    type V = TextItemView;

    open spec fn view(&self) -> TextItemView {
        TextItemView { row: self.row as nat, column: self.column as nat, text: self.text@, style: self.style }
    }
}

/// A line without the `\r` that ended it before its `\n`, if any.
pub open spec fn strip_cr(line: Seq<char>) -> Seq<char> {
    if line.len() > 0 && line.last() == '\r' {
        line.drop_last()
    } else {
        line
    }
}

/// The lines of `cur + s`, where `cur` is the start of a line: each `\n`
/// ends a line and is dropped, together with a `\r` right before it; what
/// follows the last `\n` is a line unless it is empty.
pub open spec fn lines_after(cur: Seq<char>, s: Seq<char>) -> Seq<Seq<char>>
    decreases s.len(),
{
    if s.len() == 0 {
        if cur.len() == 0 {
            seq![]
        } else {
            seq![cur]
        }
    } else if s[0] == '\n' {
        seq![strip_cr(cur)] + lines_after(seq![], s.drop_first())
    } else {
        lines_after(cur.push(s[0]), s.drop_first())
    }
}

/// The lines of `s`.
pub open spec fn lines_of(s: Seq<char>) -> Seq<Seq<char>> {
    lines_after(seq![], s)
}

/// Relies on `str::lines`: lines end at `\n` or `\r\n`, the terminators are
/// not part of the lines, and the last line's terminator is optional.
#[verifier::external_body]
pub(crate) fn text_lines(s: &str) -> (r: Vec<String>)
    ensures
        r@.map_values(|l: String| l@) == lines_of(s@),
{
    s.lines().map(|l| l.to_owned()).collect()
}

/// The footer under a clip with `more` lines left out.
pub open spec fn footer_text(more: nat) -> Seq<char> {
    seq![' ', '.', '.', '.', ' ', '+', ' '] + decimal(more) + seq![' ', 'r', 'o', 'w', 's']
}

/// The rows a clip with these lines takes.
pub open spec fn entry_rows(lines: Seq<Seq<char>>) -> nat {
    if lines.len() > SHOWN_LINES {
        (SHOWN_LINES + 1) as nat
    } else {
        lines.len()
    }
}

/// The items of clip `i`, drawn from `row` on.
pub open spec fn entry_items(i: nat, lines: Seq<Seq<char>>, row: nat, style: Style) -> Seq<TextItemView> {
    if lines.len() == 0 {
        seq![]
    } else {
        let shown: nat = if lines.len() < SHOWN_LINES { lines.len() } else { SHOWN_LINES as nat };
        let body = Seq::new(
            shown,
            |k: int| TextItemView { row: row + k as nat, column: TEXT_COLUMN as nat, text: lines[k], style },
        );
        let head = seq![TextItemView { row, column: 0, text: decimal(i), style }];
        if lines.len() > SHOWN_LINES {
            head + body + seq![
                TextItemView {
                    row: row + SHOWN_LINES as nat,
                    column: 0,
                    text: footer_text((lines.len() - SHOWN_LINES) as nat),
                    style,
                },
            ]
        } else {
            head + body
        }
    }
}

/// The style of clip `i`.
pub open spec fn entry_style(current_choice: nat, i: nat) -> Style {
    if i == current_choice {
        Style::Highlight
    } else {
        Style::Normal
    }
}

/// The first row of clip `k`.
pub open spec fn rows_before(entries: Seq<Seq<Seq<char>>>, k: nat) -> nat
    decreases k,
{
    if k == 0 {
        1
    } else {
        rows_before(entries, (k - 1) as nat) + entry_rows(entries[k - 1])
    }
}

/// The items of the first `k` clips.
pub open spec fn items_upto(entries: Seq<Seq<Seq<char>>>, current_choice: nat, k: nat) -> Seq<
    TextItemView,
>
    decreases k,
{
    if k == 0 {
        seq![]
    } else {
        items_upto(entries, current_choice, (k - 1) as nat) + entry_items(
            (k - 1) as nat,
            entries[k - 1],
            rows_before(entries, (k - 1) as nat),
            entry_style(current_choice, (k - 1) as nat),
        )
    }
}

/// How many clips are drawn, counting from clip `i`: clips are drawn in
/// order as long as a clip's first row lies above row `max_rows`.
pub open spec fn shown_from(entries: Seq<Seq<Seq<char>>>, max_rows: nat, i: nat) -> nat
    decreases entries.len() - i,
{
    if i >= entries.len() || rows_before(entries, i) >= max_rows {
        i
    } else {
        shown_from(entries, max_rows, i + 1)
    }
}

/// Everything drawn: the input, then the clips that start within the
/// canvas's `max_rows` text rows.
pub open spec fn layout_of(
    input: Seq<char>,
    entries: Seq<Seq<Seq<char>>>,
    current_choice: nat,
    max_rows: nat,
) -> Seq<TextItemView> {
    let count = shown_from(entries, max_rows, 0);
    seq![TextItemView { row: 0, column: 0, text: input, style: Style::Input }] + items_upto(
        entries,
        current_choice,
        count,
    )
}

/// The lines of each clip, as views.
pub open spec fn entries_view(entries: Seq<Vec<String>>) -> Seq<Seq<Seq<char>>> {
    entries.map_values(|ls: Vec<String>| ls@.map_values(|l: String| l@))
}

proof fn lemma_rows_bound(entries: Seq<Seq<Seq<char>>>, k: nat)
    requires
        k <= entries.len(),
    ensures
        rows_before(entries, k) <= 1 + 6 * k,
    decreases k,
{
    if k > 0 {
        lemma_rows_bound(entries, (k - 1) as nat);
    }
}

/// The text items that show `input` and the clips whose lines are `entries`,
/// with clip `current_choice` highlighted, on a canvas of `max_rows` rows.
pub fn layout(input: &String, entries: &Vec<Vec<String>>, current_choice: usize, max_rows: usize) -> (r:
    Vec<TextItem>)
    requires
        6 * entries@.len() + 1 <= usize::MAX,
    ensures
        r@.map_values(|t: TextItem| t@) == layout_of(
            input@,
            entries_view(entries@),
            current_choice as nat,
            max_rows as nat,
        ),
{
    let ghost ev = entries_view(entries@);
    let mut out: Vec<TextItem> = Vec::new();
    out.push(TextItem { row: 0, column: 0, text: input.clone(), style: Style::Input });
    let ghost first = seq![TextItemView { row: 0, column: 0, text: input@, style: Style::Input }];
    assert(out@.map_values(|t: TextItem| t@) =~= first);
    let n = entries.len();
    let mut row: usize = 1;
    let mut i: usize = 0;
    while i < n && row < max_rows
        invariant
            n == entries@.len(),
            ev == entries_view(entries@),
            6 * n + 1 <= usize::MAX,
            i <= n,
            shown_from(ev, max_rows as nat, i as nat) == shown_from(ev, max_rows as nat, 0),
            row == rows_before(ev, i as nat),
            out@.map_values(|t: TextItem| t@) == first + items_upto(ev, current_choice as nat, i as nat),
        decreases n - i,
    {
        proof {
            lemma_rows_bound(ev, i as nat);
        }
        let lines = &entries[i];
        let ghost lv = ev[i as int];
        assert(lv == lines@.map_values(|l: String| l@));
        let style = if current_choice == i {
            Style::Highlight
        } else {
            Style::Normal
        };
        let ghost before = out@.map_values(|t: TextItem| t@);
        let m = lines.len();
        if m > 0 {
            out.push(TextItem { row, column: 0, text: with_number("", i), style });
            proof {
                reveal_strlit("");
            }
            let shown = if m < SHOWN_LINES {
                m
            } else {
                SHOWN_LINES
            };
            let ghost head = seq![TextItemView { row: row as nat, column: 0, text: decimal(i as nat), style }];
            assert(out@.map_values(|t: TextItem| t@) =~= before + head);
            let mut k: usize = 0;
            while k < shown
                invariant
                    shown <= m,
                    shown <= SHOWN_LINES,
                    m == lines@.len(),
                    lv == lines@.map_values(|l: String| l@),
                    row + 6 <= usize::MAX,
                    k <= shown,
                    out@.map_values(|t: TextItem| t@) == before + head + Seq::new(
                        k as nat,
                        |j: int|
                            TextItemView {
                                row: row as nat + j as nat,
                                column: TEXT_COLUMN as nat,
                                text: lv[j],
                                style,
                            },
                    ),
                decreases shown - k,
            {
                let ghost prev = out@.map_values(|t: TextItem| t@);
                assert(lv[k as int] == lines@[k as int]@);
                let line = lines[k].clone();
                out.push(TextItem { row: row + k, column: TEXT_COLUMN, text: line, style });
                assert(out@.map_values(|t: TextItem| t@) =~= prev.push(
                    TextItemView { row: row as nat + k as nat, column: TEXT_COLUMN as nat, text: lv[k as int], style },
                ));
                assert(out@.map_values(|t: TextItem| t@) =~= before + head + Seq::new(
                    (k + 1) as nat,
                    |j: int|
                        TextItemView {
                            row: row as nat + j as nat,
                            column: TEXT_COLUMN as nat,
                            text: lv[j],
                            style,
                        },
                ));
                k = k + 1;
            }
            if m > SHOWN_LINES {
                let mut t = with_number(" ... + ", m - SHOWN_LINES);
                t.append(" rows");
                proof {
                    reveal_strlit(" ... + ");
                    reveal_strlit(" rows");
                }
                assert(t@ =~= footer_text((m - SHOWN_LINES) as nat));
                let ghost mid = out@.map_values(|t: TextItem| t@);
                out.push(TextItem { row: row + SHOWN_LINES, column: 0, text: t, style });
                assert(out@.map_values(|t: TextItem| t@) =~= mid + seq![
                    TextItemView {
                        row: row as nat + SHOWN_LINES as nat,
                        column: 0,
                        text: footer_text((m - SHOWN_LINES) as nat),
                        style,
                    },
                ]);
            }
        }
        assert(out@.map_values(|t: TextItem| t@) =~= before + entry_items(
            i as nat,
            lv,
            row as nat,
            entry_style(current_choice as nat, i as nat),
        ));
        row = if m > SHOWN_LINES {
            row + SHOWN_LINES + 1
        } else {
            row + m
        };
        assert(first + items_upto(ev, current_choice as nat, (i + 1) as nat) =~= first + items_upto(
            ev,
            current_choice as nat,
            i as nat,
        ) + entry_items(
            i as nat,
            lv,
            rows_before(ev, i as nat),
            entry_style(current_choice as nat, i as nat),
        ));
        i = i + 1;
    }
    out
}

} // verus!
