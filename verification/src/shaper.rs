//! The text of a row as it is handed to the text engine: the characters, the
//! runs of equal attributes, and whether the row needs shaping at all.

use vstd::prelude::*;
use vstd::string::*;
use crate::color::{push_char, RgbColor};
use crate::grid::{GridCell, GridLine};

verus! {

/// A run of the row's text, in bytes of its UTF-8 form, with one foreground
/// and one weight and slant.
#[derive(Debug, Clone, Copy, PartialEq, Eq, Structural)]
pub struct RichSpan {
    pub start: usize,
    pub end: usize,
    pub fg: RgbColor,
    pub bold: bool,
    pub italic: bool,
}

/// What was found while the text of a row was built.
#[derive(Debug, Clone, Copy, PartialEq, Eq, Structural)]
pub struct LineInfo {
    /// The row shows nothing but spaces.
    pub is_blank: bool,
    /// The row holds ASCII only.
    pub all_ascii: bool,
}

/// The character that a cell shows: a space for the empty cell.
pub open spec fn shown_char(cell: GridCell) -> char {
    if cell.c == '\0' {
        ' '
    } else {
        cell.c
    }
}

/// The number of bytes of a character in UTF-8.
pub open spec fn utf8_width(c: char) -> nat {
    if (c as u32) < 0x80 {
        1
    } else if (c as u32) < 0x800 {
        2
    } else if (c as u32) < 0x10000 {
        3
    } else {
        4
    }
}

/// The text of a row: what its cells show, the second halves of double-width
/// characters left out.
pub open spec fn row_text(cells: Seq<GridCell>) -> Seq<char>
    decreases cells.len(),
{
    if cells.len() == 0 {
        Seq::empty()
    } else if cells.last().wide_spacer {
        row_text(cells.drop_last())
    } else {
        row_text(cells.drop_last()).push(shown_char(cells.last()))
    }
}

/// Every character is a space.
pub open spec fn all_spaces(text: Seq<char>) -> bool {
    forall|i: int| 0 <= i < text.len() ==> #[trigger] text[i] == ' '
}

/// Every character is below 128.
pub open spec fn all_below_128(text: Seq<char>) -> bool {
    forall|i: int| 0 <= i < text.len() ==> (#[trigger] text[i] as u32) < 128
}

/// Where the walk over a row stands: the runs closed so far, the start of the
/// open run, the length of the text in bytes, and the attributes of the open
/// run.
pub struct SpanWalk {
    pub spans: Seq<RichSpan>,
    pub start: nat,
    pub pos: nat,
    pub fg: RgbColor,
    pub bold: bool,
    pub italic: bool,
}

/// The walk after the given cells. It starts with an open run in white,
/// neither bold nor italic; a cell with other attributes than the open run
/// closes it, unless it is empty, and opens the next.
pub open spec fn span_walk(cells: Seq<GridCell>) -> SpanWalk
    decreases cells.len(),
{
    if cells.len() == 0 {
        SpanWalk {
            spans: Seq::empty(),
            start: 0,
            pos: 0,
            fg: RgbColor { r: 255, g: 255, b: 255 },
            bold: false,
            italic: false,
        }
    } else {
        let w = span_walk(cells.drop_last());
        let cell = cells.last();
        if cell.wide_spacer {
            w
        } else {
            let changed = cell.fg != w.fg || cell.bold != w.bold || cell.italic != w.italic;
            SpanWalk {
                spans: if changed && w.pos > w.start {
                    w.spans.push(
                        RichSpan {
                            start: w.start as usize,
                            end: w.pos as usize,
                            fg: w.fg,
                            bold: w.bold,
                            italic: w.italic,
                        },
                    )
                } else {
                    w.spans
                },
                start: if changed {
                    w.pos
                } else {
                    w.start
                },
                pos: w.pos + utf8_width(shown_char(cell)),
                fg: cell.fg,
                bold: cell.bold,
                italic: cell.italic,
            }
        }
    }
}

/// The runs of a row: those that the walk closed, and the open one if it is
/// not empty.
pub open spec fn rich_spans(cells: Seq<GridCell>) -> Seq<RichSpan> {
    let w = span_walk(cells);
    if w.pos > w.start {
        w.spans.push(
            RichSpan {
                start: w.start as usize,
                end: w.pos as usize,
                fg: w.fg,
                bold: w.bold,
                italic: w.italic,
            },
        )
    } else {
        w.spans
    }
}

/// The runs are not empty, follow each other without gap from the start of
/// the text to its end, and no two neighbours have the same attributes.
pub open spec fn spans_partition(spans: Seq<RichSpan>, len: nat) -> bool {
    &&& forall|i: int| 0 <= i < spans.len() ==> (#[trigger] spans[i]).start < spans[i].end
    &&& forall|i: int| 0 < i < spans.len() ==> (#[trigger] spans[i]).start == spans[i - 1].end
    &&& forall|i: int|
        0 < i < spans.len() ==> (#[trigger] spans[i]).fg != spans[i - 1].fg || spans[i].bold
            != spans[i - 1].bold || spans[i].italic != spans[i - 1].italic
    &&& spans.len() > 0 ==> spans[0].start == 0 && spans.last().end == len
    &&& spans.len() == 0 ==> len == 0
}

/// The attributes of a run differ from those given.
pub open spec fn differs(span: RichSpan, fg: RgbColor, bold: bool, italic: bool) -> bool {
    span.fg != fg || span.bold != bold || span.italic != italic
}

/// A run that starts where the runs so far end, is not empty and differs
/// from the last of them can be added.
pub proof fn lemma_partition_push(spans: Seq<RichSpan>, span: RichSpan)
    requires
        spans_partition(spans, span.start as nat),
        span.start < span.end,
        spans.len() > 0 ==> differs(spans.last(), span.fg, span.bold, span.italic),
    ensures
        spans_partition(spans.push(span), span.end as nat),
{
    let all = spans.push(span);
    assert forall|i: int| 0 < i < all.len() implies (#[trigger] all[i]).start == all[i - 1].end by {
        if i < spans.len() {
            assert(all[i] == spans[i] && all[i - 1] == spans[i - 1]);
        }
    }
    assert forall|i: int| 0 < i < all.len() implies (#[trigger] all[i]).fg != all[i - 1].fg
        || all[i].bold != all[i - 1].bold || all[i].italic != all[i - 1].italic by {
        if i < spans.len() {
            assert(all[i] == spans[i] && all[i - 1] == spans[i - 1]);
        }
    }
    assert forall|i: int| 0 <= i < all.len() implies (#[trigger] all[i]).start < all[i].end by {
        if i < spans.len() {
            assert(all[i] == spans[i]);
        }
    }
    if spans.len() > 0 {
        assert(all[0] == spans[0]);
    }
}

/// The walk is sound: the closed runs partition the text up to the open run,
/// and the open run, where it is not empty, differs from the last closed one.
pub open spec fn walk_sound(w: SpanWalk, cells: nat) -> bool {
    &&& w.start <= w.pos <= 4 * cells
    &&& spans_partition(w.spans, w.start)
    &&& w.spans.len() > 0 ==> differs(w.spans.last(), w.fg, w.bold, w.italic) && w.pos > w.start
}

pub proof fn lemma_span_walk(cells: Seq<GridCell>)
    requires
        cells.len() <= 0xffff,
    ensures
        walk_sound(span_walk(cells), cells.len()),
    decreases cells.len(),
{
    if cells.len() > 0 {
        lemma_span_walk(cells.drop_last());
        let p = span_walk(cells.drop_last());
        let w = span_walk(cells);
        let cell = cells.last();
        if !cell.wide_spacer {
            let changed = cell.fg != p.fg || cell.bold != p.bold || cell.italic != p.italic;
            if changed && p.pos > p.start {
                let closed = RichSpan {
                    start: p.start as usize,
                    end: p.pos as usize,
                    fg: p.fg,
                    bold: p.bold,
                    italic: p.italic,
                };
                lemma_partition_push(p.spans, closed);
                assert(w.spans == p.spans.push(closed));
                assert(w.spans.last() == closed);
            }
        }
    }
}

/// The runs of a row are not empty, follow each other without gap from the
/// start of the text to its end, and neighbours differ in their attributes.
pub proof fn lemma_rich_spans_partition(cells: Seq<GridCell>)
    requires
        cells.len() <= 0xffff,
    ensures
        spans_partition(rich_spans(cells), span_walk(cells).pos),
{
    lemma_span_walk(cells);
    let w = span_walk(cells);
    if w.pos > w.start {
        lemma_partition_push(
            w.spans,
            RichSpan {
                start: w.start as usize,
                end: w.pos as usize,
                fg: w.fg,
                bold: w.bold,
                italic: w.italic,
            },
        );
    }
}

fn width_of(c: char) -> (w: usize)
    ensures
        w == utf8_width(c),
{
    let v = c as u32;
    if v < 0x80 {
        1
    } else if v < 0x800 {
        2
    } else if v < 0x10000 {
        3
    } else {
        4
    }
}

/// Writes the text of a row to `text` and its runs to `spans`, both emptied
/// first, and says whether the row is blank and whether it is all ASCII.
pub fn build_line_rich_text_into(line: &GridLine, text: &mut String, spans: &mut Vec<RichSpan>) -> (info:
    LineInfo)
    requires
        line@.len() <= 0xffff,
    ensures
        final(text)@ == row_text(line@),
        final(spans)@ == rich_spans(line@),
        info.is_blank == all_spaces(row_text(line@)),
        info.all_ascii == all_below_128(row_text(line@)),
{
    *text = String::new();
    spans.clear();
    let mut cur_fg = RgbColor { r: 255, g: 255, b: 255 };
    let mut cur_bold = false;
    let mut cur_italic = false;
    let mut span_start: usize = 0;
    let mut pos: usize = 0;
    let mut all_ascii = true;
    let mut is_blank = true;
    let mut i: usize = 0;
    let ghost cells = line@;
    assert(cells.take(0) =~= Seq::<GridCell>::empty());
    while i < line.cells.len()
        invariant
            i <= cells.len(),
            cells == line@,
            cells.len() <= 0xffff,
            text@ == row_text(cells.take(i as int)),
            is_blank == all_spaces(text@),
            all_ascii == all_below_128(text@),
            pos <= 4 * i,
            ({
                let w = span_walk(cells.take(i as int));
                &&& spans@ == w.spans
                &&& span_start == w.start
                &&& pos == w.pos
                &&& cur_fg == w.fg
                &&& cur_bold == w.bold
                &&& cur_italic == w.italic
            }),
        decreases cells.len() - i,
    {
        let cell = line.cells[i];
        assert(cells.take(i + 1).drop_last() =~= cells.take(i as int));
        assert(cells.take(i + 1).last() == cell);
        if !cell.wide_spacer {
            let ch = if cell.c == '\0' {
                ' '
            } else {
                cell.c
            };
            let ghost before = text@;
            if is_blank && ch != ' ' {
                is_blank = false;
            }
            if all_ascii && ch as u32 >= 128 {
                all_ascii = false;
            }
            if cell.fg != cur_fg || cell.bold != cur_bold || cell.italic != cur_italic {
                if pos > span_start {
                    spans.push(
                        RichSpan {
                            start: span_start,
                            end: pos,
                            fg: cur_fg,
                            bold: cur_bold,
                            italic: cur_italic,
                        },
                    );
                }
                span_start = pos;
                cur_fg = cell.fg;
                cur_bold = cell.bold;
                cur_italic = cell.italic;
            }
            push_char(text, ch);
            pos = pos + width_of(ch);
            proof {
                let after = text@;
                assert(after == before.push(ch));
                assert(after[after.len() - 1] == ch);
                assert forall|k: int| 0 <= k < before.len() implies after[k] == before[k] by {}
                if all_spaces(before) && ch == ' ' {
                    assert(all_spaces(after));
                }
                if all_spaces(after) {
                    assert forall|k: int| 0 <= k < before.len() implies #[trigger] before[k] == ' ' by {
                        assert(after[k] == ' ');
                    }
                }
                if all_below_128(before) && (ch as u32) < 128 {
                    assert(all_below_128(after));
                }
                if all_below_128(after) {
                    assert forall|k: int| 0 <= k < before.len() implies (#[trigger] before[k] as u32)
                        < 128 by {
                        assert((after[k] as u32) < 128);
                    }
                }
            }
        }
        i += 1;
    }
    assert(cells.take(i as int) =~= cells);
    if pos > span_start {
        spans.push(
            RichSpan { start: span_start, end: pos, fg: cur_fg, bold: cur_bold, italic: cur_italic },
        );
    }
    LineInfo { is_blank, all_ascii }
}

} // verus!
