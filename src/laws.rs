use crate::vga_buffer::{
    blank_char, blank_row, cell_index, is_printable, row_of, sanitized, scrolled, ColorCode,
    Screen, ScreenChar, BUFFER_HEIGHT, BUFFER_WIDTH,
};
use vstd::prelude::*;
use vstd::string::StringSliceAdditionalSpecFns;
use vstd::utf8::encode_utf8;

verus! {

/// The bottom-row cells from column `start` on replaced by `bs` in `color`,
/// the other cells as in `cells`.
pub open spec fn placed(cells: Seq<ScreenChar>, start: int, bs: Seq<u8>, color: ColorCode) -> Seq<
    ScreenChar,
> {
    Seq::new(
        cells.len(),
        |j: int|
            if cell_index(BUFFER_HEIGHT - 1, start) <= j < cell_index(BUFFER_HEIGHT - 1, start)
                + bs.len() {
                ScreenChar { ascii: bs[j - cell_index(BUFFER_HEIGHT - 1, start)], color }
            } else {
                cells[j]
            },
    )
}

/// Every byte of `bs` is printable ASCII.
pub open spec fn all_printable(bs: Seq<u8>) -> bool {
    forall|i: int| 0 <= i < bs.len() ==> is_printable(#[trigger] bs[i])
}

/// A row showing `bs` in `color` from column 0, blank after it.
pub open spec fn line_cells(bs: Seq<u8>, color: ColorCode) -> Seq<ScreenChar> {
    Seq::new(
        BUFFER_WIDTH as nat,
        |i: int|
            if i < bs.len() {
                ScreenChar { ascii: bs[i], color }
            } else {
                blank_char()
            },
    )
}

/// A line that fits in a row with room to spare, of printable bytes only.
pub open spec fn is_short_line(bs: Seq<u8>) -> bool {
    bs.len() < BUFFER_WIDTH && all_printable(bs)
}

/// The lines, each followed by a newline, laid end to end.
pub open spec fn lines_text(lines: Seq<Seq<u8>>) -> Seq<u8>
    decreases lines.len(),
{
    if lines.len() == 0 {
        Seq::empty()
    } else {
        lines_text(lines.drop_last()) + lines.last() + seq![0x0au8]
    }
}

/// Writing two byte sequences one after the other is writing them joined.
pub proof fn lemma_written_concat(s: Screen, a: Seq<u8>, b: Seq<u8>)
    ensures
        s.written(a + b) == s.written(a).written(b),
    decreases b.len(),
{
    if b.len() == 0 {
        assert(a + b =~= a);
    } else {
        lemma_written_concat(s, a, b.drop_last());
        assert((a + b).drop_last() =~= a + b.drop_last());
    }
}

/// The UTF-8 encoding of joined text is the two encodings joined.
pub proof fn lemma_encode_concat(a: Seq<char>, b: Seq<char>)
    ensures
        encode_utf8(a + b) == encode_utf8(a) + encode_utf8(b),
    decreases a.len(),
{
    if a.len() == 0 {
        assert(a + b =~= b);
        assert(encode_utf8(a) + encode_utf8(b) =~= encode_utf8(b));
    } else {
        lemma_encode_concat(a.drop_first(), b);
        assert((a + b).drop_first() =~= a.drop_first() + b);
        assert((a + b)[0] == a[0]);
        let e = vstd::utf8::encode_scalar(a[0] as u32);
        assert(e + (encode_utf8(a.drop_first()) + encode_utf8(b)) =~= (e + encode_utf8(
            a.drop_first(),
        )) + encode_utf8(b));
    }
}

/// Writing the text `a` and then the text `b` leaves the same state as
/// writing the joined text once.
pub proof fn lemma_two_writes(s: Screen, a: &str, b: &str, joined: &str)
    requires
        joined@ == a@ + b@,
    ensures
        s.written(joined.spec_bytes()) == s.written(a.spec_bytes()).written(b.spec_bytes()),
{
    lemma_encode_concat(a@, b@);
    lemma_written_concat(s, a.spec_bytes(), b.spec_bytes());
}

/// Writing one byte keeps the grid's size, the column within the row and the
/// color.
pub proof fn lemma_step_wf(s: Screen, b: u8)
    requires
        s.wf(),
    ensures
        s.step(b).wf(),
        s.step(b).color == s.color,
{
}

/// Writing any bytes keeps the grid's size, the column within the row and
/// the color.
pub proof fn lemma_written_wf(s: Screen, bs: Seq<u8>)
    requires
        s.wf(),
    ensures
        s.written(bs).wf(),
        s.written(bs).color == s.color,
    decreases bs.len(),
{
    if bs.len() > 0 {
        lemma_written_wf(s, bs.drop_last());
        lemma_step_wf(s.written(bs.drop_last()), sanitized(bs.last()));
    }
}

/// Each byte of `bs` as a string write stores it.
pub open spec fn sanitized_bytes(bs: Seq<u8>) -> Seq<u8> {
    bs.map_values(|b: u8| sanitized(b))
}

/// Bytes with no newline that fit in the rest of the bottom row land there
/// sanitized, in order, from the cursor on: a byte that is neither printable
/// nor a newline as 0xFE. Nothing else changes and the cursor moves past them.
pub proof fn lemma_fill_sanitized(s: Screen, bs: Seq<u8>)
    requires
        s.wf(),
        forall|i: int| 0 <= i < bs.len() ==> #[trigger] bs[i] != 0x0a,
        s.col + bs.len() <= BUFFER_WIDTH,
    ensures
        s.written(bs) == (Screen {
            col: s.col + bs.len(),
            color: s.color,
            cells: placed(s.cells, s.col as int, sanitized_bytes(bs), s.color),
        }),
        forall|i: int|
            0 <= i < bs.len() ==> (#[trigger] s.written(bs).cells[cell_index(
                BUFFER_HEIGHT - 1,
                s.col + i,
            )]).ascii == sanitized(bs[i]),
        forall|i: int|
            0 <= i < bs.len() && !is_printable(bs[i]) ==> (#[trigger] s.written(bs).cells[cell_index(
                BUFFER_HEIGHT - 1,
                s.col + i,
            )]).ascii == 0xfe,
    decreases bs.len(),
{
    if bs.len() == 0 {
        assert(placed(s.cells, s.col as int, sanitized_bytes(bs), s.color) =~= s.cells);
    } else {
        let p = bs.drop_last();
        lemma_fill_sanitized(s, p);
        assert(sanitized_bytes(p) =~= sanitized_bytes(bs).drop_last());
        assert(bs[bs.len() - 1] != 0x0a);
        assert(s.written(bs).cells =~= placed(
            s.cells,
            s.col as int,
            sanitized_bytes(bs),
            s.color,
        ));
    }
}

/// Printable bytes that fit in the rest of the bottom row land there as they
/// are, in order, from the cursor on; nothing else changes and the cursor
/// moves past them.
pub proof fn lemma_printable_fill(s: Screen, bs: Seq<u8>)
    requires
        s.wf(),
        all_printable(bs),
        s.col + bs.len() <= BUFFER_WIDTH,
    ensures
        s.written(bs) == (Screen {
            col: s.col + bs.len(),
            color: s.color,
            cells: placed(s.cells, s.col as int, bs, s.color),
        }),
        forall|i: int|
            0 <= i < bs.len() ==> (#[trigger] s.written(bs).cells[cell_index(
                BUFFER_HEIGHT - 1,
                s.col + i,
            )]).ascii == bs[i],
{
    assert forall|i: int| 0 <= i < bs.len() implies #[trigger] bs[i] != 0x0a by {
        assert(is_printable(bs[i]));
    }
    lemma_fill_sanitized(s, bs);
    assert(sanitized_bytes(bs) =~= bs) by {
        assert forall|i: int| 0 <= i < bs.len() implies sanitized_bytes(bs)[i] == bs[i] by {
            assert(is_printable(bs[i]));
        }
    }
}

/// A byte that is neither printable nor a newline is stored as 0xFE at the
/// cell the cursor stood on (column 0 after a wrap); so it is never stored as
/// itself, unless it is 0xFE.
pub proof fn lemma_unprintable_replaced(s: Screen, b: u8)
    requires
        s.wf(),
        !is_printable(b),
        b != 0x0a,
    ensures
        s.written(seq![b]) == s.step(0xfe),
        s.written(seq![b]).cells[cell_index(
            BUFFER_HEIGHT - 1,
            if s.col >= BUFFER_WIDTH {
                0
            } else {
                s.col as int
            },
        )] == (ScreenChar { ascii: 0xfe, color: s.color }),
        b != 0xfe ==> s.written(seq![b]).cells[cell_index(
            BUFFER_HEIGHT - 1,
            if s.col >= BUFFER_WIDTH {
                0
            } else {
                s.col as int
            },
        )].ascii != b,
{
    let one = seq![b];
    assert(one.drop_last() =~= Seq::<u8>::empty());
    assert(s.written(one.drop_last()) == s);
    assert(one.last() == b);
    assert(s.written(one) == s.step(0xfe));
}

/// From column 0, one printable byte more than a row holds scrolls exactly
/// once: the first `BUFFER_WIDTH` bytes fill the row above the bottom one,
/// the last stands alone at column 0 of the bottom row, and the rows above
/// moved up by one.
pub proof fn lemma_wrap_once(s: Screen, bs: Seq<u8>)
    requires
        s.wf(),
        s.col == 0,
        bs.len() == BUFFER_WIDTH + 1,
        all_printable(bs),
    ensures
        s.written(bs) == (Screen {
            col: 1,
            color: s.color,
            cells: scrolled(placed(s.cells, 0, bs.take(BUFFER_WIDTH as int), s.color)).update(
                cell_index(BUFFER_HEIGHT - 1, 0),
                ScreenChar { ascii: bs[BUFFER_WIDTH as int], color: s.color },
            ),
        }),
        row_of(s.written(bs).cells, BUFFER_HEIGHT - 2) == Seq::new(
            BUFFER_WIDTH as nat,
            |i: int| ScreenChar { ascii: bs[i], color: s.color },
        ),
        s.written(bs).cells[cell_index(BUFFER_HEIGHT - 1, 0)] == (ScreenChar {
            ascii: bs[BUFFER_WIDTH as int],
            color: s.color,
        }),
        forall|i: int|
            1 <= i < BUFFER_WIDTH ==> #[trigger] s.written(bs).cells[cell_index(
                BUFFER_HEIGHT - 1,
                i,
            )] == blank_char(),
        forall|r: int, i: int|
            0 <= r < BUFFER_HEIGHT - 2 && 0 <= i < BUFFER_WIDTH ==> s.written(bs).cells[cell_index(
                r,
                i,
            )] == s.cells[cell_index(r + 1, i)],
{
    let head = bs.take(BUFFER_WIDTH as int);
    assert(bs.drop_last() =~= head);
    assert(all_printable(head));
    lemma_printable_fill(s, head);
    assert(is_printable(bs[BUFFER_WIDTH as int]));
    let r = s.written(bs);
    assert(row_of(r.cells, BUFFER_HEIGHT - 2) =~= Seq::new(
        BUFFER_WIDTH as nat,
        |i: int| ScreenChar { ascii: bs[i], color: s.color },
    ));
}

/// From column 0, a full row of printable bytes and then a newline leaves
/// the cursor at column 0, that row intact just above the bottom row, and a
/// blank bottom row.
pub proof fn lemma_full_row_then_newline(s: Screen, bs: Seq<u8>)
    requires
        s.wf(),
        s.col == 0,
        bs.len() == BUFFER_WIDTH,
        all_printable(bs),
    ensures
        s.written(bs + seq![0x0au8]) == (Screen {
            col: 0,
            color: s.color,
            cells: scrolled(placed(s.cells, 0, bs, s.color)),
        }),
        row_of(s.written(bs + seq![0x0au8]).cells, BUFFER_HEIGHT - 2) == Seq::new(
            BUFFER_WIDTH as nat,
            |i: int| ScreenChar { ascii: bs[i], color: s.color },
        ),
        row_of(s.written(bs + seq![0x0au8]).cells, BUFFER_HEIGHT - 1) == blank_row(),
{
    let nl = seq![0x0au8];
    lemma_written_concat(s, bs, nl);
    lemma_printable_fill(s, bs);
    let mid = s.written(bs);
    assert(nl.drop_last() =~= Seq::<u8>::empty());
    assert(mid.written(nl.drop_last()) == mid);
    assert(nl.last() == 0x0a);
    assert(mid.written(nl) == mid.new_line());
    let r = s.written(bs + nl);
    assert(r.cells =~= scrolled(placed(s.cells, 0, bs, s.color)));
    assert(row_of(r.cells, BUFFER_HEIGHT - 2) =~= Seq::new(
        BUFFER_WIDTH as nat,
        |i: int| ScreenChar { ascii: bs[i], color: s.color },
    ));
    assert(row_of(r.cells, BUFFER_HEIGHT - 1) =~= blank_row());
}

/// Bytes that end in a newline leave the cursor at column 0 and a blank
/// bottom row.
pub proof fn lemma_newline_ends(s: Screen, bs: Seq<u8>)
    requires
        s.wf(),
        bs.len() > 0,
        bs.last() == 0x0a,
    ensures
        s.written(bs).col == 0,
        forall|i: int|
            0 <= i < BUFFER_WIDTH ==> #[trigger] s.written(bs).cells[cell_index(
                BUFFER_HEIGHT - 1,
                i,
            )] == blank_char(),
{
    lemma_written_wf(s, bs.drop_last());
}

/// From column 0 over a blank bottom row, a short line and a newline put the
/// line just above the bottom row and move the rows above it up by one.
pub proof fn lemma_line_on_blank(s: Screen, l: Seq<u8>)
    requires
        s.wf(),
        s.col == 0,
        forall|i: int|
            0 <= i < BUFFER_WIDTH ==> #[trigger] s.cells[cell_index(BUFFER_HEIGHT - 1, i)]
                == blank_char(),
        is_short_line(l),
    ensures
        s.written(l + seq![0x0au8]).wf(),
        s.written(l + seq![0x0au8]).color == s.color,
        forall|i: int|
            0 <= i < BUFFER_WIDTH ==> #[trigger] s.written(l + seq![0x0au8]).cells[cell_index(
                BUFFER_HEIGHT - 2,
                i,
            )] == line_cells(l, s.color)[i],
        forall|r: int, i: int|
            0 <= r < BUFFER_HEIGHT - 2 && 0 <= i < BUFFER_WIDTH ==> #[trigger] s.written(
                l + seq![0x0au8],
            ).cells[cell_index(r, i)] == s.cells[cell_index(r + 1, i)],
{
    let nl = seq![0x0au8];
    lemma_written_concat(s, l, nl);
    lemma_printable_fill(s, l);
    lemma_written_wf(s, l + nl);
    let mid = s.written(l);
    assert(nl.drop_last() =~= Seq::<u8>::empty());
    assert(mid.written(nl.drop_last()) == mid);
    assert(nl.last() == 0x0a);
    assert(mid.written(nl) == mid.new_line());
    let r = s.written(l + nl);
    assert forall|i: int| 0 <= i < BUFFER_WIDTH implies #[trigger] r.cells[cell_index(
        BUFFER_HEIGHT - 2,
        i,
    )] == line_cells(l, s.color)[i] by {
        assert(r.cells[cell_index(BUFFER_HEIGHT - 2, i)] == mid.cells[cell_index(
            BUFFER_HEIGHT - 1,
            i,
        )]);
        if i >= l.len() {
            assert(s.cells[cell_index(BUFFER_HEIGHT - 1, i)] == blank_char());
        }
    }
}

/// After short lines, each ending in a newline, the cursor is at column 0,
/// the bottom row is blank, and the row `t` above the bottom one shows the
/// `t`-th line from the end, for every line but the first.
pub proof fn lemma_lines(s: Screen, lines: Seq<Seq<u8>>)
    requires
        s.wf(),
        lines.len() >= 1,
        forall|k: int| 0 <= k < lines.len() ==> is_short_line(#[trigger] lines[k]),
    ensures
        s.written(lines_text(lines)).wf(),
        s.written(lines_text(lines)).color == s.color,
        s.written(lines_text(lines)).col == 0,
        forall|i: int|
            0 <= i < BUFFER_WIDTH ==> #[trigger] s.written(lines_text(lines)).cells[cell_index(
                BUFFER_HEIGHT - 1,
                i,
            )] == blank_char(),
        forall|t: int, i: int|
            1 <= t < lines.len() && t < BUFFER_HEIGHT && 0 <= i < BUFFER_WIDTH
                ==> #[trigger] s.written(lines_text(lines)).cells[cell_index(
                BUFFER_HEIGHT - 1 - t,
                i,
            )] == line_cells(lines[lines.len() - t], s.color)[i],
    decreases lines.len(),
{
    let prev = lines.drop_last();
    let l = lines.last();
    let nl = seq![0x0au8];
    let text = lines_text(lines);
    assert(text == lines_text(prev) + l + nl);
    assert(lines_text(prev) + l + nl =~= lines_text(prev) + (l + nl));
    lemma_written_concat(s, lines_text(prev), l + nl);
    lemma_written_wf(s, text);
    assert(text.last() == 0x0a);
    lemma_newline_ends(s, text);
    if prev.len() >= 1 {
        assert forall|k: int| 0 <= k < prev.len() implies is_short_line(#[trigger] prev[k]) by {
            assert(prev[k] == lines[k]);
        }
        lemma_lines(s, prev);
        let st = s.written(lines_text(prev));
        assert(is_short_line(lines[lines.len() - 1]));
        lemma_line_on_blank(st, l);
        let r = s.written(text);
        assert forall|t: int, i: int|
            1 <= t < lines.len() && t < BUFFER_HEIGHT && 0 <= i
                < BUFFER_WIDTH implies #[trigger] r.cells[cell_index(BUFFER_HEIGHT - 1 - t, i)]
            == line_cells(lines[lines.len() - t], s.color)[i] by {
            if t >= 2 {
                assert(r.cells[cell_index(BUFFER_HEIGHT - 1 - t, i)] == st.cells[cell_index(
                    BUFFER_HEIGHT - 1 - t + 1,
                    i,
                )]);
                assert(st.cells[cell_index(BUFFER_HEIGHT - 1 - (t - 1), i)] == line_cells(
                    prev[prev.len() - (t - 1)],
                    s.color,
                )[i]);
                assert(prev[prev.len() - (t - 1)] == lines[lines.len() - t]);
            } else {
                assert(r.cells[cell_index(BUFFER_HEIGHT - 2, i)] == line_cells(l, s.color)[i]);
            }
        }
    } else {
        lemma_written_wf(s, text);
    }
}

/// After `2 * BUFFER_HEIGHT` short lines, each ending in a newline, only the
/// last `BUFFER_HEIGHT - 1` of them are left, in order from the top row, above
/// a blank bottom row; the cursor is at column 0.
pub proof fn lemma_scroll_evicts_oldest(s: Screen, lines: Seq<Seq<u8>>)
    requires
        s.wf(),
        lines.len() == 2 * BUFFER_HEIGHT,
        forall|k: int| 0 <= k < lines.len() ==> is_short_line(#[trigger] lines[k]),
    ensures
        s.written(lines_text(lines)).col == 0,
        row_of(s.written(lines_text(lines)).cells, BUFFER_HEIGHT - 1) == blank_row(),
        forall|k: int|
            0 <= k < BUFFER_HEIGHT - 1 ==> #[trigger] row_of(s.written(lines_text(lines)).cells, k)
                == line_cells(lines[BUFFER_HEIGHT + 1 + k], s.color),
{
    lemma_lines(s, lines);
    let r = s.written(lines_text(lines));
    assert(row_of(r.cells, BUFFER_HEIGHT - 1) =~= blank_row()) by {
        assert forall|i: int| 0 <= i < BUFFER_WIDTH implies row_of(r.cells, BUFFER_HEIGHT - 1)[i]
            == blank_row()[i] by {
            assert(r.cells[cell_index(BUFFER_HEIGHT - 1, i)] == blank_char());
        }
    }
    assert forall|k: int| 0 <= k < BUFFER_HEIGHT - 1 implies #[trigger] row_of(r.cells, k)
        == line_cells(lines[BUFFER_HEIGHT + 1 + k], s.color) by {
        let t = BUFFER_HEIGHT - 1 - k;
        assert forall|i: int| 0 <= i < BUFFER_WIDTH implies row_of(r.cells, k)[i] == line_cells(
            lines[BUFFER_HEIGHT + 1 + k],
            s.color,
        )[i] by {
            assert(r.cells[cell_index(BUFFER_HEIGHT - 1 - t, i)] == line_cells(
                lines[lines.len() - t],
                s.color,
            )[i]);
        }
        assert(row_of(r.cells, k) =~= line_cells(lines[BUFFER_HEIGHT + 1 + k], s.color));
    }
}

} // verus!
