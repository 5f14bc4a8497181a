//! The bitmap text format, as mathematics.
//!
//! Bitmap text is newline-separated rows of glyph bytes.  Carriage
//! returns and spaces are stripped, rows left empty by the stripping are
//! skipped, and every remaining row must have the same glyph count,
//! which becomes the bitmap width.  Each glyph selects a palette colour
//! through [`spec_map_color`].

use vstd::prelude::*;
use crate::color::spec_map_color;

verus! {

/// The byte value of the newline that separates rows.
pub const BYTE_NEWLINE: u8 = 10;

/// The byte value of the carriage return, stripped from rows.
pub const BYTE_CR: u8 = 13;

/// The byte value of the space, stripped from rows.
pub const BYTE_SPACE: u8 = 32;

/// A byte that stands for a pixel: anything but a newline, a carriage
/// return or a space.
pub open spec fn is_glyph(b: u8) -> bool {
    b != BYTE_NEWLINE && b != BYTE_CR && b != BYTE_SPACE
}

/// The glyph bytes of the text, in order, with separators and stripped
/// bytes removed.
pub open spec fn sig_bytes(s: Seq<u8>) -> Seq<u8>
    decreases s.len(),
{
    if s.len() == 0 {
        Seq::empty()
    } else {
        let prev = sig_bytes(s.drop_last());
        if is_glyph(s.last()) {
            prev.push(s.last())
        } else {
            prev
        }
    }
}

/// Every byte of a sequence mapped to the colour its glyph selects.
pub open spec fn all_colors(s: Seq<u8>) -> Seq<u32> {
    Seq::new(s.len(), |i: int| spec_map_color(s[i]))
}

/// The pixels the text encodes: its glyph bytes, each mapped to the
/// colour it selects.
pub open spec fn parse_pixels(s: Seq<u8>) -> Seq<u32> {
    all_colors(sig_bytes(s))
}

/// The glyph count of every row of the text, in order, the still-open
/// final row included.  The sequence always has at least one element.
pub open spec fn row_widths(s: Seq<u8>) -> Seq<int>
    decreases s.len(),
{
    if s.len() == 0 {
        seq![0int]
    } else {
        let prev = row_widths(s.drop_last());
        let b = s.last();
        if b == BYTE_NEWLINE {
            prev.push(0)
        } else if is_glyph(b) {
            prev.update(prev.len() - 1, prev.last() + 1)
        } else {
            prev
        }
    }
}

/// The positive elements of a sequence, in order.
pub open spec fn positives(ws: Seq<int>) -> Seq<int>
    decreases ws.len(),
{
    if ws.len() == 0 {
        Seq::empty()
    } else {
        let prev = positives(ws.drop_last());
        if ws.last() > 0 {
            prev.push(ws.last())
        } else {
            prev
        }
    }
}

/// All elements of the sequence are equal to its first.
pub open spec fn all_equal(ws: Seq<int>) -> bool {
    forall|i: int| 0 <= i < ws.len() ==> #[trigger] ws[i] == ws[0]
}

/// The glyph counts of the non-empty rows of the text, in order.
pub open spec fn pos_widths(s: Seq<u8>) -> Seq<int> {
    positives(row_widths(s))
}

/// The text is well formed: all its non-empty rows have the same glyph
/// count.
pub open spec fn rows_consistent(s: Seq<u8>) -> bool {
    all_equal(pos_widths(s))
}

/// The width the text encodes: the glyph count of its first non-empty
/// row, or zero when it has none.
pub open spec fn parse_width(s: Seq<u8>) -> int {
    if pos_widths(s).len() == 0 {
        0
    } else {
        pos_widths(s)[0]
    }
}

/// The glyph counts of the closed rows of the text: every row but the
/// still-open last one.
pub open spec fn closed_widths(s: Seq<u8>) -> Seq<int> {
    row_widths(s).drop_last()
}

/// All elements of the sequence equal `v`.
pub open spec fn all_eq_to(ws: Seq<int>, v: int) -> bool {
    forall|k: int| 0 <= k < ws.len() ==> #[trigger] ws[k] == v
}

/// There is always at least one row, and the widths are never negative.
pub proof fn lemma_row_widths_len(s: Seq<u8>)
    ensures
        row_widths(s).len() >= 1,
        forall|i: int| 0 <= i < row_widths(s).len() ==> #[trigger] row_widths(s)[i] >= 0,
    decreases s.len(),
{
    if s.len() > 0 {
        lemma_row_widths_len(s.drop_last());
    }
}

/// One byte appended to the text: how the row widths and the encoded
/// pixels change.
pub proof fn lemma_parse_step(pfx: Seq<u8>, b: u8)
    ensures
        row_widths(pfx.push(b)) == (if b == BYTE_NEWLINE {
            row_widths(pfx).push(0)
        } else if is_glyph(b) {
            row_widths(pfx).update(row_widths(pfx).len() - 1, row_widths(pfx).last() + 1)
        } else {
            row_widths(pfx)
        }),
        sig_bytes(pfx.push(b)) == (if is_glyph(b) {
            sig_bytes(pfx).push(b)
        } else {
            sig_bytes(pfx)
        }),
        row_widths(pfx).len() >= 1,
{
    lemma_row_widths_len(pfx);
    assert(pfx.push(b).drop_last() =~= pfx);
    assert(pfx.push(b).last() == b);
}

/// One element appended to a sequence: how its positive part changes.
pub proof fn lemma_positives_push(ws: Seq<int>, a: int)
    ensures
        positives(ws.push(a)) == (if a > 0 {
            positives(ws).push(a)
        } else {
            positives(ws)
        }),
{
    assert(ws.push(a).drop_last() =~= ws);
    assert(ws.push(a).last() == a);
}

/// A positive element of a sequence appears in its positive part.
pub proof fn lemma_positives_contains(ws: Seq<int>, i: int)
    requires
        0 <= i < ws.len(),
        ws[i] > 0,
    ensures
        positives(ws).contains(ws[i]),
    decreases ws.len(),
{
    if i == ws.len() - 1 {
        assert(positives(ws)[positives(ws).len() - 1] == ws[i]);
    } else {
        lemma_positives_contains(ws.drop_last(), i);
        let prev = positives(ws.drop_last());
        let k = choose|k: int| 0 <= k < prev.len() && prev[k] == ws[i];
        assert(positives(ws)[k] == ws[i]);
    }
}

/// Every element of the positive part comes from the base sequence.
pub proof fn lemma_positives_in_base(ws: Seq<int>, k: int)
    requires
        0 <= k < positives(ws).len(),
    ensures
        exists|i: int| 0 <= i < ws.len() && #[trigger] ws[i] == positives(ws)[k],
    decreases ws.len(),
{
    if ws.len() > 0 {
        let prev = positives(ws.drop_last());
        if ws.last() > 0 && k == positives(ws).len() - 1 {
            assert(ws[ws.len() - 1] == positives(ws)[k]);
        } else {
            lemma_positives_in_base(ws.drop_last(), k);
            let i = choose|i: int|
                0 <= i < ws.drop_last().len() && #[trigger] ws.drop_last()[i] == prev[k];
            assert(ws[i] == positives(ws)[k]);
        }
    }
}

/// Text appended after `s` leaves the closed rows of `s` in place: every
/// row of `s` but its still-open last one keeps its position and its
/// glyph count.
pub proof fn lemma_row_widths_concat(s: Seq<u8>, t: Seq<u8>)
    ensures
        row_widths(s + t).len() >= row_widths(s).len(),
        forall|i: int|
            0 <= i < row_widths(s).len() - 1 ==> #[trigger] row_widths(s + t)[i] == row_widths(
                s,
            )[i],
    decreases t.len(),
{
    lemma_row_widths_len(s);
    if t.len() == 0 {
        assert(s + t =~= s);
    } else {
        lemma_row_widths_concat(s, t.drop_last());
        lemma_row_widths_len(s + t.drop_last());
        assert((s + t).drop_last() =~= s + t.drop_last());
        lemma_parse_step(s + t.drop_last(), t.last());
        assert(s + t =~= (s + t.drop_last()).push(t.last()));
    }
}

/// Two different positive row widths anywhere in the text make it
/// inconsistent, whatever comes later.
pub proof fn lemma_two_widths_inconsistent(s: Seq<u8>, i: int, j: int)
    requires
        0 <= i < row_widths(s).len(),
        0 <= j < row_widths(s).len(),
        row_widths(s)[i] > 0,
        row_widths(s)[j] > 0,
        row_widths(s)[i] != row_widths(s)[j],
    ensures
        !rows_consistent(s),
{
    let ws = row_widths(s);
    lemma_positives_contains(ws, i);
    lemma_positives_contains(ws, j);
    let p = positives(ws);
    let ki = choose|k: int| 0 <= k < p.len() && p[k] == ws[i];
    let kj = choose|k: int| 0 <= k < p.len() && p[k] == ws[j];
    if rows_consistent(s) {
        assert(p[ki] == p[0]);
        assert(p[kj] == p[0]);
        assert(false);
    }
}

} // verus!
