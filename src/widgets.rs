//! The two widgets of the menu's window, as plain data: which rows of the
//! list are on screen, how much room the list needs, when a widget must be
//! measured or drawn again, and the drawing operations for the list.
use vstd::prelude::*;

use crate::geometry::{Extent, Rect};

verus! {

/// First row of the page of `n_lines` rows that holds row `selected`.
pub open spec fn page_start(selected: nat, n_lines: nat) -> nat {
    if n_lines == 0 {
        0
    } else {
        (selected / n_lines) * n_lines
    }
}

/// One past the last row shown: the page ends after `n_lines` rows or at
/// the end of the list.
pub open spec fn page_end(selected: nat, n_lines: nat, len: nat) -> nat {
    if page_start(selected, n_lines) + n_lines <= len {
        page_start(selected, n_lines) + n_lines
    } else {
        len
    }
}

/// The rows `[start, end)` that a list of `len` rows shows when at most
/// `n_lines` fit and row `selected` is highlighted.
pub fn visible_rows(selected: usize, n_lines: usize, len: usize) -> (r: (usize, usize))
    ensures
        r.0 == page_start(selected as nat, n_lines as nat),
        r.1 == page_end(selected as nat, n_lines as nat, len as nat),
        selected < len && n_lines > 0 ==> r.0 <= selected < r.1,
{
    if n_lines == 0 {
        return (0, 0);
    }
    proof {
        assert((selected / n_lines) * n_lines <= selected) by (nonlinear_arith)
            requires
                n_lines > 0,
        ;
        assert(selected < (selected / n_lines) * n_lines + n_lines) by (nonlinear_arith)
            requires
                n_lines > 0,
        ;
    }
    let start: usize = (selected / n_lines) * n_lines;
    let end: usize = if start >= len || len - start <= n_lines {
        len
    } else {
        start + n_lines
    };
    (start, end)
}

pub open spec fn max_width(rows: Seq<Extent>) -> nat
    decreases rows.len(),
{
    if rows.len() == 0 {
        0
    } else {
        let w: nat = max_width(rows.drop_last());
        if rows.last().w > w {
            rows.last().w as nat
        } else {
            w
        }
    }
}

pub open spec fn total_height(rows: Seq<Extent>) -> nat
    decreases rows.len(),
{
    if rows.len() == 0 {
        0
    } else {
        (total_height(rows.drop_last()) + rows.last().h) as nat
    }
}

/// `n`, or the largest `u32` when `n` is larger.
pub open spec fn clamp_u32(n: int) -> u32 {
    if n > u32::MAX {
        u32::MAX
    } else {
        n as u32
    }
}

/// The room a list needs: its widest row and the height of its first
/// `n_lines` rows, with `padding` on each side.
pub open spec fn spec_list_extent(rows: Seq<Extent>, n_lines: nat, padding: u32) -> Extent {
    let shown = if n_lines < rows.len() { rows.take(n_lines as int) } else { rows };
    Extent {
        w: clamp_u32(max_width(rows) + 2 * padding),
        h: clamp_u32(total_height(shown) + 2 * padding),
    }
}

/// Measures a list from the measured extents of its rows.
pub fn list_extent(rows: &Vec<Extent>, n_lines: usize, padding: u32) -> (r: Extent)
    ensures
        r == spec_list_extent(rows@, n_lines as nat, padding),
{
    let mut w: u32 = 0;
    let mut h: u64 = 0;
    let mut i: usize = 0;
    while i < rows.len()
        invariant
            i <= rows.len(),
            w == max_width(rows@.take(i as int)),
            h == clamp_u32(total_height(rows@.take(if i <= n_lines { i as int } else { n_lines as int })) as int),
        decreases rows.len() - i,
    {
        let e = rows[i];
        proof {
            assert(rows@.take(i + 1).drop_last() =~= rows@.take(i as int));
        }
        if e.w > w {
            w = e.w;
        }
        if i < n_lines {
            proof {
                assert(rows@.take(i + 1).drop_last() =~= rows@.take(i as int));
            }
            let sum: u64 = h + e.h as u64;
            h = if sum > u32::MAX as u64 { u32::MAX as u64 } else { sum };
        }
        i = i + 1;
    }
    proof {
        assert(rows@.take(rows.len() as int) =~= rows@);
        if n_lines >= rows.len() {
            assert(rows@.take(rows.len() as int) =~= rows@);
        }
    }
    let pw: u64 = w as u64 + 2 * padding as u64;
    let ph: u64 = h + 2 * padding as u64;
    Extent {
        w: if pw > u32::MAX as u64 { u32::MAX } else { pw as u32 },
        h: if ph > u32::MAX as u64 { u32::MAX } else { ph as u32 },
    }
}

/// What a widget remembers between draws: its measured extent, until its
/// content changes, and whether it must be drawn again.
pub struct WidgetState {
    extent: Option<Extent>,
    needs_redraw: bool,
}

impl WidgetState {
    /// A widget not yet measured nor drawn.
    pub fn new() -> (r: WidgetState)
        ensures
            r.cached_extent_spec() is None,
            r.needs_redraw_spec(),
    {
        WidgetState { extent: None, needs_redraw: true }
    }

    pub closed spec fn cached_extent_spec(&self) -> Option<Extent> {
        self.extent
    }

    pub closed spec fn needs_redraw_spec(&self) -> bool {
        self.needs_redraw
    }

    /// The extent measured since the content last changed, if any.
    pub fn cached_extent(&self) -> (r: Option<Extent>)
        ensures
            r == self.cached_extent_spec(),
    {
        self.extent
    }

    /// Whether the widget changed since it was last drawn.
    pub fn needs_redraw(&self) -> (r: bool)
        ensures
            r == self.needs_redraw_spec(),
    {
        self.needs_redraw
    }

    /// The content changed: forget the extent and draw again.
    pub fn content_changed(&mut self)
        ensures
            final(self).cached_extent_spec() is None,
            final(self).needs_redraw_spec(),
    {
        self.extent = None;
        self.needs_redraw = true;
    }

    /// Remembers the extent just measured.
    pub fn remember_extent(&mut self, e: Extent)
        ensures
            final(self).cached_extent_spec() == Some(e),
            final(self).needs_redraw_spec() == old(self).needs_redraw_spec(),
    {
        self.extent = Some(e);
    }

    /// The widget was drawn.
    pub fn drawn(&mut self)
        ensures
            final(self).cached_extent_spec() == old(self).cached_extent_spec(),
            !final(self).needs_redraw_spec(),
    {
        self.needs_redraw = false;
    }
}

/// Which of the four colours an operation uses.
#[derive(Clone, Copy, Debug, PartialEq, Eq)]
pub enum Shade {
    Background,
    Foreground,
    HighlightBackground,
    HighlightForeground,
}

/// One drawing operation, in pixels from the widget's top left corner.
#[derive(Clone, Copy, Debug, PartialEq, Eq)]
pub enum DrawOp {
    /// Fill a rectangle.
    Fill { area: Rect, shade: Shade },
    /// Write the text of row `row` of the list with its top left corner at
    /// `(x, y)`.
    Text { row: usize, x: u32, y: u32, shade: Shade },
}

/// Top of the `k`-th shown row.
pub open spec fn row_top(rows: Seq<Extent>, padding: u32, k: nat) -> u32
    decreases k,
{
    if k == 0 || k > rows.len() {
        padding
    } else {
        row_top(rows, padding, (k - 1) as nat).saturating_add(rows[k - 1].h)
    }
}

/// The operations for the `k`-th shown row, which is row `first + k` of the
/// list: the highlighted row gets a bar as wide as its text plus padding
/// and swapped colours.
pub open spec fn row_ops(selected: nat, first: nat, rows: Seq<Extent>, padding: u32, k: nat) -> Seq<DrawOp> {
    let y: u32 = row_top(rows, padding, k);
    let x: u32 = padding.saturating_add(padding);
    if first + k == selected {
        seq![
            DrawOp::Fill {
                area: Rect { x: padding, y, w: rows[k as int].w.saturating_add(x), h: rows[k as int].h },
                shade: Shade::HighlightBackground,
            },
            DrawOp::Text { row: (first + k) as usize, x, y, shade: Shade::HighlightForeground },
        ]
    } else {
        seq![DrawOp::Text { row: (first + k) as usize, x, y, shade: Shade::Foreground }]
    }
}

/// The background, then the operations of the first `n` shown rows.
pub open spec fn list_ops(selected: nat, first: nat, rows: Seq<Extent>, area: Extent, padding: u32, n: nat) -> Seq<DrawOp>
    decreases n,
{
    if n == 0 || n > rows.len() {
        seq![DrawOp::Fill { area: Rect { x: 0, y: 0, w: area.w, h: area.h }, shade: Shade::Background }]
    } else {
        list_ops(selected, first, rows, area, padding, (n - 1) as nat) + row_ops(
            selected,
            first,
            rows,
            padding,
            (n - 1) as nat,
        )
    }
}

/// Draws the shown rows of a list over `area`: `rows` are the measured
/// extents of the rows from row `first` on, and row `selected` is
/// highlighted.
pub fn list_draw_ops(selected: usize, first: usize, rows: &Vec<Extent>, area: Extent, padding: u32) -> (r: Vec<DrawOp>)
    requires
        first + rows.len() <= usize::MAX,
    ensures
        r@ == list_ops(selected as nat, first as nat, rows@, area, padding, rows.len() as nat),
{
    let mut ops: Vec<DrawOp> = Vec::new();
    ops.push(DrawOp::Fill { area: Rect { x: 0, y: 0, w: area.w, h: area.h }, shade: Shade::Background });
    let x: u32 = padding.saturating_add(padding);
    let mut y: u32 = padding;
    let mut k: usize = 0;
    while k < rows.len()
        invariant
            k <= rows.len(),
            first + rows.len() <= usize::MAX,
            x == padding.saturating_add(padding),
            y == row_top(rows@, padding, k as nat),
            ops@ == list_ops(selected as nat, first as nat, rows@, area, padding, k as nat),
        decreases rows.len() - k,
    {
        let e = rows[k];
        if first + k == selected {
            ops.push(DrawOp::Fill { area: Rect { x: padding, y, w: e.w.saturating_add(x), h: e.h }, shade: Shade::HighlightBackground });
            ops.push(DrawOp::Text { row: first + k, x, y, shade: Shade::HighlightForeground });
        } else {
            ops.push(DrawOp::Text { row: first + k, x, y, shade: Shade::Foreground });
        }
        proof {
            let rs = row_ops(selected as nat, first as nat, rows@, padding, k as nat);
            assert(list_ops(selected as nat, first as nat, rows@, area, padding, (k + 1) as nat)
                == list_ops(selected as nat, first as nat, rows@, area, padding, k as nat) + rs);
        }
        y = y.saturating_add(e.h);
        k = k + 1;
    }
    ops
}

} // verus!
