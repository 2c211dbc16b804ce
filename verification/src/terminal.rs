use crate::buffer::{Buffer, EraseMode, min};
use crate::cell::{Cell, Occupancy};
use crate::charset::Charset;
use crate::cursor::Cursor;
use crate::dirty_lines::DirtyLines;
use crate::function::{AnsiMode, CtcOp, DecMode, EdScope, ElScope, Function, SgrOp, SgrOps, TbcScope, XtwinopsOp};
use crate::line::Line;
use crate::pen::{Intensity, Pen, ITALIC_MASK, UNDERLINE_MASK, BLINK_MASK, INVERSE_MASK, STRIKETHROUGH_MASK};
use crate::saved_ctx::SavedCtx;
use crate::tabs::Tabs;
use vstd::prelude::*;

verus! {

/// Which screen buffer is shown.
#[derive(Debug, Copy, Clone, PartialEq, Eq, Structural)]
pub enum BufferType {
    Primary,
    Alternate,
}

/// What the cursor keys send: normal or application sequences.
#[derive(Debug, Copy, Clone, PartialEq, Eq, Structural)]
pub enum CursorKeysMode {
    Normal,
    Application,
}

/// The terminal state that the functions of the parser act on.
#[derive(Debug)]
pub struct Terminal {
    pub cols: usize,
    pub rows: usize,
    pub buffer: Buffer,
    pub other_buffer: Buffer,
    pub active_buffer_type: BufferType,
    pub scrollback_limit: Option<usize>,
    pub cursor: Cursor,
    pub pen: Pen,
    pub charsets: [Charset; 2],
    pub active_charset: usize,
    pub tabs: Tabs,
    pub insert_mode: bool,
    pub origin_mode: bool,
    pub auto_wrap_mode: bool,
    pub new_line_mode: bool,
    pub cursor_keys_mode: CursorKeysMode,
    pub top_margin: usize,
    pub bottom_margin: usize,
    pub saved_ctx: SavedCtx,
    pub alternate_saved_ctx: SavedCtx,
    pub dirty_lines: DirtyLines,
    pub xtwinops: bool,
}

/// A scrollback limit that the buffer can take: the hard limit, 10% above
/// it, fits in a `usize`.
pub open spec fn limit_ok(limit: Option<usize>) -> bool {
    limit matches Some(l) ==> l + l / 10 <= usize::MAX
}

/// The scrollback limits a buffer takes for the limit `limit`: the soft one
/// is `limit`, the hard one 10% more.
pub open spec fn buffer_limit(limit: Option<usize>) -> Option<crate::buffer::ScrollbackLimit> {
    match limit {
        Some(l) => Some(crate::buffer::ScrollbackLimit { soft: l, hard: (l + l / 10) as usize }),
        None => None,
    }
}

/// The scrollback of `b` is within its hard limit.
pub open spec fn within_limit(b: Buffer) -> bool {
    b.scrollback_limit matches Some(l) ==> b.lines@.len() - b.rows <= l.hard
}

/// A buffer that the terminal can hold: well formed, its last line not
/// continued, and its scrollback within the limit unless a trim is pending.
pub open spec fn buffer_ok(b: Buffer) -> bool {
    &&& b.wf()
    &&& b.last_unwrapped()
    &&& (!b.trim_needed ==> within_limit(b))
}

/// Every tab stop lies before column `cols`.
pub open spec fn stops_below(s: Seq<usize>, cols: int) -> bool {
    forall|i: int| 0 <= i < s.len() ==> #[trigger] s[i] < cols
}

/// Stops taken from a set of stops before `cols`, and maybe `extra` too
/// when it is before `cols`, lie before `cols`.
proof fn lemma_stops_below(old_s: Seq<usize>, new_s: Seq<usize>, cols: int, extra: int)
    requires
        stops_below(old_s, cols),
        forall|x: usize| #[trigger] new_s.to_set().contains(x) ==> old_s.to_set().contains(x) || x == extra,
        extra < cols,
    ensures
        stops_below(new_s, cols),
{
    assert forall|i: int| 0 <= i < new_s.len() implies #[trigger] new_s[i] < cols by {
        let x = new_s[i];
        assert(new_s.contains(x));
        assert(new_s.to_set().contains(x));
        if old_s.to_set().contains(x) {
            assert(old_s.contains(x));
            let j = choose|j: int| 0 <= j < old_s.len() && old_s[j] == x;
            assert(old_s[j] < cols);
        }
    }
}

/// `new` marks the rows of `old` and those of `start..end` changed.
pub open spec fn marked(old: Seq<bool>, new: Seq<bool>, start: int, end: int) -> bool {
    &&& new.len() == old.len()
    &&& forall|i: int| 0 <= i < old.len() ==> #[trigger] new[i] == (old[i] || (start <= i < end))
}

/// The pen after one graphic rendition change.
pub open spec fn sgr_apply(pen: Pen, op: SgrOp) -> Pen {
    match op {
        SgrOp::Reset => Pen::spec_default(),
        SgrOp::SetBoldIntensity => Pen { intensity: Intensity::Bold, ..pen },
        SgrOp::SetFaintIntensity => Pen { intensity: Intensity::Faint, ..pen },
        SgrOp::SetItalic => Pen { attrs: pen.attrs | ITALIC_MASK, ..pen },
        SgrOp::SetUnderline => Pen { attrs: pen.attrs | UNDERLINE_MASK, ..pen },
        SgrOp::SetBlink => Pen { attrs: pen.attrs | BLINK_MASK, ..pen },
        SgrOp::SetInverse => Pen { attrs: pen.attrs | INVERSE_MASK, ..pen },
        SgrOp::SetStrikethrough => Pen { attrs: pen.attrs | STRIKETHROUGH_MASK, ..pen },
        SgrOp::ResetIntensity => Pen { intensity: Intensity::Normal, ..pen },
        SgrOp::ResetItalic => Pen { attrs: pen.attrs & !ITALIC_MASK, ..pen },
        SgrOp::ResetUnderline => Pen { attrs: pen.attrs & !UNDERLINE_MASK, ..pen },
        SgrOp::ResetBlink => Pen { attrs: pen.attrs & !BLINK_MASK, ..pen },
        SgrOp::ResetInverse => Pen { attrs: pen.attrs & !INVERSE_MASK, ..pen },
        SgrOp::ResetStrikethrough => Pen { attrs: pen.attrs & !STRIKETHROUGH_MASK, ..pen },
        SgrOp::SetForegroundColor(c) => Pen { foreground: Some(c), ..pen },
        SgrOp::ResetForegroundColor => Pen { foreground: None, ..pen },
        SgrOp::SetBackgroundColor(c) => Pen { background: Some(c), ..pen },
        SgrOp::ResetBackgroundColor => Pen { background: None, ..pen },
    }
}

/// The pen after the changes `ops`, in order.
pub open spec fn sgr_apply_all(pen: Pen, ops: Seq<SgrOp>) -> Pen
    decreases ops.len(),
{
    if ops.len() == 0 {
        pen
    } else {
        sgr_apply(sgr_apply_all(pen, ops.drop_last()), ops.last())
    }
}

/// The value of a numeric parameter, `default` standing for 0.
pub open spec fn param_or(value: u16, default: usize) -> usize {
    if value == 0 { default } else { value as usize }
}

/// `x`, but at most `hi`.
pub open spec fn at_most(x: int, hi: int) -> int {
    if x > hi { hi } else { x }
}

/// `nb` is `b` with row `row` of the view holding `cells`, its wrap flag
/// kept.
pub open spec fn row_replaced(b: Buffer, nb: Buffer, row: int, cells: Seq<crate::cell::Cell>) -> bool {
    &&& b.same_but(&nb, b.top() + row)
    &&& nb.row(row).cells@ == cells
    &&& nb.row(row).wrapped == b.row(row).wrapped
}

/// `nb` is `b` with row `row` of the view marked as continuing on the next.
pub open spec fn row_wrapped(b: Buffer, nb: Buffer, row: int) -> bool {
    &&& b.same_but(&nb, b.top() + row)
    &&& nb.row(row).cells@ == b.row(row).cells@
    &&& nb.row(row).wrapped
}

/// From `b0`, the buffer `b2` once a character did not fit at the end of
/// row `row`: the row marked as continuing on the next, and the region
/// `top..=bottom` scrolled up by one in `pen` when the row is its bottom;
/// at the last row below the region, nothing changes.
pub open spec fn wrap_moved(b0: Buffer, b2: Buffer, row: int, top: int, bottom: int, pen: Pen) -> bool {
    if row == bottom {
        exists|b1: Buffer| {
            &&& #[trigger] row_wrapped(b0, b1, row)
            &&& b2.cols == b1.cols
            &&& b2.rows == b1.rows
            &&& b2.scrollback_limit == b1.scrollback_limit
            &&& b2.trim_needed
            &&& crate::buffer::scrolled_up(b1.lines@, b2.lines@, b1.top(), b1.rows as int, b1.cols as nat,
                top, bottom + 1, 1, pen)
        }
    } else if row < b0.rows - 1 {
        row_wrapped(b0, b2, row)
    } else {
        b2 == b0
    }
}

/// The column of the character at column `col` of `cells`: the head of a
/// wide one when `col` holds its tail.
pub open spec fn rep_col(cells: Seq<crate::cell::Cell>, col: int) -> int
    decreases col,
{
    if col > 0 && cells[col].occupancy == Occupancy::WideTail { rep_col(cells, col - 1) } else { col }
}

/// The cells `s` with a space printed in `pen` at each of the `k` columns
/// from `col`.
pub open spec fn spaces_printed(s: Seq<crate::cell::Cell>, col: int, k: nat, pen: Pen) -> Seq<crate::cell::Cell>
    decreases k,
{
    if k == 0 {
        s
    } else {
        crate::line::spec_print(spaces_printed(s, col, (k - 1) as nat, pen), col + k - 1, crate::line::is_wide(' '), ' ', pen).0
    }
}

/// `b` holds `rows` blank rows of `cols` columns in `pen`, with the
/// scrollback limits for `limit` and nothing to trim.
pub open spec fn blank_buffer(b: Buffer, cols: nat, rows: nat, limit: Option<usize>, pen: Pen) -> bool {
    &&& b.cols == cols
    &&& b.rows == rows
    &&& b.lines@.len() == rows
    &&& forall|i: int| 0 <= i < rows ==> #[trigger] crate::buffer::is_blank_line(b.lines@[i], cols, pen)
    &&& b.scrollback_limit == buffer_limit(limit)
    &&& !b.trim_needed
}

impl Terminal {
    /// The invariant that every function keeps.
    pub open spec fn wf(&self) -> bool {
        &&& self.wf_parts()
        &&& buffer_ok(self.buffer)
    }

    /// The invariant, but for the last line of the buffer, which may
    /// continue on a next one.
    pub open spec fn wf_but_last(&self) -> bool {
        &&& self.wf_parts()
        &&& self.buffer.wf()
        &&& (!self.buffer.trim_needed ==> within_limit(self.buffer))
    }

    /// The parts of the invariant that do not concern the active buffer.
    pub open spec fn wf_parts(&self) -> bool {
        &&& self.cols >= 2
        &&& self.rows >= 1
        &&& self.buffer.cols == self.cols
        &&& self.buffer.rows == self.rows
        &&& buffer_ok(self.other_buffer)
        &&& limit_ok(self.scrollback_limit)
        &&& self.cursor.row < self.rows
        &&& self.cursor.col <= self.cols
        &&& self.top_margin <= self.bottom_margin < self.rows
        &&& self.active_charset < 2
        &&& self.tabs.wf()
        &&& stops_below(self.tabs@, self.cols as int)
        &&& self.dirty_lines@.len() == self.rows
        &&& self.saved_ctx.cursor_col < self.cols
        &&& self.saved_ctx.cursor_row < self.rows
        &&& self.alternate_saved_ctx.cursor_col < self.other_buffer.cols
        &&& self.alternate_saved_ctx.cursor_row < self.other_buffer.rows
        &&& !self.xtwinops
        &&& self.spec_primary().scrollback_limit == buffer_limit(self.scrollback_limit)
        &&& self.spec_alternate().scrollback_limit == buffer_limit(Some(0))
    }

    /// What `reflow` needs: the invariant, but for the size of the active
    /// buffer, the place of the cursor, the changed rows and the saved
    /// cursor, which it brings to the terminal's size.
    pub open spec fn reflow_ready(&self) -> bool {
        &&& self.cols >= 2
        &&& self.rows >= 1
        &&& buffer_ok(self.buffer)
        &&& buffer_ok(self.other_buffer)
        &&& limit_ok(self.scrollback_limit)
        &&& (self.cursor.row < self.buffer.rows || self.cursor.row < self.rows)
        &&& (self.buffer.cols == self.cols ==> self.cursor.col <= self.cols)
        &&& self.top_margin <= self.bottom_margin < self.rows
        &&& self.active_charset < 2
        &&& self.tabs.wf()
        &&& stops_below(self.tabs@, self.cols as int)
        &&& self.alternate_saved_ctx.cursor_col < self.other_buffer.cols
        &&& self.alternate_saved_ctx.cursor_row < self.other_buffer.rows
        &&& !self.xtwinops
        &&& self.spec_primary().scrollback_limit == buffer_limit(self.scrollback_limit)
        &&& self.spec_alternate().scrollback_limit == buffer_limit(Some(0))
    }

    /// The buffer that holds the primary screen, active or not.
    pub open spec fn spec_primary(&self) -> Buffer {
        if self.active_buffer_type == BufferType::Primary { self.buffer } else { self.other_buffer }
    }

    /// The buffer that holds the alternate screen, active or not.
    pub open spec fn spec_alternate(&self) -> Buffer {
        if self.active_buffer_type == BufferType::Alternate { self.buffer } else { self.other_buffer }
    }

    /// The top row the cursor can reach: the top margin in origin mode.
    pub open spec fn spec_top(&self) -> int {
        if self.origin_mode { self.top_margin as int } else { 0 }
    }

    /// The bottom row the cursor can reach: the bottom margin in origin mode.
    pub open spec fn spec_bottom(&self) -> int {
        if self.origin_mode { self.bottom_margin as int } else { self.rows - 1 }
    }

    /// `self` with the cursor at (`col`, `row`).
    pub open spec fn moved(&self, col: int, row: int) -> Terminal {
        Terminal { cursor: Cursor { col: col as usize, row: row as usize, ..self.cursor }, ..*self }
    }

    /// Column `col`, but not beyond the last one.
    pub open spec fn clamp_col(&self, col: int) -> int {
        at_most(col, self.cols - 1)
    }

    /// Where moving to row `row` (counted from the top margin in origin
    /// mode) takes the cursor: the row is kept within the reachable rows and
    /// the column within the view.
    pub open spec fn row_target(&self, row: int) -> Terminal {
        self.moved(self.clamp_col(self.cursor.col as int),
            at_most(self.spec_top() + row, self.spec_bottom()))
    }

    /// Where moving `n` rows down takes the cursor: to the bottom margin at
    /// most, or to the last row when below it.
    pub open spec fn down_target(&self, n: int) -> Terminal {
        let row = self.cursor.row as int;
        let limit = if row > self.bottom_margin { self.rows - 1 } else { self.bottom_margin as int };
        self.moved(self.clamp_col(self.cursor.col as int), at_most(row + n, limit))
    }

    /// Where moving `n` rows up takes the cursor: to the top margin at
    /// most, or to the first row when above it.
    pub open spec fn up_target(&self, n: int) -> Terminal {
        let row = self.cursor.row as int;
        let limit = if row < self.top_margin { 0 } else { self.top_margin as int };
        self.moved(self.clamp_col(self.cursor.col as int), if row - n < limit { limit } else { row - n })
    }

    /// Where moving `n` columns right (`n` negative: left) takes the cursor.
    pub open spec fn rel_col_target(&self, n: int) -> Terminal {
        let c = self.cursor.col + n;
        self.moved(if c < 0 { 0 } else if c >= self.cols { self.cols - 1 } else { c }, self.cursor.row as int)
    }

    /// The column of the `n`-th tab stop after the cursor, or the last
    /// column when there are fewer.
    pub open spec fn next_tab(&self, n: int) -> int {
        let col = self.cursor.col as int;
        let k = choose|k: int| #[trigger] crate::tabs::split_at_pos(self.tabs@, k, col + 1);
        if col < usize::MAX && k + n - 1 < self.tabs@.len() { self.tabs@[k + n - 1] as int } else { self.cols - 1 }
    }

    /// The column of the `n`-th tab stop before the cursor, or the first
    /// column when there are fewer.
    pub open spec fn prev_tab(&self, n: int) -> int {
        let col = self.cursor.col as int;
        let k = choose|k: int| #[trigger] crate::tabs::split_at_pos(self.tabs@, k, col);
        if n <= k { self.tabs@[k - n] as int } else { 0 }
    }

    /// The state of a new terminal of `cols` x `rows` with the scrollback
    /// limit `limit`: blank screens in the default pen, the primary one
    /// active, the cursor at the top left and visible, the default pen,
    /// tab stops, modes and charsets, full-screen margins, default saved
    /// cursors, and every row changed.
    pub open spec fn is_initial(&self, cols: nat, rows: nat, limit: Option<usize>) -> bool {
        &&& self.cols == cols
        &&& self.rows == rows
        &&& blank_buffer(self.buffer, cols, rows, limit, Pen::spec_default())
        &&& blank_buffer(self.other_buffer, cols, rows, Some(0), Pen::spec_default())
        &&& self.active_buffer_type == BufferType::Primary
        &&& self.scrollback_limit == limit
        &&& self.cursor == (Cursor { col: 0, row: 0, visible: true })
        &&& self.pen == Pen::spec_default()
        &&& self.charsets@ == seq![Charset::Ascii, Charset::Ascii]
        &&& self.active_charset == 0
        &&& self.tabs@ == crate::tabs::default_stops(cols)
        &&& !self.insert_mode && !self.origin_mode && self.auto_wrap_mode && !self.new_line_mode
        &&& self.cursor_keys_mode == CursorKeysMode::Normal
        &&& self.top_margin == 0
        &&& self.bottom_margin == rows - 1
        &&& self.saved_ctx == SavedCtx::spec_default()
        &&& self.alternate_saved_ctx == SavedCtx::spec_default()
        &&& self.dirty_lines@ == Seq::new(rows, |i: int| true)
        &&& !self.xtwinops
    }

    /// A terminal of `cols` x `rows` in its initial state.
    pub fn new(size: (usize, usize), scrollback_limit: Option<usize>) -> (t: Self)
        requires
            size.0 >= 2,
            size.1 >= 1,
            limit_ok(scrollback_limit),
        ensures
            t.wf(),
            t.cols == size.0,
            t.rows == size.1,
            t.active_buffer_type == BufferType::Primary,
            t.cursor == (Cursor { col: 0, row: 0, visible: true }),
            t.pen == Pen::spec_default(),
            t.scrollback_limit == scrollback_limit,
            t.buffer.lines@.len() == size.1,
            forall|i: int| 0 <= i < size.1 ==> #[trigger] crate::buffer::is_blank_line(t.buffer.lines@[i], size.0 as nat, Pen::spec_default()),
            t.tabs@ == crate::tabs::default_stops(size.0 as nat),
            t.dirty_lines@ == Seq::new(size.1 as nat, |i: int| true),
            t.top_margin == 0,
            t.bottom_margin == size.1 - 1,
            !t.insert_mode && !t.origin_mode && t.auto_wrap_mode && !t.new_line_mode,
            t.cursor_keys_mode == CursorKeysMode::Normal,
            t.charsets@ == seq![Charset::Ascii, Charset::Ascii],
            t.active_charset == 0,
            t.saved_ctx == SavedCtx::spec_default(),
            t.alternate_saved_ctx == SavedCtx::spec_default(),
            t.is_initial(size.0 as nat, size.1 as nat, scrollback_limit),
    {
        let (cols, rows) = size;
        let primary_buffer = Buffer::new(cols, rows, scrollback_limit, None);
        let alternate_buffer = Buffer::new(cols, rows, Some(0), None);
        let dirty_lines = DirtyLines::new(rows);
        let t = Terminal {
            cols,
            rows,
            buffer: primary_buffer,
            other_buffer: alternate_buffer,
            active_buffer_type: BufferType::Primary,
            scrollback_limit,
            tabs: Tabs::new(cols),
            cursor: Cursor::default(),
            pen: Pen::new(),
            charsets: [Charset::Ascii, Charset::Ascii],
            active_charset: 0,
            insert_mode: false,
            origin_mode: false,
            auto_wrap_mode: true,
            new_line_mode: false,
            cursor_keys_mode: CursorKeysMode::Normal,
            top_margin: 0,
            bottom_margin: rows - 1,
            saved_ctx: SavedCtx::new(),
            alternate_saved_ctx: SavedCtx::new(),
            dirty_lines,
            xtwinops: false,
        };
        proof {
            lemma_new_buffer_ok(t.buffer);
            lemma_new_buffer_ok(t.other_buffer);
        }
        assert(t.charsets@ =~= seq![Charset::Ascii, Charset::Ascii]);
        t
    }

    /// The size of the view: (columns, rows).
    pub fn size(&self) -> (s: (usize, usize))
        ensures
            s == (self.cols, self.rows),
    {
        (self.cols, self.rows)
    }

    /// Which buffer is shown.
    pub fn active_buffer_type(&self) -> (b: BufferType)
        ensures
            b == self.active_buffer_type,
    {
        self.active_buffer_type
    }

    /// The cursor.
    pub fn cursor(&self) -> (c: Cursor)
        ensures
            c == self.cursor,
    {
        self.cursor
    }

    /// Whether the cursor keys send application sequences.
    pub fn cursor_keys_app_mode(&self) -> (b: bool)
        ensures
            b == (self.cursor_keys_mode == CursorKeysMode::Application),
    {
        match self.cursor_keys_mode {
            CursorKeysMode::Application => true,
            CursorKeysMode::Normal => false,
        }
    }

    fn actual_top_margin(&self) -> (m: usize)
        ensures
            m == self.spec_top(),
    {
        if self.origin_mode { self.top_margin } else { 0 }
    }

    fn actual_bottom_margin(&self) -> (m: usize)
        requires
            self.rows >= 1,
        ensures
            m == self.spec_bottom(),
    {
        if self.origin_mode { self.bottom_margin } else { self.rows - 1 }
    }

    fn move_cursor_to_col(&mut self, col: usize)
        requires
            old(self).wf(),
        ensures
            final(self).wf(),
            *final(self) == old(self).moved(old(self).clamp_col(col as int), old(self).cursor.row as int),
    {
        if col >= self.cols {
            self.cursor.col = self.cols - 1;
        } else {
            self.cursor.col = col;
        }
    }

    fn do_move_cursor_to_row(&mut self, row: usize)
        requires
            old(self).wf(),
            row < old(self).rows,
        ensures
            final(self).wf(),
            *final(self) == old(self).moved(old(self).clamp_col(old(self).cursor.col as int), row as int),
    {
        if self.cursor.col >= self.cols {
            self.cursor.col = self.cols - 1;
        }
        self.cursor.row = row;
    }

    fn move_cursor_to_row(&mut self, row: usize)
        requires
            old(self).wf(),
        ensures
            final(self).wf(),
            *final(self) == old(self).row_target(row as int),
    {
        let top = self.actual_top_margin();
        let bottom = self.actual_bottom_margin();
        let r = if row >= bottom - top { bottom } else { top + row };
        self.do_move_cursor_to_row(r);
    }

    fn move_cursor_right(&mut self, n: usize)
        requires
            old(self).wf(),
        ensures
            final(self).wf(),
            *final(self) == old(self).rel_col_target(n as int),
    {
        if n >= self.cols - self.cursor.col {
            self.cursor.col = self.cols - 1;
        } else {
            self.cursor.col = self.cursor.col + n;
        }
    }

    fn move_cursor_left(&mut self, n: usize)
        requires
            old(self).wf(),
            n >= 1,
        ensures
            final(self).wf(),
            *final(self) == old(self).rel_col_target(-(n as int)),
    {
        if n > self.cursor.col {
            self.cursor.col = 0;
        } else {
            self.cursor.col = self.cursor.col - n;
        }
    }

    fn move_cursor_home(&mut self)
        requires
            old(self).wf(),
        ensures
            final(self).wf(),
            *final(self) == old(self).moved(0, old(self).spec_top()),
    {
        self.cursor.col = 0;
        let top = self.actual_top_margin();
        self.do_move_cursor_to_row(top);
    }

    fn move_cursor_to_next_tab(&mut self, n: usize)
        requires
            old(self).wf(),
            n >= 1,
        ensures
            final(self).wf(),
            *final(self) == old(self).moved(old(self).clamp_col(old(self).next_tab(n as int)), old(self).cursor.row as int),
    {
        let next = if self.cursor.col < usize::MAX { self.tabs.after(self.cursor.col, n) } else { None };
        let col = match next {
            Some(c) => c,
            None => self.cols - 1,
        };
        proof {
            let k = choose|k: int| #[trigger] crate::tabs::split_at_pos(self.tabs@, k, self.cursor.col + 1);
            if self.cursor.col < usize::MAX {
                crate::tabs::lemma_split_unique(self.tabs@, self.cursor.col + 1);
            }
        }
        self.move_cursor_to_col(col);
    }

    fn move_cursor_to_prev_tab(&mut self, n: usize)
        requires
            old(self).wf(),
            n >= 1,
        ensures
            final(self).wf(),
            *final(self) == old(self).moved(old(self).clamp_col(old(self).prev_tab(n as int)), old(self).cursor.row as int),
    {
        let prev = self.tabs.before(self.cursor.col, n);
        let col = match prev {
            Some(c) => c,
            None => 0,
        };
        proof { crate::tabs::lemma_split_unique(self.tabs@, self.cursor.col as int); }
        self.move_cursor_to_col(col);
    }

    fn cursor_down(&mut self, n: usize)
        requires
            old(self).wf(),
        ensures
            final(self).wf(),
            *final(self) == old(self).down_target(n as int),
    {
        let limit = if self.cursor.row > self.bottom_margin { self.rows - 1 } else { self.bottom_margin };
        let new_y = if n >= limit - self.cursor.row { limit } else { self.cursor.row + n };
        self.do_move_cursor_to_row(new_y);
    }

    fn cursor_up(&mut self, n: usize)
        requires
            old(self).wf(),
        ensures
            final(self).wf(),
            *final(self) == old(self).up_target(n as int),
    {
        let limit = if self.cursor.row < self.top_margin { 0 } else { self.top_margin };
        let new_y = if n >= self.cursor.row - limit { limit } else { self.cursor.row - n };
        self.do_move_cursor_to_row(new_y);
    }

    fn save_cursor(&mut self)
        requires
            old(self).wf(),
        ensures
            final(self).wf(),
            *final(self) == (Terminal {
                saved_ctx: SavedCtx {
                    cursor_col: old(self).clamp_col(old(self).cursor.col as int) as usize,
                    cursor_row: old(self).cursor.row,
                    pen: old(self).pen,
                    origin_mode: old(self).origin_mode,
                    auto_wrap_mode: old(self).auto_wrap_mode,
                },
                ..*old(self)
            }),
    {
        let col = if self.cursor.col < self.cols { self.cursor.col } else { self.cols - 1 };
        self.saved_ctx = SavedCtx {
            cursor_col: col,
            cursor_row: self.cursor.row,
            pen: self.pen,
            origin_mode: self.origin_mode,
            auto_wrap_mode: self.auto_wrap_mode,
        };
    }

    fn restore_cursor(&mut self)
        ensures
            *final(self) == (Terminal {
                cursor: Cursor {
                    col: old(self).saved_ctx.cursor_col,
                    row: old(self).saved_ctx.cursor_row,
                    ..old(self).cursor
                },
                pen: old(self).saved_ctx.pen,
                origin_mode: old(self).saved_ctx.origin_mode,
                auto_wrap_mode: old(self).saved_ctx.auto_wrap_mode,
                ..*old(self)
            }),
    {
        self.cursor.col = self.saved_ctx.cursor_col;
        self.cursor.row = self.saved_ctx.cursor_row;
        self.pen = self.saved_ctx.pen;
        self.origin_mode = self.saved_ctx.origin_mode;
        self.auto_wrap_mode = self.saved_ctx.auto_wrap_mode;
    }

    fn set_tab(&mut self)
        requires
            old(self).wf(),
        ensures
            final(self).wf(),
            *final(self) == (Terminal { tabs: final(self).tabs, ..*old(self) }),
            final(self).tabs@.to_set() == if 0 < old(self).cursor.col < old(self).cols {
                old(self).tabs@.to_set().insert(old(self).cursor.col)
            } else {
                old(self).tabs@.to_set()
            },
    {
        if 0 < self.cursor.col && self.cursor.col < self.cols {
            self.tabs.set(self.cursor.col);
            proof { lemma_stops_below(old(self).tabs@, self.tabs@, self.cols as int, self.cursor.col as int); }
        }
    }

    fn clear_tab(&mut self)
        requires
            old(self).wf(),
        ensures
            final(self).wf(),
            *final(self) == (Terminal { tabs: final(self).tabs, ..*old(self) }),
            final(self).tabs@.to_set() == old(self).tabs@.to_set().remove(old(self).cursor.col),
    {
        self.tabs.unset(self.cursor.col);
        proof { lemma_stops_below(old(self).tabs@, self.tabs@, self.cols as int, 0); }
    }

    fn clear_all_tabs(&mut self)
        requires
            old(self).wf(),
        ensures
            final(self).wf(),
            *final(self) == (Terminal { tabs: final(self).tabs, ..*old(self) }),
            final(self).tabs@ == Seq::<usize>::empty(),
    {
        self.tabs.clear();
    }

    fn bs(&mut self)
        requires
            old(self).wf(),
        ensures
            final(self).wf(),
            *final(self) == old(self).rel_col_target(if old(self).cursor.col == old(self).cols { -2 } else { -1 }),
    {
        if self.cursor.col == self.cols {
            self.move_cursor_left(2);
        } else {
            self.move_cursor_left(1);
        }
    }

    fn cr(&mut self)
        requires
            old(self).wf(),
        ensures
            final(self).wf(),
            *final(self) == old(self).moved(0, old(self).cursor.row as int),
    {
        self.cursor.col = 0;
    }

    fn cha(&mut self, n: u16)
        requires
            old(self).wf(),
        ensures
            final(self).wf(),
            *final(self) == old(self).moved(old(self).clamp_col(param_or(n, 1) - 1), old(self).cursor.row as int),
    {
        self.move_cursor_to_col(as_usize(n, 1) - 1);
    }

    fn cup(&mut self, row: u16, col: u16)
        requires
            old(self).wf(),
        ensures
            final(self).wf(),
            *final(self) == old(self).moved(old(self).clamp_col(param_or(col, 1) - 1), old(self).cursor.row as int)
                .row_target(param_or(row, 1) - 1),
    {
        self.move_cursor_to_col(as_usize(col, 1) - 1);
        self.move_cursor_to_row(as_usize(row, 1) - 1);
    }

    fn cuu(&mut self, n: u16)
        requires
            old(self).wf(),
        ensures
            final(self).wf(),
            *final(self) == old(self).up_target(param_or(n, 1) as int),
    {
        self.cursor_up(as_usize(n, 1));
    }

    fn cud(&mut self, n: u16)
        requires
            old(self).wf(),
        ensures
            final(self).wf(),
            *final(self) == old(self).down_target(param_or(n, 1) as int),
    {
        self.cursor_down(as_usize(n, 1));
    }

    fn cuf(&mut self, n: u16)
        requires
            old(self).wf(),
        ensures
            final(self).wf(),
            *final(self) == old(self).rel_col_target(param_or(n, 1) as int),
    {
        self.move_cursor_right(as_usize(n, 1));
    }

    fn cub(&mut self, n: u16)
        requires
            old(self).wf(),
        ensures
            final(self).wf(),
            *final(self) == old(self).rel_col_target(
                -(param_or(n, 1) + if old(self).cursor.col == old(self).cols { 1int } else { 0int })),
    {
        let mut k = as_usize(n, 1);
        if self.cursor.col == self.cols {
            k = k + 1;
        }
        self.move_cursor_left(k);
    }

    fn cnl(&mut self, n: u16)
        requires
            old(self).wf(),
        ensures
            final(self).wf(),
            *final(self) == ({
                let t = old(self).down_target(param_or(n, 1) as int);
                t.moved(0, t.cursor.row as int)
            }),
    {
        self.cursor_down(as_usize(n, 1));
        self.cursor.col = 0;
    }

    fn cpl(&mut self, n: u16)
        requires
            old(self).wf(),
        ensures
            final(self).wf(),
            *final(self) == ({
                let t = old(self).up_target(param_or(n, 1) as int);
                t.moved(0, t.cursor.row as int)
            }),
    {
        self.cursor_up(as_usize(n, 1));
        self.cursor.col = 0;
    }

    fn vpa(&mut self, n: u16)
        requires
            old(self).wf(),
        ensures
            final(self).wf(),
            *final(self) == old(self).row_target(param_or(n, 1) - 1),
    {
        self.move_cursor_to_row(as_usize(n, 1) - 1);
    }

    fn sm(&mut self, modes: &Vec<AnsiMode>)
        requires
            old(self).wf(),
        ensures
            final(self).wf(),
            *final(self) == (Terminal {
                insert_mode: old(self).insert_mode || modes@.contains(AnsiMode::Insert),
                new_line_mode: old(self).new_line_mode || modes@.contains(AnsiMode::NewLine),
                ..*old(self)
            }),
    {
        let mut i: usize = 0;
        while i < modes.len()
            invariant
                i <= modes@.len(),
                *self == (Terminal {
                    insert_mode: old(self).insert_mode || modes@.take(i as int).contains(AnsiMode::Insert),
                    new_line_mode: old(self).new_line_mode || modes@.take(i as int).contains(AnsiMode::NewLine),
                    ..*old(self)
                }),
            decreases modes@.len() - i,
        {
            proof { lemma_take_contains(modes@, i as int); }
            match modes[i] {
                AnsiMode::Insert => { self.insert_mode = true; },
                AnsiMode::NewLine => { self.new_line_mode = true; },
            }
            i += 1;
        }
        assert(modes@.take(i as int) =~= modes@);
    }

    fn rm(&mut self, modes: &Vec<AnsiMode>)
        requires
            old(self).wf(),
        ensures
            final(self).wf(),
            *final(self) == (Terminal {
                insert_mode: old(self).insert_mode && !modes@.contains(AnsiMode::Insert),
                new_line_mode: old(self).new_line_mode && !modes@.contains(AnsiMode::NewLine),
                ..*old(self)
            }),
    {
        let mut i: usize = 0;
        while i < modes.len()
            invariant
                i <= modes@.len(),
                *self == (Terminal {
                    insert_mode: old(self).insert_mode && !modes@.take(i as int).contains(AnsiMode::Insert),
                    new_line_mode: old(self).new_line_mode && !modes@.take(i as int).contains(AnsiMode::NewLine),
                    ..*old(self)
                }),
            decreases modes@.len() - i,
        {
            proof { lemma_take_contains(modes@, i as int); }
            match modes[i] {
                AnsiMode::Insert => { self.insert_mode = false; },
                AnsiMode::NewLine => { self.new_line_mode = false; },
            }
            i += 1;
        }
        assert(modes@.take(i as int) =~= modes@);
    }

    fn sgr(&mut self, ops: &SgrOps)
        requires
            old(self).wf(),
        ensures
            final(self).wf(),
            *final(self) == (Terminal { pen: sgr_apply_all(old(self).pen, ops@), ..*old(self) }),
    {
        let ops = ops.as_slice();
        let mut i: usize = 0;
        while i < ops.len()
            invariant
                i <= ops@.len(),
                *self == (Terminal { pen: sgr_apply_all(old(self).pen, ops@.take(i as int)), ..*old(self) }),
            decreases ops@.len() - i,
        {
            assert(ops@.take(i + 1).drop_last() =~= ops@.take(i as int));
            match ops[i] {
                SgrOp::Reset => { self.pen = Pen::new(); },
                SgrOp::SetBoldIntensity => { self.pen.intensity = Intensity::Bold; },
                SgrOp::SetFaintIntensity => { self.pen.intensity = Intensity::Faint; },
                SgrOp::SetItalic => { self.pen.set_italic(); },
                SgrOp::SetUnderline => { self.pen.set_underline(); },
                SgrOp::SetBlink => { self.pen.set_blink(); },
                SgrOp::SetInverse => { self.pen.set_inverse(); },
                SgrOp::SetStrikethrough => { self.pen.set_strikethrough(); },
                SgrOp::ResetIntensity => { self.pen.intensity = Intensity::Normal; },
                SgrOp::ResetItalic => { self.pen.unset_italic(); },
                SgrOp::ResetUnderline => { self.pen.unset_underline(); },
                SgrOp::ResetBlink => { self.pen.unset_blink(); },
                SgrOp::ResetInverse => { self.pen.unset_inverse(); },
                SgrOp::ResetStrikethrough => { self.pen.unset_strikethrough(); },
                SgrOp::SetForegroundColor(c) => { self.pen.foreground = Some(c); },
                SgrOp::ResetForegroundColor => { self.pen.foreground = None; },
                SgrOp::SetBackgroundColor(c) => { self.pen.background = Some(c); },
                SgrOp::ResetBackgroundColor => { self.pen.background = None; },
            }
            i += 1;
        }
        assert(ops@.take(i as int) =~= ops@);
    }

    fn decstbm(&mut self, top: u16, bottom: u16)
        requires
            old(self).wf(),
        ensures
            final(self).wf(),
            *final(self) == ({
                let t = param_or(top, 1) - 1;
                let b = param_or(bottom, old(self).rows) - 1;
                let m = if t < b && b < old(self).rows {
                    Terminal { top_margin: t as usize, bottom_margin: b as usize, ..*old(self) }
                } else {
                    *old(self)
                };
                m.moved(0, m.spec_top())
            }),
    {
        let top = as_usize(top, 1) - 1;
        let bottom = as_usize(bottom, self.rows) - 1;
        if top < bottom && bottom < self.rows {
            self.top_margin = top;
            self.bottom_margin = bottom;
        }
        self.move_cursor_home();
    }

    fn scroll_up_in_region(&mut self, n: usize)
        requires
            old(self).wf() || (old(self).wf_but_last() && old(self).bottom_margin == old(self).rows - 1 && n >= 1),
        ensures
            final(self).wf(),
            *final(self) == (Terminal { buffer: final(self).buffer, dirty_lines: final(self).dirty_lines, ..*old(self) }),
            final(self).buffer.cols == old(self).buffer.cols,
            final(self).buffer.rows == old(self).buffer.rows,
            final(self).buffer.scrollback_limit == old(self).buffer.scrollback_limit,
            final(self).buffer.trim_needed,
            crate::buffer::scrolled_up(old(self).buffer.lines@, final(self).buffer.lines@, old(self).buffer.top(),
                old(self).rows as int, old(self).cols as nat, old(self).top_margin as int, old(self).bottom_margin + 1,
                min(n as int, old(self).bottom_margin + 1 - old(self).top_margin), old(self).pen),
            marked(old(self).dirty_lines@, final(self).dirty_lines@, old(self).top_margin as int, old(self).bottom_margin + 1),
    {
        let start = self.top_margin;
        let end = self.bottom_margin + 1;
        self.buffer.scroll_up(start..end, n, &self.pen);
        self.dirty_lines.extend(start..end);
    }

    fn scroll_down_in_region(&mut self, n: usize)
        requires
            old(self).wf(),
        ensures
            final(self).wf(),
            *final(self) == (Terminal { buffer: final(self).buffer, dirty_lines: final(self).dirty_lines, ..*old(self) }),
            final(self).buffer.cols == old(self).buffer.cols,
            final(self).buffer.rows == old(self).buffer.rows,
            final(self).buffer.scrollback_limit == old(self).buffer.scrollback_limit,
            final(self).buffer.trim_needed == old(self).buffer.trim_needed,
            crate::buffer::scrolled_down(old(self).buffer.lines@, final(self).buffer.lines@, old(self).buffer.top(),
                old(self).cols as nat, old(self).top_margin as int, old(self).bottom_margin + 1,
                min(n as int, old(self).bottom_margin + 1 - old(self).top_margin), old(self).pen),
            marked(old(self).dirty_lines@, final(self).dirty_lines@, old(self).top_margin as int, old(self).bottom_margin + 1),
    {
        let start = self.top_margin;
        let end = self.bottom_margin + 1;
        self.buffer.scroll_down(start..end, n, &self.pen);
        self.dirty_lines.extend(start..end);
    }

    /// The character `ch` maps to in the active charset.
    pub open spec fn mapped(&self, ch: char) -> char {
        crate::charset::spec_translate(self.charsets@[self.active_charset as int], ch)
    }

    /// The cells of the cursor row once the cursor column has made room for
    /// a character (in insert mode).
    pub open spec fn print_base(&self) -> Seq<crate::cell::Cell> {
        let cells = self.buffer.row(self.cursor.row as int).cells@;
        if self.insert_mode {
            crate::line::spec_shift_right(cells, self.cursor.col as int, 1, self.pen)
        } else {
            cells
        }
    }

    /// Printing `ch` at the cursor, when it fits there: the new cells of the
    /// cursor row and the columns the cursor advances.
    pub open spec fn print_here(&self, ch: char) -> (Seq<crate::cell::Cell>, Option<usize>) {
        let c = self.mapped(ch);
        crate::line::spec_print(self.print_base(), self.cursor.col as int, crate::line::is_wide(c), c, self.pen)
    }

    /// The row the cursor goes to when a character does not fit at the
    /// end of its row in auto-wrap mode.
    pub open spec fn wrap_row(&self) -> int {
        let row = self.cursor.row as int;
        if row == self.bottom_margin || row == self.rows - 1 { row } else { row + 1 }
    }

    /// Printing `ch` does not fit at the cursor and, in auto-wrap mode at
    /// the bottom margin, scrolls the region up.
    pub open spec fn print_scrolls(&self, ch: char) -> bool {
        &&& !(self.cursor.col < self.cols && self.print_here(ch).1 is Some)
        &&& self.auto_wrap_mode
        &&& self.cursor.row == self.bottom_margin
    }

    /// Printing `ch` (through the active charset) at the cursor in the
    /// pen, as `new`: where it fits, it is drawn there (room made first in
    /// insert mode) and the cursor moves past it (staying in the last
    /// column without auto-wrap). Where it does not, in auto-wrap mode it
    /// is drawn at the start of the next row (see `wrap_moved`), and else
    /// over the end of the cursor row, the cursor in the last column. The
    /// rows marked changed are those marked before, the cursor's new row,
    /// and the scroll region when it scrolled.
    pub open spec fn printed(&self, new: &Terminal, ch: char) -> bool {
        let col = self.cursor.col as int;
        let row = self.cursor.row as int;
        let c = self.mapped(ch);
        let wide = crate::line::is_wide(c);
        let (cells, r) = self.print_here(ch);
        &&& *new == (Terminal { buffer: new.buffer, cursor: new.cursor, dirty_lines: new.dirty_lines, ..*self })
        &&& new.cursor.visible == self.cursor.visible
        &&& new.dirty_lines@.len() == self.dirty_lines@.len()
        &&& forall|i: int| 0 <= i < self.dirty_lines@.len() ==> #[trigger] new.dirty_lines@[i]
            == (self.dirty_lines@[i] || i == new.cursor.row
                || (self.print_scrolls(ch) && self.top_margin <= i <= self.bottom_margin))
        &&& if col < self.cols && r is Some {
            let n = r->0;
            &&& row_replaced(self.buffer, new.buffer, row, cells)
            &&& new.cursor.row == row
            &&& new.cursor.col == if col + n == self.cols && !self.auto_wrap_mode { self.cols - 1 } else { col + n }
        } else {
            exists|b0: Buffer| {
                &&& #[trigger] b0.wf()
                &&& (if col < self.cols { row_replaced(self.buffer, b0, row, cells) } else { b0 == self.buffer })
                &&& if self.auto_wrap_mode {
                    exists|b2: Buffer| {
                        let nr = self.wrap_row();
                        let p = crate::line::spec_print(b2.row(nr).cells@, 0, wide, c, self.pen);
                        &&& #[trigger] wrap_moved(b0, b2, row, self.top_margin as int, self.bottom_margin as int, self.pen)
                        &&& row_replaced(b2, new.buffer, nr, p.0)
                        &&& new.cursor.row == nr
                        &&& p.1 matches Some(n) && new.cursor.col == n
                    }
                } else {
                    let p = crate::line::spec_print(b0.row(row).cells@, col - 1, wide, c, self.pen);
                    &&& row_replaced(b0, new.buffer, row,
                        if p.1 is Some { p.0 } else { crate::line::spec_print(p.0, col - 2, wide, c, self.pen).0 })
                    &&& new.cursor.row == row
                    &&& new.cursor.col == self.cols - 1
                }
            }
        }
    }

    /// Prints `ch` (through the active charset) at the cursor in the pen,
    /// and moves the cursor past it. A character that does not fit goes to
    /// the start of the next row (scrolling at the bottom margin) in
    /// auto-wrap mode, and else overwrites the end of the row.
    #[verifier::spinoff_prover]
    #[verifier::rlimit(40)]
    fn print(&mut self, ch: char)
        requires
            old(self).wf(),
        ensures
            final(self).wf(),
            old(self).printed(final(self), ch),
    {
        let c = self.charsets[self.active_charset].translate(ch);
        let n = if self.cursor.col < self.cols { self.print_at_cursor(c) } else { None };
        let ghost b0 = self.buffer;
        proof {
            assert(b0.wf());
        }
        match n {
            Some(n) => {
                self.cursor.col = self.cursor.col + n;
                if self.cursor.col == self.cols && !self.auto_wrap_mode {
                    self.cursor.col = self.cols - 1;
                }
            },
            None => {
                let ghost mid = *self;
                proof {
                    assert(mid.wrap_row() == old(self).wrap_row());
                    if old(self).cursor.col < old(self).cols {
                        assert(row_replaced(old(self).buffer, b0, old(self).cursor.row as int, old(self).print_here(ch).0));
                    }
                }
                if self.auto_wrap_mode {
                    self.print_wrapped(c);
                } else {
                    self.print_at_end(c);
                }
            },
        }
        self.dirty_lines.add(self.cursor.row);
    }

    /// Prints `ch` at the cursor (making room first in insert mode) without
    /// moving the cursor, and returns the columns it advances past it.
    fn print_at_cursor(&mut self, ch: char) -> (r: Option<usize>)
        requires
            old(self).wf(),
            old(self).cursor.col < old(self).cols,
        ensures
            final(self).wf(),
            *final(self) == (Terminal { buffer: final(self).buffer, ..*old(self) }),
            ({
                let cells = old(self).print_base();
                let col = old(self).cursor.col as int;
                let row = old(self).cursor.row as int;
                &&& (final(self).buffer.row(row).cells@, r)
                    == crate::line::spec_print(cells, col, crate::line::is_wide(ch), ch, old(self).pen)
                &&& final(self).buffer.row(row).wrapped == old(self).buffer.row(row).wrapped
                &&& old(self).buffer.same_but(&final(self).buffer, old(self).buffer.top() + row)
                &&& r matches Some(n) ==> col + n <= old(self).cols
                &&& r is None ==> col >= 1
            }),
    {
        let col = self.cursor.col;
        let row = self.cursor.row;
        let ghost b0 = self.buffer;
        if self.insert_mode {
            self.buffer.shift_right((col, row), 1, self.pen);
        }
        let ghost b1 = self.buffer;
        let r = self.buffer.print((col, row), ch, self.pen);
        proof {
            lemma_same_but_ok(b0, self.buffer, b0.top() + row);
            assert(crate::buffer::line_ok(b1.lines@[b1.top() + row], b1.cols as nat));
            crate::line::lemma_print_fits(b1.row(row as int).cells@, col as int, crate::line::is_wide(ch), ch, self.pen);
        }
        r
    }

    /// Prints `ch` at the start of the next row (scrolling at the bottom
    /// margin), the current row continuing on it, and moves the cursor past it.
    fn print_wrapped(&mut self, ch: char)
        requires
            old(self).wf(),
        ensures
            final(self).wf(),
            *final(self) == (Terminal { buffer: final(self).buffer, cursor: final(self).cursor,
                dirty_lines: final(self).dirty_lines, ..*old(self) }),
            final(self).cursor.visible == old(self).cursor.visible,
            final(self).dirty_lines@.len() == old(self).dirty_lines@.len(),
            forall|i: int| 0 <= i < old(self).dirty_lines@.len() ==> #[trigger] final(self).dirty_lines@[i]
                == (old(self).dirty_lines@[i] || (old(self).cursor.row == old(self).bottom_margin
                    && old(self).top_margin <= i <= old(self).bottom_margin)),
            exists|b2: Buffer| {
                let nr = old(self).wrap_row();
                let p = crate::line::spec_print(b2.row(nr).cells@, 0, crate::line::is_wide(ch), ch, old(self).pen);
                &&& #[trigger] wrap_moved(old(self).buffer, b2, old(self).cursor.row as int, old(self).top_margin as int,
                    old(self).bottom_margin as int, old(self).pen)
                &&& row_replaced(b2, final(self).buffer, nr, p.0)
                &&& final(self).cursor.row == nr
                &&& p.1 matches Some(n) && final(self).cursor.col == n
            },
    {
        let row = self.cursor.row;
        let ghost b0 = self.buffer;
        if row == self.bottom_margin {
            let ghost b1 = self.buffer;
            self.buffer.wrap(row);
            proof { lemma_wrap_ok(b1, self.buffer, row as int); }
            let ghost bw = self.buffer;
            self.scroll_up_in_region(1);
            proof {
                assert(row_wrapped(b0, bw, row as int));
            }
        } else if row < self.rows - 1 {
            let ghost b1 = self.buffer;
            self.buffer.wrap(row);
            proof { lemma_wrap_ok(b1, self.buffer, row as int); }
            self.cursor.row = row + 1;
        }
        let ghost b2 = self.buffer;
        proof {
            assert(wrap_moved(b0, b2, row as int, old(self).top_margin as int, old(self).bottom_margin as int, old(self).pen));
            assert(crate::buffer::line_ok(b2.lines@[b2.top() + self.cursor.row], b2.cols as nat));
            crate::line::lemma_print_fits(b2.row(self.cursor.row as int).cells@, 0, crate::line::is_wide(ch), ch, self.pen);
        }
        let r = self.buffer.print((0, self.cursor.row), ch, self.pen);
        proof { lemma_same_but_ok(b2, self.buffer, b2.top() + self.cursor.row); }
        self.cursor.col = r.unwrap();
        proof {
            assert(row_replaced(b2, self.buffer, old(self).wrap_row(),
                crate::line::spec_print(b2.row(old(self).wrap_row()).cells@, 0, crate::line::is_wide(ch), ch, old(self).pen).0));
        }
    }

    /// Prints `ch` over the end of the cursor row and leaves the cursor in
    /// the last column.
    fn print_at_end(&mut self, ch: char)
        requires
            old(self).wf(),
            old(self).cursor.col >= 1,
        ensures
            final(self).wf(),
            *final(self) == (Terminal { buffer: final(self).buffer, cursor: final(self).cursor, ..*old(self) }),
            final(self).cursor == (Cursor { col: (old(self).cols - 1) as usize, ..old(self).cursor }),
            ({
                let row = old(self).cursor.row as int;
                let col = old(self).cursor.col as int;
                let wide = crate::line::is_wide(ch);
                let p = crate::line::spec_print(old(self).buffer.row(row).cells@, col - 1, wide, ch, old(self).pen);
                row_replaced(old(self).buffer, final(self).buffer, row,
                    if p.1 is Some { p.0 } else { crate::line::spec_print(p.0, col - 2, wide, ch, old(self).pen).0 })
            }),
    {
        let col = if self.cursor.col < self.cols { self.cursor.col } else { self.cols };
        let row = self.cursor.row;
        let ghost b2 = self.buffer;
        proof {
            assert(crate::buffer::line_ok(b2.lines@[b2.top() + row], b2.cols as nat));
            crate::line::lemma_print_fits(b2.row(row as int).cells@, (col - 1) as int, crate::line::is_wide(ch), ch, self.pen);
        }
        let r = self.buffer.print((col - 1, row), ch, self.pen);
        proof { lemma_same_but_ok(b2, self.buffer, b2.top() + row); }
        if r.is_none() {
            let ghost b3 = self.buffer;
            self.buffer.print((col - 2, row), ch, self.pen);
            proof { lemma_same_but_ok(b3, self.buffer, b3.top() + row); }
        }
        self.cursor.col = self.cols - 1;
    }
    /// The state after moving the cursor a row down, scrolling the region
    /// up at the bottom margin.
    pub open spec fn down_with_scroll(&self, new: &Terminal) -> bool {
        let row = self.cursor.row as int;
        if row == self.bottom_margin {
            &&& *new == (Terminal { buffer: new.buffer, dirty_lines: new.dirty_lines, ..*self })
            &&& crate::buffer::scrolled_up(self.buffer.lines@, new.buffer.lines@, self.buffer.top(),
                self.rows as int, self.cols as nat, self.top_margin as int, self.bottom_margin + 1, 1, self.pen)
            &&& marked(self.dirty_lines@, new.dirty_lines@, self.top_margin as int, self.bottom_margin + 1)
        } else if row < self.rows - 1 {
            *new == self.moved(self.clamp_col(self.cursor.col as int), row + 1)
        } else {
            *new == *self
        }
    }

    fn move_cursor_down_with_scroll(&mut self)
        requires
            old(self).wf(),
        ensures
            final(self).wf(),
            old(self).down_with_scroll(final(self)),
    {
        if self.cursor.row == self.bottom_margin {
            self.scroll_up_in_region(1);
        } else if self.cursor.row < self.rows - 1 {
            self.do_move_cursor_to_row(self.cursor.row + 1);
        }
    }

    fn lf(&mut self)
        requires
            old(self).wf(),
        ensures
            final(self).cols == old(self).cols,
            final(self).rows == old(self).rows,
            final(self).wf(),
            exists|t: Terminal| #[trigger] old(self).down_with_scroll(&t)
                && *final(self) == if old(self).new_line_mode { t.moved(0, t.cursor.row as int) } else { t },
    {
        self.move_cursor_down_with_scroll();
        let ghost t = *self;
        if self.new_line_mode {
            self.cursor.col = 0;
        }
        assert(old(self).down_with_scroll(&t));
    }

    fn nel(&mut self)
        requires
            old(self).wf(),
        ensures
            final(self).cols == old(self).cols,
            final(self).rows == old(self).rows,
            final(self).wf(),
            exists|t: Terminal| #[trigger] old(self).down_with_scroll(&t) && *final(self) == t.moved(0, t.cursor.row as int),
    {
        self.move_cursor_down_with_scroll();
        let ghost t = *self;
        self.cursor.col = 0;
        assert(old(self).down_with_scroll(&t));
    }

    fn ri(&mut self)
        requires
            old(self).wf(),
        ensures
            final(self).wf(),
            ({
                let row = old(self).cursor.row as int;
                if row == old(self).top_margin {
                    &&& *final(self) == (Terminal { buffer: final(self).buffer, dirty_lines: final(self).dirty_lines, ..*old(self) })
                    &&& crate::buffer::scrolled_down(old(self).buffer.lines@, final(self).buffer.lines@, old(self).buffer.top(),
                        old(self).cols as nat, old(self).top_margin as int, old(self).bottom_margin + 1, 1, old(self).pen)
                    &&& marked(old(self).dirty_lines@, final(self).dirty_lines@, old(self).top_margin as int, old(self).bottom_margin + 1)
                } else if row > 0 {
                    *final(self) == old(self).row_target(row - 1)
                } else {
                    *final(self) == *old(self)
                }
            }),
    {
        if self.cursor.row == self.top_margin {
            self.scroll_down_in_region(1);
        } else if self.cursor.row > 0 {
            self.move_cursor_to_row(self.cursor.row - 1);
        }
    }

    fn su(&mut self, n: u16)
        requires
            old(self).wf(),
        ensures
            final(self).wf(),
            *final(self) == (Terminal { buffer: final(self).buffer, dirty_lines: final(self).dirty_lines, ..*old(self) }),
            crate::buffer::scrolled_up(old(self).buffer.lines@, final(self).buffer.lines@, old(self).buffer.top(),
                old(self).rows as int, old(self).cols as nat, old(self).top_margin as int, old(self).bottom_margin + 1,
                min(param_or(n, 1) as int, old(self).bottom_margin + 1 - old(self).top_margin), old(self).pen),
            marked(old(self).dirty_lines@, final(self).dirty_lines@, old(self).top_margin as int, old(self).bottom_margin + 1),
    {
        self.scroll_up_in_region(as_usize(n, 1));
    }

    fn sd(&mut self, n: u16)
        requires
            old(self).wf(),
        ensures
            final(self).wf(),
            *final(self) == (Terminal { buffer: final(self).buffer, dirty_lines: final(self).dirty_lines, ..*old(self) }),
            crate::buffer::scrolled_down(old(self).buffer.lines@, final(self).buffer.lines@, old(self).buffer.top(),
                old(self).cols as nat, old(self).top_margin as int, old(self).bottom_margin + 1,
                min(param_or(n, 1) as int, old(self).bottom_margin + 1 - old(self).top_margin), old(self).pen),
            marked(old(self).dirty_lines@, final(self).dirty_lines@, old(self).top_margin as int, old(self).bottom_margin + 1),
    {
        self.scroll_down_in_region(as_usize(n, 1));
    }

    /// The rows that inserting or deleting lines at the cursor moves: to the
    /// bottom margin, or to the last row when below it.
    pub open spec fn line_region_end(&self) -> int {
        if self.cursor.row <= self.bottom_margin { self.bottom_margin + 1 } else { self.rows as int }
    }

    fn il(&mut self, n: u16)
        requires
            old(self).wf(),
        ensures
            final(self).wf(),
            *final(self) == (Terminal { buffer: final(self).buffer, dirty_lines: final(self).dirty_lines, ..*old(self) }),
            crate::buffer::scrolled_down(old(self).buffer.lines@, final(self).buffer.lines@, old(self).buffer.top(),
                old(self).cols as nat, old(self).cursor.row as int, old(self).line_region_end(),
                min(param_or(n, 1) as int, old(self).line_region_end() - old(self).cursor.row), old(self).pen),
            marked(old(self).dirty_lines@, final(self).dirty_lines@, old(self).cursor.row as int, old(self).line_region_end()),
    {
        let start = self.cursor.row;
        let end = if self.cursor.row <= self.bottom_margin { self.bottom_margin + 1 } else { self.rows };
        self.buffer.scroll_down(start..end, as_usize(n, 1), &self.pen);
        self.dirty_lines.extend(start..end);
    }

    fn dl(&mut self, n: u16)
        requires
            old(self).wf(),
        ensures
            final(self).wf(),
            *final(self) == (Terminal { buffer: final(self).buffer, dirty_lines: final(self).dirty_lines, ..*old(self) }),
            crate::buffer::scrolled_up(old(self).buffer.lines@, final(self).buffer.lines@, old(self).buffer.top(),
                old(self).rows as int, old(self).cols as nat, old(self).cursor.row as int, old(self).line_region_end(),
                min(param_or(n, 1) as int, old(self).line_region_end() - old(self).cursor.row), old(self).pen),
            marked(old(self).dirty_lines@, final(self).dirty_lines@, old(self).cursor.row as int, old(self).line_region_end()),
    {
        let start = self.cursor.row;
        let end = if self.cursor.row <= self.bottom_margin { self.bottom_margin + 1 } else { self.rows };
        self.buffer.scroll_up(start..end, as_usize(n, 1), &self.pen);
        self.dirty_lines.extend(start..end);
    }

    /// Erases as `mode` says around the cursor, marking the rows `start..end` changed.
    fn erase(&mut self, mode: EraseMode, start: usize, end: usize)
        requires
            old(self).wf(),
            start <= end <= old(self).rows,
        ensures
            final(self).wf(),
            *final(self) == (Terminal { buffer: final(self).buffer, dirty_lines: final(self).dirty_lines, ..*old(self) }),
            old(self).buffer.erased(&final(self).buffer, old(self).cursor.col as int, old(self).cursor.row as int, mode, old(self).pen),
            marked(old(self).dirty_lines@, final(self).dirty_lines@, start as int, end as int),
    {
        self.buffer.erase((self.cursor.col, self.cursor.row), mode, &self.pen);
        self.dirty_lines.extend(start..end);
    }

    fn ed(&mut self, scope: EdScope)
        requires
            old(self).wf(),
        ensures
            final(self).wf(),
            *final(self) == (Terminal { buffer: final(self).buffer, dirty_lines: final(self).dirty_lines, ..*old(self) }),
            ({
                let (col, row) = (old(self).cursor.col as int, old(self).cursor.row as int);
                match scope {
                    EdScope::Below => old(self).buffer.erased(&final(self).buffer, col, row, EraseMode::FromCursorToEndOfView, old(self).pen)
                        && marked(old(self).dirty_lines@, final(self).dirty_lines@, row, old(self).rows as int),
                    EdScope::Above => old(self).buffer.erased(&final(self).buffer, col, row, EraseMode::FromStartOfViewToCursor, old(self).pen)
                        && marked(old(self).dirty_lines@, final(self).dirty_lines@, 0, row + 1),
                    EdScope::All => old(self).buffer.erased(&final(self).buffer, col, row, EraseMode::WholeView, old(self).pen)
                        && marked(old(self).dirty_lines@, final(self).dirty_lines@, 0, old(self).rows as int),
                    EdScope::SavedLines => *final(self) == *old(self),
                }
            }),
    {
        match scope {
            EdScope::Below => {
                let (row, rows) = (self.cursor.row, self.rows);
                self.erase(EraseMode::FromCursorToEndOfView, row, rows);
            },
            EdScope::Above => {
                let row = self.cursor.row;
                self.erase(EraseMode::FromStartOfViewToCursor, 0, row + 1);
            },
            EdScope::All => {
                let rows = self.rows;
                self.erase(EraseMode::WholeView, 0, rows);
            },
            EdScope::SavedLines => {},
        }
    }

    fn el(&mut self, scope: ElScope)
        requires
            old(self).wf(),
        ensures
            final(self).wf(),
            *final(self) == (Terminal { buffer: final(self).buffer, dirty_lines: final(self).dirty_lines, ..*old(self) }),
            ({
                let (col, row) = (old(self).cursor.col as int, old(self).cursor.row as int);
                let mode = match scope {
                    ElScope::ToRight => EraseMode::FromCursorToEndOfLine,
                    ElScope::ToLeft => EraseMode::FromStartOfLineToCursor,
                    ElScope::All => EraseMode::WholeLine,
                };
                &&& old(self).buffer.erased(&final(self).buffer, col, row, mode, old(self).pen)
                &&& marked(old(self).dirty_lines@, final(self).dirty_lines@, row, row + 1)
            }),
    {
        let row = self.cursor.row;
        let mode = match scope {
            ElScope::ToRight => EraseMode::FromCursorToEndOfLine,
            ElScope::ToLeft => EraseMode::FromStartOfLineToCursor,
            ElScope::All => EraseMode::WholeLine,
        };
        self.erase(mode, row, row + 1);
    }

    fn ech(&mut self, n: u16)
        requires
            old(self).wf(),
        ensures
            final(self).wf(),
            *final(self) == (Terminal { buffer: final(self).buffer, dirty_lines: final(self).dirty_lines, ..*old(self) }),
            old(self).buffer.erased(&final(self).buffer, old(self).cursor.col as int, old(self).cursor.row as int,
                EraseMode::NextChars(param_or(n, 1)), old(self).pen),
            marked(old(self).dirty_lines@, final(self).dirty_lines@, old(self).cursor.row as int, old(self).cursor.row + 1),
    {
        let row = self.cursor.row;
        self.erase(EraseMode::NextChars(as_usize(n, 1)), row, row + 1);
    }

    fn dch(&mut self, n: u16)
        requires
            old(self).wf(),
        ensures
            final(self).wf(),
            ({
                let t = old(self).moved(old(self).clamp_col(old(self).cursor.col as int), old(self).cursor.row as int);
                let (col, row) = (t.cursor.col as int, t.cursor.row as int);
                &&& *final(self) == (Terminal { buffer: final(self).buffer, dirty_lines: final(self).dirty_lines, ..t })
                &&& t.buffer.same_but(&final(self).buffer, t.buffer.top() + row)
                &&& final(self).buffer.row(row).cells@ == crate::line::spec_delete(t.buffer.row(row).cells@, col,
                    min(param_or(n, 1) as int, t.cols - col), t.pen)
                &&& !final(self).buffer.row(row).wrapped
                &&& marked(t.dirty_lines@, final(self).dirty_lines@, row, row + 1)
            }),
    {
        if self.cursor.col >= self.cols {
            let c = self.cols - 1;
            self.move_cursor_to_col(c);
        }
        let ghost b0 = self.buffer;
        self.buffer.delete((self.cursor.col, self.cursor.row), as_usize(n, 1), &self.pen);
        proof { lemma_same_but_ok(b0, self.buffer, b0.top() + self.cursor.row); }
        let row = self.cursor.row;
        self.dirty_lines.extend(row..row + 1);
    }

    fn ht(&mut self)
        requires
            old(self).wf(),
        ensures
            final(self).wf(),
            *final(self) == old(self).moved(old(self).clamp_col(old(self).next_tab(1)), old(self).cursor.row as int),
    {
        self.move_cursor_to_next_tab(1);
    }

    fn cht(&mut self, n: u16)
        requires
            old(self).wf(),
        ensures
            final(self).wf(),
            *final(self) == old(self).moved(old(self).clamp_col(old(self).next_tab(param_or(n, 1) as int)),
                old(self).cursor.row as int),
    {
        self.move_cursor_to_next_tab(as_usize(n, 1));
    }

    fn cbt(&mut self, n: u16)
        requires
            old(self).wf(),
        ensures
            final(self).wf(),
            *final(self) == old(self).moved(old(self).clamp_col(old(self).prev_tab(param_or(n, 1) as int)),
                old(self).cursor.row as int),
    {
        self.move_cursor_to_prev_tab(as_usize(n, 1));
    }

    fn vpr(&mut self, n: u16)
        requires
            old(self).wf(),
        ensures
            final(self).wf(),
            *final(self) == old(self).down_target(param_or(n, 1) as int),
    {
        self.cursor_down(as_usize(n, 1));
    }

    fn ctc(&mut self, op: CtcOp)
        requires
            old(self).wf(),
        ensures
            final(self).wf(),
            *final(self) == (Terminal { tabs: final(self).tabs, ..*old(self) }),
            final(self).tabs@.to_set() == match op {
                CtcOp::SetTab => if 0 < old(self).cursor.col < old(self).cols {
                    old(self).tabs@.to_set().insert(old(self).cursor.col)
                } else {
                    old(self).tabs@.to_set()
                },
                CtcOp::ClearCurrentColumn => old(self).tabs@.to_set().remove(old(self).cursor.col),
                CtcOp::ClearAll => Set::<usize>::empty(),
            },
    {
        match op {
            CtcOp::SetTab => { self.set_tab(); },
            CtcOp::ClearCurrentColumn => { self.clear_tab(); },
            CtcOp::ClearAll => {
                self.clear_all_tabs();
                assert(self.tabs@.to_set() =~= Set::<usize>::empty());
            },
        }
    }

    fn tbc(&mut self, scope: TbcScope)
        requires
            old(self).wf(),
        ensures
            final(self).wf(),
            *final(self) == (Terminal { tabs: final(self).tabs, ..*old(self) }),
            final(self).tabs@.to_set() == match scope {
                TbcScope::CurrentColumn => old(self).tabs@.to_set().remove(old(self).cursor.col),
                TbcScope::All => Set::<usize>::empty(),
            },
    {
        match scope {
            TbcScope::CurrentColumn => { self.clear_tab(); },
            TbcScope::All => {
                self.clear_all_tabs();
                assert(self.tabs@.to_set() =~= Set::<usize>::empty());
            },
        }
    }

    /// Inserts `n` blank characters at the cursor (at most up to the end of
    /// the row), shifting the rest of the row right.
    fn ich(&mut self, n: u16)
        requires
            old(self).wf(),
        ensures
            final(self).wf(),
            ({
                let t = old(self).moved(old(self).clamp_col(old(self).cursor.col as int), old(self).cursor.row as int);
                let (col, row) = (t.cursor.col as int, t.cursor.row as int);
                let k = min(param_or(n, 1) as int, t.cols - col);
                &&& *final(self) == (Terminal { buffer: final(self).buffer, dirty_lines: final(self).dirty_lines, ..t })
                &&& t.buffer.same_but(&final(self).buffer, t.buffer.top() + row)
                &&& final(self).buffer.row(row).cells@ == spaces_printed(
                    crate::line::spec_shift_right(t.buffer.row(row).cells@, col, k, t.pen), col, k as nat, t.pen)
                &&& forall|c: int| col <= c < col + k ==> #[trigger] final(self).buffer.row(row).cells@[c]
                    == crate::cell::Cell::spec_blank(t.pen)
                &&& final(self).buffer.row(row).wrapped == t.buffer.row(row).wrapped
                &&& marked(t.dirty_lines@, final(self).dirty_lines@, row, row + 1)
            }),
    {
        if self.cursor.col == self.cols {
            self.cursor.col = self.cols - 1;
        }
        let col = self.cursor.col;
        let row = self.cursor.row;
        let k = as_usize(n, 1);
        let k = if k < self.cols - col { k } else { self.cols - col };
        let ghost b0 = self.buffer;
        let ghost top = b0.top();
        self.buffer.shift_right((col, row), k, self.pen);
        proof { lemma_same_but_ok(b0, self.buffer, top + row); }
        let ghost shifted = self.buffer.row(row as int).cells@;
        let mut c = col;
        while c < col + k
            invariant
                self.wf(),
                col <= c <= col + k <= self.cols,
                row == self.cursor.row,
                self.buffer.top() == top,
                b0.same_but(&self.buffer, top + row),
                self.buffer.row(row as int).wrapped == b0.row(row as int).wrapped,
                *self == (Terminal { buffer: self.buffer, ..*old(self) }.moved(col as int, row as int)),
                forall|j: int| col <= j < c ==> #[trigger] self.buffer.row(row as int).cells@[j]
                    == crate::cell::Cell::spec_blank(self.pen),
                self.buffer.row(row as int).cells@ == spaces_printed(shifted, col as int, (c - col) as nat, self.pen),
            decreases col + k - c,
        {
            let ghost b1 = self.buffer;
            proof { assert(crate::buffer::line_ok(b1.lines@[top + row], b1.cols as nat)); }
            self.buffer.print((c, row), ' ', self.pen);
            proof {
                lemma_same_but_ok(b1, self.buffer, top + row);
                lemma_print_space(b1.row(row as int).cells@, c as int, self.pen, col as int);
            }
            c += 1;
        }
        self.dirty_lines.extend(row..row + 1);
    }

    /// Repeating the character before the cursor `n` times, as `new`: it
    /// (the whole of a wide one) is printed `n` times in a row; nothing
    /// happens at the first column.
    pub open spec fn repeated(&self, new: &Terminal, n: nat) -> bool {
        if self.cursor.col == 0 {
            *new == *self
        } else {
            let cells = self.buffer.row(self.cursor.row as int).cells@;
            let ch = cells[rep_col(cells, self.cursor.col - 1)].ch;
            exists|ts: Seq<Terminal>| {
                &&& ts.len() == n + 1
                &&& ts[0] == *self
                &&& #[trigger] ts[n as int] == *new
                &&& forall|i: int| 0 <= i < n ==> #[trigger] ts[i].printed(&ts[i + 1], ch)
            }
        }
    }

    /// Repeats the character before the cursor (the whole of a wide one) `n` times.
    fn rep(&mut self, n: u16)
        requires
            old(self).wf(),
        ensures
            final(self).cols == old(self).cols,
            final(self).rows == old(self).rows,
            final(self).wf(),
            old(self).repeated(final(self), param_or(n, 1) as nat),
    {
        if self.cursor.col > 0 {
            let n = as_usize(n, 1);
            let row = self.cursor.row;
            let mut col = self.cursor.col - 1;
            let ghost cells = self.buffer.row(row as int).cells@;
            while col > 0 && self.buffer.cell(col, row).occupancy == Occupancy::WideTail
                invariant
                    *self == *old(self),
                    self.wf(),
                    col < self.cols,
                    row == self.cursor.row,
                    cells == self.buffer.row(row as int).cells@,
                    rep_col(cells, self.cursor.col - 1) == rep_col(cells, col as int),
                decreases col,
            {
                col -= 1;
            }
            let ch = self.buffer.cell(col, row).ch;
            let ghost mut ts: Seq<Terminal> = seq![*self];
            let mut i: usize = 0;
            while i < n
                invariant
                    self.wf(),
                    self.cols == old(self).cols,
                    self.rows == old(self).rows,
                    i <= n,
                    ts.len() == i + 1,
                    ts[0] == *old(self),
                    ts[i as int] == *self,
                    forall|j: int| 0 <= j < i ==> #[trigger] ts[j].printed(&ts[j + 1], ch),
                decreases n - i,
            {
                self.print(ch);
                proof {
                    let t0 = ts;
                    ts = ts.push(*self);
                    assert forall|j: int| 0 <= j < i + 1 implies #[trigger] ts[j].printed(&ts[j + 1], ch) by {
                        if j < i {
                            assert(ts[j] == t0[j] && ts[j + 1] == t0[j + 1]);
                        }
                    }
                }
                i += 1;
            }
            proof {
                assert(ts[n as int] == *self);
            }
        }
    }

    /// What the screen alignment test keeps, as `new`: the buffer's size,
    /// limits and scrollback, and whether each row of the view continues
    /// on the next.
    pub open spec fn decaln_kept(&self, new: &Terminal) -> bool {
        &&& new.buffer.cols == self.buffer.cols
        &&& new.buffer.rows == self.buffer.rows
        &&& new.buffer.scrollback_limit == self.buffer.scrollback_limit
        &&& new.buffer.trim_needed == self.buffer.trim_needed
        &&& new.buffer.lines@.len() == self.buffer.lines@.len()
        &&& forall|k: int| 0 <= k < self.buffer.top() ==> #[trigger] new.buffer.lines@[k] == self.buffer.lines@[k]
        &&& forall|r: int| 0 <= r < self.rows ==> #[trigger] new.buffer.row(r).wrapped == self.buffer.row(r).wrapped
    }

    /// Fills the view with `E` in the default pen (the screen alignment test).
    fn decaln(&mut self)
        requires
            old(self).wf(),
        ensures
            final(self).wf(),
            *final(self) == (Terminal { buffer: final(self).buffer, dirty_lines: final(self).dirty_lines, ..*old(self) }),
            final(self).buffer.lines@.len() == old(self).buffer.lines@.len(),
            forall|r: int, c: int| 0 <= r < old(self).rows && 0 <= c < old(self).cols
                ==> #[trigger] final(self).buffer.row(r).cells@[c]
                == (crate::cell::Cell { ch: 'E', occupancy: Occupancy::Single, pen: Pen::spec_default() }),
            final(self).dirty_lines@ == Seq::new(old(self).rows as nat, |i: int| true),
            old(self).decaln_kept(final(self)),
    {
        let mut row: usize = 0;
        while row < self.rows
            invariant
                self.wf(),
                row <= self.rows,
                *self == (Terminal { buffer: self.buffer, dirty_lines: self.dirty_lines, ..*old(self) }),
                self.buffer.lines@.len() == old(self).buffer.lines@.len(),
                old(self).decaln_kept(self),
                forall|r: int, c: int| 0 <= r < row && 0 <= c < self.cols
                    ==> #[trigger] self.buffer.row(r).cells@[c]
                    == (crate::cell::Cell { ch: 'E', occupancy: Occupancy::Single, pen: Pen::spec_default() }),
                forall|r: int| 0 <= r < row ==> #[trigger] self.dirty_lines@[r],
            decreases self.rows - row,
        {
            let mut col: usize = 0;
            while col < self.cols
                invariant
                    self.wf(),
                    row < self.rows,
                    col <= self.cols,
                    *self == (Terminal { buffer: self.buffer, dirty_lines: self.dirty_lines, ..*old(self) }),
                    self.buffer.lines@.len() == old(self).buffer.lines@.len(),
                    old(self).decaln_kept(self),
                    forall|r: int, c: int| 0 <= r < row && 0 <= c < self.cols
                        ==> #[trigger] self.buffer.row(r).cells@[c]
                        == (crate::cell::Cell { ch: 'E', occupancy: Occupancy::Single, pen: Pen::spec_default() }),
                    forall|c: int| 0 <= c < col ==> #[trigger] self.buffer.row(row as int).cells@[c]
                        == (crate::cell::Cell { ch: 'E', occupancy: Occupancy::Single, pen: Pen::spec_default() }),
                    forall|r: int| 0 <= r < row ==> #[trigger] self.dirty_lines@[r],
                decreases self.cols - col,
            {
                let ghost b1 = self.buffer;
                proof { assert(crate::buffer::line_ok(b1.lines@[b1.top() + row], b1.cols as nat)); }
                self.buffer.print((col, row), 'E', Pen::new());
                proof {
                    lemma_same_but_ok(b1, self.buffer, b1.top() + row);
                    lemma_print_e(b1.row(row as int).cells@, col as int);
                    assert forall|k: int| 0 <= k < old(self).buffer.top() implies #[trigger] self.buffer.lines@[k] == old(self).buffer.lines@[k] by {
                        assert(self.buffer.lines@[k] == b1.lines@[k]);
                    }
                    assert forall|r: int| 0 <= r < old(self).rows implies #[trigger] self.buffer.row(r).wrapped == old(self).buffer.row(r).wrapped by {
                        if r != row {
                            assert(self.buffer.row(r) == b1.row(r));
                        }
                    }
                    assert forall|r: int, c: int| 0 <= r < row && 0 <= c < self.cols
                        implies #[trigger] self.buffer.row(r).cells@[c]
                        == (crate::cell::Cell { ch: 'E', occupancy: Occupancy::Single, pen: Pen::spec_default() }) by {
                        assert(self.buffer.row(r) == b1.row(r));
                    }
                }
                col += 1;
            }
            self.dirty_lines.add(row);
            row += 1;
        }
        assert(self.dirty_lines@ =~= Seq::new(old(self).rows as nat, |i: int| true));
    }

    fn so(&mut self)
        ensures
            *final(self) == (Terminal { active_charset: 1, ..*old(self) }),
    {
        self.active_charset = 1;
    }

    fn si(&mut self)
        ensures
            *final(self) == (Terminal { active_charset: 0, ..*old(self) }),
    {
        self.active_charset = 0;
    }

    fn gzd4(&mut self, charset: Charset)
        ensures
            *final(self) == (Terminal { charsets: final(self).charsets, ..*old(self) }),
            final(self).charsets@ == old(self).charsets@.update(0, charset),
    {
        self.charsets[0] = charset;
    }

    fn g1d4(&mut self, charset: Charset)
        ensures
            *final(self) == (Terminal { charsets: final(self).charsets, ..*old(self) }),
            final(self).charsets@ == old(self).charsets@.update(1, charset),
    {
        self.charsets[1] = charset;
    }

    /// Resets the modes, the margins, the pen, the charsets and the saved
    /// cursor, and shows the cursor.
    fn soft_reset(&mut self)
        requires
            old(self).wf(),
        ensures
            final(self).wf(),
            *final(self) == (Terminal {
                cursor: Cursor { visible: true, ..old(self).cursor },
                top_margin: 0,
                bottom_margin: (old(self).rows - 1) as usize,
                insert_mode: false,
                origin_mode: false,
                pen: Pen::spec_default(),
                charsets: final(self).charsets,
                active_charset: 0,
                saved_ctx: SavedCtx::spec_default(),
                ..*old(self)
            }),
            final(self).charsets@ == seq![Charset::Ascii, Charset::Ascii],
    {
        self.cursor.visible = true;
        self.top_margin = 0;
        self.bottom_margin = self.rows - 1;
        self.insert_mode = false;
        self.origin_mode = false;
        self.pen = Pen::new();
        self.charsets = [Charset::Ascii, Charset::Ascii];
        self.active_charset = 0;
        self.saved_ctx = SavedCtx::new();
        assert(self.charsets@ =~= seq![Charset::Ascii, Charset::Ascii]);
    }

    /// Brings the terminal back to its initial state, keeping its size and
    /// scrollback limit.
    fn hard_reset(&mut self)
        requires
            old(self).wf(),
        ensures
            final(self).wf(),
            final(self).cols == old(self).cols,
            final(self).rows == old(self).rows,
            final(self).scrollback_limit == old(self).scrollback_limit,
            final(self).active_buffer_type == BufferType::Primary,
            final(self).cursor == (Cursor { col: 0, row: 0, visible: true }),
            final(self).pen == Pen::spec_default(),
            final(self).buffer.lines@.len() == old(self).rows,
            forall|i: int| 0 <= i < old(self).rows ==> #[trigger] crate::buffer::is_blank_line(final(self).buffer.lines@[i],
                old(self).cols as nat, Pen::spec_default()),
            final(self).tabs@ == crate::tabs::default_stops(old(self).cols as nat),
            final(self).dirty_lines@ == Seq::new(old(self).rows as nat, |i: int| true),
            final(self).top_margin == 0,
            final(self).bottom_margin == old(self).rows - 1,
            !final(self).insert_mode && !final(self).origin_mode && final(self).auto_wrap_mode && !final(self).new_line_mode,
            final(self).cursor_keys_mode == CursorKeysMode::Normal,
            final(self).charsets@ == seq![Charset::Ascii, Charset::Ascii],
            final(self).active_charset == 0,
            final(self).saved_ctx == SavedCtx::spec_default(),
            final(self).alternate_saved_ctx == SavedCtx::spec_default(),
            final(self).is_initial(old(self).cols as nat, old(self).rows as nat, old(self).scrollback_limit),
    {
        let t = Terminal::new((self.cols, self.rows), self.scrollback_limit);
        *self = t;
    }

    fn switch_to_alternate_buffer(&mut self)
        requires
            old(self).wf(),
        ensures
            *final(self) == (Terminal { buffer: final(self).buffer, other_buffer: final(self).other_buffer,
                active_buffer_type: final(self).active_buffer_type, saved_ctx: final(self).saved_ctx,
                alternate_saved_ctx: final(self).alternate_saved_ctx, dirty_lines: final(self).dirty_lines, ..*old(self) }),
            old(self).to_alternate(final(self)),
            old(self).active_buffer_type == BufferType::Alternate ==> *final(self) == *old(self),
            old(self).active_buffer_type == BufferType::Primary ==> {
                &&& final(self).reflow_ready()
                &&& final(self).buffer.cols == old(self).cols
                &&& final(self).buffer.rows == old(self).rows
                &&& final(self).cursor == old(self).cursor
                &&& final(self).active_buffer_type == BufferType::Alternate
                &&& final(self).dirty_lines@.len() == old(self).rows
            },
    {
        if self.active_buffer_type == BufferType::Primary {
            self.active_buffer_type = BufferType::Alternate;
            std::mem::swap(&mut self.saved_ctx, &mut self.alternate_saved_ctx);
            std::mem::swap(&mut self.buffer, &mut self.other_buffer);
            self.buffer = Buffer::new(self.cols, self.rows, Some(0), Some(&self.pen));
            proof {
                assert(crate::buffer::is_blank_line(self.buffer.lines@[self.buffer.lines@.len() - 1], self.cols as nat,
                    crate::buffer::pen_or_default(Some(&old(self).pen))));
            }
            let rows = self.rows;
            self.dirty_lines.extend(0..rows);
            assert(self.dirty_lines@ =~= Seq::new(self.rows as nat, |i: int| true));
        }
    }

    fn switch_to_primary_buffer(&mut self)
        requires
            old(self).wf(),
        ensures
            *final(self) == (Terminal { buffer: final(self).buffer, other_buffer: final(self).other_buffer,
                active_buffer_type: final(self).active_buffer_type, saved_ctx: final(self).saved_ctx,
                alternate_saved_ctx: final(self).alternate_saved_ctx, dirty_lines: final(self).dirty_lines, ..*old(self) }),
            old(self).to_primary(final(self)),
            old(self).active_buffer_type == BufferType::Primary ==> *final(self) == *old(self),
            old(self).active_buffer_type == BufferType::Alternate ==> {
                &&& final(self).reflow_ready()
                &&& final(self).cursor == old(self).cursor
                &&& final(self).saved_ctx.cursor_col < final(self).buffer.cols
                &&& final(self).saved_ctx.cursor_row < final(self).buffer.rows
                &&& final(self).active_buffer_type == BufferType::Primary
                &&& final(self).dirty_lines@.len() == old(self).rows
            },
    {
        if self.active_buffer_type == BufferType::Alternate {
            self.active_buffer_type = BufferType::Primary;
            std::mem::swap(&mut self.saved_ctx, &mut self.alternate_saved_ctx);
            std::mem::swap(&mut self.buffer, &mut self.other_buffer);
            let rows = self.rows;
            self.dirty_lines.extend(0..rows);
            assert(self.dirty_lines@ =~= Seq::new(self.rows as nat, |i: int| true));
        }
    }

    /// The state after fitting the active buffer, the cursor and the saved
    /// cursor to the terminal's size, as `new`: the buffer takes the
    /// terminal's size (its rows as `rows_resized` says when its width was
    /// already right, the cursor column kept; else rewrapped first, the
    /// cursor staying on its character, see `Buffer::rewrapped`), the characters it shows
    /// other than spaces are those it showed, in order, but for rows cut
    /// off at the bottom, the saved cursor is brought inside, and every row
    /// is changed.
    pub open spec fn reflowed(&self, new: &Terminal) -> bool {
        &&& *new == (Terminal { buffer: new.buffer, cursor: new.cursor, dirty_lines: new.dirty_lines,
            saved_ctx: new.saved_ctx, ..*self })
        &&& new.dirty_lines@ == Seq::new(self.rows as nat, |i: int| true)
        &&& new.cursor.visible == self.cursor.visible
        &&& new.buffer.cols == self.cols
        &&& new.buffer.rows == self.rows
        &&& new.buffer.scrollback_limit == self.buffer.scrollback_limit
        &&& new.buffer.trim_needed
        &&& new.saved_ctx == (SavedCtx {
            cursor_col: if self.saved_ctx.cursor_col >= self.cols { (self.cols - 1) as usize } else { self.saved_ctx.cursor_col },
            cursor_row: if self.saved_ctx.cursor_row >= self.rows { (self.rows - 1) as usize } else { self.saved_ctx.cursor_row },
            ..self.saved_ctx
        })
        &&& self.buffer.cols == self.cols ==> {
            &&& new.cursor.col == self.cursor.col
            &&& crate::buffer::rows_resized(self.buffer.lines@, new.buffer.lines@, self.cols as nat,
                self.buffer.rows as int, self.rows as int, self.cursor.row as int, new.cursor.row as int)
        }
        &&& self.buffer.cols != self.cols ==> exists|m: Buffer, c: (usize, usize)| {
            &&& #[trigger] self.buffer.rewrapped(&m, self.cols as int, (self.cursor.col, self.cursor.row), c)
            &&& new.cursor.col == c.0
            &&& crate::buffer::rows_resized(m.lines@, new.buffer.lines@, self.cols as nat, m.rows as int,
                self.rows as int, c.1 as int, new.cursor.row as int)
        }
        &&& crate::buffer::ink_rows(new.buffer.lines@).is_prefix_of(crate::buffer::ink_rows(self.buffer.lines@))
    }

    /// Switching to the alternate screen, as `new`: from the primary one,
    /// its buffer is kept aside, a blank one in the pen takes its place,
    /// the saved cursors swap, and every row is changed; on the alternate
    /// screen, nothing happens.
    pub open spec fn to_alternate(&self, new: &Terminal) -> bool {
        if self.active_buffer_type == BufferType::Alternate {
            *new == *self
        } else {
            &&& *new == (Terminal {
                buffer: new.buffer,
                other_buffer: self.buffer,
                active_buffer_type: BufferType::Alternate,
                saved_ctx: self.alternate_saved_ctx,
                alternate_saved_ctx: self.saved_ctx,
                dirty_lines: new.dirty_lines,
                ..*self
            })
            &&& blank_buffer(new.buffer, self.cols as nat, self.rows as nat, Some(0), self.pen)
            &&& new.dirty_lines@ == Seq::new(self.rows as nat, |i: int| true)
        }
    }

    /// Switching to the primary screen, as `new`: from the alternate one,
    /// the buffers and the saved cursors swap and every row is changed; on
    /// the primary screen, nothing happens.
    pub open spec fn to_primary(&self, new: &Terminal) -> bool {
        if self.active_buffer_type == BufferType::Primary {
            *new == *self
        } else {
            &&& *new == (Terminal {
                buffer: self.other_buffer,
                other_buffer: self.buffer,
                active_buffer_type: BufferType::Primary,
                saved_ctx: self.alternate_saved_ctx,
                alternate_saved_ctx: self.saved_ctx,
                dirty_lines: new.dirty_lines,
                ..*self
            })
            &&& new.dirty_lines@ == Seq::new(self.rows as nat, |i: int| true)
        }
    }

    /// The state with the cursor saved: its position (the column inside
    /// the row), the pen and the origin and auto-wrap modes.
    pub open spec fn cursor_saved(&self) -> Terminal {
        Terminal {
            saved_ctx: SavedCtx {
                cursor_col: self.clamp_col(self.cursor.col as int) as usize,
                cursor_row: self.cursor.row,
                pen: self.pen,
                origin_mode: self.origin_mode,
                auto_wrap_mode: self.auto_wrap_mode,
            },
            ..*self
        }
    }

    /// The state with the saved cursor restored.
    pub open spec fn cursor_restored(&self) -> Terminal {
        Terminal {
            cursor: Cursor { col: self.saved_ctx.cursor_col, row: self.saved_ctx.cursor_row, ..self.cursor },
            pen: self.saved_ctx.pen,
            origin_mode: self.saved_ctx.origin_mode,
            auto_wrap_mode: self.saved_ctx.auto_wrap_mode,
            ..*self
        }
    }

    /// Setting the DEC private mode `m`, as `new`.
    pub open spec fn mode_set(&self, new: &Terminal, m: DecMode) -> bool {
        match m {
            DecMode::CursorKeys => *new == (Terminal { cursor_keys_mode: CursorKeysMode::Application, ..*self }),
            DecMode::Origin => *new == (Terminal { origin_mode: true, ..*self }).moved(0, self.top_margin as int),
            DecMode::AutoWrap => *new == (Terminal { auto_wrap_mode: true, ..*self }),
            DecMode::TextCursorEnable => *new == (Terminal { cursor: Cursor { visible: true, ..self.cursor }, ..*self }),
            DecMode::AltScreenBuffer => exists|t: Terminal| #[trigger] self.to_alternate(&t) && t.reflowed(new),
            DecMode::SaveCursor => *new == self.cursor_saved(),
            DecMode::SaveCursorAltScreenBuffer => exists|t: Terminal| #[trigger] self.cursor_saved().to_alternate(&t) && t.reflowed(new),
        }
    }

    /// Resetting the DEC private mode `m`, as `new`.
    pub open spec fn mode_reset(&self, new: &Terminal, m: DecMode) -> bool {
        match m {
            DecMode::CursorKeys => *new == (Terminal { cursor_keys_mode: CursorKeysMode::Normal, ..*self }),
            DecMode::Origin => *new == (Terminal { origin_mode: false, ..*self }).moved(0, 0),
            DecMode::AutoWrap => *new == (Terminal { auto_wrap_mode: false, ..*self }),
            DecMode::TextCursorEnable => *new == (Terminal { cursor: Cursor { visible: false, ..self.cursor }, ..*self }),
            DecMode::AltScreenBuffer => exists|t: Terminal| #[trigger] self.to_primary(&t) && t.reflowed(new),
            DecMode::SaveCursor => *new == self.cursor_restored(),
            DecMode::SaveCursorAltScreenBuffer => exists|t: Terminal| #[trigger] self.to_primary(&t) && t.cursor_restored().reflowed(new),
        }
    }

    /// Setting (`set`) or resetting the modes `modes` one after the
    /// other, as `new`.
    pub open spec fn modes_changed(&self, new: &Terminal, modes: Seq<DecMode>, set: bool) -> bool {
        exists|ts: Seq<Terminal>| {
            &&& ts.len() == modes.len() + 1
            &&& ts[0] == *self
            &&& #[trigger] ts[modes.len() as int] == *new
            &&& forall|i: int| 0 <= i < modes.len() ==> #[trigger] ts[i].mode_changed(&ts[i + 1], modes[i], set)
        }
    }

    /// Setting (`set`) or resetting the DEC private mode `m`, as `new`.
    pub open spec fn mode_changed(&self, new: &Terminal, m: DecMode, set: bool) -> bool {
        if set { self.mode_set(new, m) } else { self.mode_reset(new, m) }
    }

    /// Fits the active buffer, the cursor and the saved cursor to the size
    /// of the terminal, and marks all rows changed.
    fn reflow(&mut self)
        requires
            old(self).reflow_ready(),
        ensures
            final(self).wf(),
            final(self).cols == old(self).cols,
            final(self).rows == old(self).rows,
            *final(self) == (Terminal { buffer: final(self).buffer, cursor: final(self).cursor,
                dirty_lines: final(self).dirty_lines, saved_ctx: final(self).saved_ctx, ..*old(self) }),
            final(self).dirty_lines@ == Seq::new(old(self).rows as nat, |i: int| true),
            final(self).cursor.visible == old(self).cursor.visible,
            old(self).reflowed(final(self)),
    {
        let cursor = self.buffer.resize(self.cols, self.rows, (self.cursor.col, self.cursor.row));
        self.cursor.col = cursor.0;
        self.cursor.row = cursor.1;
        let rows = self.rows;
        self.dirty_lines.resize(rows);
        self.dirty_lines.extend(0..rows);
        if self.saved_ctx.cursor_col >= self.cols {
            self.saved_ctx.cursor_col = self.cols - 1;
        }
        if self.saved_ctx.cursor_row >= self.rows {
            self.saved_ctx.cursor_row = self.rows - 1;
        }
        assert(self.dirty_lines@ =~= Seq::new(old(self).rows as nat, |i: int| true));
    }

    /// Resizing to `cols` x `rows`, as `new`: the tab stops are cut at the
    /// new width or continued every 8 columns up to it, the margins reset
    /// when the height changes, and then the active buffer, the cursor and
    /// the saved cursor are fitted to the new size (see `reflowed`).
    pub open spec fn resized(&self, new: &Terminal, cols: usize, rows: usize) -> bool {
        exists|t: Terminal| {
            &&& #[trigger] t.reflowed(new)
            &&& t == (Terminal { cols, rows, tabs: t.tabs, top_margin: t.top_margin, bottom_margin: t.bottom_margin, ..*self })
            &&& if cols < self.cols {
                exists|k: int| #[trigger] crate::tabs::split_at_pos(self.tabs@, k, cols as int) && t.tabs@ == self.tabs@.subrange(0, k)
            } else if cols > self.cols {
                t.tabs@ == self.tabs@ + crate::tabs::stops_between(self.cols as nat, cols as nat)
            } else {
                t.tabs@ == self.tabs@
            }
            &&& if rows != self.rows {
                t.top_margin == 0 && t.bottom_margin == rows - 1
            } else {
                t.top_margin == self.top_margin && t.bottom_margin == self.bottom_margin
            }
        }
    }

    /// Changes the size of the terminal to `cols` x `rows`: the tab stops
    /// follow the width, the margins are reset when the height changes, and
    /// the active buffer is rewrapped. Returns whether the size changed.
    pub fn resize(&mut self, cols: usize, rows: usize) -> (resized: bool)
        requires
            old(self).wf(),
            cols >= 2,
            rows >= 1,
        ensures
            final(self).wf(),
            final(self).cols == cols,
            final(self).rows == rows,
            resized == (cols != old(self).cols || rows != old(self).rows),
            final(self).dirty_lines@ == Seq::new(rows as nat, |i: int| true),
            final(self).active_buffer_type == old(self).active_buffer_type,
            rows != old(self).rows ==> final(self).top_margin == 0 && final(self).bottom_margin == rows - 1,
            rows == old(self).rows ==> final(self).top_margin == old(self).top_margin
                && final(self).bottom_margin == old(self).bottom_margin,
            cols < old(self).cols ==> exists|k: int| #[trigger] crate::tabs::split_at_pos(old(self).tabs@, k, cols as int)
                && final(self).tabs@ == old(self).tabs@.subrange(0, k),
            cols > old(self).cols ==> final(self).tabs@ == old(self).tabs@ + crate::tabs::stops_between(old(self).cols as nat, cols as nat),
            cols == old(self).cols ==> final(self).tabs@ == old(self).tabs@,
            old(self).resized(final(self), cols, rows),
    {
        let mut resized = false;
        if cols < self.cols {
            self.tabs.contract(cols);
            proof {
                let k = choose|k: int| #[trigger] crate::tabs::split_at_pos(old(self).tabs@, k, cols as int)
                    && self.tabs@ == old(self).tabs@.subrange(0, k);
                assert forall|i: int| 0 <= i < self.tabs@.len() implies #[trigger] self.tabs@[i] < cols by {
                    assert(self.tabs@[i] == old(self).tabs@[i]);
                }
            }
            resized = true;
        } else if cols > self.cols {
            let old_cols = self.cols;
            proof {
                assert forall|i: int| 0 <= i < self.tabs@.len() implies self.tabs@[i] <= old_cols by {
                    assert(self.tabs@[i] < old_cols);
                }
            }
            self.tabs.expand(old_cols, cols);
            proof {
                let add = crate::tabs::stops_between(old_cols as nat, cols as nat);
                assert forall|i: int| 0 <= i < self.tabs@.len() implies #[trigger] self.tabs@[i] < cols by {
                    if i < old(self).tabs@.len() {
                        assert(self.tabs@[i] == old(self).tabs@[i]);
                    } else {
                        assert(self.tabs@[i] == add[i - old(self).tabs@.len()]);
                        crate::tabs::lemma_stops_between_below(old_cols as nat, cols as nat, i - old(self).tabs@.len());
                    }
                }
            }
            resized = true;
        }
        if rows != self.rows {
            self.top_margin = 0;
            self.bottom_margin = rows - 1;
            resized = true;
        }
        self.cols = cols;
        self.rows = rows;
        let ghost t = *self;
        self.reflow();
        proof {
            assert(t.reflowed(self));
        }
        resized
    }

    /// The window operation `op`: a resize, honoured only while window
    /// operations are enabled. Nothing enables them (the invariant keeps the
    /// flag off, as every terminal starts with it off), so the terminal
    /// stays as it is.
    fn xtwinops(&mut self, op: XtwinopsOp)
        requires
            old(self).wf(),
        ensures
            final(self).wf(),
            *final(self) == *old(self),
    {
        if self.xtwinops {
            let XtwinopsOp::Resize(cols, rows) = op;
            let cols = as_usize(cols, self.cols);
            let rows = as_usize(rows, self.rows);
            self.resize(cols, rows);
        }
    }

    /// Sets the DEC private mode `m`.
    fn set_mode(&mut self, m: DecMode)
        requires
            old(self).wf(),
        ensures
            final(self).wf(),
            final(self).cols == old(self).cols,
            final(self).rows == old(self).rows,
            final(self).pen == old(self).pen,
            old(self).mode_set(final(self), m),
            final(self).cursor_keys_mode == if m == DecMode::CursorKeys {
                CursorKeysMode::Application
            } else {
                old(self).cursor_keys_mode
            },
            final(self).origin_mode == (old(self).origin_mode || m == DecMode::Origin),
            final(self).auto_wrap_mode == (old(self).auto_wrap_mode || m == DecMode::AutoWrap),
            final(self).cursor.visible == (old(self).cursor.visible || m == DecMode::TextCursorEnable),
            final(self).active_buffer_type == if m == DecMode::AltScreenBuffer || m == DecMode::SaveCursorAltScreenBuffer {
                BufferType::Alternate
            } else {
                old(self).active_buffer_type
            },
    {
        match m {
            DecMode::CursorKeys => { self.cursor_keys_mode = CursorKeysMode::Application; },
            DecMode::Origin => {
                self.origin_mode = true;
                self.move_cursor_home();
            },
            DecMode::AutoWrap => { self.auto_wrap_mode = true; },
            DecMode::TextCursorEnable => { self.cursor.visible = true; },
            DecMode::AltScreenBuffer => {
                let ghost before = *self;
                self.switch_to_alternate_buffer();
                let ghost mid = *self;
                self.reflow();
                proof { assert(before.to_alternate(&mid)); }
            },
            DecMode::SaveCursor => { self.save_cursor(); },
            DecMode::SaveCursorAltScreenBuffer => {
                let ghost before = *self;
                self.save_cursor();
                self.switch_to_alternate_buffer();
                let ghost mid = *self;
                self.reflow();
                proof { assert(before.cursor_saved().to_alternate(&mid)); }
            },
        }
    }

    /// Resets the DEC private mode `m`.
    #[verifier::spinoff_prover]
    #[verifier::rlimit(40)]
    fn reset_mode(&mut self, m: DecMode)
        requires
            old(self).wf(),
        ensures
            final(self).wf(),
            final(self).cols == old(self).cols,
            final(self).rows == old(self).rows,
            old(self).mode_reset(final(self), m),
            final(self).cursor_keys_mode == if m == DecMode::CursorKeys {
                CursorKeysMode::Normal
            } else {
                old(self).cursor_keys_mode
            },
            final(self).cursor.visible == (old(self).cursor.visible && m != DecMode::TextCursorEnable),
            final(self).active_buffer_type == if m == DecMode::AltScreenBuffer || m == DecMode::SaveCursorAltScreenBuffer {
                BufferType::Primary
            } else {
                old(self).active_buffer_type
            },
    {
        match m {
            DecMode::CursorKeys => { self.cursor_keys_mode = CursorKeysMode::Normal; },
            DecMode::Origin => {
                self.origin_mode = false;
                self.move_cursor_home();
            },
            DecMode::AutoWrap => { self.auto_wrap_mode = false; },
            DecMode::TextCursorEnable => { self.cursor.visible = false; },
            DecMode::AltScreenBuffer => {
                let ghost before = *self;
                self.switch_to_primary_buffer();
                let ghost mid = *self;
                self.reflow();
                proof { assert(before.to_primary(&mid)); }
            },
            DecMode::SaveCursor => { self.restore_cursor(); },
            DecMode::SaveCursorAltScreenBuffer => {
                let ghost before = *self;
                self.switch_to_primary_buffer();
                let ghost mid = *self;
                self.restore_cursor();
                self.reflow();
                proof { assert(before.to_primary(&mid)); }
            },
        }
    }

    fn decset(&mut self, modes: &Vec<DecMode>)
        requires
            old(self).wf(),
        ensures
            final(self).wf(),
            final(self).cols == old(self).cols,
            final(self).rows == old(self).rows,
            final(self).cursor_keys_mode == if modes@.contains(DecMode::CursorKeys) {
                CursorKeysMode::Application
            } else {
                old(self).cursor_keys_mode
            },
            final(self).origin_mode == (old(self).origin_mode || modes@.contains(DecMode::Origin)),
            final(self).auto_wrap_mode == (old(self).auto_wrap_mode || modes@.contains(DecMode::AutoWrap)),
            final(self).cursor.visible == (old(self).cursor.visible || modes@.contains(DecMode::TextCursorEnable)),
            final(self).active_buffer_type == if modes@.contains(DecMode::AltScreenBuffer)
                || modes@.contains(DecMode::SaveCursorAltScreenBuffer) {
                BufferType::Alternate
            } else {
                old(self).active_buffer_type
            },
            final(self).pen == old(self).pen,
            old(self).modes_changed(final(self), modes@, true),
    {
        let ghost mut ts: Seq<Terminal> = seq![*self];
        let mut i: usize = 0;
        while i < modes.len()
            invariant
                i <= modes@.len(),
                ts.len() == i + 1,
                ts[0] == *old(self),
                ts[i as int] == *self,
                forall|j: int| 0 <= j < i ==> #[trigger] ts[j].mode_changed(&ts[j + 1], modes@[j], true),
                self.wf(),
                self.cols == old(self).cols,
                self.rows == old(self).rows,
                self.pen == old(self).pen,
                self.cursor_keys_mode == if modes@.take(i as int).contains(DecMode::CursorKeys) {
                    CursorKeysMode::Application
                } else {
                    old(self).cursor_keys_mode
                },
                self.origin_mode == (old(self).origin_mode || modes@.take(i as int).contains(DecMode::Origin)),
                self.auto_wrap_mode == (old(self).auto_wrap_mode || modes@.take(i as int).contains(DecMode::AutoWrap)),
                self.cursor.visible == (old(self).cursor.visible || modes@.take(i as int).contains(DecMode::TextCursorEnable)),
                self.active_buffer_type == if modes@.take(i as int).contains(DecMode::AltScreenBuffer)
                    || modes@.take(i as int).contains(DecMode::SaveCursorAltScreenBuffer) {
                    BufferType::Alternate
                } else {
                    old(self).active_buffer_type
                },
            decreases modes@.len() - i,
        {
            proof { lemma_take_contains(modes@, i as int); }
            self.set_mode(modes[i]);
            proof {
                let t0 = ts;
                ts = ts.push(*self);
                assert forall|j: int| 0 <= j < i + 1 implies #[trigger] ts[j].mode_changed(&ts[j + 1], modes@[j], true) by {
                    if j < i {
                        assert(ts[j] == t0[j] && ts[j + 1] == t0[j + 1]);
                    }
                }
            }
            i += 1;
        }
        assert(modes@.take(i as int) =~= modes@);
        assert(ts[modes@.len() as int] == *self);
    }

    fn decrst(&mut self, modes: &Vec<DecMode>)
        requires
            old(self).wf(),
        ensures
            final(self).wf(),
            final(self).cols == old(self).cols,
            final(self).rows == old(self).rows,
            final(self).cursor_keys_mode == if modes@.contains(DecMode::CursorKeys) {
                CursorKeysMode::Normal
            } else {
                old(self).cursor_keys_mode
            },
            final(self).cursor.visible == (old(self).cursor.visible && !modes@.contains(DecMode::TextCursorEnable)),
            final(self).active_buffer_type == if modes@.contains(DecMode::AltScreenBuffer)
                || modes@.contains(DecMode::SaveCursorAltScreenBuffer) {
                BufferType::Primary
            } else {
                old(self).active_buffer_type
            },
            old(self).modes_changed(final(self), modes@, false),
    {
        let ghost mut ts: Seq<Terminal> = seq![*self];
        let mut i: usize = 0;
        while i < modes.len()
            invariant
                i <= modes@.len(),
                ts.len() == i + 1,
                ts[0] == *old(self),
                ts[i as int] == *self,
                forall|j: int| 0 <= j < i ==> #[trigger] ts[j].mode_changed(&ts[j + 1], modes@[j], false),
                self.wf(),
                self.cols == old(self).cols,
                self.rows == old(self).rows,
                self.cursor_keys_mode == if modes@.take(i as int).contains(DecMode::CursorKeys) {
                    CursorKeysMode::Normal
                } else {
                    old(self).cursor_keys_mode
                },
                self.cursor.visible == (old(self).cursor.visible && !modes@.take(i as int).contains(DecMode::TextCursorEnable)),
                self.active_buffer_type == if modes@.take(i as int).contains(DecMode::AltScreenBuffer)
                    || modes@.take(i as int).contains(DecMode::SaveCursorAltScreenBuffer) {
                    BufferType::Primary
                } else {
                    old(self).active_buffer_type
                },
            decreases modes@.len() - i,
        {
            proof { lemma_take_contains(modes@, i as int); }
            self.reset_mode(modes[i]);
            proof {
                let t0 = ts;
                ts = ts.push(*self);
                assert forall|j: int| 0 <= j < i + 1 implies #[trigger] ts[j].mode_changed(&ts[j + 1], modes@[j], false) by {
                    if j < i {
                        assert(ts[j] == t0[j] && ts[j + 1] == t0[j + 1]);
                    }
                }
            }
            i += 1;
        }
        assert(modes@.take(i as int) =~= modes@);
        assert(ts[modes@.len() as int] == *self);
    }

    /// What executing `fun` makes of the terminal: `new`. (Printing and
    /// repeating are described as far as the cursor goes; the cells they
    /// write are described by `print`.)
    pub open spec fn executed(&self, new: &Terminal, fun: Function) -> bool {
        let col = self.cursor.col as int;
        let row = self.cursor.row as int;
        let moved_only = |t: Terminal| *new == t;
        match fun {
            Function::Bs => moved_only(self.rel_col_target(if col == self.cols { -2 } else { -1 })),
            Function::Cbt(n) => moved_only(self.moved(self.clamp_col(self.prev_tab(param_or(n, 1) as int)), row)),
            Function::Cha(n) => moved_only(self.moved(self.clamp_col(param_or(n, 1) - 1), row)),
            Function::Cht(n) => moved_only(self.moved(self.clamp_col(self.next_tab(param_or(n, 1) as int)), row)),
            Function::Cnl(n) => moved_only({
                let t = self.down_target(param_or(n, 1) as int);
                t.moved(0, t.cursor.row as int)
            }),
            Function::Cpl(n) => moved_only({
                let t = self.up_target(param_or(n, 1) as int);
                t.moved(0, t.cursor.row as int)
            }),
            Function::Cr => moved_only(self.moved(0, row)),
            Function::Ctc(op) => {
                &&& *new == (Terminal { tabs: new.tabs, ..*self })
                &&& new.tabs@.to_set() == match op {
                    CtcOp::SetTab => if 0 < col < self.cols { self.tabs@.to_set().insert(col as usize) } else { self.tabs@.to_set() },
                    CtcOp::ClearCurrentColumn => self.tabs@.to_set().remove(col as usize),
                    CtcOp::ClearAll => Set::<usize>::empty(),
                }
            },
            Function::Cub(n) => moved_only(self.rel_col_target(-(param_or(n, 1) + if col == self.cols { 1int } else { 0int }))),
            Function::Cud(n) => moved_only(self.down_target(param_or(n, 1) as int)),
            Function::Cuf(n) => moved_only(self.rel_col_target(param_or(n, 1) as int)),
            Function::Cup(r, c) => moved_only(self.moved(self.clamp_col(param_or(c, 1) - 1), row).row_target(param_or(r, 1) - 1)),
            Function::Cuu(n) => moved_only(self.up_target(param_or(n, 1) as int)),
            Function::Decaln => {
                &&& *new == (Terminal { buffer: new.buffer, dirty_lines: new.dirty_lines, ..*self })
                &&& self.decaln_kept(new)
                &&& new.dirty_lines@ == Seq::new(self.rows as nat, |i: int| true)
                &&& forall|r: int, c: int| 0 <= r < self.rows && 0 <= c < self.cols
                    ==> #[trigger] new.buffer.row(r).cells@[c]
                    == (crate::cell::Cell { ch: 'E', occupancy: Occupancy::Single, pen: Pen::spec_default() })
            },
            Function::Decrc | Function::Scorc => *new == (Terminal {
                cursor: Cursor { col: self.saved_ctx.cursor_col, row: self.saved_ctx.cursor_row, ..self.cursor },
                pen: self.saved_ctx.pen,
                origin_mode: self.saved_ctx.origin_mode,
                auto_wrap_mode: self.saved_ctx.auto_wrap_mode,
                ..*self
            }),
            Function::Decsc | Function::Scosc => *new == (Terminal {
                saved_ctx: SavedCtx {
                    cursor_col: self.clamp_col(col) as usize,
                    cursor_row: self.cursor.row,
                    pen: self.pen,
                    origin_mode: self.origin_mode,
                    auto_wrap_mode: self.auto_wrap_mode,
                },
                ..*self
            }),
            Function::Decrst(modes) => {
                &&& self.modes_changed(new, modes@, false)
                &&& new.cursor_keys_mode == if modes@.contains(DecMode::CursorKeys) { CursorKeysMode::Normal } else { self.cursor_keys_mode }
                &&& new.cursor.visible == (self.cursor.visible && !modes@.contains(DecMode::TextCursorEnable))
                &&& new.active_buffer_type == if modes@.contains(DecMode::AltScreenBuffer)
                    || modes@.contains(DecMode::SaveCursorAltScreenBuffer) { BufferType::Primary } else { self.active_buffer_type }
            },
            Function::Decset(modes) => {
                &&& self.modes_changed(new, modes@, true)
                &&& new.cursor_keys_mode == if modes@.contains(DecMode::CursorKeys) { CursorKeysMode::Application } else { self.cursor_keys_mode }
                &&& new.origin_mode == (self.origin_mode || modes@.contains(DecMode::Origin))
                &&& new.auto_wrap_mode == (self.auto_wrap_mode || modes@.contains(DecMode::AutoWrap))
                &&& new.cursor.visible == (self.cursor.visible || modes@.contains(DecMode::TextCursorEnable))
                &&& new.active_buffer_type == if modes@.contains(DecMode::AltScreenBuffer)
                    || modes@.contains(DecMode::SaveCursorAltScreenBuffer) { BufferType::Alternate } else { self.active_buffer_type }
                &&& new.pen == self.pen
            },
            Function::Decstbm(top, bottom) => moved_only({
                let t = param_or(top, 1) - 1;
                let b = param_or(bottom, self.rows) - 1;
                let m = if t < b && b < self.rows {
                    Terminal { top_margin: t as usize, bottom_margin: b as usize, ..*self }
                } else {
                    *self
                };
                m.moved(0, m.spec_top())
            }),
            Function::Decstr => *new == (Terminal {
                cursor: Cursor { visible: true, ..self.cursor },
                top_margin: 0,
                bottom_margin: (self.rows - 1) as usize,
                insert_mode: false,
                origin_mode: false,
                pen: Pen::spec_default(),
                charsets: new.charsets,
                active_charset: 0,
                saved_ctx: SavedCtx::spec_default(),
                ..*self
            }) && new.charsets@ == seq![Charset::Ascii, Charset::Ascii],
            Function::Dl(n) => {
                &&& *new == (Terminal { buffer: new.buffer, dirty_lines: new.dirty_lines, ..*self })
                &&& crate::buffer::scrolled_up(self.buffer.lines@, new.buffer.lines@, self.buffer.top(),
                    self.rows as int, self.cols as nat, row, self.line_region_end(),
                    min(param_or(n, 1) as int, self.line_region_end() - row), self.pen)
                &&& marked(self.dirty_lines@, new.dirty_lines@, row, self.line_region_end())
            },
            Function::Il(n) => {
                &&& *new == (Terminal { buffer: new.buffer, dirty_lines: new.dirty_lines, ..*self })
                &&& crate::buffer::scrolled_down(self.buffer.lines@, new.buffer.lines@, self.buffer.top(),
                    self.cols as nat, row, self.line_region_end(),
                    min(param_or(n, 1) as int, self.line_region_end() - row), self.pen)
                &&& marked(self.dirty_lines@, new.dirty_lines@, row, self.line_region_end())
            },
            Function::Ech(n) => {
                &&& *new == (Terminal { buffer: new.buffer, dirty_lines: new.dirty_lines, ..*self })
                &&& self.buffer.erased(&new.buffer, col, row, EraseMode::NextChars(param_or(n, 1)), self.pen)
                &&& marked(self.dirty_lines@, new.dirty_lines@, row, row + 1)
            },
            Function::Ed(scope) => {
                &&& *new == (Terminal { buffer: new.buffer, dirty_lines: new.dirty_lines, ..*self })
                &&& match scope {
                    EdScope::Below => self.buffer.erased(&new.buffer, col, row, EraseMode::FromCursorToEndOfView, self.pen)
                        && marked(self.dirty_lines@, new.dirty_lines@, row, self.rows as int),
                    EdScope::Above => self.buffer.erased(&new.buffer, col, row, EraseMode::FromStartOfViewToCursor, self.pen)
                        && marked(self.dirty_lines@, new.dirty_lines@, 0, row + 1),
                    EdScope::All => self.buffer.erased(&new.buffer, col, row, EraseMode::WholeView, self.pen)
                        && marked(self.dirty_lines@, new.dirty_lines@, 0, self.rows as int),
                    EdScope::SavedLines => *new == *self,
                }
            },
            Function::El(scope) => {
                &&& *new == (Terminal { buffer: new.buffer, dirty_lines: new.dirty_lines, ..*self })
                &&& self.buffer.erased(&new.buffer, col, row, match scope {
                    ElScope::ToRight => EraseMode::FromCursorToEndOfLine,
                    ElScope::ToLeft => EraseMode::FromStartOfLineToCursor,
                    ElScope::All => EraseMode::WholeLine,
                }, self.pen)
                &&& marked(self.dirty_lines@, new.dirty_lines@, row, row + 1)
            },
            Function::G1d4(c) => *new == (Terminal { charsets: new.charsets, ..*self }) && new.charsets@ == self.charsets@.update(1, c),
            Function::Gzd4(c) => *new == (Terminal { charsets: new.charsets, ..*self }) && new.charsets@ == self.charsets@.update(0, c),
            Function::Ht => moved_only(self.moved(self.clamp_col(self.next_tab(1)), row)),
            Function::Hts => {
                &&& *new == (Terminal { tabs: new.tabs, ..*self })
                &&& new.tabs@.to_set() == if 0 < col < self.cols { self.tabs@.to_set().insert(col as usize) } else { self.tabs@.to_set() }
            },
            Function::Lf => exists|t: Terminal| #[trigger] self.down_with_scroll(&t)
                && *new == if self.new_line_mode { t.moved(0, t.cursor.row as int) } else { t },
            Function::Nel => exists|t: Terminal| #[trigger] self.down_with_scroll(&t) && *new == t.moved(0, t.cursor.row as int),
            Function::Print(ch) => self.printed(new, ch),
            Function::Ri => if row == self.top_margin {
                &&& *new == (Terminal { buffer: new.buffer, dirty_lines: new.dirty_lines, ..*self })
                &&& crate::buffer::scrolled_down(self.buffer.lines@, new.buffer.lines@, self.buffer.top(),
                    self.cols as nat, self.top_margin as int, self.bottom_margin + 1, 1, self.pen)
                &&& marked(self.dirty_lines@, new.dirty_lines@, self.top_margin as int, self.bottom_margin + 1)
            } else if row > 0 {
                *new == self.row_target(row - 1)
            } else {
                *new == *self
            },
            Function::Ris => new.is_initial(self.cols as nat, self.rows as nat, self.scrollback_limit),
            Function::Rm(modes) => *new == (Terminal {
                insert_mode: self.insert_mode && !modes@.contains(AnsiMode::Insert),
                new_line_mode: self.new_line_mode && !modes@.contains(AnsiMode::NewLine),
                ..*self
            }),
            Function::Sm(modes) => *new == (Terminal {
                insert_mode: self.insert_mode || modes@.contains(AnsiMode::Insert),
                new_line_mode: self.new_line_mode || modes@.contains(AnsiMode::NewLine),
                ..*self
            }),
            Function::Sd(n) => {
                &&& *new == (Terminal { buffer: new.buffer, dirty_lines: new.dirty_lines, ..*self })
                &&& crate::buffer::scrolled_down(self.buffer.lines@, new.buffer.lines@, self.buffer.top(),
                    self.cols as nat, self.top_margin as int, self.bottom_margin + 1,
                    min(param_or(n, 1) as int, self.bottom_margin + 1 - self.top_margin), self.pen)
                &&& marked(self.dirty_lines@, new.dirty_lines@, self.top_margin as int, self.bottom_margin + 1)
            },
            Function::Su(n) => {
                &&& *new == (Terminal { buffer: new.buffer, dirty_lines: new.dirty_lines, ..*self })
                &&& crate::buffer::scrolled_up(self.buffer.lines@, new.buffer.lines@, self.buffer.top(),
                    self.rows as int, self.cols as nat, self.top_margin as int, self.bottom_margin + 1,
                    min(param_or(n, 1) as int, self.bottom_margin + 1 - self.top_margin), self.pen)
                &&& marked(self.dirty_lines@, new.dirty_lines@, self.top_margin as int, self.bottom_margin + 1)
            },
            Function::Sgr(ops) => *new == (Terminal { pen: sgr_apply_all(self.pen, ops@), ..*self }),
            Function::Si => *new == (Terminal { active_charset: 0, ..*self }),
            Function::So => *new == (Terminal { active_charset: 1, ..*self }),
            Function::Tbc(scope) => {
                &&& *new == (Terminal { tabs: new.tabs, ..*self })
                &&& new.tabs@.to_set() == match scope {
                    TbcScope::CurrentColumn => self.tabs@.to_set().remove(col as usize),
                    TbcScope::All => Set::<usize>::empty(),
                }
            },
            Function::Vpa(n) => moved_only(self.row_target(param_or(n, 1) - 1)),
            Function::Vpr(n) => moved_only(self.down_target(param_or(n, 1) as int)),
            Function::Xtwinops(_) => *new == *self,
            Function::Rep(n) => self.repeated(new, param_or(n, 1) as nat),
            Function::Dch(n) => {
                let t = self.moved(self.clamp_col(col), row);
                let c = t.cursor.col as int;
                &&& *new == (Terminal { buffer: new.buffer, dirty_lines: new.dirty_lines, ..t })
                &&& t.buffer.same_but(&new.buffer, t.buffer.top() + row)
                &&& new.buffer.row(row).cells@ == crate::line::spec_delete(t.buffer.row(row).cells@, c,
                    min(param_or(n, 1) as int, t.cols - c), t.pen)
                &&& !new.buffer.row(row).wrapped
                &&& marked(self.dirty_lines@, new.dirty_lines@, row, row + 1)
            },
            Function::Ich(n) => {
                let t = self.moved(self.clamp_col(col), row);
                let c = t.cursor.col as int;
                let k = min(param_or(n, 1) as int, t.cols - c);
                &&& *new == (Terminal { buffer: new.buffer, dirty_lines: new.dirty_lines, ..t })
                &&& t.buffer.same_but(&new.buffer, t.buffer.top() + row)
                &&& new.buffer.row(row).wrapped == t.buffer.row(row).wrapped
                &&& new.buffer.row(row).cells@ == spaces_printed(
                    crate::line::spec_shift_right(t.buffer.row(row).cells@, c, k, t.pen), c, k as nat, t.pen)
                &&& forall|j: int| c <= j < c + k ==> #[trigger] new.buffer.row(row).cells@[j]
                    == crate::cell::Cell::spec_blank(t.pen)
                &&& marked(self.dirty_lines@, new.dirty_lines@, row, row + 1)
            },
        }
    }

    /// Executes the function `fun`, as `executed` says.
    pub fn execute(&mut self, fun: Function)
        requires
            old(self).wf(),
        ensures
            final(self).wf(),
            final(self).cols == old(self).cols,
            final(self).rows == old(self).rows,
            old(self).executed(final(self), fun),
    {
        match fun {
            Function::Bs | Function::Cbt(_) | Function::Cha(_) | Function::Cht(_) | Function::Cnl(_)
            | Function::Cpl(_) | Function::Cr | Function::Cub(_) | Function::Cud(_) | Function::Cuf(_)
            | Function::Cup(_, _) | Function::Cuu(_) | Function::Ht | Function::Vpa(_) | Function::Vpr(_)
            | Function::Decstbm(_, _) => self.execute_move(fun),
            Function::Dch(_) | Function::Decaln | Function::Dl(_) | Function::Ech(_) | Function::Ed(_)
            | Function::El(_) | Function::Ich(_) | Function::Il(_) | Function::Lf | Function::Nel
            | Function::Print(_) | Function::Rep(_) | Function::Ri | Function::Sd(_) | Function::Su(_) => {
                self.execute_edit(fun)
            },
            _ => self.execute_mode(fun),
        }
    }

    /// Executes a function that only moves the cursor.
    fn execute_move(&mut self, fun: Function)
        requires
            old(self).wf(),
            fun is Bs || fun is Cbt || fun is Cha || fun is Cht || fun is Cnl || fun is Cpl || fun is Cr
                || fun is Cub || fun is Cud || fun is Cuf || fun is Cup || fun is Cuu || fun is Ht
                || fun is Vpa || fun is Vpr || fun is Decstbm,
        ensures
            final(self).wf(),
            final(self).cols == old(self).cols,
            final(self).rows == old(self).rows,
            old(self).executed(final(self), fun),
    {
        match fun {
            Function::Bs => self.bs(),
            Function::Cbt(n) => self.cbt(n),
            Function::Cha(n) => self.cha(n),
            Function::Cht(n) => self.cht(n),
            Function::Cnl(n) => self.cnl(n),
            Function::Cpl(n) => self.cpl(n),
            Function::Cr => self.cr(),
            Function::Cub(n) => self.cub(n),
            Function::Cud(n) => self.cud(n),
            Function::Cuf(n) => self.cuf(n),
            Function::Cup(row, col) => self.cup(row, col),
            Function::Cuu(n) => self.cuu(n),
            Function::Ht => self.ht(),
            Function::Vpa(n) => self.vpa(n),
            Function::Vpr(n) => self.vpr(n),
            Function::Decstbm(top, bottom) => self.decstbm(top, bottom),
            _ => {},
        }
    }

    /// Executes a function that changes the cells of the view.
    fn execute_edit(&mut self, fun: Function)
        requires
            old(self).wf(),
            fun is Dch || fun is Decaln || fun is Dl || fun is Ech || fun is Ed || fun is El || fun is Ich
                || fun is Il || fun is Lf || fun is Nel || fun is Print || fun is Rep || fun is Ri
                || fun is Sd || fun is Su,
        ensures
            final(self).wf(),
            final(self).cols == old(self).cols,
            final(self).rows == old(self).rows,
            old(self).executed(final(self), fun),
    {
        match fun {
            Function::Dch(_) | Function::Decaln | Function::Dl(_) | Function::Ech(_) | Function::Ed(_)
            | Function::El(_) | Function::Ich(_) => self.execute_erase(fun),
            _ => self.execute_write(fun),
        }
    }

    /// Executes a function that erases, inserts or deletes cells or lines.
    fn execute_erase(&mut self, fun: Function)
        requires
            old(self).wf(),
            fun is Dch || fun is Decaln || fun is Dl || fun is Ech || fun is Ed || fun is El || fun is Ich,
        ensures
            final(self).wf(),
            final(self).cols == old(self).cols,
            final(self).rows == old(self).rows,
            old(self).executed(final(self), fun),
    {
        match fun {
            Function::Dch(n) => self.dch(n),
            Function::Decaln => self.decaln(),
            Function::Dl(n) => self.dl(n),
            Function::Ech(n) => self.ech(n),
            Function::Ed(scope) => self.ed(scope),
            Function::El(scope) => self.el(scope),
            Function::Ich(n) => self.ich(n),
            _ => {},
        }
    }

    /// Executes a function that prints, feeds lines or scrolls.
    fn execute_write(&mut self, fun: Function)
        requires
            old(self).wf(),
            fun is Il || fun is Lf || fun is Nel || fun is Print || fun is Rep || fun is Ri || fun is Sd || fun is Su,
        ensures
            final(self).wf(),
            final(self).cols == old(self).cols,
            final(self).rows == old(self).rows,
            old(self).executed(final(self), fun),
    {
        match fun {
            Function::Il(n) => self.il(n),
            Function::Lf => self.lf(),
            Function::Nel => self.nel(),
            Function::Print(ch) => self.print(ch),
            Function::Rep(n) => self.rep(n),
            Function::Ri => self.ri(),
            Function::Sd(n) => self.sd(n),
            Function::Su(n) => self.su(n),
            _ => {},
        }
    }

    /// Executes a function that changes modes, tab stops, the pen, the
    /// charsets or the saved cursor, or resets the terminal.
    fn execute_mode(&mut self, fun: Function)
        requires
            old(self).wf(),
            fun is Ctc || fun is Decrc || fun is Decrst || fun is Decsc || fun is Decset || fun is Decstr
                || fun is G1d4 || fun is Gzd4 || fun is Hts || fun is Ris || fun is Rm || fun is Scorc
                || fun is Scosc || fun is Sgr || fun is Si || fun is Sm || fun is So || fun is Tbc
                || fun is Xtwinops,
        ensures
            final(self).wf(),
            final(self).cols == old(self).cols,
            final(self).rows == old(self).rows,
            old(self).executed(final(self), fun),
    {
        match fun {
            Function::Decrst(_) | Function::Decset(_) | Function::Decstr | Function::Ris | Function::Rm(_)
            | Function::Sm(_) | Function::Sgr(_) | Function::Xtwinops(_) => self.execute_setting(fun),
            _ => self.execute_state(fun),
        }
    }

    /// Executes a function that sets or resets modes or the pen.
    fn execute_setting(&mut self, fun: Function)
        requires
            old(self).wf(),
            fun is Decrst || fun is Decset || fun is Decstr || fun is Ris || fun is Rm || fun is Sm
                || fun is Sgr || fun is Xtwinops,
        ensures
            final(self).wf(),
            final(self).cols == old(self).cols,
            final(self).rows == old(self).rows,
            old(self).executed(final(self), fun),
    {
        match fun {
            Function::Decrst(modes) => self.decrst(&modes),
            Function::Decset(modes) => self.decset(&modes),
            Function::Decstr => self.soft_reset(),
            Function::Ris => self.hard_reset(),
            Function::Rm(modes) => self.rm(&modes),
            Function::Sm(modes) => self.sm(&modes),
            Function::Sgr(ops) => self.sgr(&ops),
            Function::Xtwinops(op) => self.xtwinops(op),
            _ => {},
        }
    }

    /// Executes a function that changes tab stops, the charsets or the
    /// saved cursor.
    fn execute_state(&mut self, fun: Function)
        requires
            old(self).wf(),
            fun is Ctc || fun is Decrc || fun is Decsc || fun is G1d4 || fun is Gzd4 || fun is Hts
                || fun is Scorc || fun is Scosc || fun is Si || fun is So || fun is Tbc,
        ensures
            final(self).wf(),
            final(self).cols == old(self).cols,
            final(self).rows == old(self).rows,
            old(self).executed(final(self), fun),
    {
        match fun {
            Function::Decrc | Function::Decsc | Function::Scorc | Function::Scosc => self.execute_ctx(fun),
            _ => self.execute_tabs(fun),
        }
    }

    /// Executes a function that saves or restores the cursor.
    fn execute_ctx(&mut self, fun: Function)
        requires
            old(self).wf(),
            fun is Decrc || fun is Decsc || fun is Scorc || fun is Scosc,
        ensures
            final(self).wf(),
            final(self).cols == old(self).cols,
            final(self).rows == old(self).rows,
            old(self).executed(final(self), fun),
    {
        match fun {
            Function::Decrc => self.restore_cursor(),
            Function::Decsc => self.save_cursor(),
            Function::Scorc => self.restore_cursor(),
            Function::Scosc => self.save_cursor(),
            _ => {},
        }
    }

    /// Executes a function that changes tab stops or the charsets.
    fn execute_tabs(&mut self, fun: Function)
        requires
            old(self).wf(),
            fun is Ctc || fun is G1d4 || fun is Gzd4 || fun is Hts || fun is Si || fun is So || fun is Tbc,
        ensures
            final(self).wf(),
            final(self).cols == old(self).cols,
            final(self).rows == old(self).rows,
            old(self).executed(final(self), fun),
    {
        match fun {
            Function::Ctc(op) => self.ctc(op),
            Function::G1d4(charset) => self.g1d4(charset),
            Function::Gzd4(charset) => self.gzd4(charset),
            Function::Hts => self.set_tab(),
            Function::Si => self.si(),
            Function::So => self.so(),
            Function::Tbc(scope) => self.tbc(scope),
            _ => {},
        }
    }

    /// Trimming the scrollback of the active buffer down to its soft limit
    /// when it is over the hard one, as `new`, with `removed` the rows
    /// trimmed from the primary buffer (none from the alternate one).
    pub open spec fn collected(&self, new: &Terminal, removed: Seq<Line>) -> bool {
        let b = self.buffer;
        let e = if b.trim_needed { crate::buffer::trim_excess(b.lines@.len() as int, b.rows as int, b.scrollback_limit) } else { 0 };
        &&& *new == (Terminal { buffer: new.buffer, ..*self })
        &&& !new.buffer.trim_needed
        &&& new.buffer.lines@ == b.lines@.skip(e)
        &&& new.buffer.cols == b.cols
        &&& new.buffer.rows == b.rows
        &&& new.buffer.scrollback_limit == b.scrollback_limit
        &&& removed == if self.active_buffer_type == BufferType::Alternate { Seq::<Line>::empty() } else { b.lines@.take(e) }
    }

    /// Cuts the scrollback of the active buffer back to its limit when due,
    /// and returns the lines it removed from the primary buffer (none while
    /// the alternate buffer is active).
    pub fn gc(&mut self) -> (removed: Vec<Line>)
        requires
            old(self).wf(),
        ensures
            final(self).wf(),
            *final(self) == (Terminal { buffer: final(self).buffer, ..*old(self) }),
            !final(self).buffer.trim_needed,
            within_limit(final(self).buffer),
            ({
                let b = old(self).buffer;
                let e = if b.trim_needed { crate::buffer::trim_excess(b.lines@.len() as int, b.rows as int, b.scrollback_limit) } else { 0 };
                &&& final(self).buffer.lines@ == b.lines@.skip(e)
                &&& final(self).buffer.cols == b.cols
                &&& final(self).buffer.rows == b.rows
                &&& final(self).buffer.scrollback_limit == b.scrollback_limit
                &&& removed@ == if old(self).active_buffer_type == BufferType::Alternate {
                    Seq::<Line>::empty()
                } else {
                    b.lines@.take(e)
                }
            }),
            old(self).collected(final(self), removed@),
    {
        let lines = self.buffer.gc();
        proof {
            let b = old(self).buffer;
            if b.trim_needed {
                if let Some(l) = b.scrollback_limit {
                    let e = crate::buffer::trim_excess(b.lines@.len() as int, b.rows as int, b.scrollback_limit);
                    assert(l.soft <= l.hard);
                }
            }
        }
        if self.active_buffer_type == BufferType::Alternate {
            return Vec::new();
        }
        match lines {
            Some(v) => v,
            None => {
                assert(old(self).buffer.lines@.take(0) =~= Seq::<Line>::empty());
                Vec::new()
            },
        }
    }

    /// The rows of the view that changed since the last call, in order;
    /// afterwards none counts as changed.
    pub fn changes(&mut self) -> (c: Vec<usize>)
        requires
            old(self).wf(),
        ensures
            final(self).wf(),
            *final(self) == (Terminal { dirty_lines: final(self).dirty_lines, ..*old(self) }),
            c@ == crate::dirty_lines::dirty_indices(old(self).dirty_lines@, old(self).rows as int),
            final(self).dirty_lines@ == Seq::new(old(self).rows as nat, |i: int| false),
    {
        let c = self.dirty_lines.to_vec();
        self.dirty_lines.clear();
        c
    }

    /// The rows of the view of the active buffer.
    pub fn view(&self) -> (v: &[Line])
        requires
            self.wf(),
        ensures
            v@ == self.buffer.lines@.subrange(self.buffer.top(), self.buffer.lines@.len() as int),
    {
        self.buffer.view()
    }

    /// All lines of the active buffer: the scrollback, then the view.
    pub fn lines(&self) -> (v: &[Line])
        ensures
            v@ == self.buffer.lines@,
    {
        self.buffer.lines()
    }

    /// Row `n` of the view.
    pub fn line(&self, n: usize) -> (l: &Line)
        requires
            self.wf(),
            n < self.rows,
        ensures
            *l == self.buffer.row(n as int),
    {
        let v = self.buffer.view();
        &v[n]
    }


    fn primary_buffer(&self) -> (b: &Buffer)
        ensures
            *b == self.spec_primary(),
    {
        if self.active_buffer_type == BufferType::Primary { &self.buffer } else { &self.other_buffer }
    }

    fn alternate_buffer(&self) -> (b: &Buffer)
        ensures
            *b == if self.active_buffer_type == BufferType::Alternate { self.buffer } else { self.other_buffer },
    {
        if self.active_buffer_type == BufferType::Alternate { &self.buffer } else { &self.other_buffer }
    }

    /// The text of the primary buffer: one string per logical line, with the
    /// white space at its end trimmed.
    pub fn text(&self) -> (t: Vec<String>)
        ensures
            t@.len() == crate::buffer::text_from(self.spec_primary().lines@, Seq::empty()).len(),
            forall|i: int| 0 <= i < t@.len() ==> #[trigger] t@[i]@
                == crate::buffer::text_from(self.spec_primary().lines@, Seq::empty())[i],
    {
        self.primary_buffer().text()
    }
}

/// What the first `i + 1` items hold is what the first `i` hold and item `i`.
proof fn lemma_take_contains<T>(s: Seq<T>, i: int)
    requires
        0 <= i < s.len(),
    ensures
        forall|x: T| #[trigger] s.take(i + 1).contains(x) <==> (s.take(i).contains(x) || s[i] == x),
{
    assert forall|x: T| #[trigger] s.take(i + 1).contains(x) <==> (s.take(i).contains(x) || s[i] == x) by {
        if s.take(i + 1).contains(x) {
            let j = choose|j: int| 0 <= j < i + 1 && #[trigger] s.take(i + 1)[j] == x;
            if j < i {
                assert(s.take(i)[j] == x);
            }
        }
        if s.take(i).contains(x) {
            let j = choose|j: int| 0 <= j < i && #[trigger] s.take(i)[j] == x;
            assert(s.take(i + 1)[j] == x);
        }
        if s[i] == x {
            assert(s.take(i + 1)[i] == x);
        }
    }

}

/// Printing a space in `pen` at column `c` blanks it and keeps the blanks
/// from `lo` up to it.
proof fn lemma_print_space(s: Seq<crate::cell::Cell>, c: int, pen: Pen, lo: int)
    requires
        crate::line::wide_ok(s),
        0 <= lo <= c < s.len(),
        forall|j: int| lo <= j < c ==> #[trigger] s[j] == crate::cell::Cell::spec_blank(pen),
    ensures
        ({
            let t = crate::line::spec_print(s, c, crate::line::is_wide(' '), ' ', pen).0;
            forall|j: int| lo <= j <= c ==> #[trigger] t[j] == crate::cell::Cell::spec_blank(pen)
        }),
{
    assert(crate::line::cell_ok(s, c));
    assert(!crate::line::is_wide(' '));
}

/// Printing `E` in the default pen over a row of `E`s up to column `c`
/// keeps them and puts one at `c`.
proof fn lemma_print_e(s: Seq<crate::cell::Cell>, c: int)
    requires
        crate::line::wide_ok(s),
        0 <= c < s.len(),
        forall|j: int| 0 <= j < c ==> #[trigger] s[j]
            == (crate::cell::Cell { ch: 'E', occupancy: Occupancy::Single, pen: Pen::spec_default() }),
    ensures
        ({
            let t = crate::line::spec_print(s, c, crate::line::is_wide('E'), 'E', Pen::spec_default()).0;
            forall|j: int| 0 <= j <= c ==> #[trigger] t[j]
                == (crate::cell::Cell { ch: 'E', occupancy: Occupancy::Single, pen: Pen::spec_default() })
        }),
{
    assert(crate::line::cell_ok(s, c));
    assert(!crate::line::is_wide('E'));
    if c > 0 {
        assert(crate::line::cell_ok(s, c - 1));
    }
}

impl Default for Terminal {
    /// A terminal of 80 x 24 with an unlimited scrollback.
    fn default() -> (t: Self)
        ensures
            t.wf(),
            t.cols == 80,
            t.rows == 24,
            t.scrollback_limit.is_none(),
    {
        Terminal::new((80, 24), None)
    }
}

/// A buffer changed in one line only, without making it continue on the
/// next one, stays as the terminal needs it.
proof fn lemma_same_but_ok(b0: Buffer, b1: Buffer, i: int)
    requires
        buffer_ok(b0),
        b1.wf(),
        b0.same_but(&b1, i),
        0 <= i < b0.lines@.len(),
        b1.lines@[i].wrapped ==> b0.lines@[i].wrapped,
    ensures
        buffer_ok(b1),
{
    let k = b0.lines@.len() - 1;
    if k != i {
        assert(b1.lines@[k] == b0.lines@[k]);
    }
}

/// Marking a row other than the last one as continued keeps the buffer as
/// the terminal needs it, and marking the last one keeps all else.
proof fn lemma_wrap_ok(b0: Buffer, b1: Buffer, row: int)
    requires
        buffer_ok(b0),
        b1.wf(),
        0 <= row < b0.rows,
        b0.same_but(&b1, b0.top() + row),
    ensures
        row < b0.rows - 1 ==> buffer_ok(b1),
        !b1.trim_needed ==> within_limit(b1),
{
    let k = b0.lines@.len() - 1;
    if row < b0.rows - 1 {
        assert(b1.lines@[k] == b0.lines@[k]);
    }
}

/// A new buffer of the terminal's kind holds.
proof fn lemma_new_buffer_ok(b: Buffer)
    requires
        b.wf(),
        b.lines@.len() == b.rows,
        forall|i: int| 0 <= i < b.rows ==> #[trigger] crate::buffer::is_blank_line(b.lines@[i], b.cols as nat, crate::buffer::pen_or_default(None)),
    ensures
        buffer_ok(b),
{
    assert(crate::buffer::is_blank_line(b.lines@[b.lines@.len() - 1], b.cols as nat, crate::buffer::pen_or_default(None)));
}

/// The value of a numeric parameter, `default` standing for 0.
pub fn as_usize(value: u16, default: usize) -> (n: usize)
    ensures
        n == param_or(value, default),
{
    if value == 0 { default } else { value as usize }
}

/// A soft reset (DECSTR) shows the cursor, turns insert and origin modes
/// off, resets the margins to the whole view, the pen to the default, both
/// charsets to ASCII with G0 active, and the saved cursor to its default;
/// it leaves the buffers, the active screen, the cursor's place, the tab
/// stops and the auto-wrap, new-line and cursor-key modes as they were.
pub proof fn lemma_soft_reset(t: Terminal, new: Terminal)
    requires
        t.wf(),
        t.executed(&new, Function::Decstr),
    ensures
        new.cursor.visible,
        !new.insert_mode,
        !new.origin_mode,
        new.top_margin == 0,
        new.bottom_margin == t.rows - 1,
        new.pen == Pen::spec_default(),
        new.charsets@ == seq![Charset::Ascii, Charset::Ascii],
        new.active_charset == 0,
        new.saved_ctx == SavedCtx::spec_default(),
        new.buffer == t.buffer,
        new.other_buffer == t.other_buffer,
        new.active_buffer_type == t.active_buffer_type,
        new.cursor.col == t.cursor.col,
        new.cursor.row == t.cursor.row,
        new.tabs == t.tabs,
        new.auto_wrap_mode == t.auto_wrap_mode,
        new.new_line_mode == t.new_line_mode,
        new.cursor_keys_mode == t.cursor_keys_mode,
        new.cols == t.cols,
        new.rows == t.rows,
{
}

/// The functions that leave the screen kept aside alone: all but the
/// switches between the screens, a resize by window operation, and a full
/// reset.
pub open spec fn keeps_other_screen(f: Function) -> bool {
    match f {
        Function::Decset(_) | Function::Decrst(_) | Function::Ris | Function::Xtwinops(_) => false,
        _ => true,
    }
}

/// Such a function leaves the screen kept aside, the active one active and
/// the size as it was.
pub proof fn lemma_keeps_other_screen(t: Terminal, new: Terminal, f: Function)
    requires
        keeps_other_screen(f),
        t.executed(&new, f),
    ensures
        new.other_buffer == t.other_buffer,
        new.active_buffer_type == t.active_buffer_type,
        new.cols == t.cols,
        new.rows == t.rows,
{
    match f {
        Function::Rep(n) => {
            if t.cursor.col != 0 {
                let k = param_or(n, 1) as nat;
                let cells = t.buffer.row(t.cursor.row as int).cells@;
                let ch = cells[rep_col(cells, t.cursor.col - 1)].ch;
                let ts = choose|ts: Seq<Terminal>| {
                    &&& ts.len() == k + 1
                    &&& ts[0] == t
                    &&& #[trigger] ts[k as int] == new
                    &&& forall|i: int| 0 <= i < k ==> #[trigger] ts[i].printed(&ts[i + 1], ch)
                };
                lemma_prints_keep_other(ts, ch, k as int);
            }
        },
        _ => {},
    }
}

/// Printing, one character after another, leaves the screen kept aside and
/// the active one active.
proof fn lemma_prints_keep_other(ts: Seq<Terminal>, ch: char, n: int)
    requires
        0 <= n < ts.len(),
        forall|i: int| 0 <= i < n ==> #[trigger] ts[i].printed(&ts[i + 1], ch),
    ensures
        ts[n].other_buffer == ts[0].other_buffer,
        ts[n].active_buffer_type == ts[0].active_buffer_type,
        ts[n].cols == ts[0].cols,
        ts[n].rows == ts[0].rows,
    decreases n,
{
    if n > 0 {
        lemma_prints_keep_other(ts, ch, n - 1);
        let j = n - 1;
        assert(ts[j].printed(&ts[j + 1], ch));
        assert(j + 1 == n);
    }
}

/// Setting or resetting a single mode is that mode's change.
proof fn lemma_one_mode(t: Terminal, new: Terminal, modes: Seq<DecMode>, set: bool)
    requires
        modes.len() == 1,
        t.modes_changed(&new, modes, set),
    ensures
        t.mode_changed(&new, modes[0], set),
{
    let ts = choose|ts: Seq<Terminal>| {
        &&& ts.len() == modes.len() + 1
        &&& ts[0] == t
        &&& #[trigger] ts[modes.len() as int] == new
        &&& forall|i: int| 0 <= i < modes.len() ==> #[trigger] ts[i].mode_changed(&ts[i + 1], modes[i], set)
    };
    let z: int = 0;
    assert(ts[z].mode_changed(&ts[z + 1], modes[z], set));
    assert(ts[z + 1] == new);
}

/// The alternate screen gives the primary one back as it was: from the
/// primary screen, executing `Decset([AltScreenBuffer])` shows a blank
/// screen and keeps the primary one aside; executing any functions that do
/// not switch screens, resize or reset the terminal (`keeps_other_screen`),
/// printing among them, leaves it aside untouched and the size as it was;
/// executing `Decrst([AltScreenBuffer])` then shows the primary screen
/// again, with the lines, and so the view, it had before.
pub proof fn lemma_alt_screen_round_trip(
    t0: Terminal,
    f1: Function,
    ts: Seq<Terminal>,
    fs: Seq<Function>,
    f2: Function,
    t3: Terminal,
)
    requires
        t0.wf(),
        t0.active_buffer_type == BufferType::Primary,
        f1 matches Function::Decset(m) && m@ == seq![DecMode::AltScreenBuffer],
        f2 matches Function::Decrst(m) && m@ == seq![DecMode::AltScreenBuffer],
        ts.len() == fs.len() + 1,
        t0.executed(&ts[0], f1),
        forall|i: int| 0 <= i < fs.len() ==> keeps_other_screen(#[trigger] fs[i]) && ts[i].executed(&ts[i + 1], fs[i]),
        ts.last().executed(&t3, f2),
    ensures
        ts[0].active_buffer_type == BufferType::Alternate,
        forall|r: int| 0 <= r < t0.rows ==> #[trigger] crate::buffer::is_blank_line(ts[0].buffer.lines@[r],
            t0.cols as nat, t0.pen),
        t3.active_buffer_type == BufferType::Primary,
        t3.buffer.lines@ == t0.buffer.lines@,
        t3.buffer.rows == t0.buffer.rows,
        t3.buffer.lines@.subrange(t3.buffer.top(), t3.buffer.lines@.len() as int)
            == t0.buffer.lines@.subrange(t0.buffer.top(), t0.buffer.lines@.len() as int),
{
    let m1 = match f1 { Function::Decset(m) => m@, _ => Seq::empty() };
    let m2 = match f2 { Function::Decrst(m) => m@, _ => Seq::empty() };
    lemma_one_mode(t0, ts[0], m1, true);
    let a = choose|t: Terminal| #[trigger] t0.to_alternate(&t) && t.reflowed(&ts[0]);
    assert(a.buffer.lines@ == ts[0].buffer.lines@);
    lemma_chain_keeps_other(ts, fs, fs.len() as int);
    let n = fs.len() as int;
    assert(ts.last() == ts[n]);
    lemma_one_mode(ts[n], t3, m2, false);
    let b = choose|t: Terminal| #[trigger] ts[n].to_primary(&t) && t.reflowed(&t3);
    assert(b.buffer == t0.buffer);
}

/// Along functions that keep the screen kept aside, it stays, and so does
/// the active screen.
proof fn lemma_chain_keeps_other(ts: Seq<Terminal>, fs: Seq<Function>, n: int)
    requires
        ts.len() == fs.len() + 1,
        0 <= n <= fs.len(),
        forall|i: int| 0 <= i < fs.len() ==> keeps_other_screen(#[trigger] fs[i]) && ts[i].executed(&ts[i + 1], fs[i]),
    ensures
        ts[n].other_buffer == ts[0].other_buffer,
        ts[n].active_buffer_type == ts[0].active_buffer_type,
        ts[n].cols == ts[0].cols,
        ts[n].rows == ts[0].rows,
    decreases n,
{
    if n > 0 {
        lemma_chain_keeps_other(ts, fs, n - 1);
        let j = n - 1;
        assert(keeps_other_screen(fs[j]) && ts[j].executed(&ts[j + 1], fs[j]));
        lemma_keeps_other_screen(ts[j], ts[j + 1], fs[j]);
    }
}

} // verus!
