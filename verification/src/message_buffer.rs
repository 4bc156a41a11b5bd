//! A bounded, evicting history of wrapped message lines, and its rendering
//! into a bordered sub-rectangle of the canvas: a bottom-anchored,
//! reverse-chronological, wrapped and clipped scrollback view.

use std::collections::VecDeque;
use vstd::prelude::*;

use crate::canvas::{blank_unit, draw_slot, Canvas, CANVAS_HEIGHT, CANVAS_WIDTH};
use crate::char_width::is_drawable_char;
use crate::drawable_unit::{all_chars_drawable, segment, DrawableUnit, UnitColor};
use crate::geometry::{Pair, Rectangle};
use crate::layer::Layer;
use crate::ui_canvas::{UiCanvas, UiLattice};

verus! {

/// One logical line of the message log: a bounded ring of render cells.
/// Oldest cells leave from the front when a cell beyond the capacity arrives.
pub struct MessageLine {
    units: VecDeque<DrawableUnit>,
    is_growable: bool,
    max_message_length: usize,
}

/// What a bounded ring holds after appending `added` to `current`: everything
/// when it fits the capacity, else the newest `capacity` cells.
pub open spec fn ring_append(
    current: Seq<DrawableUnit>,
    added: Seq<DrawableUnit>,
    capacity: nat,
) -> Seq<DrawableUnit> {
    let all = current + added;
    if all.len() <= capacity {
        all
    } else {
        all.skip(all.len() - capacity)
    }
}

impl MessageLine {
    /// The cells of the line, oldest first.
    pub closed spec fn units_seq(self) -> Seq<DrawableUnit> {
        self.units@
    }

    /// Whether text may still be appended to this line.
    pub closed spec fn growable(self) -> bool {
        self.is_growable
    }

    /// The most cells the line will hold before evicting old ones.
    pub closed spec fn capacity(self) -> usize {
        self.max_message_length
    }

    /// The line never holds more cells than its capacity.
    pub open spec fn wf(self) -> bool {
        self.units_seq().len() <= self.capacity()
    }

    /// An empty line that text can still be appended to, with the given
    /// ring capacity.
    pub fn empty_growable_line(max_message_length: usize) -> (r: Self)
        ensures
            r.units_seq() == Seq::<DrawableUnit>::empty(),
            r.growable(),
            r.capacity() == max_message_length,
            r.wf(),
    {
        MessageLine {
            units: VecDeque::with_capacity(max_message_length),
            is_growable: true,
            max_message_length,
        }
    }

    /// An empty line already sealed against further text.
    pub fn empty_ungrowable_line() -> (r: Self)
        ensures
            r.units_seq() == Seq::<DrawableUnit>::empty(),
            !r.growable(),
            r.capacity() == 0,
            r.wf(),
    {
        MessageLine { units: VecDeque::new(), is_growable: false, max_message_length: 0 }
    }

    /// The cells of the line, oldest first.
    pub fn units(&self) -> (r: Vec<DrawableUnit>)
        ensures
            r@ == self.units_seq(),
    {
        let mut r: Vec<DrawableUnit> = Vec::new();
        let mut i: usize = 0;
        let n = self.units.len();
        while i < n
            invariant
                n == self.units_seq().len(),
                i <= n,
                r@ == self.units_seq().take(i as int),
            decreases n - i,
        {
            r.push(self.units[i]);
            proof {
                assert(self.units_seq().take(i as int).push(self.units_seq()[i as int])
                    =~= self.units_seq().take(i as int + 1));
            }
            i += 1;
        }
        proof {
            assert(self.units_seq().take(n as int) =~= self.units_seq());
        }
        r
    }

    /// How many cells the line holds.
    pub fn len(&self) -> (r: usize)
        ensures
            r == self.units_seq().len(),
    {
        self.units.len()
    }

    /// The cell at `index`, counting from the oldest.
    pub fn unit_at(&self, index: usize) -> (r: DrawableUnit)
        requires
            index < self.units_seq().len(),
        ensures
            r == self.units_seq()[index as int],
    {
        self.units[index]
    }

    /// Appends cells at the back of the ring; once the capacity is reached,
    /// each arriving cell evicts the oldest one from the front.
    pub fn append_message(&mut self, units: &[DrawableUnit])
        requires
            old(self).growable(),
            old(self).capacity() >= 1,
            old(self).wf(),
        ensures
            final (self).units_seq() == ring_append(
                old(self).units_seq(),
                units@,
                old(self).capacity() as nat,
            ),
            final (self).growable() == old(self).growable(),
            final (self).capacity() == old(self).capacity(),
            final (self).wf(),
    {
        let cap = self.max_message_length;
        let n = units.len();
        let mut j: usize = 0;
        proof {
            assert(ring_append(old(self).units_seq(), units@.take(0), cap as nat) =~= old(
                self,
            ).units_seq());
        }
        while j < n
            invariant
                n == units@.len(),
                j <= n,
                cap == old(self).capacity(),
                cap >= 1,
                old(self).units_seq().len() <= cap,
                self.growable() == old(self).growable(),
                self.capacity() == old(self).capacity(),
                self.units_seq().len() <= cap,
                self.units_seq() == ring_append(
                    old(self).units_seq(),
                    units@.take(j as int),
                    cap as nat,
                ),
            decreases n - j,
        {
            let ghost before = self.units_seq();
            if self.units.len() == cap {
                let _evicted = self.units.pop_front();
            }
            self.units.push_back(units[j]);
            proof {
                lemma_ring_append_step(
                    old(self).units_seq(),
                    units@.take(j as int),
                    units@[j as int],
                    cap as nat,
                );
                assert(units@.take(j as int).push(units@[j as int]) =~= units@.take(j as int + 1));
                if before.len() == cap {
                    assert(self.units_seq() =~= before.skip(1).push(units@[j as int]));
                } else {
                    assert(self.units_seq() =~= before.push(units@[j as int]));
                }
            }
            j += 1;
        }
        proof {
            assert(units@.take(n as int) =~= units@);
        }
    }

    /// Seals the line: no more text can be appended to it.
    pub fn disable_growable(&mut self)
        requires
            old(self).growable(),
        ensures
            !final (self).growable(),
            final (self).units_seq() == old(self).units_seq(),
            final (self).capacity() == old(self).capacity(),
    {
        self.is_growable = false;
    }
}

/// Appending one cell to a ring drops the oldest cell exactly when the ring
/// is full.
proof fn lemma_ring_append_step(
    current: Seq<DrawableUnit>,
    added: Seq<DrawableUnit>,
    unit: DrawableUnit,
    capacity: nat,
)
    requires
        capacity >= 1,
        current.len() <= capacity,
    ensures
        ring_append(current, added.push(unit), capacity) == if ring_append(
            current,
            added,
            capacity,
        ).len() < capacity {
            ring_append(current, added, capacity).push(unit)
        } else {
            ring_append(current, added, capacity).skip(1).push(unit)
        },
{
    let all = current + added;
    assert(current + added.push(unit) =~= all.push(unit));
    if all.len() < capacity {
        assert(ring_append(current, added.push(unit), capacity) =~= ring_append(
            current,
            added,
            capacity,
        ).push(unit));
    } else {
        assert(ring_append(current, added, capacity).len() == capacity);
        assert(ring_append(current, added.push(unit), capacity) =~= ring_append(
            current,
            added,
            capacity,
        ).skip(1).push(unit));
    }
}

/// The bounded message history: at most `max_line_count` lines, each holding
/// at most `max_message_length` cells; the oldest line is evicted first.
pub struct MessageBuffer {
    lines: VecDeque<MessageLine>,
    max_line_count: usize,
    max_message_length: usize,
    border_unit: DrawableUnit,
}

/// A line history with a new line arriving: the oldest line leaves first when
/// the history is at its limit.
pub open spec fn evict_if_full(lines: Seq<MessageLine>, limit: usize) -> Seq<MessageLine> {
    if lines.len() == limit {
        lines.skip(1)
    } else {
        lines
    }
}

/// How adding text changes the history: its limits and border stay as they
/// are; the cells land at the end of the last line while it is growable, and
/// otherwise on a fresh growable line, the oldest line leaving first when the
/// history is at its limit.
pub open spec fn add_text_transition(
    pre: MessageBuffer,
    post: MessageBuffer,
    units: Seq<DrawableUnit>,
) -> bool {
    let limit = pre.message_length_limit() as nat;
    &&& post.line_limit() == pre.line_limit()
    &&& post.message_length_limit() == pre.message_length_limit()
    &&& post.border_view() == pre.border_view()
    &&& if pre.lines_seq().len() > 0 && pre.lines_seq().last().growable() {
        &&& post.lines_seq().len() == pre.lines_seq().len()
        &&& (forall|i: int|
            0 <= i < pre.lines_seq().len() - 1 ==> post.lines_seq()[i] == pre.lines_seq()[i])
        &&& post.lines_seq().last().units_seq() == ring_append(
            pre.lines_seq().last().units_seq(),
            units,
            limit,
        )
        &&& post.lines_seq().last().growable()
    } else {
        let kept = evict_if_full(pre.lines_seq(), pre.line_limit());
        &&& post.lines_seq().len() == kept.len() + 1
        &&& (forall|i: int| 0 <= i < kept.len() ==> post.lines_seq()[i] == kept[i])
        &&& post.lines_seq().last().units_seq() == ring_append(Seq::empty(), units, limit)
        &&& post.lines_seq().last().growable()
    }
}

impl MessageBuffer {
    /// The message lines, oldest first.
    pub closed spec fn lines_seq(self) -> Seq<MessageLine> {
        self.lines@
    }

    /// The most lines the history will hold before evicting the oldest.
    pub closed spec fn line_limit(self) -> usize {
        self.max_line_count
    }

    /// The most cells each line will hold before evicting its oldest.
    pub closed spec fn message_length_limit(self) -> usize {
        self.max_message_length
    }

    /// The unit drawn on the border around the message region.
    pub closed spec fn border_view(self) -> DrawableUnit {
        self.border_unit
    }

    /// The buffer's bounds always hold: never more lines than the line
    /// limit, never more cells in a line than the message length limit, and
    /// only the newest line still growable.
    pub open spec fn wf(self) -> bool {
        &&& 1 <= self.line_limit()
        &&& 1 <= self.message_length_limit()
        &&& self.lines_seq().len() <= self.line_limit()
        &&& forall|i: int|
            0 <= i < self.lines_seq().len() ==> (#[trigger] self.lines_seq()[i]).units_seq().len()
                <= self.lines_seq()[i].capacity()
        &&& forall|i: int|
            0 <= i < self.lines_seq().len() ==> (#[trigger] self.lines_seq()[i]).capacity()
                <= self.message_length_limit()
        &&& forall|i: int|
            0 <= i < self.lines_seq().len() && (#[trigger] self.lines_seq()[i]).growable() ==> i
                == self.lines_seq().len() - 1 && self.lines_seq()[i].capacity()
                == self.message_length_limit()
    }

    /// An empty message history holding at most `max_line_count` lines of at
    /// most `max_message_length` cells each, bordered by `border_unit` when
    /// drawn.
    pub fn new(max_line_count: usize, max_message_length: usize, border_unit: DrawableUnit) -> (r:
        Self)
        requires
            max_line_count >= 1,
            max_message_length >= 1,
        ensures
            r.wf(),
            r.lines_seq() == Seq::<MessageLine>::empty(),
            r.line_limit() == max_line_count,
            r.message_length_limit() == max_message_length,
            r.border_view() == border_unit,
    {
        MessageBuffer { lines: VecDeque::new(), max_line_count, max_message_length, border_unit }
    }

    /// Appends a new line at the back of the history, evicting the oldest
    /// line first when the history is at its limit.
    fn add_new_message_line(&mut self, new_message_line: MessageLine)
        requires
            old(self).wf(),
            new_message_line.units_seq().len() <= new_message_line.capacity(),
            new_message_line.capacity() <= old(self).message_length_limit(),
            new_message_line.growable() ==> new_message_line.capacity() == old(
                self,
            ).message_length_limit(),
            old(self).lines_seq().len() > 0 ==> !old(self).lines_seq().last().growable(),
        ensures
            final (self).lines_seq() == evict_if_full(
                old(self).lines_seq(),
                old(self).line_limit(),
            ).push(new_message_line),
            final (self).line_limit() == old(self).line_limit(),
            final (self).message_length_limit() == old(self).message_length_limit(),
            final (self).border_view() == old(self).border_view(),
            final (self).wf(),
    {
        if self.lines.len() == self.max_line_count {
            let _evicted = self.lines.pop_front();
        }
        self.lines.push_back(new_message_line);
    }

    /// How many lines the history holds.
    pub fn line_count(&self) -> (r: usize)
        ensures
            r == self.lines_seq().len(),
    {
        self.lines.len()
    }

    /// The cells of the line at `index`, oldest line first.
    pub fn line_units_at(&self, index: usize) -> (r: Vec<DrawableUnit>)
        requires
            index < self.lines_seq().len(),
        ensures
            r@ == self.lines_seq()[index as int].units_seq(),
    {
        self.lines[index].units()
    }

    /// Adds text to the history: the segmented cells go at the end of the
    /// last line while it is still growable; otherwise they start a new
    /// growable line, evicting the oldest line first when the history is at
    /// its limit. Every character must display one or two columns wide.
    pub fn add_text(&mut self, text: &str, color: UnitColor)
        requires
            old(self).wf(),
            forall|i: int| 0 <= i < text@.len() ==> is_drawable_char(#[trigger] text@[i]),
        ensures
            final (self).wf(),
            add_text_transition(*old(self), *final (self), segment(text@, color)),
    {
        let units = DrawableUnit::create_units_from(text, color);
        let last_line = self.lines.pop_back();
        match last_line {
            Some(mut line) => {
                if line.is_growable {
                    proof {
                        assert(old(self).lines_seq()[old(self).lines_seq().len() - 1].growable());
                    }
                    line.append_message(units.as_slice());
                    self.lines.push_back(line);
                    proof {
                        assert(final (self).lines_seq() =~= old(self).lines_seq().drop_last().push(
                            line,
                        ));
                        assert(final (self).lines_seq() =~= old(self).lines_seq().update(
                            old(self).lines_seq().len() - 1,
                            line,
                        ));
                    }
                } else {
                    self.lines.push_back(line);
                    proof {
                        assert(self.lines@ =~= old(self).lines_seq());
                    }
                    let mut new_line = MessageLine::empty_growable_line(self.max_message_length);
                    new_line.append_message(units.as_slice());
                    self.add_new_message_line(new_line);
                }
            },
            None => {
                let mut new_line = MessageLine::empty_growable_line(self.max_message_length);
                new_line.append_message(units.as_slice());
                self.add_new_message_line(new_line);
            },
        }
    }

    /// Adds `text` exactly as `add_text` does, after checking that every
    /// character displays one or two columns wide; a text holding any other
    /// character — a control character, say — is rejected, and the history is
    /// left as it was.
    pub fn try_add_text(&mut self, text: &str, color: UnitColor) -> (accepted: bool)
        requires
            old(self).wf(),
        ensures
            final (self).wf(),
            accepted == (forall|i: int|
                0 <= i < text@.len() ==> is_drawable_char(#[trigger] text@[i])),
            accepted ==> add_text_transition(*old(self), *final (self), segment(text@, color)),
            !accepted ==> *final (self) == *old(self),
    {
        if all_chars_drawable(text) {
            self.add_text(text, color);
            true
        } else {
            false
        }
    }

    /// Adds a line break: the last line is sealed in place while it is still
    /// growable; otherwise an already-sealed empty line is appended, evicting
    /// the oldest line first when the history is at its limit.
    pub fn add_newline(&mut self)
        requires
            old(self).wf(),
        ensures
            final (self).wf(),
            final (self).line_limit() == old(self).line_limit(),
            final (self).message_length_limit() == old(self).message_length_limit(),
            final (self).border_view() == old(self).border_view(),
            if old(self).lines_seq().len() > 0 && old(self).lines_seq().last().growable() {
                &&& final (self).lines_seq().len() == old(self).lines_seq().len()
                &&& forall|i: int|
                    0 <= i < old(self).lines_seq().len() - 1 ==> final (self).lines_seq()[i] == old(
                        self,
                    ).lines_seq()[i]
                &&& final (self).lines_seq().last().units_seq() == old(
                    self,
                ).lines_seq().last().units_seq()
                &&& !final (self).lines_seq().last().growable()
            } else {
                let kept = evict_if_full(old(self).lines_seq(), old(self).line_limit());
                &&& final (self).lines_seq().len() == kept.len() + 1
                &&& forall|i: int| 0 <= i < kept.len() ==> final (self).lines_seq()[i] == kept[i]
                &&& final (self).lines_seq().last().units_seq() == Seq::<DrawableUnit>::empty()
                &&& !final (self).lines_seq().last().growable()
            },
    {
        let last_line = self.lines.pop_back();
        match last_line {
            Some(mut line) => {
                if line.is_growable {
                    proof {
                        assert(old(self).lines_seq()[old(self).lines_seq().len() - 1].growable());
                    }
                    line.disable_growable();
                    self.lines.push_back(line);
                    proof {
                        assert(final (self).lines_seq() =~= old(self).lines_seq().drop_last().push(
                            line,
                        ));
                    }
                } else {
                    self.lines.push_back(line);
                    proof {
                        assert(self.lines@ =~= old(self).lines_seq());
                    }
                    self.add_new_message_line(MessageLine::empty_ungrowable_line());
                }
            },
            None => {
                self.add_new_message_line(MessageLine::empty_ungrowable_line());
            },
        }
    }
}

/// Law: however many cells arrive, a ring that starts within its capacity
/// never exceeds it: it keeps the newest cells, in order, and fills up to the
/// capacity at most.
pub proof fn lemma_ring_append_never_exceeds_capacity(
    current: Seq<DrawableUnit>,
    added: Seq<DrawableUnit>,
    capacity: nat,
)
    requires
        current.len() <= capacity,
    ensures
        ring_append(current, added, capacity).len() <= capacity,
        ring_append(current, added, capacity).len() == if current.len() + added.len() <= capacity {
            current.len() + added.len()
        } else {
            capacity
        },
        forall|k: int|
            0 <= k < ring_append(current, added, capacity).len() ==> ring_append(
                current,
                added,
                capacity,
            )[k] == (current + added)[current.len() + added.len() - ring_append(
                current,
                added,
                capacity,
            ).len() + k],
{
}

/// Law: however many texts and line breaks have been added, a well-formed
/// buffer holds at most `line_limit` lines, and no line holds more cells than
/// `message_length_limit`.
pub proof fn lemma_buffer_never_exceeds_bounds(buffer: MessageBuffer)
    requires
        buffer.wf(),
    ensures
        buffer.lines_seq().len() <= buffer.line_limit(),
        forall|i: int|
            0 <= i < buffer.lines_seq().len() ==> (#[trigger] buffer.lines_seq()[i]).units_seq().len()
                <= buffer.message_length_limit(),
{
}

/// Whether `(x, y)` lies in `region`, its one-cell border included.
pub open spec fn region_contains(region: Rectangle<UiLattice>, x: int, y: int) -> bool {
    region.left_edge <= x <= region.right_edge && region.top_edge <= y <= region.bottom_edge
}

/// Whether `(x, y)` lies strictly inside `region`, off its one-cell border.
pub open spec fn interior_contains(region: Rectangle<UiLattice>, x: int, y: int) -> bool {
    region.left_edge + 1 <= x <= region.right_edge - 1 && region.top_edge + 1 <= y
        <= region.bottom_edge - 1
}

/// What the border-and-fill pass puts at a region cell: the buffer's border
/// unit on the one-cell border, blank inside.
pub open spec fn border_or_blank(
    buffer: MessageBuffer,
    region: Rectangle<UiLattice>,
    x: int,
    y: int,
) -> DrawableUnit {
    if interior_contains(region, x, y) {
        blank_unit()
    } else {
        buffer.border_view()
    }
}

/// How many interior rows a line of `line_len` cells occupies when wrapped at
/// `interior_width` cells per row: at least one, even for an empty line.
pub open spec fn rows_needed(line_len: int, interior_width: int) -> int {
    let q = div_ceil_spec(line_len, interior_width);
    if q < 1 {
        1
    } else {
        q
    }
}

/// The cell that `line`, wrapped at `interior_width` cells per row with its
/// first wrapped row on canvas row `start`, shows at interior column `col`
/// (counted from the interior's left edge) of canvas row `row`; `None` where
/// the line has no cell.
pub open spec fn line_cell(
    line: MessageLine,
    start: int,
    interior_width: int,
    col: int,
    row: int,
) -> Option<DrawableUnit> {
    let cell_index = (row - start) * interior_width + col;
    if 0 <= col < interior_width && 0 <= cell_index < line.units_seq().len() {
        Some(line.units_seq()[cell_index])
    } else {
        None
    }
}

/// The cell that the bottom-anchored pagination of `lines` (newest last)
/// shows at interior column `col` of canvas row `row`, when the newest
/// line's last wrapped row sits at canvas row `end_row` and rows above
/// `interior_top` are out of view. Walking from the newest line to the
/// oldest, each line takes `rows_needed` rows ending where the previous
/// (newer) one started; the walk stops once the next line would end above the
/// interior's top row, or start below row zero.
pub open spec fn paged_cell(
    lines: Seq<MessageLine>,
    end_row: int,
    interior_top: int,
    interior_width: int,
    col: int,
    row: int,
) -> Option<DrawableUnit>
    decreases lines.len(),
{
    if lines.len() == 0 {
        None
    } else if end_row < interior_top {
        None
    } else {
        let line = lines.last();
        let needed = rows_needed(line.units_seq().len() as int, interior_width);
        let start = end_row - needed + 1;
        let cell_index = (row - start) * interior_width + col;
        if start <= row <= end_row && row >= interior_top && 0 <= col < interior_width && 0
            <= cell_index < line.units_seq().len() {
            Some(line.units_seq()[cell_index])
        } else if end_row - needed < 0 {
            None
        } else {
            paged_cell(lines.drop_last(), end_row - needed, interior_top, interior_width, col, row)
        }
    }
}

/// The content `draw_message` composites at a region cell: on the border the
/// border unit, inside the paginated cell where one is in view, blank
/// elsewhere.
pub open spec fn message_display_unit(
    buffer: MessageBuffer,
    region: Rectangle<UiLattice>,
    x: int,
    y: int,
) -> DrawableUnit {
    if interior_contains(region, x, y) {
        match paged_cell(
            buffer.lines_seq(),
            region.bottom_edge - 1,
            region.top_edge + 1,
            region.right_edge - region.left_edge - 1,
            x - (region.left_edge + 1),
            y,
        ) {
            Some(u) => u,
            None => blank_unit(),
        }
    } else {
        buffer.border_view()
    }
}

/// The least integer no smaller than `x / y`.
pub fn div_ceil(x: usize, y: usize) -> (r: usize)
    requires
        y >= 1,
    ensures
        r == div_ceil_spec(x as int, y as int),
{
    let quotient = x / y;
    let remainder = x % y;
    if remainder == 0 {
        quotient
    } else {
        proof {
            assert(x / y + 1 <= usize::MAX) by (nonlinear_arith)
                requires
                    y >= 1,
                    x % y != 0,
                    x <= usize::MAX,
            ;
        }
        quotient + 1
    }
}

/// The least integer no smaller than `x / y`, for positive `y`: the quotient,
/// rounded up when the division leaves a remainder.
pub open spec fn div_ceil_spec(x: int, y: int) -> int {
    x / y + if x % y == 0 {
        0int
    } else {
        1int
    }
}

/// A line's wrapped rows hold all its cells: only the last of the
/// `rows_needed` rows can be partly empty.
proof fn lemma_rows_needed_bounds(line_len: int, interior_width: int)
    requires
        interior_width >= 1,
        line_len >= 0,
    ensures
        rows_needed(line_len, interior_width) >= 1,
        line_len > 0 ==> (rows_needed(line_len, interior_width) - 1) * interior_width < line_len,
        rows_needed(line_len, interior_width) * interior_width >= line_len,
{
    vstd::arithmetic::div_mod::lemma_fundamental_div_mod(line_len, interior_width);
    vstd::arithmetic::div_mod::lemma_mod_bound(line_len, interior_width);
    vstd::arithmetic::div_mod::lemma_div_pos_is_pos(line_len, interior_width);
    let q = line_len / interior_width;
    let r = line_len % interior_width;
    assert(line_len == interior_width * q + r);
    if r == 0 {
        assert(q * interior_width >= line_len) by (nonlinear_arith)
            requires
                line_len == interior_width * q,
        ;
        if line_len > 0 {
            assert(q >= 1) by (nonlinear_arith)
                requires
                    line_len == interior_width * q,
                    line_len > 0,
                    interior_width >= 1,
                    q >= 0,
            ;
            assert((q - 1) * interior_width < line_len) by (nonlinear_arith)
                requires
                    line_len == interior_width * q,
                    interior_width >= 1,
            ;
        } else {
            assert(q == 0) by (nonlinear_arith)
                requires
                    line_len == interior_width * q,
                    line_len == 0,
                    interior_width >= 1,
                    q >= 0,
            ;
            assert(rows_needed(line_len, interior_width) == 1);
        }
    } else {
        assert(q * interior_width < line_len && (q + 1) * interior_width >= line_len)
            by (nonlinear_arith)
            requires
                line_len == interior_width * q + r,
                0 < r < interior_width,
        ;
    }
}

/// Pagination shows nothing below the newest line's last row.
proof fn lemma_paged_above_end_none(
    lines: Seq<MessageLine>,
    end_row: int,
    interior_top: int,
    interior_width: int,
    col: int,
    row: int,
)
    requires
        row > end_row,
    ensures
        paged_cell(lines, end_row, interior_top, interior_width, col, row) is None,
    decreases lines.len(),
{
    if lines.len() > 0 && end_row >= interior_top {
        let needed = rows_needed(lines.last().units_seq().len() as int, interior_width);
        if end_row - needed >= 0 {
            lemma_paged_above_end_none(
                lines.drop_last(),
                end_row - needed,
                interior_top,
                interior_width,
                col,
                row,
            );
        }
    }
}

/// At the rows the newest line occupies, pagination shows exactly that
/// line's cells.
proof fn lemma_paged_at_newest_line(
    lines: Seq<MessageLine>,
    end_row: int,
    interior_top: int,
    interior_width: int,
    col: int,
    row: int,
)
    requires
        lines.len() > 0,
        interior_width >= 1,
        end_row >= interior_top,
        row >= interior_top,
        row <= end_row,
        row >= end_row - rows_needed(lines.last().units_seq().len() as int, interior_width) + 1,
        0 <= col < interior_width,
    ensures
        paged_cell(lines, end_row, interior_top, interior_width, col, row) == line_cell(
            lines.last(),
            end_row - rows_needed(lines.last().units_seq().len() as int, interior_width) + 1,
            interior_width,
            col,
            row,
        ),
{
    let line = lines.last();
    let needed = rows_needed(line.units_seq().len() as int, interior_width);
    let start = end_row - needed + 1;
    let cell_index = (row - start) * interior_width + col;
    assert(cell_index >= 0) by (nonlinear_arith)
        requires
            cell_index == (row - start) * interior_width + col,
            row >= start,
            col >= 0,
            interior_width >= 1,
    ;
    if !(cell_index < line.units_seq().len()) {
        if end_row - needed >= 0 {
            lemma_paged_above_end_none(
                lines.drop_last(),
                end_row - needed,
                interior_top,
                interior_width,
                col,
                row,
            );
        }
    }
}

/// Above the newest line's rows, pagination defers to the older lines, one
/// line and `rows_needed` rows back.
proof fn lemma_paged_skips_newest_line(
    lines: Seq<MessageLine>,
    end_row: int,
    interior_top: int,
    interior_width: int,
    col: int,
    row: int,
)
    requires
        lines.len() > 0,
        interior_width >= 1,
        end_row >= interior_top,
        0 <= col < interior_width,
        row <= end_row - rows_needed(lines.last().units_seq().len() as int, interior_width),
        end_row - rows_needed(lines.last().units_seq().len() as int, interior_width) >= 0,
    ensures
        paged_cell(lines, end_row, interior_top, interior_width, col, row) == paged_cell(
            lines.drop_last(),
            end_row - rows_needed(lines.last().units_seq().len() as int, interior_width),
            interior_top,
            interior_width,
            col,
            row,
        ),
{
    let line = lines.last();
    let needed = rows_needed(line.units_seq().len() as int, interior_width);
    let start = end_row - needed + 1;
    assert(row < start);
}

impl MessageBuffer {
    /// Draws the one-cell border of `region_on_canvas` with the buffer's
    /// border unit and fills the interior with blanks, all at `layer`.
    #[verifier::loop_isolation(false)]
    fn draw_border_and_fill_inner<L: Layer>(
        &self,
        ui_canvas: &mut UiCanvas<L>,
        region_on_canvas: Rectangle<UiLattice>,
        layer: L,
    )
        requires
            old(ui_canvas).wf(),
            region_on_canvas.left_edge <= region_on_canvas.right_edge,
            region_on_canvas.top_edge <= region_on_canvas.bottom_edge,
            region_on_canvas.right_edge < CANVAS_WIDTH,
            region_on_canvas.bottom_edge < CANVAS_HEIGHT,
        ensures
            final (ui_canvas).wf(),
            forall|x: int, y: int|
                0 <= x < CANVAS_WIDTH && 0 <= y < CANVAS_HEIGHT
                    ==> final (ui_canvas).canvas_view().slot(x, y) == (if region_contains(
                    region_on_canvas,
                    x,
                    y,
                ) {
                    draw_slot(
                        old(ui_canvas).canvas_view().slot(x, y),
                        border_or_blank(*self, region_on_canvas, x, y),
                        layer,
                    )
                } else {
                    old(ui_canvas).canvas_view().slot(x, y)
                }),
    {
        let top = region_on_canvas.top();
        let bottom = region_on_canvas.bottom();
        let left = region_on_canvas.left();
        let right = region_on_canvas.right();
        let ghost before = ui_canvas.canvas_view();
        let mut row = top;
        while row <= bottom
            invariant
                ui_canvas.wf(),
                top == region_on_canvas.top_edge,
                bottom == region_on_canvas.bottom_edge,
                left == region_on_canvas.left_edge,
                right == region_on_canvas.right_edge,
                top <= bottom < CANVAS_HEIGHT,
                left <= right < CANVAS_WIDTH,
                top <= row <= bottom + 1,
                before == old(ui_canvas).canvas_view(),
                forall|x: int, y: int|
                    0 <= x < CANVAS_WIDTH && 0 <= y < CANVAS_HEIGHT ==> (#[trigger] ui_canvas.canvas_view().slot(x, y)) == (if region_contains(region_on_canvas, x, y) && y < row {
                        draw_slot(
                            before.slot(x, y),
                            border_or_blank(*self, region_on_canvas, x, y),
                            layer,
                        )
                    } else {
                        before.slot(x, y)
                    }),
            decreases bottom + 1 - row,
        {
            let mut col = left;
            while col <= right
                invariant
                    ui_canvas.wf(),
                    top == region_on_canvas.top_edge,
                    bottom == region_on_canvas.bottom_edge,
                    left == region_on_canvas.left_edge,
                    right == region_on_canvas.right_edge,
                    top <= bottom < CANVAS_HEIGHT,
                    left <= right < CANVAS_WIDTH,
                    top <= row <= bottom,
                    left <= col <= right + 1,
                    before == old(ui_canvas).canvas_view(),
                    forall|x: int, y: int|
                        0 <= x < CANVAS_WIDTH && 0 <= y < CANVAS_HEIGHT ==> (#[trigger] ui_canvas.canvas_view().slot(x, y)) == (if region_contains(region_on_canvas, x, y) && (y < row || (y == row
                            && x < col)) {
                            draw_slot(
                                before.slot(x, y),
                                border_or_blank(*self, region_on_canvas, x, y),
                                layer,
                            )
                        } else {
                            before.slot(x, y)
                        }),
                decreases right + 1 - col,
            {
                let is_horizontal_border = row == top || row == bottom;
                let is_vertical_border = col == left || col == right;
                let unit = if is_horizontal_border || is_vertical_border {
                    self.border_unit
                } else {
                    DrawableUnit { left: ' ', right: Some(' '), color: UnitColor::White }
                };
                proof {
                    assert(unit == border_or_blank(*self, region_on_canvas, col as int, row as int));
                }
                let ghost prev = ui_canvas.canvas_view();
                ui_canvas.draw_unit(unit, Pair::new(col, row), layer);
                proof {
                    assert forall|x: int, y: int|
                        0 <= x < CANVAS_WIDTH && 0 <= y < CANVAS_HEIGHT implies (#[trigger] ui_canvas.canvas_view().slot(x, y)) == (if region_contains(region_on_canvas, x, y) && (y < row || (y == row && x
                        < col + 1)) {
                        draw_slot(
                            before.slot(x, y),
                            border_or_blank(*self, region_on_canvas, x, y),
                            layer,
                        )
                    } else {
                        before.slot(x, y)
                    }) by {
                        if x == col as int && y == row as int {
                            assert(prev.slot(x, y) == before.slot(x, y));
                            assert(ui_canvas.canvas_view().slot(x, y) == draw_slot(
                                prev.slot(x, y),
                                unit,
                                layer,
                            ));
                        } else {
                            assert(ui_canvas.canvas_view().slot(x, y) == prev.slot(x, y));
                        }
                    }
                }
                col += 1;
            }
            proof {
                assert forall|x: int, y: int|
                    0 <= x < CANVAS_WIDTH && 0 <= y < CANVAS_HEIGHT implies (#[trigger] ui_canvas.canvas_view().slot(x, y)) == (if region_contains(region_on_canvas, x, y) && y < row + 1 {
                    draw_slot(
                        before.slot(x, y),
                        border_or_blank(*self, region_on_canvas, x, y),
                        layer,
                    )
                } else {
                    before.slot(x, y)
                }) by {}
            }
            row += 1;
        }
    }
}

/// The cell content a wrapped line leaves at canvas column `x`, row `y` of
/// the interior: its own cell where it has one, blank elsewhere.
pub open spec fn line_row_content(
    line: MessageLine,
    start: int,
    interior_width: int,
    interior_left: int,
    x: int,
    y: int,
) -> DrawableUnit {
    match line_cell(line, start, interior_width, x - interior_left, y) {
        Some(u) => u,
        None => blank_unit(),
    }
}

/// The state of the canvas midway through the message pass: outside the
/// region nothing changed; the region border holds the border unit; interior
/// rows below `boundary` hold their final paginated content; interior rows at
/// or above `boundary` — except the current line's already-drawn rows
/// `drawn_lo..drawn_hi`, which hold that line's cells — are still blank.
pub open spec fn message_pass_zones<L: Layer>(
    buffer: MessageBuffer,
    region: Rectangle<UiLattice>,
    layer: L,
    before: Canvas<L>,
    now: Canvas<L>,
    boundary: int,
    drawn_lo: int,
    drawn_hi: int,
    line: MessageLine,
    start: int,
) -> bool {
    forall|x: int, y: int|
        0 <= x < CANVAS_WIDTH && 0 <= y < CANVAS_HEIGHT ==> (#[trigger] now.slot(x, y)) == (if !region_contains(
            region,
            x,
            y,
        ) {
            before.slot(x, y)
        } else if !interior_contains(region, x, y) {
            draw_slot(before.slot(x, y), buffer.border_view(), layer)
        } else if y > boundary {
            draw_slot(before.slot(x, y), message_display_unit(buffer, region, x, y), layer)
        } else if drawn_lo <= y < drawn_hi {
            draw_slot(
                before.slot(x, y),
                line_row_content(
                    line,
                    start,
                    region.right_edge - region.left_edge - 1,
                    region.left_edge + 1,
                    x,
                    y,
                ),
                layer,
            )
        } else {
            draw_slot(before.slot(x, y), blank_unit(), layer)
        })
}

/// The arithmetic relations between a drawable region and its interior: the
/// interior is the region shrunk by one cell on each side, and it is at least
/// one column wide.
pub open spec fn interior_frame(
    region: Rectangle<UiLattice>,
    interior_top: int,
    interior_bottom: int,
    interior_left: int,
    interior_width: int,
) -> bool {
    &&& region.left_edge + 2 <= region.right_edge
    &&& region.top_edge <= region.bottom_edge
    &&& 1 <= region.bottom_edge
    &&& region.right_edge < CANVAS_WIDTH
    &&& region.bottom_edge < CANVAS_HEIGHT
    &&& interior_top == region.top_edge + 1
    &&& interior_bottom == region.bottom_edge - 1
    &&& interior_left == region.left_edge + 1
    &&& interior_width == region.right_edge - region.left_edge - 1
    &&& 1 <= interior_width
}

/// Pagination agrees with its own tail: what the full history shows at rows
/// up to `cur` is what the oldest `remaining` lines, ending at row `cur`,
/// show there.
pub open spec fn paged_agrees(
    lines: Seq<MessageLine>,
    remaining: int,
    cur: int,
    interior_bottom: int,
    interior_top: int,
    interior_width: int,
) -> bool {
    forall|col: int, row: int|
        0 <= col < interior_width && interior_top <= row <= cur ==> (#[trigger] paged_cell(
            lines,
            interior_bottom,
            interior_top,
            interior_width,
            col,
            row,
        )) == paged_cell(lines.take(remaining), cur, interior_top, interior_width, col, row)
}

impl MessageBuffer {
    /// Renders the message history into `region_on_canvas` at `layer`: a
    /// one-cell border around a blank interior, over which the history is
    /// laid out bottom-up — the newest line's last wrapped row on the
    /// interior's bottom row, each older line ending where the newer one
    /// started, wrapped at the interior width, clipped at the interior's top,
    /// and abandoned once a line ends above the interior or would start below
    /// row zero.
    #[verifier::rlimit(100)]
    pub fn draw_message<L: Layer>(
        &self,
        ui_canvas: &mut UiCanvas<L>,
        region_on_canvas: Rectangle<UiLattice>,
        layer: L,
    )
        requires
            old(ui_canvas).wf(),
            region_on_canvas.top_edge <= region_on_canvas.bottom_edge,
            region_on_canvas.bottom_edge >= 1,
            region_on_canvas.left_edge + 2 <= region_on_canvas.right_edge,
            region_on_canvas.right_edge < CANVAS_WIDTH,
            region_on_canvas.bottom_edge < CANVAS_HEIGHT,
        ensures
            final (ui_canvas).wf(),
            forall|x: int, y: int|
                0 <= x < CANVAS_WIDTH && 0 <= y < CANVAS_HEIGHT
                    ==> (#[trigger] final (ui_canvas).canvas_view().slot(x, y)) == (if region_contains(
                    region_on_canvas,
                    x,
                    y,
                ) {
                    draw_slot(
                        old(ui_canvas).canvas_view().slot(x, y),
                        message_display_unit(*self, region_on_canvas, x, y),
                        layer,
                    )
                } else {
                    old(ui_canvas).canvas_view().slot(x, y)
                }),
    {
        self.draw_border_and_fill_inner(ui_canvas, region_on_canvas, layer);
        let itop = region_on_canvas.top() + 1;
        let ibottom = region_on_canvas.bottom() - 1;
        let ileft = region_on_canvas.left() + 1;
        let iw = region_on_canvas.right() - region_on_canvas.left() - 1;
        let ghost before = old(ui_canvas).canvas_view();
        let ghost lines = self.lines_seq();
        let ghost no_line: MessageLine = vstd::pervasive::arbitrary();
        let mut current_end_row: usize = ibottom;
        let n = self.lines.len();
        let mut k: usize = 0;
        let mut done = false;
        proof {
            assert(lines.take(n as int) =~= lines);
        }
        while k < n && !done
            invariant
                ui_canvas.wf(),
                interior_frame(region_on_canvas, itop as int, ibottom as int, ileft as int, iw as int),
                before == old(ui_canvas).canvas_view(),
                lines == self.lines_seq(),
                n == lines.len(),
                n == self.lines_seq().len(),
                k <= n,
                current_end_row <= ibottom,
                !done ==> message_pass_zones(
                    *self,
                    region_on_canvas,
                    layer,
                    before,
                    ui_canvas.canvas_view(),
                    current_end_row as int,
                    0,
                    0,
                    no_line,
                    0,
                ),
                !done ==> paged_agrees(
                    lines,
                    n - k,
                    current_end_row as int,
                    ibottom as int,
                    itop as int,
                    iw as int,
                ),
                done ==> message_pass_zones(
                    *self,
                    region_on_canvas,
                    layer,
                    before,
                    ui_canvas.canvas_view(),
                    itop as int - 1,
                    0,
                    0,
                    no_line,
                    0,
                ),
            decreases n - k,
        {
            let line_index = n - 1 - k;
            let line_len = self.lines[line_index].len();
            let ghost line = lines[line_index as int];
            let ghost cur0 = current_end_row as int;
            if current_end_row < itop {
                done = true;
            } else {
                let needed = {
                    let q = div_ceil(line_len, iw);
                    if q == 0 {
                        1
                    } else {
                        q
                    }
                };
                proof {
                    lemma_rows_needed_bounds(line_len as int, iw as int);
                    assert(needed == rows_needed(line_len as int, iw as int));
                }
                let ghost start: int = cur0 - needed as int + 1;
                let lo = if needed - 1 <= current_end_row - itop {
                    current_end_row - (needed - 1)
                } else {
                    itop
                };
                proof {
                    assert(lo as int == if start >= itop as int {
                        start
                    } else {
                        itop as int
                    });
                }
                let mut row = lo;
                while row <= current_end_row
                    invariant
                        ui_canvas.wf(),
                        interior_frame(
                            region_on_canvas,
                            itop as int,
                            ibottom as int,
                            ileft as int,
                            iw as int,
                        ),
                        before == old(ui_canvas).canvas_view(),
                        itop <= current_end_row <= ibottom,
                        line_index < self.lines_seq().len(),
                        line == self.lines_seq()[line_index as int],
                        line_len == line.units_seq().len(),
                        needed == rows_needed(line_len as int, iw as int),
                        needed >= 1,
                        start == current_end_row as int - needed as int + 1,
                        lo as int == if start >= itop as int {
                            start
                        } else {
                            itop as int
                        },
                        lo <= row <= current_end_row + 1,
                        message_pass_zones(
                            *self,
                            region_on_canvas,
                            layer,
                            before,
                            ui_canvas.canvas_view(),
                            current_end_row as int,
                            lo as int,
                            row as int,
                            line,
                            start,
                        ),
                    decreases current_end_row + 1 - row,
                {
                    let chunk = needed - 1 - (current_end_row - row);
                    proof {
                        lemma_rows_needed_bounds(line_len as int, iw as int);
                        assert(chunk as int == row - start);
                        if line_len > 0 {
                            assert(chunk as int * (iw as int) <= (needed as int - 1) * (iw as int))
                                by (nonlinear_arith)
                                requires
                                    0 <= chunk as int <= needed as int - 1,
                                    iw as int >= 1,
                            ;
                        } else {
                            assert(needed == 1 && chunk == 0);
                            assert(chunk as int * (iw as int) == 0) by (nonlinear_arith)
                                requires
                                    chunk as int == 0,
                            ;
                        }
                    }
                    let begin = chunk * iw;
                    let end = if line_len - begin < iw {
                        line_len
                    } else {
                        begin + iw
                    };
                    let mut c = begin;
                    while c < end
                        invariant
                            ui_canvas.wf(),
                            interior_frame(
                                region_on_canvas,
                                itop as int,
                                ibottom as int,
                                ileft as int,
                                iw as int,
                            ),
                            before == old(ui_canvas).canvas_view(),
                            itop <= current_end_row <= ibottom,
                            line_index < self.lines_seq().len(),
                            line == self.lines_seq()[line_index as int],
                            line_len == line.units_seq().len(),
                            needed == rows_needed(line_len as int, iw as int),
                            needed >= 1,
                            start == current_end_row as int - needed as int + 1,
                            lo as int == if start >= itop as int {
                                start
                            } else {
                                itop as int
                            },
                            lo <= row <= current_end_row,
                            begin as int == (row - start) * (iw as int),
                            begin <= end <= line_len,
                            end as int - begin as int <= iw as int,
                            end as int == if (line_len as int - begin as int) < iw as int {
                                line_len as int
                            } else {
                                begin as int + iw as int
                            },
                            begin <= c <= end,
                            forall|x: int, y: int|
                                0 <= x < CANVAS_WIDTH && 0 <= y < CANVAS_HEIGHT ==> (
                                #[trigger] ui_canvas.canvas_view().slot(x, y)) == (
                                if !region_contains(region_on_canvas, x, y) {
                                    before.slot(x, y)
                                } else if !interior_contains(region_on_canvas, x, y) {
                                    draw_slot(before.slot(x, y), self.border_view(), layer)
                                } else if y > current_end_row as int {
                                    draw_slot(
                                        before.slot(x, y),
                                        message_display_unit(*self, region_on_canvas, x, y),
                                        layer,
                                    )
                                } else if lo as int <= y < row as int || (y == row as int
                                    && ileft as int <= x < ileft as int + (c as int
                                    - begin as int)) {
                                    draw_slot(
                                        before.slot(x, y),
                                        line_row_content(
                                            line,
                                            start,
                                            iw as int,
                                            ileft as int,
                                            x,
                                            y,
                                        ),
                                        layer,
                                    )
                                } else {
                                    draw_slot(before.slot(x, y), blank_unit(), layer)
                                }),
                        decreases end - c,
                    {
                        let unit = self.lines[line_index].unit_at(c);
                        let ghost prev = ui_canvas.canvas_view();
                        let column = ileft + (c - begin);
                        proof {
                            assert(line_cell(line, start, iw as int, column - ileft, row as int)
                                == Some(line.units_seq()[c as int]));
                        }
                        ui_canvas.draw_unit(unit, Pair::new(column, row), layer);
                        proof {
                            assert forall|x: int, y: int|
                                0 <= x < CANVAS_WIDTH && 0 <= y < CANVAS_HEIGHT implies (
                            #[trigger] ui_canvas.canvas_view().slot(x, y)) == (
                            if !region_contains(region_on_canvas, x, y) {
                                before.slot(x, y)
                            } else if !interior_contains(region_on_canvas, x, y) {
                                draw_slot(before.slot(x, y), self.border_view(), layer)
                            } else if y > current_end_row as int {
                                draw_slot(
                                    before.slot(x, y),
                                    message_display_unit(*self, region_on_canvas, x, y),
                                    layer,
                                )
                            } else if lo as int <= y < row as int || (y == row as int
                                && ileft as int <= x < ileft as int + (c as int + 1
                                - begin as int)) {
                                draw_slot(
                                    before.slot(x, y),
                                    line_row_content(line, start, iw as int, ileft as int, x, y),
                                    layer,
                                )
                            } else {
                                draw_slot(before.slot(x, y), blank_unit(), layer)
                            }) by {
                                if x == column as int && y == row as int {
                                    assert(ui_canvas.canvas_view().slot(x, y) == draw_slot(
                                        prev.slot(x, y),
                                        unit,
                                        layer,
                                    ));
                                    assert(prev.slot(x, y) == draw_slot(
                                        before.slot(x, y),
                                        blank_unit(),
                                        layer,
                                    ));
                                } else {
                                    assert(ui_canvas.canvas_view().slot(x, y) == prev.slot(x, y));
                                }
                            }
                        }
                        c += 1;
                    }
                    proof {
                        assert forall|x: int, y: int|
                            0 <= x < CANVAS_WIDTH && 0 <= y < CANVAS_HEIGHT implies (
                        #[trigger] ui_canvas.canvas_view().slot(x, y)) == (if !region_contains(
                            region_on_canvas,
                            x,
                            y,
                        ) {
                            before.slot(x, y)
                        } else if !interior_contains(region_on_canvas, x, y) {
                            draw_slot(before.slot(x, y), self.border_view(), layer)
                        } else if y > current_end_row as int {
                            draw_slot(
                                before.slot(x, y),
                                message_display_unit(*self, region_on_canvas, x, y),
                                layer,
                            )
                        } else if lo as int <= y < row as int + 1 {
                            draw_slot(
                                before.slot(x, y),
                                line_row_content(line, start, iw as int, ileft as int, x, y),
                                layer,
                            )
                        } else {
                            draw_slot(before.slot(x, y), blank_unit(), layer)
                        }) by {
                            if interior_contains(region_on_canvas, x, y) && y == row as int
                                && !(y > current_end_row as int) {
                                if ileft as int <= x < ileft as int + (end as int - begin as int) {
                                } else {
                                    assert(line_cell(
                                        line,
                                        start,
                                        iw as int,
                                        x - ileft as int,
                                        y,
                                    ) is None);
                                }
                            }
                        }
                    }
                    row += 1;
                }
                proof {
                    lemma_rows_needed_bounds(line_len as int, iw as int);
                    assert(lines.take((n - k) as int).last() == line);
                    assert(lines.take((n - k) as int).drop_last() =~= lines.take((n - k - 1) as int));
                    assert forall|x: int, y: int|
                        0 <= x < CANVAS_WIDTH && 0 <= y < CANVAS_HEIGHT implies (
                    #[trigger] ui_canvas.canvas_view().slot(x, y)) == (if !region_contains(
                        region_on_canvas,
                        x,
                        y,
                    ) {
                        before.slot(x, y)
                    } else if !interior_contains(region_on_canvas, x, y) {
                        draw_slot(before.slot(x, y), self.border_view(), layer)
                    } else if y > start - 1 {
                        draw_slot(
                            before.slot(x, y),
                            message_display_unit(*self, region_on_canvas, x, y),
                            layer,
                        )
                    } else {
                        draw_slot(before.slot(x, y), blank_unit(), layer)
                    }) by {
                        if interior_contains(region_on_canvas, x, y) && start - 1 < y
                            <= current_end_row as int {
                            lemma_paged_at_newest_line(
                                lines.take((n - k) as int),
                                cur0,
                                itop as int,
                                iw as int,
                                x - ileft as int,
                                y,
                            );
                            assert(paged_cell(
                                lines,
                                ibottom as int,
                                itop as int,
                                iw as int,
                                x - ileft as int,
                                y,
                            ) == line_cell(line, start, iw as int, x - ileft as int, y));
                        }
                    }
                }
                if current_end_row < needed {
                    done = true;
                    proof {
                        assert(message_pass_zones(
                            *self,
                            region_on_canvas,
                            layer,
                            before,
                            ui_canvas.canvas_view(),
                            itop as int - 1,
                            0,
                            0,
                            no_line,
                            0,
                        ));
                    }
                } else {
                    current_end_row -= needed;
                    proof {
                        assert forall|col: int, r: int|
                            0 <= col < iw as int && itop as int <= r <= current_end_row as int implies (
                        #[trigger] paged_cell(
                            lines,
                            ibottom as int,
                            itop as int,
                            iw as int,
                            col,
                            r,
                        )) == paged_cell(
                            lines.take((n - k - 1) as int),
                            current_end_row as int,
                            itop as int,
                            iw as int,
                            col,
                            r,
                        ) by {
                            lemma_paged_skips_newest_line(
                                lines.take((n - k) as int),
                                cur0,
                                itop as int,
                                iw as int,
                                col,
                                r,
                            );
                        }
                        assert(message_pass_zones(
                            *self,
                            region_on_canvas,
                            layer,
                            before,
                            ui_canvas.canvas_view(),
                            current_end_row as int,
                            0,
                            0,
                            no_line,
                            0,
                        ));
                    }
                }
            }
            k += 1;
        }
        proof {
            if !done {
                assert(lines.take(0) =~= Seq::<MessageLine>::empty());
                assert forall|x: int, y: int|
                    0 <= x < CANVAS_WIDTH && 0 <= y < CANVAS_HEIGHT implies (
                #[trigger] ui_canvas.canvas_view().slot(x, y)) == (if region_contains(
                    region_on_canvas,
                    x,
                    y,
                ) {
                    draw_slot(
                        before.slot(x, y),
                        message_display_unit(*self, region_on_canvas, x, y),
                        layer,
                    )
                } else {
                    before.slot(x, y)
                }) by {
                    if interior_contains(region_on_canvas, x, y) && y <= current_end_row as int {
                        assert(paged_cell(
                            lines,
                            ibottom as int,
                            itop as int,
                            iw as int,
                            x - ileft as int,
                            y,
                        ) is None);
                    }
                }
            } else {
                assert forall|x: int, y: int|
                    0 <= x < CANVAS_WIDTH && 0 <= y < CANVAS_HEIGHT implies (
                #[trigger] ui_canvas.canvas_view().slot(x, y)) == (if region_contains(
                    region_on_canvas,
                    x,
                    y,
                ) {
                    draw_slot(
                        before.slot(x, y),
                        message_display_unit(*self, region_on_canvas, x, y),
                        layer,
                    )
                } else {
                    before.slot(x, y)
                }) by {}
            }
        }
    }
}

} // verus!
