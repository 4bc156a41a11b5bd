//! The fixed-size render target: a grid of optional (unit, layer) slots with
//! depth-compositing draws, and row-by-row serialization between fixed border
//! glyphs.

use vstd::prelude::*;

use crate::drawable_unit::{
    double_unit, full_unit, DrawDestination, DrawError, DrawableUnit, OutputItem, UnitColor,
};
use crate::geometry::Pair;
use crate::layer::Layer;

verus! {

/// The interior width of the canvas: the total drawn width of 40 squares
/// minus the two border columns.
pub const CANVAS_WIDTH: usize = 40 - 2;

/// The interior height of the canvas, in rows.
pub const CANVAS_HEIGHT: usize = 30;

/// A component of a canvas coordinate.
pub type CanvasLattice = usize;

/// A drawable coordinate inside the canvas.
pub type CanvasItemPosition = Pair<CanvasLattice>;

/// The grid of the canvas: one optional (unit, layer) slot per coordinate,
/// row-major.
pub struct Canvas<L> {
    lattices: Vec<Option<(DrawableUnit, L)>>,
}

/// The row-major index of coordinate `(x, y)` lies inside the grid.
pub(crate) proof fn lemma_flat_index_in_range(x: int, y: int)
    requires
        0 <= x < CANVAS_WIDTH,
        0 <= y < CANVAS_HEIGHT,
    ensures
        0 <= y * (CANVAS_WIDTH as int) + x < CANVAS_WIDTH * CANVAS_HEIGHT,
{
    assert(0 <= y * (CANVAS_WIDTH as int) + x < CANVAS_WIDTH * CANVAS_HEIGHT) by (nonlinear_arith)
        requires
            0 <= x < CANVAS_WIDTH,
            0 <= y < CANVAS_HEIGHT,
    ;
}

/// How a draw at `layer` changes one slot: an empty slot always takes the new
/// unit; an occupied slot takes it exactly when the new layer is at or above
/// the stored one (ties overwrite), and otherwise keeps what it holds.
pub open spec fn draw_slot<L: Layer>(
    slot: Option<(DrawableUnit, L)>,
    drawable_unit: DrawableUnit,
    layer: L,
) -> Option<(DrawableUnit, L)> {
    match slot {
        Some((u0, l0)) => if layer.depth() >= l0.depth() {
            Some((drawable_unit, layer))
        } else {
            Some((u0, l0))
        },
        None => Some((drawable_unit, layer)),
    }
}

impl<L> Canvas<L> {
    /// The slots of the grid, row-major: index `y * CANVAS_WIDTH + x` holds
    /// the slot of coordinate `(x, y)`.
    pub closed spec fn grid(self) -> Seq<Option<(DrawableUnit, L)>> {
        self.lattices@
    }

    /// The grid has exactly one slot per canvas coordinate.
    pub open spec fn wf(self) -> bool {
        self.grid().len() == CANVAS_WIDTH * CANVAS_HEIGHT
    }

    /// The slot at coordinate `(x, y)`.
    pub open spec fn slot(self, x: int, y: int) -> Option<(DrawableUnit, L)> {
        self.grid()[y * (CANVAS_WIDTH as int) + x]
    }

    /// The size of the drawable interior of this canvas, in squares.
    pub fn size(&self) -> (r: Pair<CanvasLattice>)
        ensures
            r.x == CANVAS_WIDTH,
            r.y == CANVAS_HEIGHT,
    {
        Pair::new(CANVAS_WIDTH, CANVAS_HEIGHT)
    }

    /// Whether `position` lies inside the canvas and can be drawn at.
    pub fn is_drawable_at(&self, position: CanvasItemPosition) -> (r: bool)
        ensures
            r == (position.x < CANVAS_WIDTH && position.y < CANVAS_HEIGHT),
    {
        let size = self.size();
        (position.x < size.x) && (position.y < size.y)
    }
}

impl<L: Layer> Canvas<L> {
    /// The slot at `position`: the drawn unit and its layer, or `None` for a
    /// blank slot.
    pub fn slot_at(&self, position: CanvasItemPosition) -> (r: Option<(DrawableUnit, L)>)
        requires
            self.wf(),
            position.x < CANVAS_WIDTH,
            position.y < CANVAS_HEIGHT,
        ensures
            r == self.slot(position.x as int, position.y as int),
    {
        proof {
            lemma_flat_index_in_range(position.x as int, position.y as int);
        }
        self.lattices[position.y * CANVAS_WIDTH + position.x]
    }

    /// A canvas with every slot blank.
    pub fn empty_canvas() -> (r: Self)
        ensures
            r.wf(),
            forall|x: int, y: int|
                0 <= x < CANVAS_WIDTH && 0 <= y < CANVAS_HEIGHT ==> r.slot(x, y) is None,
    {
        let mut lattices: Vec<Option<(DrawableUnit, L)>> = Vec::new();
        let mut i: usize = 0;
        while i < CANVAS_WIDTH * CANVAS_HEIGHT
            invariant
                lattices@.len() == i,
                i <= CANVAS_WIDTH * CANVAS_HEIGHT,
                forall|j: int| 0 <= j < i ==> lattices@[j] is None,
            decreases CANVAS_WIDTH * CANVAS_HEIGHT - i,
        {
            lattices.push(None);
            i += 1;
        }
        let r = Canvas { lattices };
        proof {
            assert forall|x: int, y: int|
                0 <= x < CANVAS_WIDTH && 0 <= y < CANVAS_HEIGHT implies r.slot(x, y) is None by {
                lemma_flat_index_in_range(x, y);
            }
        }
        r
    }

    /// Draws `drawable_unit` at `position` on `layer`. An empty slot takes
    /// the unit; an occupied one is overwritten exactly when `layer` is at or
    /// above the stored layer (a tie overwrites); every other slot is left
    /// untouched.
    pub fn draw_unit(
        &mut self,
        drawable_unit: DrawableUnit,
        position: CanvasItemPosition,
        layer: L,
    )
        requires
            old(self).wf(),
            position.x < CANVAS_WIDTH,
            position.y < CANVAS_HEIGHT,
        ensures
            final (self).wf(),
            final (self).grid() == old(self).grid().update(
                position.y as int * (CANVAS_WIDTH as int) + position.x as int,
                draw_slot(
                    old(self).slot(position.x as int, position.y as int),
                    drawable_unit,
                    layer,
                ),
            ),
            final (self).slot(position.x as int, position.y as int) == draw_slot(
                old(self).slot(position.x as int, position.y as int),
                drawable_unit,
                layer,
            ),
            forall|x: int, y: int|
                0 <= x < CANVAS_WIDTH && 0 <= y < CANVAS_HEIGHT && !(x == position.x && y
                    == position.y) ==> final (self).slot(x, y) == old(self).slot(x, y),
    {
        let index = position.y * CANVAS_WIDTH + position.x;
        let overwrite = match &self.lattices[index] {
            Some(pair) => layer.is_at_or_above(&pair.1),
            None => true,
        };
        if overwrite {
            self.lattices.set(index, Some((drawable_unit, layer)));
        }
        proof {
            assert(self.grid() =~= old(self).grid().update(
                position.y as int * (CANVAS_WIDTH as int) + position.x as int,
                draw_slot(
                    old(self).slot(position.x as int, position.y as int),
                    drawable_unit,
                    layer,
                ),
            ));
            assert forall|x: int, y: int|
                0 <= x < CANVAS_WIDTH && 0 <= y < CANVAS_HEIGHT && !(x == position.x && y
                    == position.y) implies final (self).slot(x, y) == old(self).slot(x, y) by {
                assert(y * (CANVAS_WIDTH as int) + x != index as int);
            }
        }
    }

    /// Resets every slot of the canvas to blank.
    pub fn clear(&mut self)
        requires
            old(self).wf(),
        ensures
            final (self).wf(),
            forall|x: int, y: int|
                0 <= x < CANVAS_WIDTH && 0 <= y < CANVAS_HEIGHT ==> final (self).slot(x, y) is None,
    {
        let mut i: usize = 0;
        let n = self.lattices.len();
        while i < n
            invariant
                n == self.lattices@.len(),
                i <= n,
                self.wf() == old(self).wf(),
                self.lattices@.len() == old(self).lattices@.len(),
                forall|j: int| 0 <= j < i ==> self.lattices@[j] is None,
            decreases n - i,
        {
            self.lattices.set(i, None);
            i += 1;
        }
        proof {
            assert forall|x: int, y: int|
                0 <= x < CANVAS_WIDTH && 0 <= y < CANVAS_HEIGHT implies final (self).slot(
                x,
                y,
            ) is None by {
                lemma_flat_index_in_range(x, y);
            }
        }
    }

    /// The blank unit drawn for an empty slot.
    fn empty_drawable_unit() -> (r: DrawableUnit)
        ensures
            r == blank_unit(),
    {
        DrawableUnit { left: ' ', right: Some(' '), color: UnitColor::White }
    }
}

/// The unit rendered for a slot nothing was drawn to: two blank half-width
/// columns in white.
pub open spec fn blank_unit() -> DrawableUnit {
    double_unit(' ', ' ', UnitColor::White)
}

/// The unit a slot displays: its drawn unit, or the blank unit when empty.
pub open spec fn displayed_unit<L>(slot: Option<(DrawableUnit, L)>) -> DrawableUnit {
    match slot {
        Some((u, _)) => u,
        None => blank_unit(),
    }
}

/// The unit the top border row repeats.
pub open spec fn top_border_unit() -> DrawableUnit {
    double_unit('_', '_', UnitColor::White)
}

/// The unit the bottom border row repeats.
pub open spec fn bottom_border_unit() -> DrawableUnit {
    full_unit('￣', UnitColor::White)
}

/// The unit at the left edge of each row.
pub open spec fn left_border_unit() -> DrawableUnit {
    double_unit(' ', '|', UnitColor::White)
}

/// The unit at the right edge of each row.
pub open spec fn right_border_unit() -> DrawableUnit {
    double_unit('|', ' ', UnitColor::White)
}

/// A full-width border row: the drawn width of the canvas plus its two border
/// columns, all showing `unit`.
pub open spec fn border_row(unit: DrawableUnit) -> Seq<OutputItem> {
    Seq::new((CANVAS_WIDTH + 2) as nat, |i: int| OutputItem::Unit(unit))
}

/// Row `y` of the canvas as serialized: the left border glyph, each slot's
/// displayed unit, the right border glyph, then a line break.
pub open spec fn row_items<L>(c: Canvas<L>, y: int) -> Seq<OutputItem> {
    seq![OutputItem::Unit(left_border_unit())] + Seq::new(
        CANVAS_WIDTH as nat,
        |x: int| OutputItem::Unit(displayed_unit(c.slot(x, y))),
    ) + seq![OutputItem::Unit(right_border_unit()), OutputItem::Newline]
}

/// The serialized rows of the canvas from row 0 up to, not including, row `y`.
pub open spec fn rows_up_to<L>(c: Canvas<L>, y: int) -> Seq<OutputItem>
    decreases y,
{
    if y <= 0 {
        Seq::empty()
    } else {
        rows_up_to(c, y - 1) + row_items(c, y - 1)
    }
}

/// Everything the canvas serializes to: the top border row and a line break,
/// each canvas row between border glyphs with its own line break, then the
/// bottom border row.
pub open spec fn render_items<L>(c: Canvas<L>) -> Seq<OutputItem> {
    border_row(top_border_unit()) + seq![OutputItem::Newline] + rows_up_to(
        c,
        CANVAS_HEIGHT as int,
    ) + border_row(bottom_border_unit())
}

impl<L: Layer> Canvas<L> {
    /// The serialized form of this canvas, as the sequence of output items
    /// `write_to` sends.
    fn render(&self) -> (items: Vec<OutputItem>)
        requires
            self.wf(),
        ensures
            items@ == render_items(*self),
    {
        let mut items: Vec<OutputItem> = Vec::new();
        let top = DrawableUnit { left: '_', right: Some('_'), color: UnitColor::White };
        let mut i: usize = 0;
        while i < CANVAS_WIDTH + 2
            invariant
                i <= CANVAS_WIDTH + 2,
                items@.len() == i,
                forall|j: int| 0 <= j < i ==> items@[j] == OutputItem::Unit(top_border_unit()),
                top == top_border_unit(),
            decreases CANVAS_WIDTH + 2 - i,
        {
            items.push(OutputItem::Unit(top));
            i += 1;
        }
        items.push(OutputItem::Newline);
        proof {
            assert(items@ =~= border_row(top_border_unit()) + seq![OutputItem::Newline]);
            assert(rows_up_to(*self, 0) =~= Seq::<OutputItem>::empty());
            assert(items@ =~= border_row(top_border_unit()) + seq![OutputItem::Newline]
                + rows_up_to(*self, 0));
        }
        let ghost head = border_row(top_border_unit()) + seq![OutputItem::Newline];
        let mut y: usize = 0;
        while y < CANVAS_HEIGHT
            invariant
                self.wf(),
                y <= CANVAS_HEIGHT,
                items@ == head + rows_up_to(*self, y as int),
            decreases CANVAS_HEIGHT - y,
        {
            let ghost row_head = items@;
            items.push(OutputItem::Unit(DrawableUnit {
                left: ' ',
                right: Some('|'),
                color: UnitColor::White,
            }));
            let mut x: usize = 0;
            while x < CANVAS_WIDTH
                invariant
                    self.wf(),
                    y < CANVAS_HEIGHT,
                    x <= CANVAS_WIDTH,
                    items@ =~= row_head + seq![OutputItem::Unit(left_border_unit())] + Seq::new(
                        x as nat,
                        |k: int| OutputItem::Unit(displayed_unit(self.slot(k, y as int))),
                    ),
                decreases CANVAS_WIDTH - x,
            {
                proof {
                    lemma_flat_index_in_range(x as int, y as int);
                }
                let index = y * CANVAS_WIDTH + x;
                let displayed = match &self.lattices[index] {
                    Some(pair) => pair.0,
                    None => Canvas::<L>::empty_drawable_unit(),
                };
                items.push(OutputItem::Unit(displayed));
                proof {
                    assert(Seq::new(
                        (x + 1) as nat,
                        |k: int| OutputItem::Unit(displayed_unit(self.slot(k, y as int))),
                    ) =~= Seq::new(
                        x as nat,
                        |k: int| OutputItem::Unit(displayed_unit(self.slot(k, y as int))),
                    ).push(OutputItem::Unit(displayed_unit(self.slot(x as int, y as int)))));
                }
                x += 1;
            }
            items.push(OutputItem::Unit(DrawableUnit {
                left: '|',
                right: Some(' '),
                color: UnitColor::White,
            }));
            items.push(OutputItem::Newline);
            proof {
                assert(items@ =~= row_head + row_items(*self, y as int));
                assert(items@ =~= head + rows_up_to(*self, y as int + 1));
            }
            y += 1;
        }
        let ghost body = items@;
        let bottom = DrawableUnit { left: '￣', right: None, color: UnitColor::White };
        let mut i: usize = 0;
        while i < CANVAS_WIDTH + 2
            invariant
                i <= CANVAS_WIDTH + 2,
                items@.len() == body.len() + i,
                items@ == body + Seq::new(i as nat, |j: int| OutputItem::Unit(bottom_border_unit())),
                bottom == bottom_border_unit(),
            decreases CANVAS_WIDTH + 2 - i,
        {
            items.push(OutputItem::Unit(bottom));
            proof {
                assert(body + Seq::new(
                    (i + 1) as nat,
                    |j: int| OutputItem::Unit(bottom_border_unit()),
                ) =~= (body + Seq::new(i as nat, |j: int| OutputItem::Unit(bottom_border_unit()))).push(
                    OutputItem::Unit(bottom_border_unit()),
                ));
            }
            i += 1;
        }
        proof {
            assert(Seq::new(
                (CANVAS_WIDTH + 2) as nat,
                |j: int| OutputItem::Unit(bottom_border_unit()),
            ) =~= border_row(bottom_border_unit()));
            assert(items@ =~= render_items(*self));
        }
        items
    }

    /// Serializes the whole canvas to `destination`, item by item: the top
    /// border, each row between border glyphs with one line break, the bottom
    /// border. A write failure is returned unchanged and aborts the rest;
    /// what was already accepted stays written.
    pub fn write_to<D: DrawDestination>(&self, destination: &mut D) -> (r: Result<(), DrawError>)
        requires
            self.wf(),
        ensures
            r is Ok ==> final (destination).written() == old(destination).written() + render_items(
                *self,
            ),
            r is Err ==> exists|k: int|
                0 <= k <= render_items(*self).len() && final (destination).written() == old(
                    destination,
                ).written() + render_items(*self).take(k),
    {
        let items = self.render();
        let ghost written0 = destination.written();
        let mut i: usize = 0;
        while i < items.len()
            invariant
                items@ == render_items(*self),
                i <= items@.len(),
                destination.written() == written0 + items@.take(i as int),
                written0 == old(destination).written(),
            decreases items@.len() - i,
        {
            match destination.write_item(&items[i]) {
                Ok(()) => {},
                Err(e) => {
                    proof {
                        assert(destination.written() == written0 + items@.take(i as int));
                    }
                    return Err(e);
                },
            }
            proof {
                assert(items@.take(i as int).push(items@[i as int]) =~= items@.take(i as int + 1));
            }
            i += 1;
        }
        proof {
            assert(items@.take(items@.len() as int) =~= items@);
        }
        Ok(())
    }
}

/// The serialized form of a canvas whose every slot is blank: the fixed
/// border frame around an all-blank interior.
pub open spec fn blank_frame_items() -> Seq<OutputItem> {
    border_row(top_border_unit()) + seq![OutputItem::Newline] + blank_rows(CANVAS_HEIGHT as int)
        + border_row(bottom_border_unit())
}

/// One all-blank serialized row between the side border glyphs.
pub open spec fn blank_row() -> Seq<OutputItem> {
    seq![OutputItem::Unit(left_border_unit())] + Seq::new(
        CANVAS_WIDTH as nat,
        |x: int| OutputItem::Unit(blank_unit()),
    ) + seq![OutputItem::Unit(right_border_unit()), OutputItem::Newline]
}

/// `n` all-blank serialized rows.
pub open spec fn blank_rows(n: int) -> Seq<OutputItem>
    decreases n,
{
    if n <= 0 {
        Seq::empty()
    } else {
        blank_rows(n - 1) + blank_row()
    }
}

/// Law: a canvas whose every slot is blank — as `clear` leaves it —
/// serializes to the fixed border frame around an all-blank interior.
pub proof fn lemma_blank_canvas_renders_blank_frame<L: Layer>(c: Canvas<L>)
    requires
        c.wf(),
        forall|x: int, y: int|
            0 <= x < CANVAS_WIDTH && 0 <= y < CANVAS_HEIGHT ==> c.slot(x, y) is None,
    ensures
        render_items(c) == blank_frame_items(),
{
    lemma_blank_rows_up_to(c, CANVAS_HEIGHT as int);
    assert(render_items(c) =~= blank_frame_items());
}

proof fn lemma_blank_rows_up_to<L: Layer>(c: Canvas<L>, n: int)
    requires
        c.wf(),
        n <= CANVAS_HEIGHT,
        forall|x: int, y: int|
            0 <= x < CANVAS_WIDTH && 0 <= y < CANVAS_HEIGHT ==> c.slot(x, y) is None,
    ensures
        rows_up_to(c, n) == blank_rows(n),
    decreases n,
{
    if n > 0 {
        lemma_blank_rows_up_to(c, n - 1);
        assert(row_items(c, n - 1) =~= blank_row());
    }
}

/// Law: after a draw with layer `l1` and then a draw with layer `l2` at the
/// same, initially blank slot, the slot holds the second draw's content
/// exactly when `l2` is at or above `l1`, and otherwise the first draw's.
pub proof fn lemma_second_draw_wins_iff_at_or_above<L: Layer>(
    u1: DrawableUnit,
    l1: L,
    u2: DrawableUnit,
    l2: L,
)
    ensures
        draw_slot(draw_slot(None, u1, l1), u2, l2) == if l2.depth() >= l1.depth() {
            Some((u2, l2))
        } else {
            Some((u1, l1))
        },
{
}

} // verus!

