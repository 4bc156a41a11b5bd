//! A thin adapter that draws UI content straight onto canvas coordinates.

use vstd::prelude::*;

use crate::canvas::{draw_slot, Canvas, CANVAS_HEIGHT, CANVAS_WIDTH};
use crate::drawable_unit::DrawableUnit;
use crate::geometry::Pair;
use crate::layer::Layer;

verus! {

/// A component of a UI coordinate; UI coordinates map one to one onto canvas
/// coordinates.
pub type UiLattice = usize;

/// A drawable UI coordinate.
pub type UiPosition = Pair<UiLattice>;

/// A canvas viewed as a UI surface: draws land at the same coordinates.
pub struct UiCanvas<L> {
    canvas: Canvas<L>,
}

impl<L: Layer> UiCanvas<L> {
    /// The canvas this surface draws onto.
    pub closed spec fn canvas_view(self) -> Canvas<L> {
        self.canvas
    }

    /// The underlying canvas has one slot per coordinate.
    pub open spec fn wf(self) -> bool {
        self.canvas_view().wf()
    }

    /// Wraps a canvas as a UI surface.
    pub fn from_canvas(canvas: Canvas<L>) -> (r: Self)
        ensures
            r.canvas_view() == canvas,
    {
        UiCanvas { canvas }
    }

    /// Hands the canvas back, with everything drawn so far.
    pub fn into_canvas(self) -> (r: Canvas<L>)
        ensures
            r == self.canvas_view(),
    {
        self.canvas
    }

    /// Draws `drawable_unit` at `ui_position` on `layer`, under the canvas's
    /// compositing rule.
    pub fn draw_unit(&mut self, drawable_unit: DrawableUnit, ui_position: UiPosition, layer: L)
        requires
            old(self).wf(),
            ui_position.x < CANVAS_WIDTH,
            ui_position.y < CANVAS_HEIGHT,
        ensures
            final (self).wf(),
            final (self).canvas_view().grid() == old(self).canvas_view().grid().update(
                ui_position.y as int * (CANVAS_WIDTH as int) + ui_position.x as int,
                draw_slot(
                    old(self).canvas_view().slot(ui_position.x as int, ui_position.y as int),
                    drawable_unit,
                    layer,
                ),
            ),
            final (self).canvas_view().slot(ui_position.x as int, ui_position.y as int)
                == draw_slot(
                old(self).canvas_view().slot(ui_position.x as int, ui_position.y as int),
                drawable_unit,
                layer,
            ),
            forall|x: int, y: int|
                0 <= x < CANVAS_WIDTH && 0 <= y < CANVAS_HEIGHT && !(x == ui_position.x && y
                    == ui_position.y) ==> final (self).canvas_view().slot(x, y) == old(
                    self,
                ).canvas_view().slot(x, y),
    {
        self.canvas.draw_unit(drawable_unit, ui_position, layer)
    }
}

} // verus!
