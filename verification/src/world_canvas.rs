//! Projection of unbounded signed world coordinates onto the canvas, and a
//! canvas wrapper that draws world objects through it. A world position whose
//! projection falls outside the canvas is a normal miss: nothing is drawn.

use vstd::prelude::*;

use crate::canvas::{draw_slot, Canvas, CanvasItemPosition, CANVAS_HEIGHT, CANVAS_WIDTH};
use crate::drawable_unit::DrawableUnit;
use crate::geometry::Pair;
use crate::layer::Layer;

verus! {

/// A component of a world coordinate.
pub type WorldLattice = isize;

/// A position in the unbounded signed game world.
pub type WorldPosition = Pair<WorldLattice>;

/// An anchor pair: the world position `reference_world_position` is drawn at
/// the canvas position `reference_canvas_position`, and every other world
/// position at the same offset from it.
#[derive(Clone, Copy, Debug, PartialEq, Eq, Structural)]
pub struct Reference {
    /// The canvas point the world reference point is drawn at.
    pub reference_canvas_position: CanvasItemPosition,
    /// The world point drawn at the canvas reference point.
    pub reference_world_position: WorldPosition,
}

/// Where `world_position` lands on the canvas under the translation that
/// `reference` defines: the canvas anchor plus the world offset, or `None`
/// when that point falls outside the canvas. A canvas anchor that does not
/// fit the signed coordinate domain cannot enter the offset arithmetic, so
/// the projection counts it as off-canvas as well.
pub open spec fn project_spec(reference: Reference, world_position: WorldPosition) -> Option<
    CanvasItemPosition,
> {
    let cx = reference.reference_canvas_position.x + world_position.x
        - reference.reference_world_position.x;
    let cy = reference.reference_canvas_position.y + world_position.y
        - reference.reference_world_position.y;
    if reference.reference_canvas_position.x <= isize::MAX
        && reference.reference_canvas_position.y <= isize::MAX && 0 <= cx < CANVAS_WIDTH && 0 <= cy
        < CANVAS_HEIGHT {
        Some(Pair { x: cx as usize, y: cy as usize })
    } else {
        None
    }
}

impl Reference {
    /// The mapping that draws `reference_world_position` at
    /// `reference_canvas_position`.
    pub fn new(
        reference_canvas_position: CanvasItemPosition,
        reference_world_position: WorldPosition,
    ) -> (r: Self)
        ensures
            r == (Reference { reference_canvas_position, reference_world_position }),
    {
        Reference { reference_canvas_position, reference_world_position }
    }

    /// The canvas position `world_position` would be drawn at, or `None` when
    /// it projects outside the canvas — including when the canvas anchor does
    /// not fit the signed domain, or the intermediate arithmetic would leave
    /// the representable coordinate range.
    pub fn canvas_position_of<L>(
        &self,
        world_position: WorldPosition,
        canvas: &Canvas<L>,
    ) -> (r: Option<CanvasItemPosition>)
        ensures
            r == project_spec(*self, world_position),
    {
        if self.reference_canvas_position.x > isize::MAX as usize
            || self.reference_canvas_position.y > isize::MAX as usize {
            return None;
        }
        let offset_x: i128 = world_position.x as i128 - self.reference_world_position.x as i128;
        let offset_y: i128 = world_position.y as i128 - self.reference_world_position.y as i128;
        let candidate_x: i128 = self.reference_canvas_position.x as i128 + offset_x;
        let candidate_y: i128 = self.reference_canvas_position.y as i128 + offset_y;
        if 0 <= candidate_x && candidate_x < CANVAS_WIDTH as i128 && 0 <= candidate_y
            && candidate_y < CANVAS_HEIGHT as i128 {
            let canvas_position = Pair::new(candidate_x as usize, candidate_y as usize);
            if canvas.is_drawable_at(canvas_position) {
                Some(canvas_position)
            } else {
                None
            }
        } else {
            None
        }
    }
}

/// A canvas paired with a reference mapping, so world objects can be drawn by
/// their world position alone.
pub struct WorldCanvas<L> {
    canvas: Canvas<L>,
    reference: Reference,
}

impl<L: Layer> WorldCanvas<L> {
    /// The canvas this surface draws onto.
    pub closed spec fn canvas_view(self) -> Canvas<L> {
        self.canvas
    }

    /// The coordinate mapping draws go through.
    pub closed spec fn reference_view(self) -> Reference {
        self.reference
    }

    /// The underlying canvas has one slot per coordinate.
    pub open spec fn wf(self) -> bool {
        self.canvas_view().wf()
    }

    /// Wraps a canvas together with the reference mapping to draw through.
    pub fn from_canvas(canvas: Canvas<L>, reference: Reference) -> (r: Self)
        ensures
            r.canvas_view() == canvas,
            r.reference_view() == reference,
    {
        WorldCanvas { canvas, reference }
    }

    /// Hands the canvas back, with everything drawn so far.
    pub fn into_canvas(self) -> (r: Canvas<L>)
        ensures
            r == self.canvas_view(),
    {
        self.canvas
    }

    /// Draws `drawable_unit` at the canvas position `world_position` projects
    /// to, under the canvas's compositing rule; when the projection misses
    /// the canvas, nothing is drawn.
    pub fn draw_unit(&mut self, drawable_unit: DrawableUnit, world_position: WorldPosition, layer: L)
        requires
            old(self).wf(),
        ensures
            final (self).wf(),
            final (self).reference_view() == old(self).reference_view(),
            match project_spec(old(self).reference_view(), world_position) {
                Some(p) => final (self).canvas_view().slot(p.x as int, p.y as int) == draw_slot(
                    old(self).canvas_view().slot(p.x as int, p.y as int),
                    drawable_unit,
                    layer,
                ) && forall|x: int, y: int|
                    0 <= x < CANVAS_WIDTH && 0 <= y < CANVAS_HEIGHT && !(x == p.x && y == p.y)
                        ==> final (self).canvas_view().slot(x, y) == old(self).canvas_view().slot(
                        x,
                        y,
                    ),
                None => final (self).canvas_view() == old(self).canvas_view(),
            },
    {
        let projected = self.reference.canvas_position_of(world_position, &self.canvas);
        if let Some(canvas_position) = projected {
            self.canvas.draw_unit(drawable_unit, canvas_position, layer)
        }
    }
}

/// Law: projection is the identity at the reference point — when the canvas
/// anchor is a drawable position, the world anchor projects exactly to it.
pub proof fn lemma_project_identity(reference: Reference)
    requires
        reference.reference_canvas_position.x < CANVAS_WIDTH,
        reference.reference_canvas_position.y < CANVAS_HEIGHT,
    ensures
        project_spec(reference, reference.reference_world_position) == Some(
            reference.reference_canvas_position,
        ),
{
}

/// Law: translating the world position moves the projected point by exactly
/// the same offset, whenever the moved point is still on the canvas.
pub proof fn lemma_project_translates(
    reference: Reference,
    world_position: WorldPosition,
    moved_position: WorldPosition,
    projected: CanvasItemPosition,
)
    requires
        project_spec(reference, world_position) == Some(projected),
        0 <= projected.x + (moved_position.x - world_position.x) < CANVAS_WIDTH,
        0 <= projected.y + (moved_position.y - world_position.y) < CANVAS_HEIGHT,
    ensures
        project_spec(reference, moved_position) == Some(
            Pair {
                x: (projected.x + (moved_position.x - world_position.x)) as usize,
                y: (projected.y + (moved_position.y - world_position.y)) as usize,
            },
        ),
{
}

/// Law: a world position offset from the reference by at least the canvas
/// size, on either axis and in either direction, projects nowhere.
pub proof fn lemma_project_far_off_canvas_is_none(reference: Reference, world_position: WorldPosition)
    requires
        reference.reference_canvas_position.x < CANVAS_WIDTH,
        reference.reference_canvas_position.y < CANVAS_HEIGHT,
        world_position.x - reference.reference_world_position.x >= CANVAS_WIDTH
            || reference.reference_world_position.x - world_position.x >= CANVAS_WIDTH
            || world_position.y - reference.reference_world_position.y >= CANVAS_HEIGHT
            || reference.reference_world_position.y - world_position.y >= CANVAS_HEIGHT,
    ensures
        project_spec(reference, world_position) is None,
{
}

} // verus!
