//! A rendering engine for a grid-based console game.
//!
//! Text is segmented into square render cells ([`DrawableUnit`]), composited
//! into a fixed-size grid ([`Canvas`]) with deterministic layering, projected
//! from world coordinates ([`WorldCanvas`]), and paginated into a scrollable
//! message log ([`MessageBuffer`]).
//!
//! Caller errors — glyphs of the wrong display width, out-of-bounds draw
//! coordinates, too-narrow message regions — are stated as `requires`
//! clauses: verified callers are held to them statically, and no run-time
//! check remains, preserving the zero-cost-in-release intent of a
//! debug-assertion policy. World positions that project off the canvas, and
//! log lines scrolled out of view, are by contrast ordinary outcomes: nothing
//! is drawn and no error is raised.

pub mod canvas;
pub mod char_width;
pub mod drawable_unit;
pub mod geometry;
pub mod layer;
pub mod message_buffer;
pub mod ui_canvas;
pub mod world_canvas;

pub use canvas::{Canvas, CanvasItemPosition, CanvasLattice, CANVAS_HEIGHT, CANVAS_WIDTH};
pub use drawable_unit::{DrawDestination, DrawError, DrawableUnit, OutputItem, UnitColor};
pub use geometry::{Pair, Rectangle};
pub use layer::Layer;
pub use drawable_unit::OutputBuffer;
pub use message_buffer::{div_ceil, MessageBuffer, MessageLine};
pub use ui_canvas::{UiCanvas, UiLattice, UiPosition};
pub use world_canvas::{Reference, WorldCanvas, WorldLattice, WorldPosition};
