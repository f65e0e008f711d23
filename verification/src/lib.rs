//! Square-spiral memory computations.
//!
//! Cells of an infinite grid are numbered along a square spiral that starts
//! at the origin and winds outward counterclockwise.  The library answers two
//! questions about that layout: the Manhattan distance from a numbered cell
//! back to the center, computed in closed form from the cell's ring, and the
//! first value of the spiral-sum sequence (each cell holding the sum of its
//! already-filled neighbors) that exceeds a given target.

mod cursor;
mod grid;
mod ring;
mod spiral;
mod vec2;

pub use cursor::COORD_BOUND;
pub use cursor::Cursor;
pub use cursor::CursorModel;
pub use cursor::cursor_init;
pub use cursor::cursor_step;
pub use cursor::is_unit;
pub use grid::Grid;
pub use ring::find_ring;
pub use ring::is_ring_of;
pub use ring::lemma_manhattan_distance_unique;
pub use ring::lemma_ring_unique;
pub use ring::manhattan_distance;
pub use ring::spiral_dist;
pub use ring::spiral_ring;
pub use spiral::SpiralState;
pub use spiral::reaches_past;
pub use spiral::grid_value;
pub use spiral::lemma_spiral_val_monotone;
pub use spiral::lemma_sum_to_target_unique;
pub use spiral::neighbor_points;
pub use spiral::spiral_init;
pub use spiral::spiral_step;
pub use spiral::spiral_val;
pub use spiral::state_at;
pub use spiral::sum_at;
pub use spiral::sum_cells;
pub use spiral::views_of;
pub use spiral::sum_to_target;
pub use vec2::Vec2;
pub use vec2::abs_of;
pub use vec2::spec_add;
pub use vec2::spec_neg;
pub use vec2::spec_rot_ccw;
pub use vec2::spec_rot_cw;
pub use vec2::spec_sub;
