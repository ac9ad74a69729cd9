//! Placement of rooms and label markers in the scene, in integer tenths.
//!
//! The viewer scales one grid cell to a fixed unit. Every offset the scene
//! needs is a multiple of a tenth of a cell: markers sit half a cell in from
//! a face's edge and two tenths off the face along its normal, and marker
//! plates are one cell across and two tenths thick. Working in tenths keeps
//! the whole layout in integers; the viewer multiplies by a tenth of its cell
//! unit when it builds the scene.

use vstd::prelude::*;

verus! {

/// The six faces of a box, named as seen from the viewer's starting position.
#[derive(Clone, Copy, Debug, PartialEq, Eq, Structural)]
pub enum Face {
    /// The face on top of the box.
    Top,
    /// The face away from the viewer.
    Back,
    /// The face on the viewer's right.
    Right,
    /// The face toward the viewer.
    Front,
    /// The face on the viewer's left.
    Left,
    /// The face under the box.
    Floor,
}

/// Dimensions and coordinates a scene can hold: small enough that every
/// tenth-of-a-cell offset fits comfortably in a signed machine word.
pub open spec fn fits_scene(v: int) -> bool {
    v <= 0x0800_0000_0000_0000
}

/// Where the marker of a letter at local column `lx`, local row `ly` of a
/// face sits, relative to the center of a `w` by `d` by `h` box, in tenths of
/// a cell: the local coordinate is centered on the face's axis and the marker
/// is pulled two tenths of a cell in from the face's surface.
pub open spec fn marker_position_spec(
    face: Face,
    lx: int,
    ly: int,
    w: int,
    d: int,
    h: int,
) -> (int, int, int) {
    match face {
        Face::Top => (10 * lx - 5 * w + 5, 5 * h - 2, 5 * d - 10 * ly - 5),
        Face::Back => (10 * lx - 5 * w + 5, 5 * h - 10 * ly - 5, 2 - 5 * d),
        Face::Right => (5 * w - 2, 5 * d - 10 * ly - 5, 10 * lx - 5 * h + 5),
        Face::Front => (5 * w - 10 * lx - 5, 5 * h - 10 * ly - 5, 5 * d - 2),
        Face::Left => (2 - 5 * w, 5 * d - 10 * ly - 5, 5 * h - 10 * lx - 5),
        Face::Floor => (10 * lx - 5 * w + 5, 2 - 5 * h, 10 * ly - 5 * d + 5),
    }
}

/// The extent of a marker plate on this face, in tenths of a cell: one cell
/// across the face and two tenths thick along its normal.
pub open spec fn marker_extent_spec(face: Face) -> (int, int, int) {
    match face {
        Face::Top => (10, 2, 10),
        Face::Back => (10, 10, 2),
        Face::Right => (2, 10, 10),
        Face::Front => (10, 10, 2),
        Face::Left => (2, 10, 10),
        Face::Floor => (10, 2, 10),
    }
}

/// The position of a letter's marker relative to the center of its room's
/// box, in tenths of a cell; agrees with [`marker_position_spec`].
pub fn marker_position(face: Face, lx: usize, ly: usize, w: usize, d: usize, h: usize) -> (p: (
    i64,
    i64,
    i64,
))
    requires
        fits_scene(lx as int),
        fits_scene(ly as int),
        fits_scene(w as int),
        fits_scene(d as int),
        fits_scene(h as int),
    ensures
        (p.0 as int, p.1 as int, p.2 as int) == marker_position_spec(
            face,
            lx as int,
            ly as int,
            w as int,
            d as int,
            h as int,
        ),
{
    let x: i64;
    let y: i64;
    let z: i64;
    match face {
        Face::Top => {
            x = 10 * (lx as i64) - 5 * (w as i64) + 5;
            y = 5 * (h as i64) - 2;
            z = 5 * (d as i64) - 10 * (ly as i64) - 5;
        },
        Face::Back => {
            x = 10 * (lx as i64) - 5 * (w as i64) + 5;
            y = 5 * (h as i64) - 10 * (ly as i64) - 5;
            z = 2 - 5 * (d as i64);
        },
        Face::Right => {
            x = 5 * (w as i64) - 2;
            y = 5 * (d as i64) - 10 * (ly as i64) - 5;
            z = 10 * (lx as i64) - 5 * (h as i64) + 5;
        },
        Face::Front => {
            x = 5 * (w as i64) - 10 * (lx as i64) - 5;
            y = 5 * (h as i64) - 10 * (ly as i64) - 5;
            z = 5 * (d as i64) - 2;
        },
        Face::Left => {
            x = 2 - 5 * (w as i64);
            y = 5 * (d as i64) - 10 * (ly as i64) - 5;
            z = 5 * (h as i64) - 10 * (lx as i64) - 5;
        },
        Face::Floor => {
            x = 10 * (lx as i64) - 5 * (w as i64) + 5;
            y = 2 - 5 * (h as i64);
            z = 10 * (ly as i64) - 5 * (d as i64) + 5;
        },
    }
    (x, y, z)
}

/// The extent of a marker plate on this face, in tenths of a cell; agrees
/// with [`marker_extent_spec`].
pub fn marker_extent(face: Face) -> (e: (i64, i64, i64))
    ensures
        (e.0 as int, e.1 as int, e.2 as int) == marker_extent_spec(face),
{
    match face {
        Face::Top => (10, 2, 10),
        Face::Back => (10, 10, 2),
        Face::Right => (2, 10, 10),
        Face::Front => (10, 10, 2),
        Face::Left => (2, 10, 10),
        Face::Floor => (10, 2, 10),
    }
}

/// The extent of a room's box, in tenths of a cell: ten tenths per cell on
/// each axis, width across, height up, depth away.
pub fn room_extent(w: usize, d: usize, h: usize) -> (e: (i64, i64, i64))
    requires
        fits_scene(w as int),
        fits_scene(d as int),
        fits_scene(h as int),
    ensures
        e.0 == 10 * w as int,
        e.1 == 10 * h as int,
        e.2 == 10 * d as int,
{
    (10 * (w as i64), 10 * (h as i64), 10 * (d as i64))
}

} // verus!
