use vstd::prelude::*;

verus! {

/// Texture rectangles of a block type: one for every face, one for the
/// sides plus one each for top and bottom, or one per face.
#[derive(Copy, Clone, Debug)]
pub enum BlockFaces<T> {
    All(T),
    Sides { sides: T, top: T, bottom: T },
    Each { top: T, bottom: T, front: T, back: T, left: T, right: T },
}

/// Per-face rectangles in the order front, back, top, bottom, left, right.
pub type UVFaces<T> = (T, T, T, T, T, T);

impl<T> BlockFaces<T> {
    /// The six rectangles that `get_uv_of_every_faces` hands out.
    pub open spec fn uv_of_every_faces(self) -> UVFaces<T> {
        match self {
            BlockFaces::All(uv) => (uv, uv, uv, uv, uv, uv),
            BlockFaces::Sides { sides, top, bottom } => (sides, sides, top, bottom, sides, sides),
            BlockFaces::Each { top, bottom, front, back, left, right } => (
                front,
                back,
                top,
                bottom,
                left,
                right,
            ),
        }
    }
}

impl<T: Copy> BlockFaces<T> {
    /// Unpacks the configuration into one rectangle per face.
    pub fn get_uv_of_every_faces(&self) -> (r: UVFaces<T>)
        ensures
            r == self.uv_of_every_faces(),
    {
        match self {
            BlockFaces::All(uv) => (*uv, *uv, *uv, *uv, *uv, *uv),
            BlockFaces::Sides { sides, top, bottom } => (*sides, *sides, *top, *bottom, *sides, *sides),
            BlockFaces::Each { top, bottom, front, back, left, right } => (
                *front,
                *back,
                *top,
                *bottom,
                *left,
                *right,
            ),
        }
    }
}

} // verus!
