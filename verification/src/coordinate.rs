//! Coordinates of the tiles of a terrain.

use vstd::prelude::*;

verus! {

/// The address of a tile: the quadtree of its face, the level of detail inside that quadtree and
/// its position in units of tiles of that level.
///
/// Level `0` is the coarsest one: a face is a single tile there, and `2^lod` tiles wide at `lod`.
#[derive(Clone, Copy, Debug, PartialEq, Eq, Structural, Hash)]
pub struct TileCoordinate {
    pub face: u32,
    pub lod: u32,
    pub x: i32,
    pub y: i32,
}

/// The coordinate that stands for "no tile".
pub open spec fn invalid_tile() -> TileCoordinate {
    TileCoordinate { face: u32::MAX, lod: u32::MAX, x: i32::MAX, y: i32::MAX }
}

/// The tile of the next coarser level that covers `tile`, if there is a coarser level.
pub open spec fn parent_tile(tile: TileCoordinate) -> Option<TileCoordinate> {
    if tile.lod == 0 {
        None
    } else {
        Some(
            TileCoordinate {
                face: tile.face,
                lod: (tile.lod - 1) as u32,
                x: (tile.x as int / 2) as i32,
                y: (tile.y as int / 2) as i32,
            },
        )
    }
}

/// A parent covers its child: it lies on the same face, one level of detail above it, and consists of
/// two by two tiles of the level of the child. Exactly the tiles of the coarsest level have none.
pub proof fn parents_cover_their_children(tile: TileCoordinate)
    ensures
        parent_tile(tile) is Some <==> tile.lod > 0,
        tile.lod > 0 ==> {
            let parent = parent_tile(tile)->Some_0;
            &&& parent.face == tile.face
            &&& parent.lod == tile.lod - 1
            &&& 2 * parent.x <= tile.x <= 2 * parent.x + 1
            &&& 2 * parent.y <= tile.y <= 2 * parent.y + 1
        },
{
}

/// Half of a tile position, rounded towards negative infinity.
fn halve(value: i32) -> (half: i32)
    ensures
        half == value as int / 2,
{
    if value >= 0 {
        value / 2
    } else {
        -1 - (-1 - value) / 2
    }
}

impl TileCoordinate {
    pub fn new(face: u32, lod: u32, x: i32, y: i32) -> (tile: Self)
        ensures
            tile == (TileCoordinate { face, lod, x, y }),
    {
        TileCoordinate { face, lod, x, y }
    }

    /// The coordinate that stands for "no tile".
    pub fn invalid() -> (tile: Self)
        ensures
            tile == invalid_tile(),
    {
        TileCoordinate { face: u32::MAX, lod: u32::MAX, x: i32::MAX, y: i32::MAX }
    }

    /// The tile of the next coarser level that covers this one, if there is a coarser level.
    pub fn parent(self) -> (parent: Option<Self>)
        ensures
            parent == parent_tile(self),
            parent is Some <==> self.lod > 0,
            parent is Some ==> {
                let parent = parent->Some_0;
                &&& parent.face == self.face
                &&& parent.lod == self.lod - 1
                &&& 2 * parent.x <= self.x <= 2 * parent.x + 1
                &&& 2 * parent.y <= self.y <= 2 * parent.y + 1
            },
    {
        if self.lod == 0 {
            None
        } else {
            Some(
                TileCoordinate {
                    face: self.face,
                    lod: self.lod - 1,
                    x: halve(self.x),
                    y: halve(self.y),
                },
            )
        }
    }
}

impl Default for TileCoordinate {
    fn default() -> (tile: Self)
        ensures
            tile == (TileCoordinate { face: 0, lod: 0, x: 0, y: 0 }),
    {
        TileCoordinate { face: 0, lod: 0, x: 0, y: 0 }
    }
}

} // verus!
