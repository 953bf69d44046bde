//! The four dimensional grids of a tile tree, on top of `ndarray`.
//!
//! A cell is addressed by its face, level of detail, column and row.

use vstd::prelude::*;
use crate::tile_tree::{no_entry, no_tile, TileState, TileTreeEntry};

verus! {

/// The address of a cell: face, level of detail, column and row.
pub type Cell = (usize, usize, usize, usize);

/// Whether a grid of the given dimensions has a cell.
pub open spec fn has_cell(faces: nat, lods: nat, size: nat, cell: Cell) -> bool {
    cell.0 < faces && cell.1 < lods && cell.2 < size && cell.3 < size
}

/// The number of cells of a grid of the given dimensions.
pub open spec fn cell_count(faces: nat, lods: nat, size: nat) -> nat {
    faces * lods * (size * size)
}

/// Whether a grid of the given dimensions fits into memory. A grid without columns and rows is empty.
pub open spec fn fits(faces: nat, lods: nat, size: nat) -> bool {
    &&& 0 < faces
    &&& 0 < lods
    &&& 32 * (faces * lods) <= isize::MAX
    &&& 32 * cell_count(faces, lods, size) <= isize::MAX
}

/// A grid of tile states.
#[verifier::external_body]
pub struct TileGrid {
    cells: ndarray::Array4<TileState>,
}

/// A grid of tile tree entries.
#[verifier::external_body]
pub struct EntryGrid {
    cells: ndarray::Array4<TileTreeEntry>,
}

/// The cells of a grid of tile states.
pub uninterp spec fn tile_cells(grid: TileGrid) -> Map<(usize, usize, usize, usize), TileState>;

/// The cells of a grid of entries.
pub uninterp spec fn entry_cells(
    grid: EntryGrid,
) -> Map<(usize, usize, usize, usize), TileTreeEntry>;

impl TileGrid {
    /// `ndarray::Array4::default`: a grid of the given dimensions whose cells hold no tile.
    ///
    /// It panics when the product of the dimensions that are not zero, or the size of the elements in
    /// bytes, exceeds `isize::MAX`.
    #[verifier::external_body]
    pub(crate) fn new(faces: usize, lods: usize, size: usize) -> (grid: Self)
        requires
            fits(faces as nat, lods as nat, size as nat),
        ensures
            forall|cell: Cell| #[trigger]
                tile_cells(grid).contains_key(cell) <==> has_cell(
                    faces as nat,
                    lods as nat,
                    size as nat,
                    cell,
                ),
            forall|cell: Cell| #[trigger]
                tile_cells(grid).contains_key(cell) ==> tile_cells(grid)[cell] == no_tile(),
    {
        TileGrid { cells: ndarray::Array4::default((faces, lods, size, size)) }
    }

    /// Indexing of an `ndarray::Array4`, which panics outside of the grid.
    #[verifier::external_body]
    pub(crate) fn get(&self, cell: Cell) -> (tile: TileState)
        requires
            tile_cells(*self).contains_key(cell),
        ensures
            tile == tile_cells(*self)[cell],
    {
        self.cells[[cell.0, cell.1, cell.2, cell.3]]
    }

    /// Mutable indexing of an `ndarray::Array4`, which panics outside of the grid.
    #[verifier::external_body]
    pub(crate) fn set(&mut self, cell: Cell, tile: TileState)
        requires
            tile_cells(*old(self)).contains_key(cell),
        ensures
            tile_cells(*final(self)) == tile_cells(*old(self)).insert(cell, tile),
    {
        self.cells[[cell.0, cell.1, cell.2, cell.3]] = tile;
    }
}

impl EntryGrid {
    /// `ndarray::Array4::default`: a grid of the given dimensions whose entries are empty.
    ///
    /// It panics when the product of the dimensions that are not zero, or the size of the elements in
    /// bytes, exceeds `isize::MAX`.
    #[verifier::external_body]
    pub(crate) fn new(faces: usize, lods: usize, size: usize) -> (grid: Self)
        requires
            fits(faces as nat, lods as nat, size as nat),
        ensures
            forall|cell: Cell| #[trigger]
                entry_cells(grid).contains_key(cell) <==> has_cell(
                    faces as nat,
                    lods as nat,
                    size as nat,
                    cell,
                ),
            forall|cell: Cell| #[trigger]
                entry_cells(grid).contains_key(cell) ==> entry_cells(grid)[cell] == no_entry(),
    {
        EntryGrid { cells: ndarray::Array4::default((faces, lods, size, size)) }
    }

    /// Indexing of an `ndarray::Array4`, which panics outside of the grid.
    #[verifier::external_body]
    pub(crate) fn get(&self, cell: Cell) -> (entry: TileTreeEntry)
        requires
            entry_cells(*self).contains_key(cell),
        ensures
            entry == entry_cells(*self)[cell],
    {
        self.cells[[cell.0, cell.1, cell.2, cell.3]]
    }

    /// Mutable indexing of an `ndarray::Array4`, which panics outside of the grid.
    #[verifier::external_body]
    pub(crate) fn set(&mut self, cell: Cell, entry: TileTreeEntry)
        requires
            entry_cells(*old(self)).contains_key(cell),
        ensures
            entry_cells(*final(self)) == entry_cells(*old(self)).insert(cell, entry),
    {
        self.cells[[cell.0, cell.1, cell.2, cell.3]] = entry;
    }
}

} // verus!
