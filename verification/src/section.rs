//! The section buffer: a dense 16x16x16 grid of blocks.

use crate::block::{Block, AIR};
use crate::palette::{encode_section, Section};
use vstd::prelude::*;

verus! {

/// How many cells a section holds.
pub const SECTION_CELLS: usize = 4096;

/// Where the cell `(x, y, z)` of a section lies in its grid: layers by `y`,
/// rows by `z`, cells by `x`.
pub open spec fn section_index(x: int, y: int, z: int) -> int {
    (y % 16) * 256 + z * 16 + x
}

/// Section-local coordinates: each below 16.
pub open spec fn in_section(x: int, y: int, z: int) -> bool {
    0 <= x < 16 && 0 <= y < 16 && 0 <= z < 16
}

/// What a read of a cell reports: nothing for air, the block otherwise.
pub open spec fn visible(b: Block) -> Option<Block> {
    if b == AIR {
        None
    } else {
        Some(b)
    }
}

/// The index covers the grid: it stays inside it, distinct cells have distinct
/// indexes, and every index belongs to the cell that is read off its digits.
pub proof fn lemma_section_index_bijection()
    ensures
        forall|x: int, y: int, z: int|
            in_section(x, y, z) ==> 0 <= #[trigger] section_index(x, y, z) < 4096,
        forall|x1: int, y1: int, z1: int, x2: int, y2: int, z2: int|
            in_section(x1, y1, z1) && in_section(x2, y2, z2) && #[trigger] section_index(
                x1,
                y1,
                z1,
            ) == #[trigger] section_index(x2, y2, z2) ==> x1 == x2 && y1 == y2 && z1 == z2,
        forall|i: int|
            0 <= i < 4096 ==> in_section(i % 16, i / 256, (i / 16) % 16) && #[trigger] section_index(
                i % 16,
                i / 256,
                (i / 16) % 16,
            ) == i,
{
}

/// A section that is being written: 4096 blocks, all air at first.
pub struct SectionToModify {
    blocks: Vec<Block>,
}

impl View for SectionToModify {
    type V = Seq<Block>;

    closed spec fn view(&self) -> Seq<Block> {
        self.blocks@
    }
}

impl SectionToModify {
    /// The grid is complete.
    pub open spec fn wf(&self) -> bool {
        self@.len() == 4096
    }

    /// A section of air.
    pub fn new() -> (s: SectionToModify)
        ensures
            s.wf(),
            forall|i: int| 0 <= i < 4096 ==> s@[i] == AIR,
    {
        let mut blocks: Vec<Block> = Vec::with_capacity(SECTION_CELLS);
        let mut i: usize = 0;
        while i < SECTION_CELLS
            invariant
                i <= SECTION_CELLS,
                blocks@.len() == i,
                forall|k: int| 0 <= k < i ==> blocks@[k] == AIR,
            decreases SECTION_CELLS - i,
        {
            blocks.push(AIR);
            i += 1;
        }
        SectionToModify { blocks }
    }

    /// The position of a cell in the grid.
    pub fn index(x: u8, y: u8, z: u8) -> (i: usize)
        ensures
            i == section_index(x as int, y as int, z as int),
            x < 16 && z < 16 ==> i < 4096,
    {
        (y as usize) % 16 * 256 + (z as usize) * 16 + (x as usize)
    }

    /// The block in a cell, unless the cell is air.
    pub fn get_block(&self, x: u8, y: u8, z: u8) -> (r: Option<Block>)
        requires
            self.wf(),
            section_index(x as int, y as int, z as int) < 4096,
        ensures
            r == visible(self@[section_index(x as int, y as int, z as int)]),
    {
        let b: Block = self.blocks[Self::index(x, y, z)];
        if b == AIR {
            return None;
        }
        Some(b)
    }

    /// Overwrites a cell, whatever it held.
    pub fn set_block(&mut self, x: u8, y: u8, z: u8, block: Block)
        requires
            old(self).wf(),
            section_index(x as int, y as int, z as int) < 4096,
        ensures
            final(self).wf(),
            final(self)@ == old(self)@.update(section_index(x as int, y as int, z as int), block),
    {
        let i: usize = Self::index(x, y, z);
        self.blocks.set(i, block);
    }

    /// The stored form of this section at height index `y`: the palette of
    /// its blocks and their indexes, packed.
    pub fn to_section(&self, y: i8) -> (s: Section)
        requires
            self.wf(),
        ensures
            s.encodes(self@, y),
    {
        encode_section(&self.blocks, y)
    }
}

impl Default for SectionToModify {
    fn default() -> (s: SectionToModify)
        ensures
            s.wf(),
            forall|i: int| 0 <= i < 4096 ==> s@[i] == AIR,
    {
        SectionToModify::new()
    }
}

} // verus!
