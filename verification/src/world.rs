//! The world buffer: region buffers by their coordinates, and the
//! decomposition of a global coordinate into region, chunk and cell.

use crate::block::{Block, AIR};
use crate::chunk::{entity_appended, height_in_range, ChunkToModify};
use crate::index::{index_get, index_insert, index_keys, index_new, index_remove};
use crate::nbt::NbtValue;
use crate::region::{local_chunk, RegionToModify};
use crate::section::visible;
use fnv::FnvHashMap;
use vstd::prelude::*;

verus! {

/// The region coordinates that a 32-bit block coordinate can fall into.
pub open spec fn region_coord(r: int) -> bool {
    -4194304 <= r < 4194304
}

/// The chunk that a block coordinate lies in, on one axis.
pub open spec fn chunk_of(x: int) -> int {
    x / 16
}

/// The region that a block coordinate lies in, on one axis.
pub open spec fn region_of(x: int) -> int {
    (x / 16) / 32
}

/// The key under which the region `(rx, rz)` is stored.
pub open spec fn region_key(rx: int, rz: int) -> int {
    (rx + 4194304) * 8388608 + (rz + 4194304)
}

/// A coordinate splits into region, chunk within the region and cell within
/// the chunk, and the three parts give the coordinate back. The shifts and
/// masks on the left compute the quotients and remainders on the right.
pub proof fn lemma_decompose(x: i32)
    ensures
        (x >> 4) as int == chunk_of(x as int),
        ((x >> 4) >> 5) as int == region_of(x as int),
        ((x >> 4) & 31) as int == chunk_of(x as int) % 32,
        (x & 15) as int == x as int % 16,
        region_coord(((x >> 4) >> 5) as int),
        local_chunk(((x >> 4) & 31) as int),
        0 <= (x & 15) < 16,
        ((x >> 4) >> 5) * 512 + ((x >> 4) & 31) * 16 + (x & 15) == x,
{
    assert((x >> 4i32) * 16 + (x & 15) == x && 0 <= (x & 15) < 16 && -134217728 <= (x >> 4i32)
        < 134217728) by (bit_vector);
    let c: i32 = x >> 4i32;
    assert(-134217728 <= c < 134217728 ==> (c >> 5i32) * 32 + (c & 31) == c && 0 <= (c & 31) < 32
        && -4194304 <= (c >> 5i32) < 4194304) by (bit_vector);
}

/// A world that is being written.
pub struct WorldToModify {
    regions: FnvHashMap<i64, RegionToModify>,
}

impl WorldToModify {
    /// Every region sits at coordinates that a block coordinate can reach and
    /// is itself valid.
    pub closed spec fn wf(&self) -> bool {
        forall|k: i64| #[trigger]
            self.regions@.contains_key(k) ==> 0 <= k < 70368744177664 && self.regions@[k].wf()
    }

    /// Whether the region `(rx, rz)` has been materialised.
    pub closed spec fn has_region(&self, rx: int, rz: int) -> bool {
        region_coord(rx) && region_coord(rz) && self.regions@.contains_key(
            region_key(rx, rz) as i64,
        )
    }

    /// The region `(rx, rz)`.
    pub closed spec fn region(&self, rx: int, rz: int) -> RegionToModify {
        self.regions@[region_key(rx, rz) as i64]
    }

    /// The chunk at the global chunk coordinates `(cx, cz)`, if it has been
    /// materialised.
    pub open spec fn chunk_at(&self, cx: int, cz: int) -> Option<ChunkToModify> {
        if self.has_region(cx / 32, cz / 32) && self.region(cx / 32, cz / 32).has_chunk(
            cx % 32,
            cz % 32,
        ) {
            Some(self.region(cx / 32, cz / 32).chunk(cx % 32, cz % 32))
        } else {
            None
        }
    }

    /// Whether the chunk at the global chunk coordinates `(cx, cz)` has been
    /// materialised.
    pub open spec fn has_chunk(&self, cx: int, cz: int) -> bool {
        self.chunk_at(cx, cz) is Some
    }

    /// Whether the section `sy` of the chunk `(cx, cz)` has been materialised.
    pub open spec fn has_section(&self, cx: int, sy: int, cz: int) -> bool {
        match self.chunk_at(cx, cz) {
            Some(c) => c.has_section(sy),
            None => false,
        }
    }

    /// What the cell at the global coordinates `(x, y, z)` holds: air
    /// wherever nothing has been materialised.
    pub open spec fn cell(&self, x: int, y: int, z: int) -> Block {
        match self.chunk_at(chunk_of(x), chunk_of(z)) {
            Some(c) => c.cell(x % 16, y, z % 16),
            None => AIR,
        }
    }

    /// The further fields of the chunk `(cx, cz)`.
    pub open spec fn other(&self, cx: int, cz: int) -> Seq<(String, NbtValue)> {
        match self.chunk_at(cx, cz) {
            Some(c) => c.other(),
            None => Seq::empty(),
        }
    }

    /// How the world stands after one write of `block` at `(x, y, z)` into
    /// `pre`: that cell holds `block`, its region, chunk and section exist,
    /// and everything else is as in `pre`.
    pub open spec fn after_write(&self, pre: WorldToModify, x: int, y: int, z: int, block: Block) -> bool {
        &&& forall|rx: int, rz: int| #[trigger]
            self.has_region(rx, rz) == (pre.has_region(rx, rz) || (rx == region_of(x) && rz
                == region_of(z)))
        &&& forall|cx: int, cz: int| #[trigger]
            self.has_chunk(cx, cz) == (pre.has_chunk(cx, cz) || (cx == chunk_of(x) && cz
                == chunk_of(z)))
        &&& forall|cx: int, sy: int, cz: int| #[trigger]
            self.has_section(cx, sy, cz) == (pre.has_section(cx, sy, cz) || (cx == chunk_of(x)
                && sy == y / 16 && cz == chunk_of(z)))
        &&& forall|a: int, b: int, c: int| #[trigger]
            self.cell(a, b, c) == (if a == x && b == y && c == z {
                block
            } else {
                pre.cell(a, b, c)
            })
        &&& forall|cx: int, cz: int| #[trigger] self.other(cx, cz) =~= pre.other(cx, cz)
    }

    /// How the world stands after `entity` was added to the block entities
    /// of the chunk that holds `(x, z)` in `pre`: the chunk and its region
    /// exist, its fields have the entity, and every cell, every section and
    /// the fields of every other chunk are as in `pre`.
    pub open spec fn after_entity(&self, pre: WorldToModify, x: int, z: int, entity: NbtValue) -> bool {
        &&& forall|rx: int, rz: int| #[trigger]
            self.has_region(rx, rz) == (pre.has_region(rx, rz) || (rx == region_of(x) && rz
                == region_of(z)))
        &&& forall|cx: int, cz: int| #[trigger]
            self.has_chunk(cx, cz) == (pre.has_chunk(cx, cz) || (cx == chunk_of(x) && cz
                == chunk_of(z)))
        &&& forall|cx: int, sy: int, cz: int| #[trigger]
            self.has_section(cx, sy, cz) == pre.has_section(cx, sy, cz)
        &&& forall|a: int, b: int, c: int| #[trigger] self.cell(a, b, c) == pre.cell(a, b, c)
        &&& forall|cx: int, cz: int|
            !(cx == chunk_of(x) && cz == chunk_of(z)) ==> #[trigger] self.other(cx, cz)
                =~= pre.other(cx, cz)
        &&& entity_appended(
            pre.other(chunk_of(x), chunk_of(z)),
            self.other(chunk_of(x), chunk_of(z)),
            entity,
        )
    }

    /// A materialised region lies at coordinates that a block coordinate
    /// can fall into.
    pub proof fn lemma_region_range(&self, rx: int, rz: int)
        requires
            self.has_region(rx, rz),
        ensures
            region_coord(rx),
            region_coord(rz),
    {
    }

    /// A world with no region.
    pub fn new() -> (w: WorldToModify)
        ensures
            w.wf(),
            forall|rx: int, rz: int| !w.has_region(rx, rz),
    {
        WorldToModify { regions: index_new() }
    }

    /// The region `(x, z)`, if it has been materialised. Never materialises
    /// one.
    pub fn get_region(&self, x: i32, z: i32) -> (r: Option<&RegionToModify>)
        requires
            self.wf(),
        ensures
            match r {
                Some(g) => self.has_region(x as int, z as int) && *g == self.region(
                    x as int,
                    z as int,
                ) && g.wf(),
                None => !self.has_region(x as int, z as int),
            },
    {
        if x < -4194304 || x >= 4194304 || z < -4194304 || z >= 4194304 {
            return None;
        }
        index_get(&self.regions, (x as i64 + 4194304) * 8388608 + (z as i64 + 4194304))
    }

    /// Takes the region `(x, z)` out of the world, or makes an empty one
    /// where there was none. The caller writes to it and puts it back.
    pub fn get_or_create_region(&mut self, x: i32, z: i32) -> (g: RegionToModify)
        requires
            old(self).wf(),
            region_coord(x as int),
            region_coord(z as int),
        ensures
            final(self).wf(),
            g.wf(),
            old(self).has_region(x as int, z as int) ==> g == old(self).region(x as int, z as int),
            !old(self).has_region(x as int, z as int) ==> forall|cx: int, cz: int|
                !g.has_chunk(cx, cz),
            forall|a: int, b: int| #[trigger]
                final(self).has_region(a, b) == (old(self).has_region(a, b) && !(a == x && b == z)),
            forall|a: int, b: int|
                final(self).has_region(a, b) ==> #[trigger] final(self).region(a, b) == old(self).region(a, b),
    {
        let key: i64 = (x as i64 + 4194304) * 8388608 + (z as i64 + 4194304);
        let g: RegionToModify = match index_remove(&mut self.regions, key) {
            Some(g) => g,
            None => RegionToModify::new(),
        };
        g
    }

    /// Puts a region at `(x, z)`, in place of what was there.
    pub fn put_region(&mut self, x: i32, z: i32, g: RegionToModify)
        requires
            old(self).wf(),
            g.wf(),
            region_coord(x as int),
            region_coord(z as int),
        ensures
            final(self).wf(),
            final(self).region(x as int, z as int) == g,
            forall|a: int, b: int| #[trigger]
                final(self).has_region(a, b) == (old(self).has_region(a, b) || (a == x && b == z)),
            forall|a: int, b: int|
                region_coord(a) && region_coord(b) && !(a == x && b == z) ==> #[trigger] final(self).region(a, b) == old(self).region(a, b),
    {
        let key: i64 = (x as i64 + 4194304) * 8388608 + (z as i64 + 4194304);
        index_insert(&mut self.regions, key, g);
    }

    /// The block at the global coordinates `(x, y, z)`, unless that cell is
    /// air or was never written. Never materialises anything.
    pub fn get_block(&self, x: i32, y: i32, z: i32) -> (r: Option<Block>)
        requires
            self.wf(),
            self.has_chunk(chunk_of(x as int), chunk_of(z as int)) ==> height_in_range(y as int),
        ensures
            r == visible(self.cell(x as int, y as int, z as int)),
    {
        proof {
            lemma_decompose(x);
            lemma_decompose(z);
        }
        let chunk_x: i32 = x >> 4;
        let chunk_z: i32 = z >> 4;
        let region_x: i32 = chunk_x >> 5;
        let region_z: i32 = chunk_z >> 5;
        match self.get_region(region_x, region_z) {
            None => None,
            Some(region) => match region.get_chunk(chunk_x & 31, chunk_z & 31) {
                None => None,
                Some(chunk) => chunk.get_block((x & 15) as u8, y, (z & 15) as u8),
            },
        }
    }

    /// Writes the cell at the global coordinates `(x, y, z)`, materialising
    /// its region, chunk and section where needed. Nothing else changes.
    pub fn set_block(&mut self, x: i32, y: i32, z: i32, block: Block)
        requires
            old(self).wf(),
            height_in_range(y as int),
        ensures
            final(self).wf(),
            final(self).after_write(*old(self), x as int, y as int, z as int, block),
    {
        proof {
            lemma_decompose(x);
            lemma_decompose(z);
        }
        let chunk_x: i32 = x >> 4;
        let chunk_z: i32 = z >> 4;
        let region_x: i32 = chunk_x >> 5;
        let region_z: i32 = chunk_z >> 5;
        let mut region: RegionToModify = self.get_or_create_region(region_x, region_z);
        let mut chunk: ChunkToModify = region.get_or_create_chunk(chunk_x & 31, chunk_z & 31);
        chunk.set_block((x & 15) as u8, y, (z & 15) as u8, block);
        region.put_chunk(chunk_x & 31, chunk_z & 31, chunk);
        self.put_region(region_x, region_z, region);
    }

    /// Adds a block entity to the chunk that holds `(x, z)`, materialising
    /// the chunk and its region where needed.
    pub fn add_block_entity(&mut self, x: i32, z: i32, entity: NbtValue)
        requires
            old(self).wf(),
        ensures
            final(self).wf(),
            final(self).after_entity(*old(self), x as int, z as int, entity),
    {
        proof {
            lemma_decompose(x);
            lemma_decompose(z);
        }
        let chunk_x: i32 = x >> 4;
        let chunk_z: i32 = z >> 4;
        let region_x: i32 = chunk_x >> 5;
        let region_z: i32 = chunk_z >> 5;
        let mut region: RegionToModify = self.get_or_create_region(region_x, region_z);
        let mut chunk: ChunkToModify = region.get_or_create_chunk(chunk_x & 31, chunk_z & 31);
        chunk.add_block_entity(entity);
        region.put_chunk(chunk_x & 31, chunk_z & 31, chunk);
        self.put_region(region_x, region_z, region);
    }

    /// The coordinates of every materialised region, each once, in no
    /// stated order.
    pub fn region_coords(&self) -> (r: Vec<(i32, i32)>)
        requires
            self.wf(),
        ensures
            forall|k: int|
                0 <= k < r@.len() ==> self.has_region(
                    (#[trigger] r@[k]).0 as int,
                    r@[k].1 as int,
                ),
            forall|i: int, j: int| 0 <= i < j < r@.len() ==> r@[i] != r@[j],
            forall|rx: int, rz: int|
                self.has_region(rx, rz) ==> exists|k: int|
                    0 <= k < r@.len() && #[trigger] r@[k] == (rx as i32, rz as i32),
    {
        let keys: Vec<i64> = index_keys(&self.regions);
        let mut out: Vec<(i32, i32)> = Vec::new();
        let mut i: usize = 0;
        while i < keys.len()
            invariant
                self.wf(),
                i <= keys@.len(),
                out@.len() == i,
                forall|k: i64| keys@.contains(k) <==> self.regions@.contains_key(k),
                forall|k: int|
                    0 <= k < i ==> region_coord((#[trigger] out@[k]).0 as int) && region_coord(
                        out@[k].1 as int,
                    ) && region_key(out@[k].0 as int, out@[k].1 as int) == keys@[k],
            decreases keys@.len() - i,
        {
            let key: i64 = keys[i];
            assert(keys@.contains(key));
            let rx: i64 = key / 8388608 - 4194304;
            let rz: i64 = key % 8388608 - 4194304;
            out.push((rx as i32, rz as i32));
            i += 1;
        }
        assert forall|rx: int, rz: int| self.has_region(rx, rz) implies exists|k: int|
            0 <= k < out@.len() && #[trigger] out@[k] == (rx as i32, rz as i32) by {
            assert(keys@.contains(region_key(rx, rz) as i64));
            let k = choose|k: int| 0 <= k < keys@.len() && keys@[k] == region_key(rx, rz) as i64;
            assert(out@[k] == (rx as i32, rz as i32));
        }
        assert forall|k: int| 0 <= k < out@.len() implies self.has_region(
            (#[trigger] out@[k]).0 as int,
            out@[k].1 as int,
        ) by {
            assert(keys@.contains(keys@[k]));
        }
        out
    }
}

impl Default for WorldToModify {
    fn default() -> (w: WorldToModify)
        ensures
            w.wf(),
            forall|rx: int, rz: int| !w.has_region(rx, rz),
    {
        WorldToModify::new()
    }
}

} // verus!
