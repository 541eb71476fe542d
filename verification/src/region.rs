//! The region buffer: a sparse 32 x 32 grid of chunk buffers.

use crate::chunk::ChunkToModify;
use crate::index::{index_get, index_insert, index_new, index_remove};
use fnv::FnvHashMap;
use vstd::prelude::*;

verus! {

/// A chunk's place inside its region, on one axis.
pub open spec fn local_chunk(c: int) -> bool {
    0 <= c < 32
}

/// A region that is being written.
pub struct RegionToModify {
    chunks: FnvHashMap<i64, ChunkToModify>,
}

impl RegionToModify {
    /// Every chunk sits at a place inside the region and is itself valid.
    pub closed spec fn wf(&self) -> bool {
        forall|k: i64| #[trigger]
            self.chunks@.contains_key(k) ==> 0 <= k < 1024 && self.chunks@[k].wf()
    }

    /// Whether the chunk at `(cx, cz)` has been materialised.
    pub closed spec fn has_chunk(&self, cx: int, cz: int) -> bool {
        local_chunk(cx) && local_chunk(cz) && self.chunks@.contains_key((cx * 32 + cz) as i64)
    }

    /// The chunk at `(cx, cz)`.
    pub closed spec fn chunk(&self, cx: int, cz: int) -> ChunkToModify {
        self.chunks@[(cx * 32 + cz) as i64]
    }

    /// A region with no chunk.
    pub fn new() -> (r: RegionToModify)
        ensures
            r.wf(),
            forall|cx: int, cz: int| !r.has_chunk(cx, cz),
    {
        RegionToModify { chunks: index_new() }
    }

    /// The chunk at `(x, z)`, if it has been materialised. Never
    /// materialises one.
    pub fn get_chunk(&self, x: i32, z: i32) -> (r: Option<&ChunkToModify>)
        requires
            self.wf(),
        ensures
            match r {
                Some(c) => self.has_chunk(x as int, z as int) && *c == self.chunk(
                    x as int,
                    z as int,
                ) && c.wf(),
                None => !self.has_chunk(x as int, z as int),
            },
    {
        if x < 0 || x >= 32 || z < 0 || z >= 32 {
            return None;
        }
        index_get(&self.chunks, (x as i64) * 32 + (z as i64))
    }

    /// Takes the chunk at `(x, z)` out of the region, or makes an empty one
    /// where there was none. The caller writes to it and puts it back.
    pub fn get_or_create_chunk(&mut self, x: i32, z: i32) -> (c: ChunkToModify)
        requires
            old(self).wf(),
            local_chunk(x as int),
            local_chunk(z as int),
        ensures
            final(self).wf(),
            c.wf(),
            old(self).has_chunk(x as int, z as int) ==> c == old(self).chunk(x as int, z as int),
            !old(self).has_chunk(x as int, z as int) ==> c.other().len() == 0 && forall|sy: int|
                !c.has_section(sy),
            forall|a: int, b: int| #[trigger]
                final(self).has_chunk(a, b) == (old(self).has_chunk(a, b) && !(a == x && b == z)),
            forall|a: int, b: int|
                final(self).has_chunk(a, b) ==> #[trigger] final(self).chunk(a, b) == old(self).chunk(a, b),
    {
        let key: i64 = (x as i64) * 32 + (z as i64);
        let c: ChunkToModify = match index_remove(&mut self.chunks, key) {
            Some(c) => c,
            None => ChunkToModify::new(),
        };
        c
    }

    /// Puts a chunk at `(x, z)`, in place of what was there.
    pub fn put_chunk(&mut self, x: i32, z: i32, c: ChunkToModify)
        requires
            old(self).wf(),
            c.wf(),
            local_chunk(x as int),
            local_chunk(z as int),
        ensures
            final(self).wf(),
            final(self).chunk(x as int, z as int) == c,
            forall|a: int, b: int| #[trigger]
                final(self).has_chunk(a, b) == (old(self).has_chunk(a, b) || (a == x && b == z)),
            forall|a: int, b: int|
                local_chunk(a) && local_chunk(b) && !(a == x && b == z) ==> #[trigger] final(self).chunk(a, b) == old(self).chunk(a, b),
    {
        let key: i64 = (x as i64) * 32 + (z as i64);
        index_insert(&mut self.chunks, key, c);
    }
}

impl Default for RegionToModify {
    fn default() -> (r: RegionToModify)
        ensures
            r.wf(),
            forall|cx: int, cz: int| !r.has_chunk(cx, cz),
    {
        RegionToModify::new()
    }
}

} // verus!
