//! The editor: bounds-checked writes into the world buffer under an
//! override policy.

use crate::block::{lemma_block_id_bijection, Block, AIR, SIGN};
use crate::chunk::{distinct_names, height_in_range, ChunkToModify};
use crate::nbt::NbtValue;
use crate::palette::{lemma_encoding_unique, same_section, Section};
use crate::region::{local_chunk, RegionToModify};
use crate::section::visible;
use crate::sign::{is_sign_entity, sign_entity};
use crate::world::{chunk_of, region_coord, region_of, WorldToModify};
use vstd::prelude::*;

verus! {

/// Whether a write may replace what a cell shows. An untouched cell may
/// always be written. Over an existing block a whitelist admits the write
/// when it lists that block, and is the only list consulted where both are
/// given; a blacklist admits it when it does not list that block; with no
/// list the block stays.
pub open spec fn may_write(
    existing: Option<Block>,
    whitelist: Option<Seq<Block>>,
    blacklist: Option<Seq<Block>>,
) -> bool {
    match existing {
        None => true,
        Some(e) => match whitelist {
            Some(w) => w.contains(e),
            None => match blacklist {
                Some(b) => !b.contains(e),
                None => false,
            },
        },
    }
}

/// Whether a cell's content is matched by either list.
pub open spec fn matches_lists(
    existing: Option<Block>,
    whitelist: Option<Seq<Block>>,
    blacklist: Option<Seq<Block>>,
) -> bool {
    match existing {
        None => false,
        Some(e) => (whitelist matches Some(w) && w.contains(e)) || (blacklist matches Some(b)
            && b.contains(e)),
    }
}

/// The view of an optional list of blocks.
pub open spec fn list_view(list: Option<&[Block]>) -> Option<Seq<Block>> {
    match list {
        Some(l) => Some(l@),
        None => None,
    }
}

/// Whether `list` holds a block with the identifier of `block`.
pub fn list_contains(list: &[Block], block: Block) -> (r: bool)
    ensures
        r == list@.contains(block),
{
    let mut i: usize = 0;
    while i < list.len()
        invariant
            i <= list@.len(),
            forall|k: int| 0 <= k < i ==> list@[k] != block,
        decreases list@.len() - i,
    {
        proof {
            lemma_block_id_bijection();
        }
        if list[i].id() == block.id() {
            return true;
        }
        i += 1;
    }
    false
}

/// A write that goes through is read back: once `block`, which is not air,
/// has been written at `(x, y, z)`, that cell shows `block`.
pub proof fn lemma_write_read(
    pre: WorldToModify,
    post: WorldToModify,
    x: int,
    y: int,
    z: int,
    block: Block,
)
    requires
        post.after_write(pre, x, y, z, block),
        block != AIR,
    ensures
        visible(post.cell(x, y, z)) == Some(block),
{
}

/// The override policy over an existing block `e`: a whitelist that names
/// `e` admits the write and one that does not refuses it, whatever the
/// blacklist; with no whitelist, a blacklist that names `e` refuses the
/// write and one that does not admits it; with no list at all the write is
/// refused. An untouched cell is always written.
pub proof fn lemma_override_policy(
    e: Block,
    whitelist: Seq<Block>,
    blacklist: Seq<Block>,
    other: Option<Seq<Block>>,
)
    ensures
        whitelist.contains(e) ==> may_write(Some(e), Some(whitelist), other),
        !whitelist.contains(e) ==> !may_write(Some(e), Some(whitelist), other),
        blacklist.contains(e) ==> !may_write(Some(e), None, Some(blacklist)),
        !blacklist.contains(e) ==> may_write(Some(e), None, Some(blacklist)),
        !may_write(Some(e), None, None),
        may_write(None, other, Some(blacklist)),
        may_write(None, Some(whitelist), other),
        may_write(None, None, None),
{
}

/// `v` lies between `p` and `q`, whichever of the two is smaller.
pub open spec fn between(v: int, p: int, q: int) -> bool {
    (p <= v <= q) || (q <= v <= p)
}

/// The corners of a cuboid, in any order on each axis.
pub struct Cuboid {
    pub x1: int,
    pub y1: int,
    pub z1: int,
    pub x2: int,
    pub y2: int,
    pub z2: int,
}

impl Cuboid {
    /// Whether the cell `(a, b, c)` lies in the cuboid, its faces included.
    pub open spec fn holds(&self, a: int, b: int, c: int) -> bool {
        between(a, self.x1, self.x2) && between(b, self.y1, self.y2) && between(
            c,
            self.z1,
            self.z2,
        )
    }
}

/// The cuboid between two corners.
pub open spec fn corners(x1: i32, y1: i32, z1: i32, x2: i32, y2: i32, z2: i32) -> Cuboid {
    Cuboid {
        x1: x1 as int,
        y1: y1 as int,
        z1: z1 as int,
        x2: x2 as int,
        y2: y2 as int,
        z2: z2 as int,
    }
}

/// The cells that come before `(xi, yi, zi)` when a cuboid is walked by `x`,
/// then `y`, then `z`.
pub open spec fn walked(a: int, b: int, c: int, xi: int, yi: int, zi: int) -> bool {
    a < xi || (a == xi && (b < yi || (b == yi && c < zi)))
}

/// What a save sets in one chunk that has been written to.
pub struct ChunkOverlay<'a> {
    pub sections: Vec<Section>,
    pub other: &'a Vec<(String, NbtValue)>,
}

/// What a save sets in the chunk of one slot of a region file.
pub struct ChunkPatch<'a> {
    pub x_pos: i32,
    pub z_pos: i32,
    pub is_light_on: u8,
    pub overlay: Option<ChunkOverlay<'a>>,
}

/// What a save sets in one region file: a patch for each of its 32 x 32
/// slots, the slot `(cx, cz)` at `cx * 32 + cz`.
pub struct RegionPatch<'a> {
    pub region_x: i32,
    pub region_z: i32,
    pub chunks: Vec<ChunkPatch<'a>>,
}

/// `patch` is what a save of `world` sets in the slot `(cx, cz)` of the
/// region `(rx, rz)`: the chunk's absolute position, lighting switched off,
/// and, where the chunk was written to, its stored sections and its fields,
/// no name twice.
pub open spec fn patch_for(
    patch: ChunkPatch,
    world: WorldToModify,
    rx: int,
    rz: int,
    cx: int,
    cz: int,
) -> bool {
    &&& patch.x_pos == cx + rx * 32
    &&& patch.z_pos == cz + rz * 32
    &&& patch.is_light_on == 0
    &&& match patch.overlay {
        None => !world.has_chunk(rx * 32 + cx, rz * 32 + cz),
        Some(o) => world.has_chunk(rx * 32 + cx, rz * 32 + cz) && o.other@ == world.other(
            rx * 32 + cx,
            rz * 32 + cz,
        ) && distinct_names(o.other@) && world.chunk_at(
            rx * 32 + cx,
            rz * 32 + cz,
        ).unwrap().stored_as(o.sections@),
    }
}

/// `patch` is what a save of `world` sets in the file of one of its
/// regions.
pub open spec fn region_patch_for(patch: RegionPatch, world: WorldToModify) -> bool {
    &&& world.has_region(patch.region_x as int, patch.region_z as int)
    &&& patch.chunks@.len() == 1024
    &&& forall|cx: int, cz: int|
        local_chunk(cx) && local_chunk(cz) ==> patch_for(
            #[trigger] patch.chunks@[cx * 32 + cz],
            world,
            patch.region_x as int,
            patch.region_z as int,
            cx,
            cz,
        )
}

/// Every chunk that a save touches is stamped with its absolute position,
/// the slot's place plus 32 times the region's, and has its lighting
/// switched off.
pub proof fn lemma_patch_stamps(patch: RegionPatch, world: WorldToModify, cx: int, cz: int)
    requires
        region_patch_for(patch, world),
        local_chunk(cx),
        local_chunk(cz),
    ensures
        patch.chunks@[cx * 32 + cz].x_pos == cx + patch.region_x * 32,
        patch.chunks@[cx * 32 + cz].z_pos == cz + patch.region_z * 32,
        patch.chunks@[cx * 32 + cz].is_light_on == 0,
{
}

/// The section `s` has its like in `b`.
pub open spec fn has_like(s: Section, b: Seq<Section>) -> bool {
    exists|j: int| 0 <= j < b.len() && same_section(s, #[trigger] b[j])
}

/// Every section of `a` has its like in `b`.
pub open spec fn sections_among(a: Seq<Section>, b: Seq<Section>) -> bool {
    forall|i: int| 0 <= i < a.len() ==> has_like(#[trigger] a[i], b)
}

/// Two patches set the same: the same position and lighting, and either
/// nothing more or the same fields and the same sections, in whatever order.
pub open spec fn same_patch(a: ChunkPatch, b: ChunkPatch) -> bool {
    &&& a.x_pos == b.x_pos
    &&& a.z_pos == b.z_pos
    &&& a.is_light_on == b.is_light_on
    &&& match (a.overlay, b.overlay) {
        (None, None) => true,
        (Some(oa), Some(ob)) => oa.other@ == ob.other@ && sections_among(
            oa.sections@,
            ob.sections@,
        ) && sections_among(ob.sections@, oa.sections@),
        _ => false,
    }
}

/// Saving again without a write in between sets the same again: two patches
/// that a save of one world makes for one region agree slot by slot.
pub proof fn lemma_save_repeats(a: RegionPatch, b: RegionPatch, world: WorldToModify, cx: int, cz: int)
    requires
        region_patch_for(a, world),
        region_patch_for(b, world),
        a.region_x == b.region_x,
        a.region_z == b.region_z,
        local_chunk(cx),
        local_chunk(cz),
    ensures
        same_patch(a.chunks@[cx * 32 + cz], b.chunks@[cx * 32 + cz]),
{
    let pa = a.chunks@[cx * 32 + cz];
    let pb = b.chunks@[cx * 32 + cz];
    let rx = a.region_x as int;
    let rz = a.region_z as int;
    assert(patch_for(pa, world, rx, rz, cx, cz));
    assert(patch_for(pb, world, rx, rz, cx, cz));
    if pa.overlay is Some {
        let chunk = world.chunk_at(rx * 32 + cx, rz * 32 + cz).unwrap();
        let sa = pa.overlay.unwrap().sections@;
        let sb = pb.overlay.unwrap().sections@;
        lemma_sections_among(chunk, sa, sb);
        lemma_sections_among(chunk, sb, sa);
    }
}

/// Two lists that store the sections of one chunk hold the same sections.
pub proof fn lemma_sections_among(chunk: ChunkToModify, a: Seq<Section>, b: Seq<Section>)
    requires
        chunk.stored_as(a),
        chunk.stored_as(b),
    ensures
        sections_among(a, b),
{
    assert forall|i: int| 0 <= i < a.len() implies has_like(#[trigger] a[i], b) by {
        let sy = a[i].y as int;
        assert(chunk.has_section(sy));
        let j = choose|j: int| 0 <= j < b.len() && (#[trigger] b[j]).y == sy;
        lemma_encoding_unique(a[i], b[j], chunk.section(sy), a[i].y);
        assert(same_section(a[i], b[j]));
    }
}

/// The write buffer of a world together with the bounds of the area that may
/// be written.
pub struct WorldEditor {
    region_dir: String,
    world: WorldToModify,
    max_x: i32,
    max_z: i32,
    debug: bool,
}

impl WorldEditor {
    /// The world as written so far.
    pub closed spec fn world_view(&self) -> WorldToModify {
        self.world
    }

    /// The buffer is valid.
    pub open spec fn wf(&self) -> bool {
        self.world_view().wf()
    }

    /// The largest `x` and `z` that may be written.
    pub closed spec fn bounds(&self) -> (int, int) {
        (self.max_x as int, self.max_z as int)
    }

    /// The directory that the region files go to.
    pub closed spec fn dir(&self) -> Seq<char> {
        self.region_dir@
    }

    /// The diagnostic flag.
    pub closed spec fn debug_view(&self) -> bool {
        self.debug
    }

    /// Whether `(x, z)` lies in the area that may be written.
    pub open spec fn in_bounds(&self, x: int, z: int) -> bool {
        0 <= x <= self.bounds().0 && 0 <= z <= self.bounds().1
    }

    /// Whether a write at `(x, y, z)` under the two lists goes through.
    pub open spec fn admits(
        &self,
        x: int,
        y: int,
        z: int,
        whitelist: Option<Seq<Block>>,
        blacklist: Option<Seq<Block>>,
    ) -> bool {
        self.in_bounds(x, z) && may_write(
            visible(self.world_view().cell(x, y, z)),
            whitelist,
            blacklist,
        )
    }

    /// Outside the bounds no write is admitted, whatever the height, the
    /// block and the lists: `set_block` there leaves the editor as it is and
    /// materialises nothing.
    pub proof fn lemma_outside_bounds(
        &self,
        x: int,
        y: int,
        z: int,
        whitelist: Option<Seq<Block>>,
        blacklist: Option<Seq<Block>>,
    )
        requires
            x < 0 || x > self.bounds().0 || z < 0 || z > self.bounds().1,
        ensures
            !self.admits(x, y, z, whitelist, blacklist),
    {
    }

    /// An editor with an empty world, for the area `0..=max_x` by
    /// `0..=max_z`.
    pub fn new(region_dir: &str, max_x: i32, max_z: i32, debug: bool) -> (e: WorldEditor)
        ensures
            e.wf(),
            e.bounds() == (max_x as int, max_z as int),
            e.dir() == region_dir@,
            e.debug_view() == debug,
            forall|rx: int, rz: int| !e.world_view().has_region(rx, rz),
    {
        WorldEditor {
            region_dir: region_dir.to_owned(),
            world: WorldToModify::new(),
            max_x,
            max_z,
            debug,
        }
    }

    /// The world as written so far.
    pub fn world(&self) -> (w: &WorldToModify)
        ensures
            *w == self.world_view(),
    {
        &self.world
    }

    /// The directory that the region files go to.
    pub fn region_dir(&self) -> (d: &str)
        ensures
            d@ == self.dir(),
    {
        self.region_dir.as_str()
    }

    /// The diagnostic flag that the editor was made with.
    pub fn debug(&self) -> (d: bool)
        ensures
            d == self.debug_view(),
    {
        self.debug
    }

    /// The upper bounds as callers get them: the bound on `x`, twice.
    pub fn get_max_coords(&self) -> (r: (i32, i32))
        ensures
            r.0 == self.bounds().0,
            r.1 == self.bounds().0,
    {
        (self.max_x, self.max_x)
    }

    /// Writes `block` at `(x, y, z)` if the place lies in bounds and the
    /// policy admits it; otherwise nothing changes at all.
    pub fn set_block(
        &mut self,
        block: Block,
        x: i32,
        y: i32,
        z: i32,
        override_whitelist: Option<&[Block]>,
        override_blacklist: Option<&[Block]>,
    )
        requires
            old(self).wf(),
            old(self).in_bounds(x as int, z as int) ==> height_in_range(y as int),
        ensures
            final(self).wf(),
            final(self).bounds() == old(self).bounds(),
            final(self).dir() == old(self).dir(),
            final(self).debug_view() == old(self).debug_view(),
            old(self).admits(
                x as int,
                y as int,
                z as int,
                list_view(override_whitelist),
                list_view(override_blacklist),
            ) ==> final(self).world_view().after_write(
                old(self).world_view(),
                x as int,
                y as int,
                z as int,
                block,
            ),
            !old(self).admits(
                x as int,
                y as int,
                z as int,
                list_view(override_whitelist),
                list_view(override_blacklist),
            ) ==> *final(self) == *old(self),
    {
        if x < 0 || x > self.max_x || z < 0 || z > self.max_z {
            return ;
        }
        let should_insert: bool = match self.world.get_block(x, y, z) {
            Some(existing_block) => match override_whitelist {
                Some(whitelist) => list_contains(whitelist, existing_block),
                None => match override_blacklist {
                    Some(blacklist) => !list_contains(blacklist, existing_block),
                    None => false,
                },
            },
            None => true,
        };
        if should_insert {
            self.world.set_block(x, y, z, block);
        }
    }

    /// Whether the cell at `(x, y, z)` holds a block that one of the lists
    /// names.
    pub fn check_for_block(
        &self,
        x: i32,
        y: i32,
        z: i32,
        whitelist: Option<&[Block]>,
        blacklist: Option<&[Block]>,
    ) -> (r: bool)
        requires
            self.wf(),
            self.world_view().has_chunk(chunk_of(x as int), chunk_of(z as int))
                ==> height_in_range(y as int),
        ensures
            r == matches_lists(
                visible(self.world_view().cell(x as int, y as int, z as int)),
                list_view(whitelist),
                list_view(blacklist),
            ),
    {
        match self.world.get_block(x, y, z) {
            Some(existing_block) => {
                if let Some(list) = whitelist {
                    if list_contains(list, existing_block) {
                        return true;
                    }
                }
                if let Some(list) = blacklist {
                    if list_contains(list, existing_block) {
                        return true;
                    }
                }
                false
            },
            None => false,
        }
    }

    /// Whether a cuboid fill writes the cell `(a, b, c)` once it has walked
    /// up to `(xi, yi, zi)`: the cell lies in the cuboid, has been passed, and
    /// the editor as it stood before the fill admits the write.
    pub open spec fn marked(
        &self,
        cuboid: Cuboid,
        whitelist: Option<Seq<Block>>,
        blacklist: Option<Seq<Block>>,
        xi: int,
        yi: int,
        zi: int,
        a: int,
        b: int,
        c: int,
    ) -> bool {
        cuboid.holds(a, b, c) && walked(a, b, c, xi, yi, zi) && self.admits(
            a,
            b,
            c,
            whitelist,
            blacklist,
        )
    }

    /// How `world` stands once a fill of `cuboid` with `block`, begun on this
    /// editor, has walked up to `(xi, yi, zi)`: the marked cells hold
    /// `block`, what they needed has been materialised, and nothing else
    /// has changed.
    pub open spec fn filled_upto(
        &self,
        world: WorldToModify,
        block: Block,
        cuboid: Cuboid,
        whitelist: Option<Seq<Block>>,
        blacklist: Option<Seq<Block>>,
        xi: int,
        yi: int,
        zi: int,
    ) -> bool {
        &&& forall|a: int, b: int, c: int| #[trigger]
            world.cell(a, b, c) == (if self.marked(
                cuboid,
                whitelist,
                blacklist,
                xi,
                yi,
                zi,
                a,
                b,
                c,
            ) {
                block
            } else {
                self.world_view().cell(a, b, c)
            })
        &&& forall|cx: int, sy: int, cz: int| #[trigger]
            world.has_section(cx, sy, cz) == (self.world_view().has_section(cx, sy, cz)
                || exists|a: int, b: int, c: int| #[trigger]
                self.marked(cuboid, whitelist, blacklist, xi, yi, zi, a, b, c) && chunk_of(a) == cx
                    && b / 16 == sy && chunk_of(c) == cz)
        &&& forall|cx: int, cz: int| #[trigger]
            world.has_chunk(cx, cz) == (self.world_view().has_chunk(cx, cz) || exists|
                a: int,
                b: int,
                c: int,
            | #[trigger]
                self.marked(cuboid, whitelist, blacklist, xi, yi, zi, a, b, c) && chunk_of(a) == cx
                    && chunk_of(c) == cz)
        &&& forall|rx: int, rz: int| #[trigger]
            world.has_region(rx, rz) == (self.world_view().has_region(rx, rz) || exists|
                a: int,
                b: int,
                c: int,
            | #[trigger]
                self.marked(cuboid, whitelist, blacklist, xi, yi, zi, a, b, c) && region_of(a)
                    == rx && region_of(c) == rz)
        &&& forall|cx: int, cz: int| #[trigger]
            world.other(cx, cz) =~= self.world_view().other(cx, cz)
    }

    /// How `world` stands once a fill of `cuboid` with `block`, begun on this
    /// editor, is done: the walk has passed every cell of the cuboid.
    pub open spec fn filled(
        &self,
        world: WorldToModify,
        block: Block,
        cuboid: Cuboid,
        whitelist: Option<Seq<Block>>,
        blacklist: Option<Seq<Block>>,
    ) -> bool {
        self.filled_upto(
            world,
            block,
            cuboid,
            whitelist,
            blacklist,
            (if cuboid.x1 < cuboid.x2 {
                cuboid.x2
            } else {
                cuboid.x1
            }) + 1,
            if cuboid.y1 < cuboid.y2 {
                cuboid.y1
            } else {
                cuboid.y2
            },
            if cuboid.z1 < cuboid.z2 {
                cuboid.z1
            } else {
                cuboid.z2
            },
        )
    }

    /// Once a fill is done, the cells it has written are the cells of the
    /// cuboid at which the editor, as it stood before, admits the write.
    pub proof fn lemma_fill_marks(
        &self,
        cuboid: Cuboid,
        whitelist: Option<Seq<Block>>,
        blacklist: Option<Seq<Block>>,
        a: int,
        b: int,
        c: int,
    )
        ensures
            self.marked(
                cuboid,
                whitelist,
                blacklist,
                (if cuboid.x1 < cuboid.x2 {
                    cuboid.x2
                } else {
                    cuboid.x1
                }) + 1,
                if cuboid.y1 < cuboid.y2 {
                    cuboid.y1
                } else {
                    cuboid.y2
                },
                if cuboid.z1 < cuboid.z2 {
                    cuboid.z1
                } else {
                    cuboid.z2
                },
                a,
                b,
                c,
            ) == (cuboid.holds(a, b, c) && self.admits(a, b, c, whitelist, blacklist)),
    {
    }

    /// Writes `block` to every cell of the cuboid between the two corners,
    /// faces included, as `set_block` would write each cell by itself.
    pub fn fill_blocks(
        &mut self,
        block: Block,
        x1: i32,
        y1: i32,
        z1: i32,
        x2: i32,
        y2: i32,
        z2: i32,
        override_whitelist: Option<&[Block]>,
        override_blacklist: Option<&[Block]>,
    )
        requires
            old(self).wf(),
            forall|a: int, b: int, c: int|
                #[trigger] corners(x1, y1, z1, x2, y2, z2).holds(a, b, c) && old(self).in_bounds(
                    a,
                    c,
                ) ==> height_in_range(b),
        ensures
            final(self).wf(),
            final(self).bounds() == old(self).bounds(),
            final(self).dir() == old(self).dir(),
            final(self).debug_view() == old(self).debug_view(),
            old(self).filled(
                final(self).world_view(),
                block,
                corners(x1, y1, z1, x2, y2, z2),
                list_view(override_whitelist),
                list_view(override_blacklist),
            ),
    {
        let (min_x, max_x) = if x1 < x2 { (x1, x2) } else { (x2, x1) };
        let (min_y, max_y) = if y1 < y2 { (y1, y2) } else { (y2, y1) };
        let (min_z, max_z) = if z1 < z2 { (z1, z2) } else { (z2, z1) };
        let ghost cuboid = corners(x1, y1, z1, x2, y2, z2);
        let ghost wl = list_view(override_whitelist);
        let ghost bl = list_view(override_blacklist);
        let mut xi: i64 = min_x as i64;
        let mut yi: i64 = min_y as i64;
        let mut zi: i64 = min_z as i64;
        while xi <= max_x as i64
            invariant
                min_x <= xi <= max_x + 1,
                min_y <= yi <= max_y,
                min_z <= zi <= max_z,
                xi == max_x + 1 ==> yi == min_y && zi == min_z,
                min_x == (if x1 < x2 { x1 } else { x2 }),
                max_x == (if x1 < x2 { x2 } else { x1 }),
                min_y == (if y1 < y2 { y1 } else { y2 }),
                max_y == (if y1 < y2 { y2 } else { y1 }),
                min_z == (if z1 < z2 { z1 } else { z2 }),
                max_z == (if z1 < z2 { z2 } else { z1 }),
                cuboid == corners(x1, y1, z1, x2, y2, z2),
                wl == list_view(override_whitelist),
                bl == list_view(override_blacklist),
                forall|a: int, b: int, c: int|
                    #[trigger] cuboid.holds(a, b, c) && old(self).in_bounds(a, c)
                        ==> height_in_range(b),
                self.wf(),
                self.bounds() == old(self).bounds(),
                self.dir() == old(self).dir(),
                self.debug_view() == old(self).debug_view(),
                old(self).filled_upto(
                    self.world_view(),
                    block,
                    cuboid,
                    wl,
                    bl,
                    xi as int,
                    yi as int,
                    zi as int,
                ),
            decreases max_x + 1 - xi, max_y - yi, max_z - zi,
        {
            let ghost before = self.world_view();
            let ghost px = xi as int;
            let ghost py = yi as int;
            let ghost pz = zi as int;
            assert(cuboid.holds(px, py, pz));
            assert(!old(self).marked(cuboid, wl, bl, px, py, pz, px, py, pz));
            assert(before.cell(px, py, pz) == old(self).world_view().cell(px, py, pz));
            assert(old(self).in_bounds(px, pz) ==> height_in_range(py));
            self.set_block(
                block,
                xi as i32,
                yi as i32,
                zi as i32,
                override_whitelist,
                override_blacklist,
            );
            if zi < max_z as i64 {
                zi += 1;
            } else {
                zi = min_z as i64;
                if yi < max_y as i64 {
                    yi += 1;
                } else {
                    yi = min_y as i64;
                    xi += 1;
                }
            }
            proof {
                old(self).lemma_fill_step(
                    before,
                    self.world_view(),
                    block,
                    cuboid,
                    wl,
                    bl,
                    px,
                    py,
                    pz,
                    xi as int,
                    yi as int,
                    zi as int,
                );
            }
        }
    }

    /// One step of a fill: from the state at `(px, py, pz)`, a write at that
    /// cell as `set_block` makes it gives the state at the next cell.
    pub proof fn lemma_fill_step(
        &self,
        before: WorldToModify,
        after: WorldToModify,
        block: Block,
        cuboid: Cuboid,
        whitelist: Option<Seq<Block>>,
        blacklist: Option<Seq<Block>>,
        px: int,
        py: int,
        pz: int,
        nx: int,
        ny: int,
        nz: int,
    )
        requires
            self.filled_upto(before, block, cuboid, whitelist, blacklist, px, py, pz),
            cuboid.holds(px, py, pz),
            forall|a: int, b: int, c: int|
                #![trigger walked(a, b, c, nx, ny, nz)]
                cuboid.holds(a, b, c) ==> (walked(a, b, c, nx, ny, nz) <==> (walked(
                    a,
                    b,
                    c,
                    px,
                    py,
                    pz,
                ) || (a == px && b == py && c == pz))),
            if self.admits(px, py, pz, whitelist, blacklist) {
                after.after_write(before, px, py, pz, block)
            } else {
                after == before
            },
        ensures
            self.filled_upto(after, block, cuboid, whitelist, blacklist, nx, ny, nz),
    {
        let hit = self.admits(px, py, pz, whitelist, blacklist);
        let pre = self.world_view();
        assert forall|a: int, b: int, c: int|
            self.marked(cuboid, whitelist, blacklist, nx, ny, nz, a, b, c) == (self.marked(
                cuboid,
                whitelist,
                blacklist,
                px,
                py,
                pz,
                a,
                b,
                c,
            ) || (hit && a == px && b == py && c == pz)) by {
            assert(walked(a, b, c, nx, ny, nz) || true);
        }
        assert(!walked(px, py, pz, px, py, pz));
        if hit {
            assert(self.marked(cuboid, whitelist, blacklist, nx, ny, nz, px, py, pz));
        }
        assert forall|a: int, b: int, c: int| #[trigger]
            after.cell(a, b, c) == (if self.marked(
                cuboid,
                whitelist,
                blacklist,
                nx,
                ny,
                nz,
                a,
                b,
                c,
            ) {
                block
            } else {
                pre.cell(a, b, c)
            }) by {
            assert(before.cell(a, b, c) == (if self.marked(
                cuboid,
                whitelist,
                blacklist,
                px,
                py,
                pz,
                a,
                b,
                c,
            ) {
                block
            } else {
                pre.cell(a, b, c)
            }));
        }
        assert forall|cx: int, sy: int, cz: int| #[trigger]
            after.has_section(cx, sy, cz) == (pre.has_section(cx, sy, cz) || exists|
                a: int,
                b: int,
                c: int,
            | #[trigger]
                self.marked(cuboid, whitelist, blacklist, nx, ny, nz, a, b, c) && chunk_of(a) == cx
                    && b / 16 == sy && chunk_of(c) == cz) by {
            let was = exists|a: int, b: int, c: int| #[trigger]
                self.marked(cuboid, whitelist, blacklist, px, py, pz, a, b, c) && chunk_of(a) == cx
                    && b / 16 == sy && chunk_of(c) == cz;
            assert(before.has_section(cx, sy, cz) == (pre.has_section(cx, sy, cz) || was));
            if was {
                let (a, b, c) = choose|a: int, b: int, c: int| #[trigger]
                    self.marked(cuboid, whitelist, blacklist, px, py, pz, a, b, c) && chunk_of(a)
                        == cx && b / 16 == sy && chunk_of(c) == cz;
                assert(self.marked(cuboid, whitelist, blacklist, nx, ny, nz, a, b, c));
            }
        }
        assert forall|cx: int, cz: int| #[trigger]
            after.has_chunk(cx, cz) == (pre.has_chunk(cx, cz) || exists|a: int, b: int, c: int| #[trigger]
                self.marked(cuboid, whitelist, blacklist, nx, ny, nz, a, b, c) && chunk_of(a) == cx
                    && chunk_of(c) == cz) by {
            let was = exists|a: int, b: int, c: int| #[trigger]
                self.marked(cuboid, whitelist, blacklist, px, py, pz, a, b, c) && chunk_of(a) == cx
                    && chunk_of(c) == cz;
            assert(before.has_chunk(cx, cz) == (pre.has_chunk(cx, cz) || was));
            if was {
                let (a, b, c) = choose|a: int, b: int, c: int| #[trigger]
                    self.marked(cuboid, whitelist, blacklist, px, py, pz, a, b, c) && chunk_of(a)
                        == cx && chunk_of(c) == cz;
                assert(self.marked(cuboid, whitelist, blacklist, nx, ny, nz, a, b, c));
            }
        }
        assert forall|rx: int, rz: int| #[trigger]
            after.has_region(rx, rz) == (pre.has_region(rx, rz) || exists|a: int, b: int, c: int| #[trigger]
                self.marked(cuboid, whitelist, blacklist, nx, ny, nz, a, b, c) && region_of(a)
                    == rx && region_of(c) == rz) by {
            let was = exists|a: int, b: int, c: int| #[trigger]
                self.marked(cuboid, whitelist, blacklist, px, py, pz, a, b, c) && region_of(a)
                    == rx && region_of(c) == rz;
            assert(before.has_region(rx, rz) == (pre.has_region(rx, rz) || was));
            if was {
                let (a, b, c) = choose|a: int, b: int, c: int| #[trigger]
                    self.marked(cuboid, whitelist, blacklist, px, py, pz, a, b, c) && region_of(a)
                        == rx && region_of(c) == rz;
                assert(self.marked(cuboid, whitelist, blacklist, nx, ny, nz, a, b, c));
            }
        }
        assert forall|cx: int, cz: int| #[trigger]
            after.other(cx, cz) =~= pre.other(cx, cz) by {
            assert(before.other(cx, cz) =~= pre.other(cx, cz));
        }
    }

    /// Puts up a sign at `(x, y, z)`: adds its block entity, with the four
    /// lines, to the chunk that holds the place, then writes the sign block
    /// as `set_block` with no list would. The rotation is not applied.
    pub fn set_sign(
        &mut self,
        line1: String,
        line2: String,
        line3: String,
        line4: String,
        x: i32,
        y: i32,
        z: i32,
        _rotation: i8,
    )
        requires
            old(self).wf(),
            old(self).in_bounds(x as int, z as int) ==> height_in_range(y as int),
        ensures
            final(self).wf(),
            final(self).bounds() == old(self).bounds(),
            final(self).dir() == old(self).dir(),
            final(self).debug_view() == old(self).debug_view(),
            exists|entity: NbtValue, mid: WorldToModify|
                {
                    &&& is_sign_entity(entity, line1@, line2@, line3@, line4@, x, y, z)
                    &&& #[trigger] mid.after_entity(
                        old(self).world_view(),
                        x as int,
                        z as int,
                        entity,
                    )
                    &&& if old(self).admits(x as int, y as int, z as int, None, None) {
                        final(self).world_view().after_write(mid, x as int, y as int, z as int, SIGN)
                    } else {
                        final(self).world_view() == mid
                    }
                },
    {
        let entity: NbtValue = sign_entity(
            line1.as_str(),
            line2.as_str(),
            line3.as_str(),
            line4.as_str(),
            x,
            y,
            z,
        );
        let ghost e = entity;
        self.world.add_block_entity(x, z, entity);
        let ghost mid = self.world;
        self.set_block(SIGN, x, y, z, None, None);
        assert(mid.after_entity(old(self).world_view(), x as int, z as int, e));
    }

    /// What a save sets in the file of the region `(rx, rz)`.
    pub fn region_patch(&self, rx: i32, rz: i32) -> (r: RegionPatch<'_>)
        requires
            self.wf(),
            self.world_view().has_region(rx as int, rz as int),
        ensures
            r.region_x == rx,
            r.region_z == rz,
            region_patch_for(r, self.world_view()),
    {
        proof {
            self.world_view().lemma_region_range(rx as int, rz as int);
        }
        let mut chunks: Vec<ChunkPatch<'_>> = Vec::new();
        let region: &RegionToModify = match self.world.get_region(rx, rz) {
            Some(region) => region,
            None => {
                assert(false);
                return RegionPatch { region_x: rx, region_z: rz, chunks };
            },
        };
        let mut cx: i32 = 0;
        let mut cz: i32 = 0;
        while cx < 32
            invariant
                self.wf(),
                region.wf(),
                self.world_view().has_region(rx as int, rz as int),
                *region == self.world_view().region(rx as int, rz as int),
                region_coord(rx as int),
                region_coord(rz as int),
                0 <= cx <= 32,
                0 <= cz < 32,
                cx == 32 ==> cz == 0,
                chunks@.len() == cx * 32 + cz,
                forall|a: int, b: int|
                    local_chunk(a) && local_chunk(b) && a * 32 + b < cx * 32 + cz ==> patch_for(
                        #[trigger] chunks@[a * 32 + b],
                        self.world_view(),
                        rx as int,
                        rz as int,
                        a,
                        b,
                    ),
            decreases 32 - cx, 32 - cz,
        {
            let overlay: Option<ChunkOverlay<'_>> = match region.get_chunk(cx, cz) {
                Some(chunk) => Some(
                    ChunkOverlay { sections: chunk.sections(), other: chunk.other_fields() },
                ),
                None => None,
            };
            let patch = ChunkPatch {
                x_pos: cx + rx * 32,
                z_pos: cz + rz * 32,
                is_light_on: 0,
                overlay,
            };
            assert(patch_for(patch, self.world_view(), rx as int, rz as int, cx as int, cz as int));
            chunks.push(patch);
            if cz < 31 {
                cz += 1;
            } else {
                cz = 0;
                cx += 1;
            }
        }
        RegionPatch { region_x: rx, region_z: rz, chunks }
    }

    /// What a save sets, region file by region file: one patch for every
    /// materialised region, each once, in no stated order. The editor is
    /// left as it is.
    pub fn save(&self) -> (r: Vec<RegionPatch<'_>>)
        requires
            self.wf(),
        ensures
            forall|k: int| 0 <= k < r@.len() ==> region_patch_for(#[trigger] r@[k], self.world_view()),
            forall|i: int, j: int|
                0 <= i < j < r@.len() ==> !(r@[i].region_x == r@[j].region_x && r@[i].region_z
                    == r@[j].region_z),
            forall|rx: int, rz: int|
                self.world_view().has_region(rx, rz) ==> exists|k: int|
                    0 <= k < r@.len() && (#[trigger] r@[k]).region_x == rx && r@[k].region_z == rz,
    {
        let coords: Vec<(i32, i32)> = self.world.region_coords();
        let mut out: Vec<RegionPatch<'_>> = Vec::new();
        let mut i: usize = 0;
        while i < coords.len()
            invariant
                self.wf(),
                i <= coords@.len(),
                out@.len() == i,
                forall|k: int|
                    0 <= k < coords@.len() ==> self.world_view().has_region(
                        (#[trigger] coords@[k]).0 as int,
                        coords@[k].1 as int,
                    ),
                forall|a: int, b: int| 0 <= a < b < coords@.len() ==> coords@[a] != coords@[b],
                forall|rx: int, rz: int|
                    self.world_view().has_region(rx, rz) ==> exists|k: int|
                        0 <= k < coords@.len() && #[trigger] coords@[k] == (rx as i32, rz as i32),
                forall|k: int|
                    0 <= k < i ==> (#[trigger] out@[k]).region_x == coords@[k].0 && out@[k].region_z
                        == coords@[k].1 && region_patch_for(out@[k], self.world_view()),
            decreases coords@.len() - i,
        {
            let (rx, rz) = coords[i];
            out.push(self.region_patch(rx, rz));
            i += 1;
        }
        assert forall|rx: int, rz: int| self.world_view().has_region(rx, rz) implies exists|k: int|
            0 <= k < out@.len() && (#[trigger] out@[k]).region_x == rx && out@[k].region_z == rz by {
            self.world_view().lemma_region_range(rx, rz);
            let k = choose|k: int| 0 <= k < coords@.len() && coords@[k] == (rx as i32, rz as i32);
            assert(out@[k].region_x == rx);
        }
        out
    }
}

} // verus!
