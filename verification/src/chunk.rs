//! The chunk buffer: sections by their height, materialised on first write,
//! and a dictionary of further fields.

use crate::block::{Block, AIR};
use crate::document::none_named;
use crate::index::{index_get, index_insert, index_keys, index_new, index_remove};
use crate::nbt::NbtValue;
use crate::palette::Section;
use crate::section::{lemma_section_index_bijection, section_index, visible, SectionToModify};
use fnv::FnvHashMap;
use vstd::prelude::*;

verus! {

/// The heights at which a section index still fits in a signed byte.
pub open spec fn height_in_range(y: int) -> bool {
    -2048 <= y < 2048
}

/// `i` is the first entry of `fields` under the name `key`.
pub open spec fn first_under(fields: Seq<(String, NbtValue)>, key: Seq<char>, i: int) -> bool {
    &&& 0 <= i < fields.len()
    &&& fields[i].0@ == key
    &&& forall|k: int| 0 <= k < i ==> (#[trigger] fields[k]).0@ != key
}

/// The name of the field that holds a chunk's block entities.
pub open spec fn entities_key() -> Seq<char> {
    "block_entities"@
}

/// How the fields `post` stand after `entity` was added to the block
/// entities of `pre`: appended to the list under that name; a new list of
/// one under that name, put last, where there was none; and no change where
/// the name holds something that is no list.
pub open spec fn entity_appended(
    pre: Seq<(String, NbtValue)>,
    post: Seq<(String, NbtValue)>,
    entity: NbtValue,
) -> bool {
    if none_named(pre, entities_key()) {
        &&& post.len() == pre.len() + 1
        &&& forall|k: int| 0 <= k < pre.len() ==> post[k] == pre[k]
        &&& post[pre.len() as int].0@ == entities_key()
        &&& post[pre.len() as int].1 matches NbtValue::List(v)
        &&& v@ == seq![entity]
    } else {
        let i = choose|i: int| first_under(pre, entities_key(), i);
        match pre[i].1 {
            NbtValue::List(old_list) => {
                &&& post.len() == pre.len()
                &&& forall|k: int| 0 <= k < pre.len() && k != i ==> post[k] == pre[k]
                &&& post[i].0 == pre[i].0
                &&& post[i].1 matches NbtValue::List(v)
                &&& v@ == old_list@.push(entity)
            },
            _ => post == pre,
        }
    }
}

/// No two entries of `fields` have the same name.
pub open spec fn distinct_names(fields: Seq<(String, NbtValue)>) -> bool {
    forall|i: int, j: int|
        0 <= i < j < fields.len() ==> (#[trigger] fields[i]).0@ != (#[trigger] fields[j]).0@
}

/// A chunk that is being written.
pub struct ChunkToModify {
    sections: FnvHashMap<i64, SectionToModify>,
    other: Vec<(String, NbtValue)>,
}

impl ChunkToModify {
    /// Every section sits at a height index that a signed byte holds and is
    /// complete, and no two of the further fields have the same name.
    pub closed spec fn wf(&self) -> bool {
        &&& forall|k: i64| #[trigger]
            self.sections@.contains_key(k) ==> -128 <= k < 128 && self.sections@[k].wf()
        &&& distinct_names(self.other@)
    }

    /// Whether the section with index `sy` has been materialised.
    pub closed spec fn has_section(&self, sy: int) -> bool {
        -128 <= sy < 128 && self.sections@.contains_key(sy as i64)
    }

    /// The cells of the section with index `sy`.
    pub closed spec fn section(&self, sy: int) -> Seq<Block> {
        self.sections@[sy as i64]@
    }

    /// What the cell `(x, y, z)` holds: air wherever no section has been
    /// materialised.
    pub open spec fn cell(&self, x: int, y: int, z: int) -> Block {
        if self.has_section(y / 16) {
            self.section(y / 16)[section_index(x, y % 16, z)]
        } else {
            AIR
        }
    }

    /// The further fields, in the order in which they were added.
    pub closed spec fn other(&self) -> Seq<(String, NbtValue)> {
        self.other@
    }

    /// A chunk with no section and no further field.
    pub fn new() -> (c: ChunkToModify)
        ensures
            c.wf(),
            forall|sy: int| !c.has_section(sy),
            c.other().len() == 0,
    {
        ChunkToModify { sections: index_new(), other: Vec::new() }
    }

    /// The block at `(x, y, z)`, unless that cell is air or its section was
    /// never written.
    pub fn get_block(&self, x: u8, y: i32, z: u8) -> (r: Option<Block>)
        requires
            self.wf(),
            x < 16,
            z < 16,
            height_in_range(y as int),
        ensures
            r == visible(self.cell(x as int, y as int, z as int)),
    {
        proof {
            lemma_height_split(y);
        }
        let section_idx: i64 = (y >> 4) as i64;
        match index_get(&self.sections, section_idx) {
            None => None,
            Some(section) => section.get_block(x, (y & 15) as u8, z),
        }
    }

    /// Writes a cell, materialising its section first where needed.
    pub fn set_block(&mut self, x: u8, y: i32, z: u8, block: Block)
        requires
            old(self).wf(),
            x < 16,
            z < 16,
            height_in_range(y as int),
        ensures
            final(self).wf(),
            forall|sy: int| #[trigger]
                final(self).has_section(sy) == (old(self).has_section(sy) || sy == y as int / 16),
            forall|a: int, b: int, c: int|
                0 <= a < 16 && 0 <= c < 16 ==> #[trigger] final(self).cell(a, b, c) == (if a == x
                    && b == y && c == z {
                    block
                } else {
                    old(self).cell(a, b, c)
                }),
            final(self).other() == old(self).other(),
    {
        proof {
            lemma_height_split(y);
            lemma_section_index_bijection();
        }
        let section_idx: i64 = (y >> 4) as i64;
        let mut section: SectionToModify = match index_remove(&mut self.sections, section_idx) {
            Some(s) => s,
            None => SectionToModify::new(),
        };
        section.set_block(x, (y & 15) as u8, z, block);
        index_insert(&mut self.sections, section_idx, section);
        proof {
            assert forall|a: int, b: int, c: int| 0 <= a < 16 && 0 <= c < 16 implies #[trigger]
                final(self).cell(a, b, c) == (if a == x && b == y && c == z {
                block
            } else {
                old(self).cell(a, b, c)
            }) by {
                if b / 16 == y as int / 16 {
                    assert(section_index(a, b % 16, c) == section_index(
                        x as int,
                        y as int % 16,
                        z as int,
                    ) ==> a == x && b % 16 == y as int % 16 && c == z);
                }
            }
        }
    }

    /// `secs` holds the stored form of every materialised section of this
    /// chunk, each once and nothing else, in whatever order.
    pub open spec fn stored_as(&self, secs: Seq<Section>) -> bool {
        &&& forall|k: int|
            0 <= k < secs.len() ==> self.has_section((#[trigger] secs[k]).y as int)
                && secs[k].encodes(self.section(secs[k].y as int), secs[k].y)
        &&& forall|i: int, j: int| 0 <= i < j < secs.len() ==> secs[i].y != secs[j].y
        &&& forall|sy: int|
            self.has_section(sy) ==> exists|k: int|
                0 <= k < secs.len() && (#[trigger] secs[k]).y == sy
    }

    /// The further fields of this chunk: no name occurs twice.
    pub fn other_fields(&self) -> (r: &Vec<(String, NbtValue)>)
        requires
            self.wf(),
        ensures
            r@ == self.other(),
            distinct_names(r@),
    {
        &self.other
    }

    /// The stored form of every materialised section, each once, in no
    /// stated order.
    pub fn sections(&self) -> (r: Vec<Section>)
        requires
            self.wf(),
        ensures
            self.stored_as(r@),
    {
        let keys: Vec<i64> = index_keys(&self.sections);
        let mut out: Vec<Section> = Vec::new();
        let mut i: usize = 0;
        while i < keys.len()
            invariant
                self.wf(),
                i <= keys@.len(),
                out@.len() == i,
                forall|k: i64| keys@.contains(k) <==> self.sections@.contains_key(k),
                forall|k: int|
                    0 <= k < i ==> (#[trigger] out@[k]).y == keys@[k] && out@[k].encodes(
                        self.section(keys@[k] as int),
                        out@[k].y,
                    ),
            decreases keys@.len() - i,
        {
            let key: i64 = keys[i];
            assert(keys@.contains(key));
            match index_get(&self.sections, key) {
                Some(section) => {
                    out.push(section.to_section(key as i8));
                },
                None => {
                    assert(false);
                },
            }
            i += 1;
        }
        assert forall|sy: int| self.has_section(sy) implies exists|k: int|
            0 <= k < out@.len() && (#[trigger] out@[k]).y == sy by {
            assert(keys@.contains(sy as i64));
            let k = choose|k: int| 0 <= k < keys@.len() && keys@[k] == sy as i64;
            assert(out@[k].y == sy);
        }
        assert forall|k: int| 0 <= k < out@.len() implies self.has_section(
            (#[trigger] out@[k]).y as int,
        ) by {
            assert(keys@.contains(keys@[k]));
        }
        out
    }

    /// Adds a block entity to the field that lists them.
    pub fn add_block_entity(&mut self, entity: NbtValue)
        requires
            old(self).wf(),
        ensures
            final(self).wf(),
            forall|sy: int| #[trigger] final(self).has_section(sy) == old(self).has_section(sy),
            forall|a: int, b: int, c: int| #[trigger]
                final(self).cell(a, b, c) == old(self).cell(a, b, c),
            entity_appended(old(self).other(), final(self).other(), entity),
    {
        let key: String = "block_entities".to_owned();
        let mut i: usize = 0;
        let mut found: bool = false;
        while i < self.other.len() && !found
            invariant
                *self == *old(self),
                key@ == entities_key(),
                i <= self.other@.len(),
                forall|k: int| 0 <= k < i ==> (#[trigger] self.other@[k]).0@ != key@,
                found ==> i < self.other@.len() && self.other@[i as int].0@ == key@,
            decreases self.other@.len() - i + (if found { 0int } else { 1int }),
        {
            if self.other[i].0 == key {
                found = true;
            } else {
                i += 1;
            }
        }
        if found {
            assert(first_under(old(self).other(), entities_key(), i as int));
            let ghost chosen = choose|c: int| first_under(old(self).other(), entities_key(), c);
            assert(chosen == i) by {
                if chosen < i {
                    assert(old(self).other()[chosen].0@ != entities_key());
                }
                if i < chosen {
                    assert(old(self).other()[i as int].0@ != entities_key());
                }
            }
            let is_list: bool = match &self.other[i].1 {
                NbtValue::List(_) => true,
                _ => false,
            };
            if is_list {
                let (name, value) = self.other.remove(i);
                match value {
                    NbtValue::List(mut entities) => {
                        entities.push(entity);
                        self.other.insert(i, (name, NbtValue::List(entities)));
                    },
                    _ => {
                        assert(false);
                    },
                }
            }
        } else {
            let mut entities: Vec<NbtValue> = Vec::new();
            entities.push(entity);
            self.other.push((key, NbtValue::List(entities)));
        }
    }
}

/// A height splits into a section index that fits a signed byte and a layer
/// below 16; the shift and the mask compute the two.
pub proof fn lemma_height_split(y: i32)
    requires
        height_in_range(y as int),
    ensures
        (y >> 4) as int == y as int / 16,
        (y & 15) as int == y as int % 16,
        -128 <= (y >> 4) < 128,
        0 <= (y & 15) < 16,
{
    assert((y >> 4i32) * 16 + (y & 15) == y && 0 <= (y & 15) < 16 && -134217728 <= (y >> 4i32)
        < 134217728) by (bit_vector);
}

impl Default for ChunkToModify {
    fn default() -> (c: ChunkToModify)
        ensures
            c.wf(),
            forall|sy: int| !c.has_section(sy),
            c.other().len() == 0,
    {
        ChunkToModify::new()
    }
}

} // verus!
