//! The serialised form of a section: a palette of the blocks that occur in
//! it, and the palette indexes of its cells packed into 64-bit words.

use crate::block::{
    block_id, block_name, block_of_id, block_properties, lemma_block_id_bijection, Block,
    BLOCK_KINDS,
};
use vstd::prelude::*;

verus! {

/// The blocks of `blocks` whose identifier is below `n`, each once, by
/// increasing identifier.
pub open spec fn palette_upto(blocks: Seq<Block>, n: int) -> Seq<Block>
    decreases n,
{
    if n <= 0 {
        Seq::empty()
    } else if blocks.contains(block_of_id(n - 1)) {
        palette_upto(blocks, n - 1).push(block_of_id(n - 1))
    } else {
        palette_upto(blocks, n - 1)
    }
}

/// The palette of a grid: the blocks that occur in it, sorted and without
/// repetition.
pub open spec fn palette_of(blocks: Seq<Block>) -> Seq<Block> {
    palette_upto(blocks, BLOCK_KINDS as int)
}

/// The place of `b` in the palette of `blocks`: the number of kinds with a
/// smaller identifier that occur.
pub open spec fn palette_index(blocks: Seq<Block>, b: Block) -> int {
    palette_upto(blocks, block_id(b)).len() as int
}

/// The palette index of every cell, in the order of the grid.
pub open spec fn cell_indices(blocks: Seq<Block>) -> Seq<u64> {
    Seq::new(blocks.len(), |i: int| palette_index(blocks, blocks[i]) as u64)
}

/// The width of a palette index: the least number of bits, from 4 up, that
/// tells `n` palette entries apart.
pub open spec fn bits_per_block(n: int) -> int {
    if n <= 16 {
        4
    } else if n <= 32 {
        5
    } else if n <= 64 {
        6
    } else if n <= 128 {
        7
    } else {
        8
    }
}

/// The width is the least number of bits, from 4 up, whose range holds the
/// palette: a palette of one entry takes 4 bits, one of 17 takes 5.
pub proof fn lemma_bits_per_block(n: int)
    requires
        0 <= n <= 256,
    ensures
        4 <= bits_per_block(n) <= 8,
        n <= vstd::arithmetic::power2::pow2(bits_per_block(n) as nat),
        bits_per_block(n) > 4 ==> n > vstd::arithmetic::power2::pow2(
            (bits_per_block(n) - 1) as nat,
        ),
        bits_per_block(1) == 4,
        bits_per_block(17) == 5,
{
    vstd::arithmetic::power2::lemma2_to64();
}

/// How many indexes of `bpb` bits one word holds: none is split over two
/// words.
pub open spec fn per_word(bpb: int) -> int {
    64int / bpb
}

/// How many words the indexes of `cells` cells take.
pub open spec fn word_count(cells: int, bpb: int) -> int {
    (cells + per_word(bpb) - 1) / per_word(bpb)
}

/// How many indexes the word `w` holds: a full load but for the last word.
pub open spec fn slots_in_word(cells: int, w: int, bpb: int) -> int {
    if cells - w * per_word(bpb) < per_word(bpb) {
        cells - w * per_word(bpb)
    } else {
        per_word(bpb)
    }
}

/// The word that holds `count` indexes taken from `idx` at `start`: the
/// first in the lowest `bpb` bits, each next one directly above, zeros on
/// top.
pub open spec fn packed_word(idx: Seq<u64>, start: int, count: nat, bpb: u64) -> u64
    decreases count,
{
    if count == 0 {
        0u64
    } else {
        packed_word(idx, start, (count - 1) as nat, bpb) | (idx[start + count - 1] << (((count
            - 1) * bpb) as u64))
    }
}

/// The 64 bits of a signed word, read as an unsigned number.
pub open spec fn word_bits(d: i64) -> int {
    if d >= 0 {
        d as int
    } else {
        d + 0x1_0000_0000_0000_0000
    }
}

/// The index in slot `slot` of a word: `bpb` bits from bit `slot * bpb` up.
pub open spec fn slot_of(word: u64, slot: int, bpb: u64) -> u64 {
    (word >> ((slot * bpb) as u64)) & (((1u64 << bpb) - 1) as u64)
}

/// The palette index of cell `i` as read back from the packed words.
pub open spec fn unpacked_index(data: Seq<i64>, bpb: int, i: int) -> int {
    slot_of(word_bits(data[i / per_word(bpb)]) as u64, i % per_word(bpb), bpb as u64) as int
}

/// One entry of a section's palette.
pub struct PaletteItem {
    pub name: String,
    pub properties: Option<Vec<(String, String)>>,
}

/// A section as it is stored.
pub struct Section {
    pub palette: Vec<PaletteItem>,
    pub data: Vec<i64>,
    pub y: i8,
}

/// The properties of a palette entry as sequences of characters.
pub open spec fn properties_view(p: Option<Vec<(String, String)>>) -> Option<
    Seq<(Seq<char>, Seq<char>)>,
> {
    match p {
        Some(v) => Some(Seq::new(v@.len(), |i: int| (v@[i].0@, v@[i].1@))),
        None => None,
    }
}

impl Section {
    /// This section stores the grid `blocks` at height index `y`: its
    /// palette names the blocks that occur, sorted and each once, and its
    /// words hold the palette index of every cell in grid order.
    pub open spec fn encodes(&self, blocks: Seq<Block>, y: i8) -> bool {
        let pal = palette_of(blocks);
        let bpb = bits_per_block(pal.len() as int);
        &&& self.y == y
        &&& self.palette@.len() == pal.len()
        &&& forall|k: int|
            0 <= k < pal.len() ==> (#[trigger] self.palette@[k]).name@ == block_name(pal[k])
                && properties_view(self.palette@[k].properties) == block_properties(
                pal[k],
            )
        &&& self.data@.len() == word_count(blocks.len() as int, bpb)
        &&& forall|w: int|
            0 <= w < self.data@.len() ==> word_bits(#[trigger] self.data@[w]) == packed_word(
                cell_indices(blocks),
                w * per_word(bpb),
                slots_in_word(blocks.len() as int, w, bpb) as nat,
                bpb as u64,
            )
    }
}

/// The palette up to `n` is sorted without repetition, holds only kinds
/// below `n`, and holds exactly those of them that occur.
pub proof fn lemma_palette_upto(blocks: Seq<Block>, n: int)
    requires
        0 <= n <= BLOCK_KINDS,
    ensures
        palette_upto(blocks, n).len() <= n,
        forall|k: int|
            0 <= k < palette_upto(blocks, n).len() ==> block_id(
                #[trigger] palette_upto(blocks, n)[k],
            ) < n && blocks.contains(palette_upto(blocks, n)[k]),
        forall|i: int, j: int|
            0 <= i < j < palette_upto(blocks, n).len() ==> block_id(palette_upto(blocks, n)[i])
                < block_id(palette_upto(blocks, n)[j]),
        forall|b: Block|
            blocks.contains(b) && block_id(b) < n ==> 0 <= #[trigger] palette_index(blocks, b)
                < palette_upto(blocks, n).len() && palette_upto(blocks, n)[palette_index(
                blocks,
                b,
            )] == b,
    decreases n,
{
    lemma_block_id_bijection();
    if n > 0 {
        lemma_palette_upto(blocks, n - 1);
        let prev = palette_upto(blocks, n - 1);
        let cur = palette_upto(blocks, n);
        assert forall|b: Block| blocks.contains(b) && block_id(b) < n implies 0
            <= #[trigger] palette_index(blocks, b) < cur.len() && cur[palette_index(blocks, b)]
            == b by {
            if block_id(b) == n - 1 {
                assert(block_of_id(n - 1) == b);
            } else {
                assert(0 <= palette_index(blocks, b) < prev.len());
                assert(prev[palette_index(blocks, b)] == b);
            }
        }
    }
}

/// The palette holds exactly the blocks that occur, sorted by identifier
/// and each once; the palette index of a block that occurs is its place.
pub proof fn lemma_palette_of(blocks: Seq<Block>)
    ensures
        palette_of(blocks).len() <= BLOCK_KINDS,
        forall|b: Block| palette_of(blocks).contains(b) <==> blocks.contains(b),
        forall|i: int, j: int|
            0 <= i < j < palette_of(blocks).len() ==> block_id(palette_of(blocks)[i]) < block_id(
                palette_of(blocks)[j],
            ),
        forall|b: Block|
            blocks.contains(b) ==> 0 <= #[trigger] palette_index(blocks, b) < palette_of(
                blocks,
            ).len() && palette_of(blocks)[palette_index(blocks, b)] == b,
{
    lemma_block_id_bijection();
    lemma_palette_upto(blocks, BLOCK_KINDS as int);
    let pal = palette_of(blocks);
    assert forall|b: Block| pal.contains(b) <==> blocks.contains(b) by {
        if blocks.contains(b) {
            assert(0 <= palette_index(blocks, b) < pal.len());
            assert(pal[palette_index(blocks, b)] == b);
        }
    }
}

/// The widths that a palette of this catalog can need.
pub open spec fn is_width(bpb: int) -> bool {
    4 <= bpb <= 8
}

/// Where the words stand after `i` cells with `n` of them in the open word:
/// the counts of the layout, for one of the five widths.
pub proof fn lemma_word_layout(cells: int, words: int, n: int, bpb: int)
    requires
        is_width(bpb),
        0 <= words,
        0 <= n <= per_word(bpb),
        cells == words * per_word(bpb) + n,
    ensures
        8 <= per_word(bpb) <= 16,
        per_word(bpb) * bpb <= 64,
        0 <= n * bpb <= 64,
        n < per_word(bpb) ==> n * bpb + bpb <= 64,
        n == per_word(bpb) ==> n * bpb + bpb > 64,
        n >= 1 ==> word_count(cells, bpb) == words + 1 && slots_in_word(cells, words, bpb) == n,
        n == 0 ==> word_count(cells, bpb) == words,
        forall|w: int| 0 <= w < words ==> #[trigger] slots_in_word(cells, w, bpb) == per_word(bpb),
        (words + 1) * per_word(bpb) == words * per_word(bpb) + per_word(bpb),
{
    let per = per_word(bpb);
    if bpb == 4 {
        assert(64int / bpb == 16 && (64int / bpb) * bpb <= 64 && (64int / bpb) * bpb + bpb > 64)
            by (nonlinear_arith)
            requires
                bpb == 4,
        ;
    } else if bpb == 5 {
        assert(64int / bpb == 12 && (64int / bpb) * bpb <= 64 && (64int / bpb) * bpb + bpb > 64)
            by (nonlinear_arith)
            requires
                bpb == 5,
        ;
    } else if bpb == 6 {
        assert(64int / bpb == 10 && (64int / bpb) * bpb <= 64 && (64int / bpb) * bpb + bpb > 64)
            by (nonlinear_arith)
            requires
                bpb == 6,
        ;
    } else if bpb == 7 {
        assert(64int / bpb == 9 && (64int / bpb) * bpb <= 64 && (64int / bpb) * bpb + bpb > 64)
            by (nonlinear_arith)
            requires
                bpb == 7,
        ;
    } else {
        assert(64int / bpb == 8 && (64int / bpb) * bpb <= 64 && (64int / bpb) * bpb + bpb > 64)
            by (nonlinear_arith)
            requires
                bpb == 8,
        ;
    }
    assert((words + 1) * per == words * per + per) by (nonlinear_arith);
    assert forall|w: int| 0 <= w < words implies #[trigger] slots_in_word(cells, w, bpb)
        == per by {
        assert(w * per <= (words - 1) * per) by (nonlinear_arith)
            requires
                w <= words - 1,
                per >= 0,
        ;
        assert((words - 1) * per == words * per - per) by (nonlinear_arith);
    }
    if n >= 1 {
        assert((words * per + n + per - 1) / per == words + 1) by (nonlinear_arith)
            requires
                1 <= n <= per,
                per >= 8,
                words >= 0,
        ;
    } else {
        assert((words * per + per - 1) / per == words) by (nonlinear_arith)
            requires
                per >= 8,
                words >= 0,
        ;
    }
    assert(0 <= n * bpb <= 64) by (nonlinear_arith)
        requires
            0 <= n <= per,
            per * bpb <= 64,
            bpb >= 0,
    ;
    if n < per {
        assert(n * bpb + bpb <= 64) by (nonlinear_arith)
            requires
                0 <= n <= per - 1,
                per * bpb <= 64,
                bpb >= 0,
        ;
    } else {
        assert(per * bpb + bpb > 64);
    }
}

/// The width of a palette index for a palette of `len` entries.
pub fn bits_for(len: usize) -> (bits: u64)
    requires
        len <= 256,
    ensures
        bits == bits_per_block(len as int),
        is_width(bits as int),
{
    let mut bits: u64 = 4;
    let mut cap: usize = 16;
    while cap < len
        invariant
            len <= 256,
            (bits == 4 && cap == 16) || (bits == 5 && cap == 32) || (bits == 6 && cap == 64) || (
            bits == 7 && cap == 128) || (bits == 8 && cap == 256),
            bits > 4 ==> len * 2 > cap,
        decreases 256 - cap,
    {
        cap = cap * 2;
        bits += 1;
    }
    bits
}

/// The signed word with the same 64 bits.
pub fn to_signed(w: u64) -> (d: i64)
    ensures
        word_bits(d) == w,
{
    if w < 0x8000_0000_0000_0000 {
        w as i64
    } else {
        ((w - 0x8000_0000_0000_0000) as i64) + i64::MIN
    }
}

/// The palette of a grid, and for every kind that occurs its place in the
/// palette, by identifier.
pub fn build_palette(blocks: &Vec<Block>) -> (r: (Vec<Block>, Vec<u8>))
    ensures
        r.0@ == palette_of(blocks@),
        r.1@.len() == BLOCK_KINDS,
        forall|b: Block| #[trigger]
            blocks@.contains(b) ==> r.1@[block_id(b)] == palette_index(blocks@, b),
{
    proof {
        lemma_block_id_bijection();
    }
    let mut present: Vec<bool> = Vec::new();
    let mut id: u8 = 0;
    while id < BLOCK_KINDS
        invariant
            id <= BLOCK_KINDS,
            present@.len() == id,
            forall|k: int| 0 <= k < id ==> !present@[k],
        decreases BLOCK_KINDS - id,
    {
        present.push(false);
        id += 1;
    }
    let mut i: usize = 0;
    while i < blocks.len()
        invariant
            i <= blocks@.len(),
            present@.len() == BLOCK_KINDS,
            forall|b: Block| 0 <= #[trigger] block_id(b) < BLOCK_KINDS && block_of_id(block_id(b)) == b,
            forall|k: int| 0 <= k < i ==> present@[block_id(#[trigger] blocks@[k])],
            forall|j: int|
                0 <= j < BLOCK_KINDS && #[trigger] present@[j] ==> blocks@.contains(block_of_id(j)),
        decreases blocks@.len() - i,
    {
        let b: Block = blocks[i];
        present.set(b.id() as usize, true);
        assert(blocks@[i as int] == block_of_id(block_id(b)));
        i += 1;
    }
    assert forall|j: int| 0 <= j < BLOCK_KINDS implies #[trigger] present@[j] == blocks@.contains(
        block_of_id(j),
    ) by {
        if blocks@.contains(block_of_id(j)) {
            let k = choose|k: int| 0 <= k < blocks@.len() && blocks@[k] == block_of_id(j);
            assert(present@[block_id(blocks@[k])]);
        }
    }
    let mut palette: Vec<Block> = Vec::new();
    let mut lookup: Vec<u8> = Vec::new();
    let mut id: u8 = 0;
    while id < BLOCK_KINDS
        invariant
            id <= BLOCK_KINDS,
            present@.len() == BLOCK_KINDS,
            forall|j: int|
                0 <= j < BLOCK_KINDS ==> #[trigger] present@[j] == blocks@.contains(block_of_id(j)),
            palette@ == palette_upto(blocks@, id as int),
            palette@.len() <= id,
            lookup@.len() == id,
            forall|j: int| 0 <= j < id ==> #[trigger] lookup@[j] == palette_upto(blocks@, j).len(),
        decreases BLOCK_KINDS - id,
    {
        lookup.push(palette.len() as u8);
        if present[id as usize] {
            match Block::from_id(id) {
                Some(b) => {
                    palette.push(b);
                },
                None => {},
            }
        }
        id += 1;
    }
    (palette, lookup)
}

/// The palette indexes of the cells of `blocks`, `bits` wide, packed into
/// words from the lowest bits up. An index that would not fit in what is
/// left of a word opens the next word.
pub fn pack_indices(blocks: &Vec<Block>, lookup: &Vec<u8>, bits: u64) -> (data: Vec<i64>)
    requires
        is_width(bits as int),
        lookup@.len() == BLOCK_KINDS,
        forall|b: Block| #[trigger]
            blocks@.contains(b) ==> lookup@[block_id(b)] == palette_index(blocks@, b),
    ensures
        data@.len() == word_count(blocks@.len() as int, bits as int),
        forall|w: int|
            0 <= w < data@.len() ==> word_bits(#[trigger] data@[w]) == packed_word(
                cell_indices(blocks@),
                w * per_word(bits as int),
                slots_in_word(blocks@.len() as int, w, bits as int) as nat,
                bits,
            ),
{
    let per: usize = (64 / bits) as usize;
    let ghost idx = cell_indices(blocks@);
    let ghost cells = blocks@.len() as int;
    let mut data: Vec<i64> = Vec::new();
    let mut cur: u64 = 0;
    let mut n: usize = 0;
    let mut i: usize = 0;
    proof {
        lemma_word_layout(0, 0, 0, bits as int);
    }
    while i < blocks.len()
        invariant
            is_width(bits as int),
            per == per_word(bits as int),
            idx == cell_indices(blocks@),
            lookup@.len() == BLOCK_KINDS,
            forall|b: Block| #[trigger]
                blocks@.contains(b) ==> lookup@[block_id(b)] == palette_index(blocks@, b),
            i <= blocks@.len(),
            n <= per,
            i == data@.len() * per + n,
            i > 0 ==> n >= 1,
            cur == packed_word(idx, data@.len() * per, n as nat, bits),
            forall|w: int|
                0 <= w < data@.len() ==> word_bits(#[trigger] data@[w]) == packed_word(
                    idx,
                    w * per,
                    per as nat,
                    bits,
                ),
        decreases blocks@.len() - i,
    {
        let b: Block = blocks[i];
        assert(blocks@.contains(b));
        let p: u64 = lookup[b.id() as usize] as u64;
        assert(idx[i as int] == p);
        proof {
            lemma_word_layout(i as int, data@.len() as int, n as int, bits as int);
        }
        if (n as u64) * bits + bits > 64 {
            data.push(to_signed(cur));
            cur = 0;
            n = 0;
        }
        proof {
            lemma_word_layout(i as int, data@.len() as int, n as int, bits as int);
        }
        let cur_idx: u64 = (n as u64) * bits;
        let ghost start = data@.len() * per;
        assert(cur == packed_word(idx, start, n as nat, bits));
        assert(start + n == i);
        assert(cur_idx == ((n as int) * (bits as int)) as u64);
        cur = cur | (p << cur_idx);
        assert(cur == packed_word(idx, start, (n + 1) as nat, bits));
        n += 1;
        i += 1;
    }
    proof {
        lemma_word_layout(cells, data@.len() as int, n as int, bits as int);
    }
    if n > 0 {
        data.push(to_signed(cur));
    }
    data
}

/// The palette entries for a list of blocks: the name and the properties of
/// each.
pub fn palette_items(palette: &Vec<Block>) -> (items: Vec<PaletteItem>)
    ensures
        items@.len() == palette@.len(),
        forall|k: int|
            0 <= k < palette@.len() ==> (#[trigger] items@[k]).name@ == block_name(palette@[k])
                && properties_view(items@[k].properties) == block_properties(
                palette@[k],
            ),
{
    let mut items: Vec<PaletteItem> = Vec::new();
    let mut k: usize = 0;
    while k < palette.len()
        invariant
            k <= palette@.len(),
            items@.len() == k,
            forall|j: int|
                0 <= j < k ==> (#[trigger] items@[j]).name@ == block_name(palette@[j])
                    && properties_view(items@[j].properties) == block_properties(
                    palette@[j],
                ),
        decreases palette@.len() - k,
    {
        let b: Block = palette[k];
        items.push(PaletteItem { name: b.name().to_owned(), properties: b.properties() });
        k += 1;
    }
    items
}

/// Encodes a grid as the section at height index `y`.
pub fn encode_section(blocks: &Vec<Block>, y: i8) -> (s: Section)
    ensures
        s.encodes(blocks@, y),
{
    proof {
        lemma_palette_of(blocks@);
    }
    let (palette, lookup) = build_palette(blocks);
    let bits: u64 = bits_for(palette.len());
    let data: Vec<i64> = pack_indices(blocks, &lookup, bits);
    Section { palette: palette_items(&palette), data, y }
}

/// A packed word has nothing above its last index.
pub proof fn lemma_packed_top(idx: Seq<u64>, start: int, count: nat, bpb: u64)
    requires
        is_width(bpb as int),
        count * bpb < 64,
        forall|t: int| 0 <= t < count ==> #[trigger] idx[start + t] < (1u64 << bpb),
    ensures
        packed_word(idx, start, count, bpb) >> ((count * bpb) as u64) == 0,
    decreases count,
{
    if count == 0 {
        assert(count * bpb == 0) by (nonlinear_arith)
            requires
                count == 0,
        ;
        assert(0u64 >> 0u64 == 0) by (bit_vector);
    } else {
        let prev = packed_word(idx, start, (count - 1) as nat, bpb);
        let k: u64 = ((count - 1) * bpb) as u64;
        let p = idx[start + (count - 1)];
        assert((count - 1) * bpb + bpb == count * bpb) by (nonlinear_arith);
        assert(0 <= (count - 1) * bpb) by (nonlinear_arith)
            requires
                count >= 1,
                bpb >= 0,
        ;
        lemma_packed_top(idx, start, (count - 1) as nat, bpb);
        let kb: u64 = (count * bpb) as u64;
        assert(kb == k + bpb);
        assert(packed_word(idx, start, count, bpb) == prev | (p << k));
        assert(4 <= bpb <= 8 && kb < 64 && kb == k + bpb && prev >> k == 0 && p < (1u64 << bpb)
            ==> (prev | (p << k)) >> kb == 0) by (bit_vector);
    }
}

/// Each index of a packed word is read back from its slot.
pub proof fn lemma_packed_slot(idx: Seq<u64>, start: int, count: nat, bpb: u64, j: int)
    requires
        is_width(bpb as int),
        count * bpb <= 64,
        0 <= j < count,
        forall|t: int| 0 <= t < count ==> #[trigger] idx[start + t] < (1u64 << bpb),
    ensures
        slot_of(packed_word(idx, start, count, bpb), j, bpb) == idx[start + j],
    decreases count,
{
    let prev = packed_word(idx, start, (count - 1) as nat, bpb);
    let k: u64 = ((count - 1) * bpb) as u64;
    let p = idx[start + (count - 1)];
    let cur = packed_word(idx, start, count, bpb);
    assert((count - 1) * bpb + bpb == count * bpb) by (nonlinear_arith);
    assert(0 <= (count - 1) * bpb) by (nonlinear_arith)
        requires
            count >= 1,
            bpb >= 0,
    ;
    lemma_packed_top(idx, start, (count - 1) as nat, bpb);
    assert(cur == prev | (p << k));
    if j == count - 1 {
        assert(4 <= bpb <= 8 && k <= 60 && k + bpb <= 64 && prev >> k == 0 && p < (1u64 << bpb)
            ==> ((prev | (p << k)) >> k) & (((1u64 << bpb) - 1) as u64) == p) by (bit_vector);
    } else {
        lemma_packed_slot(idx, start, (count - 1) as nat, bpb, j);
        let s: u64 = (j * bpb) as u64;
        assert(0 <= j * bpb && j * bpb + bpb <= (count - 1) * bpb) by (nonlinear_arith)
            requires
                0 <= j <= count - 2,
                bpb >= 0,
        ;
        assert(4 <= bpb <= 8 && k <= 60 && s + bpb <= k ==> ((prev | (p << k)) >> s) & (((1u64
            << bpb) - 1) as u64) == (prev >> s) & (((1u64 << bpb) - 1) as u64)) by (bit_vector);
    }
}

/// A palette of `n` entries fits in the width chosen for it.
pub proof fn lemma_width_holds(n: int, p: u64)
    requires
        0 <= p < n <= 256,
    ensures
        p < (1u64 << (bits_per_block(n) as u64)),
{
    assert((1u64 << 4u64) == 16 && (1u64 << 5u64) == 32 && (1u64 << 6u64) == 64 && (1u64 << 7u64)
        == 128 && (1u64 << 8u64) == 256) by (bit_vector);
}

/// Decoding what was encoded gives the grid back: for every cell, the
/// `bpb` bits of its slot, read within one word, are a palette index, and
/// the palette entry there is the block of that cell.
pub proof fn lemma_palette_round_trip(s: Section, blocks: Seq<Block>, y: i8)
    requires
        s.encodes(blocks, y),
    ensures
        forall|i: int|
            0 <= i < blocks.len() ==> 0 <= #[trigger] unpacked_index(
                s.data@,
                bits_per_block(palette_of(blocks).len() as int),
                i,
            ) < palette_of(blocks).len() && palette_of(blocks)[unpacked_index(
                s.data@,
                bits_per_block(palette_of(blocks).len() as int),
                i,
            )] == blocks[i],
{
    let pal = palette_of(blocks);
    let bpb = bits_per_block(pal.len() as int);
    let per = per_word(bpb);
    let idx = cell_indices(blocks);
    let cells = blocks.len() as int;
    lemma_palette_of(blocks);
    assert forall|i: int| 0 <= i < blocks.len() implies 0 <= #[trigger] unpacked_index(
        s.data@,
        bpb,
        i,
    ) < pal.len() && pal[unpacked_index(s.data@, bpb, i)] == blocks[i] by {
        lemma_word_layout(0, 0, 0, bpb);
        let w = i / per;
        let j = i % per;
        let words = cells / per;
        let n = cells % per;
        assert(cells == words * per + n && 0 <= n < per) by (nonlinear_arith)
            requires
                words == cells / per,
                n == cells % per,
                per >= 8,
        ;
        assert(i == w * per + j && 0 <= j < per && 0 <= w) by (nonlinear_arith)
            requires
                w == i / per,
                j == i % per,
                per >= 8,
                i >= 0,
        ;
        lemma_word_layout(cells, words, n, bpb);
        assert(w <= words && (w == words ==> j < n)) by (nonlinear_arith)
            requires
                i == w * per + j,
                cells == words * per + n,
                i < cells,
                0 <= j < per,
                0 <= n < per,
        ;
        let count = slots_in_word(cells, w, bpb);
        assert(0 <= w < s.data@.len());
        assert(j < count);
        assert(count * bpb <= 64) by (nonlinear_arith)
            requires
                0 <= count <= per,
                per * bpb <= 64,
                bpb >= 0,
        ;
        assert forall|t: int| 0 <= t < count implies #[trigger] idx[w * per + t] < (1u64 << (
        bpb as u64)) by {
            let c = w * per + t;
            assert(0 <= c < cells) by (nonlinear_arith)
                requires
                    c == w * per + t,
                    0 <= t < count,
                    count <= cells - w * per,
                    w >= 0,
                    per >= 0,
            ;
            assert(blocks.contains(blocks[c]));
            lemma_width_holds(pal.len() as int, idx[c]);
        }
        lemma_packed_slot(idx, w * per, count as nat, bpb as u64, j);
        assert(blocks.contains(blocks[i]));
        assert(word_bits(s.data@[w]) as u64 == packed_word(idx, w * per, count as nat, bpb as u64));
    }
}

/// Two stored sections say the same: the same height index, the same
/// palette entries in the same order, the same words.
pub open spec fn same_section(a: Section, b: Section) -> bool {
    &&& a.y == b.y
    &&& a.data@ == b.data@
    &&& a.palette@.len() == b.palette@.len()
    &&& forall|k: int|
        0 <= k < a.palette@.len() ==> (#[trigger] a.palette@[k]).name@ == b.palette@[k].name@
            && properties_view(a.palette@[k].properties) == properties_view(
            b.palette@[k].properties,
        )
}

/// A grid has one stored form: two sections that encode the same grid at
/// the same height index say the same.
pub proof fn lemma_encoding_unique(a: Section, b: Section, blocks: Seq<Block>, y: i8)
    requires
        a.encodes(blocks, y),
        b.encodes(blocks, y),
    ensures
        same_section(a, b),
{
    assert forall|w: int| 0 <= w < a.data@.len() implies a.data@[w] == b.data@[w] by {
        assert(word_bits(a.data@[w]) == word_bits(b.data@[w]));
    }
    assert(a.data@ =~= b.data@);
}

} // verus!
