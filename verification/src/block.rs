//! The block catalog: every kind of block with its identifier, its name and
//! its optional properties, ordered by identifier.

use vstd::prelude::*;

verus! {

/// One kind of block. Kinds are listed in the order of their identifiers.
#[derive(Clone, Copy, Debug, PartialEq, Eq, Structural, Hash, PartialOrd, Ord)]
pub enum Block {
    Air,
    Stone,
    Dirt,
    GrassBlock,
    Cobblestone,
    OakPlanks,
    Water,
    Sand,
    Gravel,
    OakLog,
    OakLeaves,
    Glass,
    Bricks,
    StoneBricks,
    WhiteConcrete,
    GrayConcrete,
    BlackConcrete,
    Sign,
    Rail,
    OakFence,
}

/// Marks a cell that nothing has been written to.
pub const AIR: Block = Block::Air;

pub const STONE: Block = Block::Stone;

pub const DIRT: Block = Block::Dirt;

pub const GRASS_BLOCK: Block = Block::GrassBlock;

pub const COBBLESTONE: Block = Block::Cobblestone;

pub const OAK_PLANKS: Block = Block::OakPlanks;

pub const WATER: Block = Block::Water;

pub const SAND: Block = Block::Sand;

pub const GRAVEL: Block = Block::Gravel;

pub const OAK_LOG: Block = Block::OakLog;

pub const OAK_LEAVES: Block = Block::OakLeaves;

pub const GLASS: Block = Block::Glass;

pub const BRICKS: Block = Block::Bricks;

pub const STONE_BRICKS: Block = Block::StoneBricks;

pub const WHITE_CONCRETE: Block = Block::WhiteConcrete;

pub const GRAY_CONCRETE: Block = Block::GrayConcrete;

pub const BLACK_CONCRETE: Block = Block::BlackConcrete;

pub const SIGN: Block = Block::Sign;

pub const RAIL: Block = Block::Rail;

pub const OAK_FENCE: Block = Block::OakFence;

/// How many kinds the catalog holds; identifiers are `0..BLOCK_KINDS`.
pub const BLOCK_KINDS: u8 = 20;

/// The identifier of each kind.
pub open spec fn block_id(b: Block) -> int {
    match b {
        Block::Air => 0,
        Block::Stone => 1,
        Block::Dirt => 2,
        Block::GrassBlock => 3,
        Block::Cobblestone => 4,
        Block::OakPlanks => 5,
        Block::Water => 6,
        Block::Sand => 7,
        Block::Gravel => 8,
        Block::OakLog => 9,
        Block::OakLeaves => 10,
        Block::Glass => 11,
        Block::Bricks => 12,
        Block::StoneBricks => 13,
        Block::WhiteConcrete => 14,
        Block::GrayConcrete => 15,
        Block::BlackConcrete => 16,
        Block::Sign => 17,
        Block::Rail => 18,
        Block::OakFence => 19,
    }
}

/// The kind that carries the identifier `id`; `Air` where there is none.
pub open spec fn block_of_id(id: int) -> Block {
    if id == 1 {
        Block::Stone
    } else if id == 2 {
        Block::Dirt
    } else if id == 3 {
        Block::GrassBlock
    } else if id == 4 {
        Block::Cobblestone
    } else if id == 5 {
        Block::OakPlanks
    } else if id == 6 {
        Block::Water
    } else if id == 7 {
        Block::Sand
    } else if id == 8 {
        Block::Gravel
    } else if id == 9 {
        Block::OakLog
    } else if id == 10 {
        Block::OakLeaves
    } else if id == 11 {
        Block::Glass
    } else if id == 12 {
        Block::Bricks
    } else if id == 13 {
        Block::StoneBricks
    } else if id == 14 {
        Block::WhiteConcrete
    } else if id == 15 {
        Block::GrayConcrete
    } else if id == 16 {
        Block::BlackConcrete
    } else if id == 17 {
        Block::Sign
    } else if id == 18 {
        Block::Rail
    } else if id == 19 {
        Block::OakFence
    } else {
        Block::Air
    }
}

/// Identifiers and kinds correspond one to one.
pub proof fn lemma_block_id_bijection()
    ensures
        forall|b: Block| 0 <= #[trigger] block_id(b) < BLOCK_KINDS && block_of_id(block_id(b)) == b,
        forall|i: int| 0 <= i < BLOCK_KINDS ==> block_id(#[trigger] block_of_id(i)) == i,
{
}

impl Block {
    /// The identifier of this kind.
    pub fn id(&self) -> (r: u8)
        ensures
            r == block_id(*self),
            r < BLOCK_KINDS,
    {
        match self {
            Block::Air => 0,
            Block::Stone => 1,
            Block::Dirt => 2,
            Block::GrassBlock => 3,
            Block::Cobblestone => 4,
            Block::OakPlanks => 5,
            Block::Water => 6,
            Block::Sand => 7,
            Block::Gravel => 8,
            Block::OakLog => 9,
            Block::OakLeaves => 10,
            Block::Glass => 11,
            Block::Bricks => 12,
            Block::StoneBricks => 13,
            Block::WhiteConcrete => 14,
            Block::GrayConcrete => 15,
            Block::BlackConcrete => 16,
            Block::Sign => 17,
            Block::Rail => 18,
            Block::OakFence => 19,
        }
    }

    /// The kind with the given identifier, if the catalog has one.
    pub fn from_id(id: u8) -> (r: Option<Block>)
        ensures
            id < BLOCK_KINDS ==> r == Some(block_of_id(id as int)),
            id >= BLOCK_KINDS ==> r is None,
    {
        match id {
            0 => Some(Block::Air),
            1 => Some(Block::Stone),
            2 => Some(Block::Dirt),
            3 => Some(Block::GrassBlock),
            4 => Some(Block::Cobblestone),
            5 => Some(Block::OakPlanks),
            6 => Some(Block::Water),
            7 => Some(Block::Sand),
            8 => Some(Block::Gravel),
            9 => Some(Block::OakLog),
            10 => Some(Block::OakLeaves),
            11 => Some(Block::Glass),
            12 => Some(Block::Bricks),
            13 => Some(Block::StoneBricks),
            14 => Some(Block::WhiteConcrete),
            15 => Some(Block::GrayConcrete),
            16 => Some(Block::BlackConcrete),
            17 => Some(Block::Sign),
            18 => Some(Block::Rail),
            19 => Some(Block::OakFence),
            _ => None,
        }
    }

    /// The properties that this kind is stored with, if it has any.
    pub fn properties(&self) -> (r: Option<Vec<(String, String)>>)
        ensures
            match r {
                Some(v) => block_properties(*self) == Some(
                    Seq::new(v@.len(), |i: int| (v@[i].0@, v@[i].1@)),
                ),
                None => block_properties(*self) is None,
            },
    {
        match self {
            Block::OakLeaves => {
                let mut v: Vec<(String, String)> = Vec::new();
                v.push(("persistent".to_owned(), "true".to_owned()));
                assert(Seq::new(v@.len(), |i: int| (v@[i].0@, v@[i].1@)) =~= seq![
                    ("persistent"@, "true"@),
                ]);
                Some(v)
            },
            _ => None,
        }
    }

    /// The canonical name of this kind, as the game spells it.
    pub fn name(&self) -> (r: &'static str)
        ensures
            r@ == block_name(*self),
    {
        match self {
            Block::Air => "minecraft:air",
            Block::Stone => "minecraft:stone",
            Block::Dirt => "minecraft:dirt",
            Block::GrassBlock => "minecraft:grass_block",
            Block::Cobblestone => "minecraft:cobblestone",
            Block::OakPlanks => "minecraft:oak_planks",
            Block::Water => "minecraft:water",
            Block::Sand => "minecraft:sand",
            Block::Gravel => "minecraft:gravel",
            Block::OakLog => "minecraft:oak_log",
            Block::OakLeaves => "minecraft:oak_leaves",
            Block::Glass => "minecraft:glass",
            Block::Bricks => "minecraft:bricks",
            Block::StoneBricks => "minecraft:stone_bricks",
            Block::WhiteConcrete => "minecraft:white_concrete",
            Block::GrayConcrete => "minecraft:gray_concrete",
            Block::BlackConcrete => "minecraft:black_concrete",
            Block::Sign => "minecraft:oak_sign",
            Block::Rail => "minecraft:rail",
            Block::OakFence => "minecraft:oak_fence",
        }
    }
}

/// The properties that a kind is stored with, if it has any.
pub open spec fn block_properties(b: Block) -> Option<Seq<(Seq<char>, Seq<char>)>> {
    match b {
        Block::OakLeaves => Some(seq![("persistent"@, "true"@)]),
        _ => None,
    }
}

/// The canonical name of each kind.
pub open spec fn block_name(b: Block) -> Seq<char> {
    match b {
        Block::Air => "minecraft:air"@,
        Block::Stone => "minecraft:stone"@,
        Block::Dirt => "minecraft:dirt"@,
        Block::GrassBlock => "minecraft:grass_block"@,
        Block::Cobblestone => "minecraft:cobblestone"@,
        Block::OakPlanks => "minecraft:oak_planks"@,
        Block::Water => "minecraft:water"@,
        Block::Sand => "minecraft:sand"@,
        Block::Gravel => "minecraft:gravel"@,
        Block::OakLog => "minecraft:oak_log"@,
        Block::OakLeaves => "minecraft:oak_leaves"@,
        Block::Glass => "minecraft:glass"@,
        Block::Bricks => "minecraft:bricks"@,
        Block::StoneBricks => "minecraft:stone_bricks"@,
        Block::WhiteConcrete => "minecraft:white_concrete"@,
        Block::GrayConcrete => "minecraft:gray_concrete"@,
        Block::BlackConcrete => "minecraft:black_concrete"@,
        Block::Sign => "minecraft:oak_sign"@,
        Block::Rail => "minecraft:rail"@,
        Block::OakFence => "minecraft:oak_fence"@,
    }
}

} // verus!
