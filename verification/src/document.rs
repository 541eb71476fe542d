//! The chunk document of a region file as far as a save touches it, and the
//! rule by which a save patches it. What the fields hold is left to the
//! codec: here a value is only carried over.

use crate::editor::ChunkPatch;
use vstd::prelude::*;

verus! {

/// A chunk as it stands in a region file: its sections, its position, its
/// lighting flag, and every other field under its name.
pub struct ChunkDoc<S, T> {
    pub sections: Vec<S>,
    pub x_pos: i32,
    pub z_pos: i32,
    pub is_light_on: u8,
    pub other: Vec<(String, T)>,
}

/// No entry of `fields` has the name `name`.
pub open spec fn none_named<T>(fields: Seq<(String, T)>, name: Seq<char>) -> bool {
    forall|k: int| 0 <= k < fields.len() ==> (#[trigger] fields[k]).0@ != name
}

/// `merged` holds the fields `over` laid over the fields `base`: every
/// entry of `over`, every entry of `base` whose name `over` does not have,
/// untouched, and nothing else.
pub open spec fn laid_over<T>(
    base: Seq<(String, T)>,
    over: Seq<(String, T)>,
    merged: Seq<(String, T)>,
) -> bool {
    &&& forall|i: int|
        0 <= i < base.len() && none_named(over, (#[trigger] base[i]).0@) ==> merged.contains(
            base[i],
        )
    &&& forall|k: int| 0 <= k < over.len() ==> merged.contains(#[trigger] over[k])
    &&& forall|j: int|
        0 <= j < merged.len() ==> over.contains(#[trigger] merged[j]) || (base.contains(merged[j])
            && none_named(over, merged[j].0@))
}

/// Whether `fields` has an entry under `name`.
pub fn has_name<T>(fields: &Vec<(String, T)>, name: &String) -> (r: bool)
    ensures
        r == !none_named(fields@, name@),
{
    let mut k: usize = 0;
    while k < fields.len()
        invariant
            k <= fields@.len(),
            forall|i: int| 0 <= i < k ==> (#[trigger] fields@[i]).0@ != name@,
        decreases fields@.len() - k,
    {
        if fields[k].0 == *name {
            return true;
        }
        k += 1;
    }
    false
}

/// Lays the fields `over` over the fields `base`: a name that both have
/// keeps the value of `over`, every other field stays as it is. The order
/// of the result carries no meaning.
pub fn merge_fields<T>(base: Vec<(String, T)>, over: Vec<(String, T)>) -> (merged: Vec<
    (String, T),
>)
    ensures
        laid_over(base@, over@, merged@),
{
    let mut base = base;
    let mut over = over;
    let ghost base0 = base@;
    let ghost over0 = over@;
    let mut out: Vec<(String, T)> = Vec::new();
    while base.len() > 0
        invariant
            over@ == over0,
            base@.len() <= base0.len(),
            forall|i: int| 0 <= i < base@.len() ==> base@[i] == base0[i],
            forall|i: int|
                base@.len() <= i < base0.len() && none_named(over0, (#[trigger] base0[i]).0@)
                    ==> out@.contains(base0[i]),
            forall|j: int|
                0 <= j < out@.len() ==> base0.contains(#[trigger] out@[j]) && none_named(
                    over0,
                    out@[j].0@,
                ),
        decreases base@.len(),
    {
        let ghost last = base@.len() - 1;
        let ghost before = out@;
        match base.pop() {
            Some(entry) => {
                assert(entry == base0[last]);
                if !has_name(&over, &entry.0) {
                    out.push(entry);
                    assert(out@[before.len() as int] == base0[last]);
                    assert forall|i: int|
                        base@.len() <= i < base0.len() && none_named(
                            over0,
                            (#[trigger] base0[i]).0@,
                        ) implies out@.contains(base0[i]) by {
                        if i != last {
                            let w = choose|w: int| 0 <= w < before.len() && before[w] == base0[i];
                            assert(out@[w] == base0[i]);
                        }
                    }
                }
            },
            None => {},
        }
    }
    let ghost kept = out@;
    while over.len() > 0
        invariant
            over@.len() <= over0.len(),
            forall|k: int| 0 <= k < over@.len() ==> over@[k] == over0[k],
            kept.len() <= out@.len(),
            forall|j: int| 0 <= j < kept.len() ==> out@[j] == kept[j],
            forall|i: int|
                0 <= i < base0.len() && none_named(over0, (#[trigger] base0[i]).0@)
                    ==> kept.contains(base0[i]),
            forall|j: int|
                0 <= j < kept.len() ==> base0.contains(#[trigger] kept[j]) && none_named(
                    over0,
                    kept[j].0@,
                ),
            forall|k: int| over@.len() <= k < over0.len() ==> out@.contains(#[trigger] over0[k]),
            forall|j: int| kept.len() <= j < out@.len() ==> over0.contains(#[trigger] out@[j]),
        decreases over@.len(),
    {
        let ghost last = over@.len() - 1;
        let ghost before = out@;
        match over.pop() {
            Some(entry) => {
                assert(entry == over0[last]);
                out.push(entry);
                assert(out@[before.len() as int] == over0[last]);
                assert forall|k: int| over@.len() <= k < over0.len() implies out@.contains(
                    #[trigger] over0[k],
                ) by {
                    if k != last {
                        let w = choose|w: int| 0 <= w < before.len() && before[w] == over0[k];
                        assert(out@[w] == over0[k]);
                    }
                }
            },
            None => {},
        }
    }
    proof {
        assert forall|i: int|
            0 <= i < base0.len() && none_named(over0, (#[trigger] base0[i]).0@) implies out@.contains(
            base0[i],
        ) by {
            let w = choose|w: int| 0 <= w < kept.len() && kept[w] == base0[i];
            assert(out@[w] == base0[i]);
        }
        assert forall|j: int| 0 <= j < out@.len() implies over0.contains(#[trigger] out@[j]) || (
        base0.contains(out@[j]) && none_named(over0, out@[j].0@)) by {
            if j < kept.len() {
                assert(out@[j] == kept[j]);
                assert(base0.contains(kept[j]));
            }
        }
        assert(laid_over(base0, over0, out@));
    }
    out
}

/// Patches a chunk as a save does: the sections are replaced where the chunk
/// was written to, the chunk's own fields are laid over those of the
/// document, and the position and the lighting flag are those of the patch.
pub fn patch_chunk<S, T>(
    doc: ChunkDoc<S, T>,
    patch: &ChunkPatch<'_>,
    sections: Option<Vec<S>>,
    fields: Vec<(String, T)>,
) -> (r: ChunkDoc<S, T>)
    ensures
        r.x_pos == patch.x_pos,
        r.z_pos == patch.z_pos,
        r.is_light_on == patch.is_light_on,
        r.sections == (match sections {
            Some(s) => s,
            None => doc.sections,
        }),
        laid_over(doc.other@, fields@, r.other@),
{
    let ChunkDoc { sections: old_sections, x_pos: _, z_pos: _, is_light_on: _, other } = doc;
    let new_sections: Vec<S> = match sections {
        Some(s) => s,
        None => old_sections,
    };
    ChunkDoc {
        sections: new_sections,
        x_pos: patch.x_pos,
        z_pos: patch.z_pos,
        is_light_on: patch.is_light_on,
        other: merge_fields(other, fields),
    }
}

/// A field that the chunk's own fields do not name passes through a patch
/// untouched.
pub proof fn lemma_passthrough<T>(
    base: Seq<(String, T)>,
    over: Seq<(String, T)>,
    merged: Seq<(String, T)>,
    i: int,
)
    requires
        laid_over(base, over, merged),
        0 <= i < base.len(),
        none_named(over, base[i].0@),
    ensures
        merged.contains(base[i]),
{
}

} // verus!
