//! Building the scene model from loaded map data.
//!
//! The map loader resolves each authored layer into a plain record: the
//! layer's grid of tiles, whether the layer is the designated marker at
//! which dynamic actors interleave, and whether it was authored to merge
//! with the previous layer group. From those records this module builds
//! the ordered layer groups and the actor-interleave index; it also
//! holds the small pieces of arithmetic the loader needs to place a
//! tile: its atlas source rectangle and its pixel position within a
//! layer.

use vstd::prelude::*;

use crate::model::RenderLayer;
use crate::urect::URect;
use crate::vec2::IVec2;
use crate::vec2::ivec2;

verus! {

/// One authored map layer, its composition flags already resolved to
/// plain values by the loader.
pub struct LayerRecord {
    /// This layer is the designated marker at which actors interleave;
    /// it carries no tiles of its own and joins no group.
    pub is_actor_marker: bool,
    /// Join the previous layer group instead of starting a new one.
    pub merge_with_prev: bool,
    /// The layer's grid of tiles.
    pub layer: RenderLayer,
}

/// The layer groups after the given records have been walked in
/// declaration order. The scene starts with one empty group; a marker
/// record adds nothing, a merging record joins the last group, and any
/// other record starts a new group holding just its layer.
pub open spec fn groups_after(records: Seq<LayerRecord>) -> Seq<Seq<RenderLayer>>
    decreases records.len(),
{
    if records.len() == 0 {
        seq![Seq::empty()]
    } else {
        let prev = groups_after(records.drop_last());
        let r = records.last();
        if r.is_actor_marker {
            prev
        } else if r.merge_with_prev {
            prev.update(prev.len() - 1, prev.last().push(r.layer))
        } else {
            prev.push(seq![r.layer])
        }
    }
}

/// The declaration index of the designated actor-marker record, the
/// last one when several are marked, or `None` when there is none.
pub open spec fn actor_index_after(records: Seq<LayerRecord>) -> Option<int>
    decreases records.len(),
{
    if records.len() == 0 {
        None
    } else if records.last().is_actor_marker {
        Some(records.len() - 1)
    } else {
        actor_index_after(records.drop_last())
    }
}

/// Walks the loader's layer records in declaration order and builds the
/// scene's layer groups together with the actor-interleave index: the
/// declaration position of the designated marker record, or `None` when
/// no record is marked.
pub fn build_layer_groups(records: Vec<LayerRecord>) -> (r: (Vec<Vec<RenderLayer>>, Option<
    usize,
>))
    ensures
        r.0@.map_values(|g: Vec<RenderLayer>| g@) == groups_after(records@),
        r.1 is Some <==> actor_index_after(records@) is Some,
        r.1 matches Some(i) ==> actor_index_after(records@) == Some(i as int),
{
    let ghost all = records@;
    let total: usize = records.len();
    let mut records = records;
    let mut groups: Vec<Vec<RenderLayer>> = Vec::new();
    groups.push(Vec::new());
    let mut actor_layer: Option<usize> = None;
    let mut i: usize = 0;
    proof {
        assert(all.take(0) =~= Seq::<LayerRecord>::empty());
        assert(groups@.map_values(|g: Vec<RenderLayer>| g@) =~= groups_after(all.take(0)));
    }
    while records.len() > 0
        invariant
            records@ == all.skip(i as int),
            i + records@.len() == all.len(),
            all.len() == total,
            groups@.len() >= 1,
            groups@.map_values(|g: Vec<RenderLayer>| g@) == groups_after(all.take(i as int)),
            actor_layer is Some <==> actor_index_after(all.take(i as int)) is Some,
            actor_layer matches Some(a)
                ==> actor_index_after(all.take(i as int)) == Some(a as int),
        decreases records@.len(),
    {
        let record = records.remove(0);
        proof {
            assert(record == all[i as int]);
            assert(all.skip(i as int).remove(0) =~= all.skip(i as int + 1));
            assert(all.take(i + 1).drop_last() =~= all.take(i as int));
            assert(all.take(i + 1).last() == all[i as int]);
        }
        let ghost before = groups@.map_values(|g: Vec<RenderLayer>| g@);
        if record.is_actor_marker {
            actor_layer = Some(i);
        } else if record.merge_with_prev {
            let glen: usize = groups.len();
            let mut last_group = groups.remove(glen - 1);
            last_group.push(record.layer);
            groups.push(last_group);
            proof {
                assert(groups@.map_values(|g: Vec<RenderLayer>| g@)
                    =~= before.update(before.len() - 1,
                        before.last().push(all[i as int].layer)));
            }
        } else {
            let mut fresh: Vec<RenderLayer> = Vec::new();
            fresh.push(record.layer);
            groups.push(fresh);
            proof {
                assert(groups@.map_values(|g: Vec<RenderLayer>| g@)
                    =~= before.push(seq![all[i as int].layer]));
            }
        }
        i = i + 1;
    }
    proof {
        assert(all.take(i as int) =~= all);
    }
    (groups, actor_layer)
}

/// Computes the atlas source rectangle of a tile id, for a tileset laid
/// out `columns` tiles per row with cells of `tile_w` by `tile_h`
/// pixels: column `id % columns`, row `id / columns`.
pub fn tile_source_rect(id: u32, columns: u32, tile_w: u32, tile_h: u32) -> (r: URect)
    requires
        columns > 0,
        (id % columns) * tile_w <= u32::MAX,
        (id / columns) * tile_h <= u32::MAX,
    ensures
        r == (URect {
            x: ((id % columns) * tile_w) as u32,
            y: ((id / columns) * tile_h) as u32,
            w: tile_w,
            h: tile_h,
        }),
{
    URect { x: (id % columns) * tile_w, y: (id / columns) * tile_h, w: tile_w, h: tile_h }
}

/// Computes the pixel position of the cell at row-major index `idx` in
/// a layer `width` cells wide, with cells of `tile_w` by `tile_h`
/// pixels.
pub fn cell_position(idx: u32, width: u32, tile_w: u32, tile_h: u32) -> (p: IVec2)
    requires
        width > 0,
        (idx % width) * tile_w <= i32::MAX,
        (idx / width) * tile_h <= i32::MAX,
    ensures
        p == (IVec2 {
            x: ((idx % width) * tile_w) as i32,
            y: ((idx / width) * tile_h) as i32,
        }),
{
    ivec2(((idx % width) * tile_w) as i32, ((idx / width) * tile_h) as i32)
}

} // verus!
