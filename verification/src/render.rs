//! The tile buffer, depth sorter and layer composer.
//!
//! `Render` accumulates one composition batch of tiles, each stored in
//! rewritten form (see `crate::model::rewrite_tile`), then flushes it:
//! the batch is sorted stably by `(pos.y, pos.x, z_order)` and one draw
//! call per tile is emitted in sorted order. The composer walks the
//! scene's layer groups, inserts the actor list at the flattened layer
//! index where it interleaves, culls each layer to the viewport, and
//! flushes once per group, so order between groups is a hard front/back
//! constraint that depth keys can never cross.

use vstd::prelude::*;

use crate::model::DrawCall;
use crate::model::RenderLayer;
use crate::model::RenderModel;
use crate::model::RenderTile;
use crate::model::draw_call_of;
use crate::model::draw_calls_of;
use crate::model::draw_fits;
use crate::model::lemma_rewrite_round_trip;
use crate::model::rewrite_for_sort;
use crate::model::rewrite_tile;
use crate::model::rewritten;
use crate::model::tile_fits;
use crate::sort::lemma_sort_spec_ensures;
use crate::sort::sort_spec;
use crate::sort::sort_tiles;
use crate::urect::URect;
use crate::vec2::ivec2;

verus! {

/// The tiles one layer group contributes to its composition batch, in
/// buffering order: walking the group's layers with the running
/// flattened layer index `idx`, the (rewritten) actor list goes in just
/// before the layer at which `idx` reaches `actor_layer`, and each
/// layer contributes its (rewritten) visible tiles.
pub open spec fn group_batch(
    layers: Seq<RenderLayer>,
    actors: Seq<RenderTile>,
    actor_layer: int,
    idx: int,
    view: URect,
) -> Seq<RenderTile>
    decreases layers.len(),
{
    if layers.len() == 0 {
        Seq::empty()
    } else {
        let actor_part: Seq<RenderTile> = if idx == actor_layer {
            rewritten(actors)
        } else {
            Seq::empty()
        };
        let idx2: int = if idx == actor_layer {
            idx + 1
        } else {
            idx
        };
        actor_part + rewritten(layers[0].visible_tiles(view))
            + group_batch(layers.drop_first(), actors, actor_layer, idx2 + 1, view)
    }
}

/// The flattened layer index after a group of `n_layers` layers has
/// been walked starting from `idx`: one step per layer, plus one for
/// the actor pseudo-layer when it interleaves within this group.
pub open spec fn group_end_idx(n_layers: int, actor_layer: int, idx: int) -> int
    decreases n_layers,
{
    if n_layers <= 0 {
        idx
    } else {
        group_end_idx(n_layers - 1, actor_layer, if idx == actor_layer {
            idx + 2
        } else {
            idx + 1
        })
    }
}

/// The number of layers in a sequence of layer groups.
pub open spec fn layer_count(groups: Seq<Vec<RenderLayer>>) -> int
    decreases groups.len(),
{
    if groups.len() == 0 {
        0
    } else {
        groups[0]@.len() + layer_count(groups.drop_first())
    }
}

/// The flattened layer index after a whole sequence of groups has been
/// walked starting from `idx`.
pub open spec fn scene_end_idx(groups: Seq<Vec<RenderLayer>>, actor_layer: int, idx: int) -> int
    decreases groups.len(),
{
    if groups.len() == 0 {
        idx
    } else {
        scene_end_idx(groups.drop_first(), actor_layer,
            group_end_idx(groups[0]@.len() as int, actor_layer, idx))
    }
}

/// The draw calls a sequence of layer groups emits, starting at the
/// flattened layer index `idx`: each group's batch is sorted and
/// emitted as one atomic block, groups in scene order.
pub open spec fn scene_draws_from(
    groups: Seq<Vec<RenderLayer>>,
    actors: Seq<RenderTile>,
    actor_layer: int,
    idx: int,
    view: URect,
) -> Seq<DrawCall>
    decreases groups.len(),
{
    if groups.len() == 0 {
        Seq::empty()
    } else {
        draw_calls_of(sort_spec(group_batch(groups[0]@, actors, actor_layer, idx, view)))
            + scene_draws_from(groups.drop_first(), actors, actor_layer,
                group_end_idx(groups[0]@.len() as int, actor_layer, idx), view)
    }
}

impl RenderModel {
    /// Every layer's grid is consistent and every tile of the scene —
    /// layer tiles and actors alike — can go through the buffering
    /// rewrite.
    pub open spec fn wf(self) -> bool {
        &&& forall|g: int, l: int|
            0 <= g < self.layer_groups@.len() && 0 <= l < self.layer_groups@[g]@.len()
                ==> (#[trigger] self.layer_groups@[g]@[l]).wf()
                    && self.layer_groups@[g]@[l].tiles_fit()
        &&& forall|i: int| 0 <= i < self.actors@.len() ==> tile_fits(#[trigger] self.actors@[i])
    }

    /// The number of layers in the scene, actors' pseudo-layer not
    /// counted.
    pub open spec fn layer_total(self) -> int {
        layer_count(self.layer_groups@)
    }

    /// The full, final draw order of the frame: the concatenation of
    /// every group's sorted batch, in scene order, starting at
    /// flattened layer index zero.
    pub open spec fn draws(self, view: URect) -> Seq<DrawCall> {
        scene_draws_from(self.layer_groups@, self.actors@, self.actor_layer as int, 0, view)
    }
}

/// Accumulates the candidate draw items of one composition batch.
pub struct Render {
    tile_buffer: Vec<RenderTile>,
}

impl Render {
    /// The tiles currently buffered for this batch, in buffering order,
    /// each already in rewritten form.
    pub closed spec fn buffer(self) -> Seq<RenderTile> {
        self.tile_buffer@
    }

    /// Every buffered tile's draw position stays in the signed
    /// coordinate space.
    pub open spec fn wf(self) -> bool {
        forall|i: int| 0 <= i < self.buffer().len() ==> draw_fits(#[trigger] self.buffer()[i])
    }

    /// A renderer with an empty batch.
    pub fn new() -> (r: Render)
        ensures
            r.buffer() == Seq::<RenderTile>::empty(),
            r.wf(),
    {
        Render { tile_buffer: Vec::new() }
    }

    /// Appends tiles to the current batch, rewriting each so that its
    /// stored position becomes its sort position and its offset the
    /// negated original; no ordering happens yet.
    pub fn buffer_tiles(&mut self, tiles: &Vec<RenderTile>)
        requires
            old(self).wf(),
            forall|i: int| 0 <= i < tiles@.len() ==> tile_fits(#[trigger] tiles@[i]),
        ensures
            final(self).buffer() == old(self).buffer() + rewritten(tiles@),
            final(self).wf(),
    {
        let n: usize = tiles.len();
        let mut i: usize = 0;
        while i < n
            invariant
                old(self).wf(),
                forall|k: int| 0 <= k < tiles@.len() ==> tile_fits(#[trigger] tiles@[k]),
                n == tiles@.len(),
                i <= n,
                self.buffer() == old(self).buffer() + rewritten(tiles@.take(i as int)),
                self.wf(),
            decreases n - i,
        {
            let rewritten_tile = rewrite_for_sort(&tiles[i]);
            proof {
                lemma_rewrite_round_trip(tiles@[i as int]);
                assert(rewritten(tiles@.take(i + 1))
                    =~= rewritten(tiles@.take(i as int)).push(
                        rewrite_tile(tiles@[i as int])));
                assert(old(self).buffer() + rewritten(tiles@.take(i + 1))
                    =~= (old(self).buffer() + rewritten(tiles@.take(i as int))).push(
                        rewrite_tile(tiles@[i as int])));
            }
            self.tile_buffer.push(rewritten_tile);
            i = i + 1;
        }
        proof {
            assert(tiles@.take(n as int) =~= tiles@);
        }
    }

    /// Flushes the batch: sorts the buffered tiles stably by
    /// `(pos.y, pos.x, z_order)` ascending and emits one draw call per
    /// tile in sorted order, then clears the batch. Flushing an empty
    /// batch is a no-op that emits nothing.
    pub fn draw_tiles(&mut self) -> (calls: Vec<DrawCall>)
        requires
            old(self).wf(),
        ensures
            calls@ == draw_calls_of(sort_spec(old(self).buffer())),
            final(self).buffer() == Seq::<RenderTile>::empty(),
            final(self).wf(),
    {
        let sorted_batch = sort_tiles(&self.tile_buffer);
        proof {
            lemma_sort_spec_ensures(self.buffer());
            assert forall|k: int| 0 <= k < sorted_batch@.len()
                implies draw_fits(#[trigger] sorted_batch@[k]) by {
                assert(self.buffer().contains(sorted_batch@[k]));
                let m = choose|m: int|
                    0 <= m < self.buffer().len() && self.buffer()[m] == sorted_batch@[k];
                assert(draw_fits(self.buffer()[m]));
            }
        }
        let n: usize = sorted_batch.len();
        let mut calls: Vec<DrawCall> = Vec::new();
        let mut i: usize = 0;
        while i < n
            invariant
                n == sorted_batch@.len(),
                i <= n,
                forall|k: int| 0 <= k < sorted_batch@.len()
                    ==> draw_fits(#[trigger] sorted_batch@[k]),
                calls@ == draw_calls_of(sorted_batch@.take(i as int)),
            decreases n - i,
        {
            let t = sorted_batch[i];
            let call = DrawCall {
                pos: ivec2(t.pos.x + t.sort_offset.x, t.pos.y + t.sort_offset.y),
                tex_rect: t.tex_rect,
            };
            proof {
                assert(call == draw_call_of(sorted_batch@[i as int]));
                assert(draw_calls_of(sorted_batch@.take(i + 1))
                    =~= draw_calls_of(sorted_batch@.take(i as int)).push(
                        draw_call_of(sorted_batch@[i as int])));
            }
            calls.push(call);
            i = i + 1;
        }
        self.tile_buffer.clear();
        proof {
            assert(sorted_batch@.take(n as int) =~= sorted_batch@);
        }
        calls
    }

    /// Composes one frame: walks the scene's layer groups in order,
    /// buffering the actor list just before the layer whose flattened
    /// index equals `model.actor_layer` and every layer's
    /// viewport-visible tiles, and flushes once per group. The result
    /// is the full, final draw order of the frame. The scratch batch
    /// must be drained before composing begins — a fresh or just
    /// flushed renderer — and is left drained for the next frame. When
    /// `actor_layer` never matches a flattened index (it is at least
    /// the flattened layer count), the actors are never buffered and so
    /// are not drawn.
    pub fn draw(&mut self, model: &RenderModel, view_rect: URect) -> (calls: Vec<DrawCall>)
        requires
            old(self).buffer() == Seq::<RenderTile>::empty(),
            model.wf(),
            view_rect.wf(),
            model.layer_total() + 1 <= usize::MAX,
        ensures
            calls@ == model.draws(view_rect),
            final(self).buffer() == Seq::<RenderTile>::empty(),
            final(self).wf(),
    {
        let ghost groups = model.layer_groups@;
        let ghost actors = model.actors@;
        let ghost al = model.actor_layer as int;
        proof {
            lemma_layer_count_nonneg(groups);
        }
        let mut calls: Vec<DrawCall> = Vec::new();
        let mut layer_idx: usize = 0;
        let n_groups: usize = model.layer_groups.len();
        proof {
            assert(groups.skip(0) =~= groups);
        }
        let mut g: usize = 0;
        while g < n_groups
            invariant
                old(self).buffer() == Seq::<RenderTile>::empty(),
                model.wf(),
                view_rect.wf(),
                groups == model.layer_groups@,
                actors == model.actors@,
                al == model.actor_layer as int,
                layer_count(groups) + 1 <= usize::MAX,
                n_groups == groups.len(),
                g <= n_groups,
                self.buffer() == Seq::<RenderTile>::empty(),
                self.wf(),
                layer_idx + layer_count(groups.skip(g as int))
                    + (if layer_idx <= al { 1int } else { 0int }) <= layer_count(groups) + 1,
                calls@ + scene_draws_from(groups.skip(g as int), actors, al,
                    layer_idx as int, view_rect) == model.draws(view_rect),
            decreases n_groups - g,
        {
            let group: &Vec<RenderLayer> = &model.layer_groups[g];
            let ghost idx0 = layer_idx as int;
            proof {
                lemma_layer_count_nonneg(groups.skip(g as int + 1));
                assert(groups.skip(g as int).drop_first() =~= groups.skip(g as int + 1));
                assert(groups.skip(g as int)[0] == groups[g as int]);
                assert(group@.skip(0) =~= group@);
                assert(self.buffer() + group_batch(group@, actors, al, idx0, view_rect)
                    =~= group_batch(group@, actors, al, idx0, view_rect));
            }
            let n_layers: usize = group.len();
            let mut l: usize = 0;
            while l < n_layers
                invariant
                    model.wf(),
                    view_rect.wf(),
                    groups == model.layer_groups@,
                    actors == model.actors@,
                    al == model.actor_layer as int,
                    layer_count(groups) + 1 <= usize::MAX,
                    g < groups.len(),
                    group@ == groups[g as int]@,
                    n_layers == group@.len(),
                    l <= n_layers,
                    self.wf(),
                    layer_idx + (n_layers - l) + layer_count(groups.skip(g as int + 1))
                        + (if layer_idx <= al { 1int } else { 0int })
                        <= layer_count(groups) + 1,
                    group_batch(group@, actors, al, idx0, view_rect)
                        == self.buffer() + group_batch(group@.skip(l as int), actors, al,
                            layer_idx as int, view_rect),
                    group_end_idx(n_layers as int, al, idx0)
                        == group_end_idx(n_layers - l, al, layer_idx as int),
                decreases n_layers - l,
            {
                proof {
                    lemma_layer_count_nonneg(groups.skip(g as int + 1));
                    assert(group@.skip(l as int).drop_first() =~= group@.skip(l as int + 1));
                    assert(group@.skip(l as int)[0] == group@[l as int]);
                }
                let ghost buffer_at_entry = self.buffer();
                let ghost idx_at_entry = layer_idx as int;
                if layer_idx == model.actor_layer {
                    self.buffer_tiles(&model.actors);
                    layer_idx = layer_idx + 1;
                }
                let layer: &RenderLayer = &group[l];
                proof {
                    assert(model.layer_groups@[g as int]@[l as int].wf());
                    group@[l as int].lemma_visible_tiles_fit(view_rect);
                }
                let visible = layer.iter_tiles(view_rect);
                self.buffer_tiles(&visible);
                proof {
                    let actor_part: Seq<RenderTile> = if idx_at_entry == al {
                        rewritten(actors)
                    } else {
                        Seq::<RenderTile>::empty()
                    };
                    assert(self.buffer() =~= buffer_at_entry + actor_part
                        + rewritten(group@[l as int].visible_tiles(view_rect)));
                    assert(group_batch(group@.skip(l as int), actors, al, idx_at_entry,
                        view_rect)
                        == actor_part + rewritten(group@[l as int].visible_tiles(view_rect))
                            + group_batch(group@.skip(l as int + 1), actors, al,
                                layer_idx + 1, view_rect));
                    assert(group_batch(group@, actors, al, idx0, view_rect)
                        =~= self.buffer() + group_batch(group@.skip(l as int + 1), actors,
                            al, layer_idx + 1, view_rect));
                    assert(group_end_idx(n_layers - l, al, idx_at_entry)
                        == group_end_idx(n_layers - l - 1, al, if idx_at_entry == al {
                            idx_at_entry + 2
                        } else {
                            idx_at_entry + 1
                        }));
                }
                layer_idx = layer_idx + 1;
                l = l + 1;
            }
            proof {
                assert(group@.skip(n_layers as int) =~= Seq::<RenderLayer>::empty());
                assert(group_batch(group@.skip(n_layers as int), actors, al,
                    layer_idx as int, view_rect) =~= Seq::<RenderTile>::empty());
                assert(self.buffer() =~= group_batch(group@, actors, al, idx0, view_rect));
                assert(layer_idx as int == group_end_idx(n_layers as int, al, idx0));
            }
            let mut batch_calls = self.draw_tiles();
            proof {
                assert(scene_draws_from(groups.skip(g as int), actors, al, idx0, view_rect)
                    == batch_calls@ + scene_draws_from(groups.skip(g as int + 1), actors,
                        al, layer_idx as int, view_rect));
                assert((calls@ + batch_calls@)
                    + scene_draws_from(groups.skip(g as int + 1), actors, al,
                        layer_idx as int, view_rect)
                    =~= calls@ + scene_draws_from(groups.skip(g as int), actors, al, idx0,
                        view_rect));
            }
            calls.append(&mut batch_calls);
            g = g + 1;
        }
        proof {
            assert(groups.skip(n_groups as int) =~= Seq::<Vec<RenderLayer>>::empty());
            assert(calls@ =~= model.draws(view_rect));
        }
        calls
    }
}

/// A sequence of layer groups holds a non-negative number of layers.
pub proof fn lemma_layer_count_nonneg(groups: Seq<Vec<RenderLayer>>)
    ensures
        layer_count(groups) >= 0,
    decreases groups.len(),
{
    if groups.len() > 0 {
        lemma_layer_count_nonneg(groups.drop_first());
    }
}

/// The sorted draw calls of the group at position `g` of the scene,
/// with the flattened layer index the scene walk has reached when that
/// group begins.
pub open spec fn scene_batch_draws(
    groups: Seq<Vec<RenderLayer>>,
    actors: Seq<RenderTile>,
    actor_layer: int,
    idx: int,
    view: URect,
    g: int,
) -> Seq<DrawCall> {
    draw_calls_of(sort_spec(group_batch(groups[g]@, actors, actor_layer,
        scene_end_idx(groups.take(g), actor_layer, idx), view)))
}

/// How many draw calls the groups before position `g` emit in total:
/// the offset at which group `g`'s block starts in the frame's output.
pub open spec fn scene_prefix_len(
    groups: Seq<Vec<RenderLayer>>,
    actors: Seq<RenderTile>,
    actor_layer: int,
    idx: int,
    view: URect,
    g: int,
) -> int {
    scene_draws_from(groups.take(g), actors, actor_layer, idx, view).len() as int
}

/// Walking one more group continues from where the previous groups
/// stopped: the scene draws and end index over `s.push(v)` extend those
/// over `s` by `v`'s batch.
proof fn lemma_scene_snoc(
    s: Seq<Vec<RenderLayer>>,
    v: Vec<RenderLayer>,
    actors: Seq<RenderTile>,
    actor_layer: int,
    idx: int,
    view: URect,
)
    ensures
        scene_end_idx(s.push(v), actor_layer, idx)
            == group_end_idx(v@.len() as int, actor_layer, scene_end_idx(s, actor_layer, idx)),
        scene_draws_from(s.push(v), actors, actor_layer, idx, view)
            == scene_draws_from(s, actors, actor_layer, idx, view)
                + draw_calls_of(sort_spec(group_batch(v@, actors, actor_layer,
                    scene_end_idx(s, actor_layer, idx), view))),
    decreases s.len(),
{
    if s.len() == 0 {
        assert(s.push(v).drop_first() =~= s);
        assert(s.push(v)[0] == v);
        let e1 = group_end_idx(v@.len() as int, actor_layer, idx);
        assert(scene_end_idx(s, actor_layer, idx) == idx);
        assert(scene_end_idx(s, actor_layer, e1) == e1);
        assert(scene_end_idx(s.push(v), actor_layer, idx)
            == scene_end_idx(s, actor_layer, e1));
        assert(scene_draws_from(s, actors, actor_layer, e1, view)
            =~= Seq::<DrawCall>::empty());
        assert(scene_draws_from(s, actors, actor_layer, idx, view)
            =~= Seq::<DrawCall>::empty());
        assert(scene_draws_from(s.push(v), actors, actor_layer, idx, view)
            == draw_calls_of(sort_spec(group_batch(v@, actors, actor_layer, idx, view)))
                + scene_draws_from(s, actors, actor_layer, e1, view));
        assert(scene_draws_from(s.push(v), actors, actor_layer, idx, view)
            =~= scene_draws_from(s, actors, actor_layer, idx, view)
                + draw_calls_of(sort_spec(group_batch(v@, actors, actor_layer,
                    scene_end_idx(s, actor_layer, idx), view))));
    } else {
        assert(s.push(v).drop_first() =~= s.drop_first().push(v));
        assert(s.push(v)[0] == s[0]);
        let e0 = group_end_idx(s[0]@.len() as int, actor_layer, idx);
        lemma_scene_snoc(s.drop_first(), v, actors, actor_layer, e0, view);
        assert(scene_end_idx(s, actor_layer, idx)
            == scene_end_idx(s.drop_first(), actor_layer, e0));
        assert(scene_end_idx(s.push(v), actor_layer, idx)
            == scene_end_idx(s.drop_first().push(v), actor_layer, e0));
        assert(scene_draws_from(s.push(v), actors, actor_layer, idx, view)
            == draw_calls_of(sort_spec(group_batch(s[0]@, actors, actor_layer, idx, view)))
                + scene_draws_from(s.drop_first().push(v), actors, actor_layer, e0, view));
        assert(scene_draws_from(s, actors, actor_layer, idx, view)
            == draw_calls_of(sort_spec(group_batch(s[0]@, actors, actor_layer, idx, view)))
                + scene_draws_from(s.drop_first(), actors, actor_layer, e0, view));
        assert(scene_draws_from(s.push(v), actors, actor_layer, idx, view)
            =~= scene_draws_from(s, actors, actor_layer, idx, view)
                + draw_calls_of(sort_spec(group_batch(v@, actors, actor_layer,
                    scene_end_idx(s, actor_layer, idx), view))));
    }
}

/// Group `g`'s block starts right after the blocks of the groups before
/// it.
proof fn lemma_scene_prefix_step(
    groups: Seq<Vec<RenderLayer>>,
    actors: Seq<RenderTile>,
    actor_layer: int,
    idx: int,
    view: URect,
    g: int,
)
    requires
        0 <= g < groups.len(),
    ensures
        scene_prefix_len(groups, actors, actor_layer, idx, view, g + 1)
            == scene_prefix_len(groups, actors, actor_layer, idx, view, g)
                + scene_batch_draws(groups, actors, actor_layer, idx, view, g).len(),
{
    assert(groups.take(g + 1) =~= groups.take(g).push(groups[g]));
    lemma_scene_snoc(groups.take(g), groups[g], actors, actor_layer, idx, view);
}

/// The frame's output splits at any group boundary: the groups before
/// `g` emit their blocks, then the remaining groups continue from the
/// flattened layer index the walk has reached.
proof fn lemma_scene_draws_split(
    groups: Seq<Vec<RenderLayer>>,
    actors: Seq<RenderTile>,
    actor_layer: int,
    idx: int,
    view: URect,
    g: int,
)
    requires
        0 <= g <= groups.len(),
    ensures
        scene_draws_from(groups, actors, actor_layer, idx, view)
            == scene_draws_from(groups.take(g), actors, actor_layer, idx, view)
                + scene_draws_from(groups.skip(g), actors, actor_layer,
                    scene_end_idx(groups.take(g), actor_layer, idx), view),
    decreases g,
{
    if g == 0 {
        assert(groups.take(0) =~= Seq::<Vec<RenderLayer>>::empty());
        assert(groups.skip(0) =~= groups);
        assert(scene_draws_from(groups, actors, actor_layer, idx, view)
            =~= scene_draws_from(groups.take(0), actors, actor_layer, idx, view)
                + scene_draws_from(groups.skip(0), actors, actor_layer,
                    scene_end_idx(groups.take(0), actor_layer, idx), view));
    } else {
        lemma_scene_draws_split(groups, actors, actor_layer, idx, view, g - 1);
        assert(groups.take(g) =~= groups.take(g - 1).push(groups[g - 1]));
        lemma_scene_snoc(groups.take(g - 1), groups[g - 1], actors, actor_layer, idx, view);
        let e = scene_end_idx(groups.take(g - 1), actor_layer, idx);
        assert(groups.skip(g - 1)[0] == groups[g - 1]);
        assert(groups.skip(g - 1).drop_first() =~= groups.skip(g));
        assert(scene_draws_from(groups.skip(g - 1), actors, actor_layer, e, view)
            == draw_calls_of(sort_spec(group_batch(groups[g - 1]@, actors, actor_layer, e,
                view)))
                + scene_draws_from(groups.skip(g), actors, actor_layer,
                    group_end_idx(groups[g - 1]@.len() as int, actor_layer, e), view));
        assert(scene_draws_from(groups, actors, actor_layer, idx, view)
            =~= scene_draws_from(groups.take(g), actors, actor_layer, idx, view)
                + scene_draws_from(groups.skip(g), actors, actor_layer,
                    scene_end_idx(groups.take(g), actor_layer, idx), view));
    }
}

/// Each group's sorted batch occupies one contiguous block of the
/// frame's output, starting at that group's prefix offset.
pub proof fn lemma_scene_batch_position(
    groups: Seq<Vec<RenderLayer>>,
    actors: Seq<RenderTile>,
    actor_layer: int,
    idx: int,
    view: URect,
    g: int,
)
    requires
        0 <= g < groups.len(),
    ensures
        scene_prefix_len(groups, actors, actor_layer, idx, view, g)
            + scene_batch_draws(groups, actors, actor_layer, idx, view, g).len()
            <= scene_draws_from(groups, actors, actor_layer, idx, view).len(),
        forall|k: int|
            0 <= k < scene_batch_draws(groups, actors, actor_layer, idx, view, g).len()
                ==> scene_draws_from(groups, actors, actor_layer, idx, view)[
                    scene_prefix_len(groups, actors, actor_layer, idx, view, g) + k]
                    == scene_batch_draws(groups, actors, actor_layer, idx, view, g)[k],
{
    lemma_scene_draws_split(groups, actors, actor_layer, idx, view, g);
    assert(groups.skip(g)[0] == groups[g]);
    assert(groups.skip(g).drop_first() =~= groups.skip(g + 1));
    let e = scene_end_idx(groups.take(g), actor_layer, idx);
    assert(scene_draws_from(groups.skip(g), actors, actor_layer, e, view)
        == scene_batch_draws(groups, actors, actor_layer, idx, view, g)
            + scene_draws_from(groups.skip(g + 1), actors, actor_layer,
                group_end_idx(groups[g]@.len() as int, actor_layer, e), view));
}

/// Group isolation: the whole block of an earlier group stands before
/// the whole block of any later group, so a tile of a later group is
/// never reordered in front of a tile of an earlier group, however the
/// two tiles' sort keys compare. Together with
/// `lemma_scene_batch_position` this places every draw call of group
/// `g1` at an output index strictly below every draw call of group
/// `g2`.
pub proof fn lemma_group_isolation(
    groups: Seq<Vec<RenderLayer>>,
    actors: Seq<RenderTile>,
    actor_layer: int,
    idx: int,
    view: URect,
    g1: int,
    g2: int,
)
    requires
        0 <= g1 < g2 < groups.len(),
    ensures
        scene_prefix_len(groups, actors, actor_layer, idx, view, g1)
            + scene_batch_draws(groups, actors, actor_layer, idx, view, g1).len()
            <= scene_prefix_len(groups, actors, actor_layer, idx, view, g2),
    decreases g2 - g1,
{
    lemma_scene_prefix_step(groups, actors, actor_layer, idx, view, g1);
    if g1 + 1 < g2 {
        lemma_group_isolation(groups, actors, actor_layer, idx, view, g1 + 1, g2);
        lemma_scene_prefix_step(groups, actors, actor_layer, idx, view, g1 + 1);
    }
}

/// Sort determinism: flushing the same buffered batch twice — the same
/// items in the same relative insertion order — emits the identical
/// draw-call sequence.
pub proof fn lemma_flush_deterministic(batch1: Seq<RenderTile>, batch2: Seq<RenderTile>)
    requires
        batch1 == batch2,
    ensures
        draw_calls_of(sort_spec(batch1)) == draw_calls_of(sort_spec(batch2)),
{
}

} // verus!
