use tile_render::model::RenderLayer;
use tile_render::model::RenderModel;
use tile_render::model::RenderTile;
use tile_render::render::Render;
use tile_render::urect::URect;
use tile_render::vec2::IVec2;

const TILE_SIZE: i32 = 32;

fn cell_tile(x: i32, y: i32, z_order: u8) -> RenderTile {
    RenderTile {
        z_order,
        pos: IVec2 { x: x * TILE_SIZE, y: y * TILE_SIZE },
        sort_offset: IVec2 { x: 0, y: 0 },
        tex_rect: URect::new(0, 0, 32, 32),
    }
}

/// A w-by-h layer with a tile in every cell, each tile's position being
/// its cell position in pixels.
fn full_layer(name: &str, w: u32, h: u32, z_order: u8) -> RenderLayer {
    let mut tiles = Vec::new();
    for y in 0..h as i32 {
        for x in 0..w as i32 {
            tiles.push(Some(cell_tile(x, y, z_order)));
        }
    }
    RenderLayer { name: name.to_string(), width: w, height: h, tiles }
}

#[test]
fn culling_emits_only_viewport_cells() {
    // A 10 by 10 layer seen through the viewport (x=2, y=2, w=3, h=3):
    // exactly the cells of [2, 5) x [2, 5) are drawn.
    let layer = full_layer("terrain", 10, 10, 0);
    let model = RenderModel { layer_groups: vec![vec![layer]], actors: vec![], actor_layer: 99 };
    let mut render = Render::new();
    let calls = render.draw(&model, URect::new(2, 2, 3, 3));
    assert_eq!(calls.len(), 9);
    for call in &calls {
        let cx = call.pos.x / TILE_SIZE;
        let cy = call.pos.y / TILE_SIZE;
        assert!((2..5).contains(&cx), "cell x {} outside viewport", cx);
        assert!((2..5).contains(&cy), "cell y {} outside viewport", cy);
    }
}

#[test]
fn culling_is_clamped_to_the_layer_grid() {
    // The viewport covers cells the 3 by 2 layer does not have; only
    // the layer's own cells are drawn.
    let layer = full_layer("terrain", 3, 2, 0);
    let model = RenderModel { layer_groups: vec![vec![layer]], actors: vec![], actor_layer: 99 };
    let mut render = Render::new();
    let calls = render.draw(&model, URect::new(0, 0, 30, 20));
    assert_eq!(calls.len(), 6);
}

#[test]
fn iter_tiles_scans_rows_left_to_right_top_to_bottom() {
    let layer = full_layer("terrain", 3, 3, 0);
    let tiles = layer.iter_tiles(URect::new(1, 0, 2, 2));
    let cells: Vec<(i32, i32)> =
        tiles.iter().map(|t| (t.pos.x / TILE_SIZE, t.pos.y / TILE_SIZE)).collect();
    assert_eq!(cells, vec![(1, 0), (2, 0), (1, 1), (2, 1)]);
}

#[test]
fn empty_cells_are_skipped() {
    let mut layer = full_layer("terrain", 2, 2, 0);
    layer.tiles[1] = None;
    layer.tiles[2] = None;
    let model = RenderModel { layer_groups: vec![vec![layer]], actors: vec![], actor_layer: 99 };
    let mut render = Render::new();
    let calls = render.draw(&model, URect::new(0, 0, 2, 2));
    assert_eq!(calls.len(), 2);
}

#[test]
fn groups_are_never_reordered() {
    // The tile of the second group has the numerically smallest sort
    // key of the scene, yet every draw of group zero comes first.
    let back = full_layer("back", 1, 1, 0); // anchor y = 0
    let front = {
        let mut layer = full_layer("front", 1, 1, 0);
        if let Some(t) = &mut layer.tiles[0] {
            t.pos = IVec2 { x: -100, y: -100 }; // far smaller sort key
            t.tex_rect = URect::new(7, 0, 32, 32);
        }
        layer
    };
    let model = RenderModel {
        layer_groups: vec![vec![back], vec![front]],
        actors: vec![],
        actor_layer: 99,
    };
    let mut render = Render::new();
    let calls = render.draw(&model, URect::new(0, 0, 10, 10));
    assert_eq!(calls.len(), 2);
    assert_eq!(calls[0].tex_rect.x, 0, "group zero must be flushed first");
    assert_eq!(calls[1].tex_rect.x, 7, "group one must follow group zero");
}

#[test]
fn actors_interleave_by_sort_key_within_their_group() {
    // A 2 by 1 layer with a tile at cell (0, 0) whose sort offset is
    // (0, -32), and an actor at pixel (0, 32) with sort offset (0, 32),
    // in the same group: sort anchors are (0, -32) and (0, 64), so the
    // layer tile draws first and the actor second, whatever the
    // declaration order says.
    let actor = RenderTile {
        z_order: 0,
        pos: IVec2 { x: 0, y: 32 },
        sort_offset: IVec2 { x: 0, y: 32 },
        tex_rect: URect::new(224, 544, 32, 64),
    };
    let mut layer = full_layer("terrain", 2, 1, 0);
    layer.tiles[1] = None;
    if let Some(t) = &mut layer.tiles[0] {
        t.sort_offset = IVec2 { x: 0, y: -32 };
    }
    // The actors are declared (and buffered) before the layer, yet the
    // layer tile's smaller sort anchor draws it first.
    let model = RenderModel {
        layer_groups: vec![vec![layer]],
        actors: vec![actor],
        actor_layer: 0,
    };
    let mut render = Render::new();
    let calls = render.draw(&model, URect::new(0, 0, 10, 10));
    assert_eq!(calls.len(), 2);
    assert_eq!(calls[0].pos, IVec2 { x: 0, y: 0 }, "layer tile draws first");
    assert_eq!(calls[1].pos, IVec2 { x: 0, y: 32 }, "actor draws second");
}

#[test]
fn actors_outside_every_flattened_index_are_not_drawn() {
    let layer = full_layer("terrain", 1, 1, 0);
    let actor = cell_tile(0, 0, 5);
    let model = RenderModel {
        layer_groups: vec![vec![layer]],
        actors: vec![actor],
        actor_layer: 3, // never matched: only flattened index 0 exists
    };
    let mut render = Render::new();
    let calls = render.draw(&model, URect::new(0, 0, 4, 4));
    assert_eq!(calls.len(), 1);
}

#[test]
fn empty_groups_flush_to_nothing() {
    let model = RenderModel {
        layer_groups: vec![vec![], vec![]],
        actors: vec![cell_tile(0, 0, 0)],
        actor_layer: 0,
    };
    let mut render = Render::new();
    let calls = render.draw(&model, URect::new(0, 0, 4, 4));
    // Groups without layers never reach the actor check, so even the
    // actors stay undrawn.
    assert_eq!(calls.len(), 0);
}

#[test]
fn a_frame_draws_groups_in_order_and_sorted_within() {
    // Two layers merged in one group interleave by sort key; a second
    // group stays behind.
    let ground = full_layer("ground", 2, 1, 0);
    let props = {
        let mut layer = full_layer("props", 2, 1, 1);
        layer.tiles[0] = None;
        if let Some(t) = &mut layer.tiles[1] {
            t.sort_offset = IVec2 { x: 0, y: -32 }; // anchor above the ground row
            t.tex_rect = URect::new(3, 0, 32, 32);
        }
        layer
    };
    let overlay = {
        let mut layer = full_layer("overlay", 1, 1, 2);
        if let Some(t) = &mut layer.tiles[0] {
            t.pos = IVec2 { x: -500, y: -500 };
            t.tex_rect = URect::new(9, 0, 32, 32);
        }
        layer
    };
    let model = RenderModel {
        layer_groups: vec![vec![ground, props], vec![overlay]],
        actors: vec![],
        actor_layer: 99,
    };
    let mut render = Render::new();
    let calls = render.draw(&model, URect::new(0, 0, 10, 10));
    let texes: Vec<u32> = calls.iter().map(|c| c.tex_rect.x).collect();
    // Group one: the prop's anchor (32, -32) sorts before the ground row
    // (y = 0); the overlay group comes last despite its tiny key.
    assert_eq!(texes, vec![3, 0, 0, 9]);
}
