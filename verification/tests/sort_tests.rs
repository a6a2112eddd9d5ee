use tile_render::model::DrawCall;
use tile_render::model::RenderTile;
use tile_render::render::Render;
use tile_render::urect::URect;
use tile_render::vec2::IVec2;

fn tile(z_order: u8, pos: (i32, i32), sort_offset: (i32, i32), tex: u32) -> RenderTile {
    RenderTile {
        z_order,
        pos: IVec2 { x: pos.0, y: pos.1 },
        sort_offset: IVec2 { x: sort_offset.0, y: sort_offset.1 },
        tex_rect: URect::new(tex, 0, 32, 32),
    }
}

fn flush(tiles: &[RenderTile]) -> Vec<DrawCall> {
    let mut render = Render::new();
    render.buffer_tiles(&tiles.to_vec());
    render.draw_tiles()
}

#[test]
fn flush_of_empty_batch_is_a_no_op() {
    let mut render = Render::new();
    assert_eq!(render.draw_tiles(), vec![]);
    assert_eq!(render.draw_tiles(), vec![]);
}

#[test]
fn flush_is_deterministic() {
    let batch = [
        tile(1, (64, 0), (0, 32), 0),
        tile(0, (0, 0), (0, 0), 1),
        tile(2, (0, 0), (0, 0), 2),
        tile(0, (32, -32), (5, 64), 3),
    ];
    let first = flush(&batch);
    let second = flush(&batch);
    assert_eq!(first, second);
}

#[test]
fn draw_position_is_recovered_after_the_rewrite() {
    // The buffering rewrite moves each tile to its sort anchor, but the
    // emitted draw call must land on the original position, negative
    // offsets included.
    let batch = [
        tile(0, (10, 20), (0, -32), 0),
        tile(0, (-7, 5), (3, 64), 1),
        tile(0, (0, 0), (-5, -9), 2),
    ];
    let calls = flush(&batch);
    let mut drawn: Vec<(i32, i32)> = calls.iter().map(|c| (c.pos.x, c.pos.y)).collect();
    drawn.sort();
    assert_eq!(drawn, vec![(-7, 5), (0, 0), (10, 20)]);
}

#[test]
fn smaller_sort_anchor_y_is_emitted_first() {
    // Anchor y decides regardless of x or z_order.
    let a = tile(9, (100, 0), (0, 10), 0); // anchor y = 10
    let b = tile(0, (0, 0), (0, 50), 1); // anchor y = 50
    let calls = flush(&[b, a]);
    assert_eq!(calls[0].tex_rect.x, 0);
    assert_eq!(calls[1].tex_rect.x, 1);
}

#[test]
fn same_anchor_y_orders_by_anchor_x() {
    let a = tile(9, (5, 10), (0, 0), 0); // anchor (5, 10)
    let b = tile(0, (30, 10), (0, 0), 1); // anchor (30, 10)
    let calls = flush(&[b, a]);
    assert_eq!(calls[0].tex_rect.x, 0);
    assert_eq!(calls[1].tex_rect.x, 1);
}

#[test]
fn identical_anchors_tie_break_by_z_order() {
    let a = tile(1, (8, 8), (0, 0), 0);
    let b = tile(3, (8, 8), (0, 0), 1);
    let calls = flush(&[b, a]);
    assert_eq!(calls[0].tex_rect.x, 0);
    assert_eq!(calls[1].tex_rect.x, 1);
}

#[test]
fn fully_equal_keys_keep_insertion_order() {
    // A stable sort: tiles whose whole keys coincide are emitted in the
    // order they were buffered.
    let a = tile(2, (8, 8), (0, 0), 0);
    let b = tile(2, (8, 8), (0, 0), 1);
    let c = tile(2, (8, 8), (0, 0), 2);
    let calls = flush(&[c, a, b]);
    let texes: Vec<u32> = calls.iter().map(|d| d.tex_rect.x).collect();
    assert_eq!(texes, vec![2, 0, 1]);
}

#[test]
fn buffering_accumulates_across_calls() {
    let mut render = Render::new();
    render.buffer_tiles(&vec![tile(0, (0, 50), (0, 0), 0)]);
    render.buffer_tiles(&vec![tile(0, (0, 10), (0, 0), 1)]);
    let calls = render.draw_tiles();
    assert_eq!(calls.len(), 2);
    assert_eq!(calls[0].tex_rect.x, 1);
    assert_eq!(calls[1].tex_rect.x, 0);
    // The batch is drained: a second flush emits nothing.
    assert_eq!(render.draw_tiles(), vec![]);
}
