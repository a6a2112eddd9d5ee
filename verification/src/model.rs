//! The scene data model: a drawable tile, a rectangular layer of optional
//! tiles, and the full frame description of grouped layers plus actors.
//!
//! A tile's anchor for depth comparison is not its texture top-left but
//! its *sort position* `position + sort_offset`. Before a tile enters the
//! sort buffer it is rewritten so that `position` holds the sort position
//! and `sort_offset` its own negation; the original draw position is then
//! recovered as `position + sort_offset` when the draw call is emitted.

use vstd::prelude::*;

use crate::urect::URect;
use crate::vec2::IVec2;
use crate::vec2::ivec2;

verus! {

/// A single drawable unit: a tie-break rank, a pixel position (top-left
/// of the blitted texture rect), a sort-anchor offset, and the source
/// region within the shared texture atlas.
#[derive(Debug, Clone, Copy, PartialEq, Eq, Structural)]
pub struct RenderTile {
    pub z_order: u8,
    pub pos: IVec2,
    pub sort_offset: IVec2,
    pub tex_rect: URect,
}

/// One emitted blit: the pixel position to draw at and the source region
/// within the shared texture atlas.
#[derive(Debug, Clone, Copy, PartialEq, Eq, Structural)]
pub struct DrawCall {
    pub pos: IVec2,
    pub tex_rect: URect,
}

/// The tile's sort anchor on the x axis, before the buffering rewrite.
pub open spec fn sort_pos_x(t: RenderTile) -> int {
    t.pos.x + t.sort_offset.x
}

/// The tile's sort anchor on the y axis, before the buffering rewrite.
pub open spec fn sort_pos_y(t: RenderTile) -> int {
    t.pos.y + t.sort_offset.y
}

/// The buffering rewrite of this tile stays within the signed coordinate
/// space: its sort position fits, and its offset can be negated.
pub open spec fn tile_fits(t: RenderTile) -> bool {
    &&& i32::MIN <= sort_pos_x(t) <= i32::MAX
    &&& i32::MIN <= sort_pos_y(t) <= i32::MAX
    &&& t.sort_offset.x > i32::MIN
    &&& t.sort_offset.y > i32::MIN
}

/// The tile as it is stored in the sort buffer: `pos` becomes the sort
/// position and `sort_offset` its own negation, so that the stored
/// position doubles as the depth-comparison key while
/// `pos + sort_offset` still recovers the original draw position.
pub open spec fn rewrite_tile(t: RenderTile) -> RenderTile {
    RenderTile {
        z_order: t.z_order,
        pos: IVec2 { x: sort_pos_x(t) as i32, y: sort_pos_y(t) as i32 },
        sort_offset: IVec2 {
            x: (0 - t.sort_offset.x) as i32,
            y: (0 - t.sort_offset.y) as i32,
        },
        tex_rect: t.tex_rect,
    }
}

/// A buffered tile's draw position fits in the signed coordinate space.
pub open spec fn draw_fits(t: RenderTile) -> bool {
    &&& i32::MIN <= t.pos.x + t.sort_offset.x <= i32::MAX
    &&& i32::MIN <= t.pos.y + t.sort_offset.y <= i32::MAX
}

/// The blit emitted for a buffered tile: it draws at
/// `pos + sort_offset`, which for a rewritten tile is the tile's
/// original position.
pub open spec fn draw_call_of(t: RenderTile) -> DrawCall {
    DrawCall {
        pos: IVec2 {
            x: (t.pos.x + t.sort_offset.x) as i32,
            y: (t.pos.y + t.sort_offset.y) as i32,
        },
        tex_rect: t.tex_rect,
    }
}

/// The draw calls for a whole batch of buffered tiles, in batch order.
pub open spec fn draw_calls_of(s: Seq<RenderTile>) -> Seq<DrawCall> {
    s.map_values(|t: RenderTile| draw_call_of(t))
}

/// A whole sequence of tiles after the buffering rewrite, in order.
pub open spec fn rewritten(s: Seq<RenderTile>) -> Seq<RenderTile> {
    s.map_values(|t: RenderTile| rewrite_tile(t))
}

/// The buffering rewrite keeps every tile recoverable: the stored
/// position is exactly the tile's sort position, and the draw position
/// emitted for the rewritten tile is exactly the tile's original
/// position, for any position and any (possibly negative) offset that
/// stay in the signed coordinate space.
pub proof fn lemma_rewrite_round_trip(t: RenderTile)
    requires
        tile_fits(t),
    ensures
        rewrite_tile(t).pos.x == sort_pos_x(t),
        rewrite_tile(t).pos.y == sort_pos_y(t),
        draw_fits(rewrite_tile(t)),
        draw_call_of(rewrite_tile(t)).pos == t.pos,
        draw_call_of(rewrite_tile(t)).tex_rect == t.tex_rect,
{
}

/// Applies the buffering rewrite to one tile.
pub fn rewrite_for_sort(t: &RenderTile) -> (r: RenderTile)
    requires
        tile_fits(*t),
    ensures
        r == rewrite_tile(*t),
{
    RenderTile {
        z_order: t.z_order,
        pos: ivec2(t.pos.x + t.sort_offset.x, t.pos.y + t.sort_offset.y),
        sort_offset: ivec2(0 - t.sort_offset.x, 0 - t.sort_offset.y),
        tex_rect: t.tex_rect,
    }
}

/// A rectangular grid of optional tiles, one per cell, indexed row-major;
/// `None` is an empty cell and draws nothing.
pub struct RenderLayer {
    pub name: String,
    pub width: u32,
    pub height: u32,
    pub tiles: Vec<Option<RenderTile>>,
}

/// An optional cell either is empty or holds a tile whose rewrite stays
/// in the coordinate space.
pub open spec fn opt_tile_fits(o: Option<RenderTile>) -> bool {
    match o {
        Some(t) => tile_fits(t),
        None => true,
    }
}

/// The sequence a single cell contributes to a scan: one tile or nothing.
pub open spec fn opt_tile_seq(o: Option<RenderTile>) -> Seq<RenderTile> {
    match o {
        Some(t) => seq![t],
        None => Seq::empty(),
    }
}

impl RenderLayer {
    /// The grid really is `width` by `height`.
    pub open spec fn wf(self) -> bool {
        self.tiles@.len() == self.width * self.height
    }

    /// Every tile in the grid can go through the buffering rewrite.
    pub open spec fn tiles_fit(self) -> bool {
        forall|i: int| 0 <= i < self.tiles@.len() ==> opt_tile_fits(#[trigger] self.tiles@[i])
    }

    /// The tile at cell `(x, y)`, or `None` when the cell is empty or
    /// outside the grid.
    pub open spec fn cell_tile(self, x: int, y: int) -> Option<RenderTile> {
        if 0 <= x < self.width && 0 <= y < self.height {
            self.tiles@[y * self.width + x]
        } else {
            None
        }
    }

    /// The tiles row `y` contributes for columns `x0` (inclusive) up to
    /// `x1` (exclusive), left to right, skipping empty and out-of-bounds
    /// cells.
    pub open spec fn row_tiles(self, y: int, x0: int, x1: int) -> Seq<RenderTile>
        decreases x1 - x0,
    {
        if x1 <= x0 {
            Seq::empty()
        } else {
            opt_tile_seq(self.cell_tile(x0, y)) + self.row_tiles(y, x0 + 1, x1)
        }
    }

    /// The tiles of rows `y0` (inclusive) up to `y1` (exclusive) within
    /// the viewport's column range, in row-major scan order.
    pub open spec fn rows_tiles(self, view: URect, y0: int, y1: int) -> Seq<RenderTile>
        decreases y1 - y0,
    {
        if y1 <= y0 {
            Seq::empty()
        } else {
            self.row_tiles(y0, view.x as int, view.spec_right())
                + self.rows_tiles(view, y0 + 1, y1)
        }
    }

    /// The layer's visible tiles for a viewport: exactly the non-empty
    /// cells `(x, y)` with `view.x <= x < view.right` and
    /// `view.y <= y < view.bottom` that also lie inside the grid, in
    /// row-major scan order.
    pub open spec fn visible_tiles(self, view: URect) -> Seq<RenderTile> {
        self.rows_tiles(view, view.y as int, view.spec_bottom())
    }

    /// Collects the layer's visible tiles for the given viewport, in
    /// row-major scan order; cells outside the viewport or outside the
    /// grid contribute nothing.
    pub fn iter_tiles(&self, cover_rect: URect) -> (out: Vec<RenderTile>)
        requires
            self.wf(),
            cover_rect.wf(),
        ensures
            out@ == self.visible_tiles(cover_rect),
    {
        let mut out: Vec<RenderTile> = Vec::new();
        let y_end: u32 = cover_rect.bottom();
        let x_end: u32 = cover_rect.right();
        let mut y: u32 = cover_rect.top();
        while y < y_end
            invariant
                self.wf(),
                cover_rect.wf(),
                cover_rect.y <= y <= y_end,
                y_end == cover_rect.spec_bottom(),
                x_end == cover_rect.spec_right(),
                out@ == self.rows_tiles(cover_rect, cover_rect.y as int, y as int),
            decreases y_end - y,
        {
            let mut x: u32 = cover_rect.left();
            while x < x_end
                invariant
                    self.wf(),
                    cover_rect.wf(),
                    cover_rect.y <= y < y_end,
                    cover_rect.x <= x <= x_end,
                    y_end == cover_rect.spec_bottom(),
                    x_end == cover_rect.spec_right(),
                    out@ == self.rows_tiles(cover_rect, cover_rect.y as int, y as int)
                        + self.row_tiles(y as int, cover_rect.x as int, x as int),
                decreases x_end - x,
            {
                if x < self.width && y < self.height {
                    proof {
                        lemma_cell_index_in_range(self.width as int, self.height as int,
                            x as int, y as int);
                    }
                    // Reading the grid's length reminds the prover that
                    // the row-major index below fits in a usize.
                    let _grid_len: usize = self.tiles.len();
                    let idx: usize = (x as usize) + (y as usize) * (self.width as usize);
                    if let Some(tile) = self.tiles[idx] {
                        out.push(tile);
                    }
                }
                proof {
                    self.lemma_row_tiles_snoc(y as int, cover_rect.x as int, x as int);
                    assert(self.cell_tile(x as int, y as int) == if x < self.width && y
                        < self.height {
                        self.tiles@[y * self.width + x]
                    } else {
                        None::<RenderTile>
                    });
                }
                x = x + 1;
            }
            proof {
                self.lemma_rows_tiles_snoc(cover_rect, cover_rect.y as int, y as int);
                assert(self.row_tiles(y as int, x_end as int, x_end as int)
                    =~= Seq::<RenderTile>::empty());
            }
            y = y + 1;
        }
        out
    }

    /// The tile `t` sits in some non-empty cell of this layer whose
    /// coordinates lie in the given half-open ranges. Since a cell
    /// outside the grid yields `None`, such a cell also lies inside the
    /// grid.
    pub open spec fn cell_sourced(self, t: RenderTile, xlo: int, xhi: int, ylo: int, yhi: int) -> bool {
        exists|x: int, y: int|
            xlo <= x < xhi && ylo <= y < yhi && #[trigger] self.cell_tile(x, y) == Some(t)
    }

    /// Every tile a row scan yields comes from a non-empty cell in the
    /// scanned column range.
    proof fn lemma_row_tiles_from_cells(self, y: int, x0: int, x1: int)
        ensures
            forall|i: int|
                0 <= i < self.row_tiles(y, x0, x1).len()
                    ==> self.cell_sourced(#[trigger] self.row_tiles(y, x0, x1)[i],
                        x0, x1, y, y + 1),
        decreases x1 - x0,
    {
        if x1 <= x0 {
        } else {
            self.lemma_row_tiles_from_cells(y, x0 + 1, x1);
            let whole = self.row_tiles(y, x0, x1);
            let head = opt_tile_seq(self.cell_tile(x0, y));
            let rest = self.row_tiles(y, x0 + 1, x1);
            assert forall|i: int| 0 <= i < whole.len()
                implies self.cell_sourced(#[trigger] whole[i], x0, x1, y, y + 1) by {
                if i < head.len() {
                    assert(self.cell_tile(x0, y) == Some(whole[i]));
                } else {
                    assert(rest[i - head.len()] == whole[i]);
                    assert(self.cell_sourced(rest[i - head.len()], x0 + 1, x1, y, y + 1));
                    let (x, yy) = choose|x: int, yy: int|
                        x0 + 1 <= x < x1 && y <= yy < y + 1
                            && #[trigger] self.cell_tile(x, yy) == Some(rest[i - head.len()]);
                    assert(self.cell_tile(x, yy) == Some(whole[i]));
                }
            }
        }
    }

    /// Every tile the viewport scan yields comes from a non-empty cell
    /// within the viewport's column range and the scanned row range.
    proof fn lemma_rows_tiles_from_cells(self, view: URect, y0: int, y1: int)
        ensures
            forall|i: int|
                0 <= i < self.rows_tiles(view, y0, y1).len()
                    ==> self.cell_sourced(#[trigger] self.rows_tiles(view, y0, y1)[i],
                        view.x as int, view.spec_right(), y0, y1),
        decreases y1 - y0,
    {
        if y1 <= y0 {
        } else {
            self.lemma_rows_tiles_from_cells(view, y0 + 1, y1);
            self.lemma_row_tiles_from_cells(y0, view.x as int, view.spec_right());
            let whole = self.rows_tiles(view, y0, y1);
            let head = self.row_tiles(y0, view.x as int, view.spec_right());
            let rest = self.rows_tiles(view, y0 + 1, y1);
            assert forall|i: int| 0 <= i < whole.len()
                implies self.cell_sourced(#[trigger] whole[i], view.x as int,
                    view.spec_right(), y0, y1) by {
                if i < head.len() {
                    assert(head[i] == whole[i]);
                    assert(self.cell_sourced(head[i], view.x as int, view.spec_right(),
                        y0, y0 + 1));
                    let (x, y) = choose|x: int, y: int|
                        view.x <= x < view.spec_right() && y0 <= y < y0 + 1
                            && #[trigger] self.cell_tile(x, y) == Some(head[i]);
                    assert(self.cell_tile(x, y) == Some(whole[i]));
                } else {
                    assert(rest[i - head.len()] == whole[i]);
                    assert(self.cell_sourced(rest[i - head.len()], view.x as int,
                        view.spec_right(), y0 + 1, y1));
                    let (x, y) = choose|x: int, y: int|
                        view.x <= x < view.spec_right() && y0 + 1 <= y < y1
                            && #[trigger] self.cell_tile(x, y) == Some(rest[i - head.len()]);
                    assert(self.cell_tile(x, y) == Some(whole[i]));
                }
            }
        }
    }

    /// Culling correctness: every visible tile comes from a non-empty
    /// cell that lies inside the viewport (half-open on the right and
    /// bottom) — and hence, cells outside the grid yielding `None`,
    /// inside the layer's own grid; no tile from any other cell is ever
    /// emitted.
    pub proof fn lemma_visible_tiles_from_cells(self, view: URect)
        ensures
            forall|i: int|
                0 <= i < self.visible_tiles(view).len()
                    ==> self.cell_sourced(#[trigger] self.visible_tiles(view)[i],
                        view.x as int, view.spec_right(), view.y as int, view.spec_bottom()),
    {
        self.lemma_rows_tiles_from_cells(view, view.y as int, view.spec_bottom());
    }

    /// When every tile of the grid can go through the buffering rewrite,
    /// so can every visible tile.
    pub proof fn lemma_visible_tiles_fit(self, view: URect)
        requires
            self.wf(),
            self.tiles_fit(),
        ensures
            forall|i: int|
                0 <= i < self.visible_tiles(view).len()
                    ==> tile_fits(#[trigger] self.visible_tiles(view)[i]),
    {
        self.lemma_visible_tiles_from_cells(view);
        let vis = self.visible_tiles(view);
        assert forall|i: int| 0 <= i < vis.len() implies tile_fits(#[trigger] vis[i]) by {
            assert(self.cell_sourced(vis[i], view.x as int, view.spec_right(),
                view.y as int, view.spec_bottom()));
            let (x, y) = choose|x: int, y: int|
                view.x <= x < view.spec_right() && view.y <= y < view.spec_bottom()
                    && #[trigger] self.cell_tile(x, y) == Some(vis[i]);
            assert(0 <= x < self.width && 0 <= y < self.height);
            lemma_cell_index_in_range(self.width as int, self.height as int, x, y);
            assert(self.tiles@[y * self.width + x] == Some(vis[i]));
            assert(opt_tile_fits(self.tiles@[y * self.width + x]));
        }
    }

    /// Extending a row scan by one column appends that cell's
    /// contribution.
    proof fn lemma_row_tiles_snoc(self, y: int, x0: int, x: int)
        requires
            x0 <= x,
        ensures
            self.row_tiles(y, x0, x + 1)
                == self.row_tiles(y, x0, x) + opt_tile_seq(self.cell_tile(x, y)),
        decreases x - x0,
    {
        if x0 == x {
            assert(self.row_tiles(y, x0, x) =~= Seq::<RenderTile>::empty());
            assert(self.row_tiles(y, x + 1, x + 1) =~= Seq::<RenderTile>::empty());
            assert(self.row_tiles(y, x, x + 1)
                =~= opt_tile_seq(self.cell_tile(x, y)) + self.row_tiles(y, x + 1, x + 1));
            assert(self.row_tiles(y, x0, x + 1)
                =~= self.row_tiles(y, x0, x) + opt_tile_seq(self.cell_tile(x, y)));
        } else {
            self.lemma_row_tiles_snoc(y, x0 + 1, x);
            assert(self.row_tiles(y, x0, x + 1)
                =~= self.row_tiles(y, x0, x) + opt_tile_seq(self.cell_tile(x, y)));
        }
    }

    /// Extending a viewport scan by one row appends that row's
    /// contribution.
    proof fn lemma_rows_tiles_snoc(self, view: URect, y0: int, y: int)
        requires
            y0 <= y,
        ensures
            self.rows_tiles(view, y0, y + 1)
                == self.rows_tiles(view, y0, y)
                    + self.row_tiles(y, view.x as int, view.spec_right()),
        decreases y - y0,
    {
        if y0 == y {
            assert(self.rows_tiles(view, y0, y) =~= Seq::<RenderTile>::empty());
            assert(self.rows_tiles(view, y + 1, y + 1) =~= Seq::<RenderTile>::empty());
            assert(self.rows_tiles(view, y, y + 1)
                =~= self.row_tiles(y, view.x as int, view.spec_right())
                    + self.rows_tiles(view, y + 1, y + 1));
            assert(self.rows_tiles(view, y0, y + 1)
                =~= self.rows_tiles(view, y0, y)
                    + self.row_tiles(y, view.x as int, view.spec_right()));
        } else {
            self.lemma_rows_tiles_snoc(view, y0 + 1, y);
            assert(self.rows_tiles(view, y0, y + 1)
                =~= self.rows_tiles(view, y0, y)
                    + self.row_tiles(y, view.x as int, view.spec_right()));
        }
    }
}

/// A cell inside the grid has a row-major index inside the tile vector.
proof fn lemma_cell_index_in_range(w: int, h: int, x: int, y: int)
    requires
        0 <= x < w,
        0 <= y < h,
    ensures
        0 <= y * w + x < w * h,
{
    assert(y * w + x < w * h) by (nonlinear_arith)
        requires
            0 <= x < w,
            0 <= y < h,
    ;
    assert(0 <= y * w) by (nonlinear_arith)
        requires
            0 <= y,
            0 <= w,
    ;
}

/// The full frame description: groups of layers (hard front/back order
/// between groups), the dynamic actor list, and the flattened layer index
/// at which the actors interleave.
pub struct RenderModel {
    pub layer_groups: Vec<Vec<RenderLayer>>,
    pub actors: Vec<RenderTile>,
    pub actor_layer: usize,
}

} // verus!
