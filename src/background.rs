//! The editor's background grid: positions of the grid lines for the
//! current viewport, recomputed only when the viewport or size changes.
//! Pan and line positions are in units of 1/`UNITS_PER_PX` pixel; sizes and
//! the grid spacing at zoom one are in pixels.
use crate::geometry::{valid_zoom, within, zoom_to_units, zoom_units, UNITS_PER_PX};
use vstd::arithmetic::div_mod::{
    lemma_fundamental_div_mod, lemma_fundamental_div_mod_converse_mod, lemma_mod_pos_bound,
};
use vstd::prelude::*;

verus! {

/// Grid lines closer together than this many pixels are not drawn.
pub const MIN_GRID_SPACING: i64 = 4;

/// `MIN_GRID_SPACING` in units.
pub const MIN_GRID_UNITS: i64 = MIN_GRID_SPACING * UNITS_PER_PX;

/// Positions of the grid lines: `xs` of the vertical lines, `ys` of the
/// horizontal ones.
#[derive(Debug)]
pub struct GridLines {
    pub xs: Vec<i64>,
    pub ys: Vec<i64>,
}

/// `s` runs from `start` in steps of `step`, every value below `limit`, and
/// stops at the first value that would reach it.
pub open spec fn grid_run(s: Seq<i64>, start: int, step: int, limit: int) -> bool {
    &&& forall|k: int| 0 <= k < s.len() ==> #[trigger] s[k] == start + k * step && s[k] < limit
    &&& start + s.len() * step >= limit
}

/// Line spacing on screen, in units.
pub open spec fn screen_spacing(spacing: int, zoom: int) -> int {
    zoom_units(spacing, zoom)
}

/// Lines at `pan mod spacing` and every `spacing` after, up to one spacing
/// past `extent`, so that the grid moves with the pan.
fn grid_positions(pan: i64, spacing: i64, extent: i64) -> (r: Vec<i64>)
    requires
        MIN_GRID_UNITS <= spacing <= 0x10_0000_0000_0000,
        within(pan as int, 0x1000_0000_0000_0000),
        0 <= extent <= 0x1000_0000_0000,
    ensures
        grid_run(r@, pan as int % spacing as int, spacing as int, extent + spacing),
{
    let offset: i64 = if pan >= 0 {
        ((pan as u64) % (spacing as u64)) as i64
    } else {
        let m = (((-(pan as i128)) as u64) % (spacing as u64)) as i64;
        if m == 0 {
            0
        } else {
            spacing - m
        }
    };
    proof {
        let p = pan as int;
        let d = spacing as int;
        if p < 0 {
            let q = (-p) / d;
            let m = (-p) % d;
            lemma_fundamental_div_mod(-p, d);
            lemma_mod_pos_bound(-p, d);
            if m == 0 {
                assert(p == (-q) * d) by (nonlinear_arith)
                    requires
                        -p == d * q,
                ;
                lemma_fundamental_div_mod_converse_mod(p, d, -q, 0);
            } else {
                assert(p == (-q - 1) * d + (d - m)) by (nonlinear_arith)
                    requires
                        -p == d * q + m,
                ;
                lemma_fundamental_div_mod_converse_mod(p, d, -q - 1, d - m);
            }
        } else {
            lemma_mod_pos_bound(p, d);
        }
    }
    let limit = extent + spacing;
    let mut out: Vec<i64> = Vec::new();
    let mut x = offset;
    assert(out@.len() * spacing == 0) by (nonlinear_arith)
        requires
            out@.len() == 0,
    ;
    while x < limit
        invariant
            0 <= offset < spacing,
            offset == pan as int % spacing as int,
            MIN_GRID_UNITS <= spacing <= 0x10_0000_0000_0000,
            limit == extent + spacing,
            0 <= extent <= 0x1000_0000_0000,
            x == offset + out@.len() * spacing,
            0 <= x < limit + spacing,
            forall|k: int|
                0 <= k < out@.len() ==> #[trigger] out@[k] == offset + k * spacing && out@[k] < limit,
        decreases limit + spacing - x,
    {
        out.push(x);
        let ghost n = out@.len() as int;
        proof {
            assert(offset + (n - 1) * spacing + spacing == offset + n * spacing) by (nonlinear_arith);
        }
        x = x + spacing;
    }
    out
}

/// Grid lines for a view of `width` by `height` pixels, panned by `pan_x`,
/// `pan_y` units: none when the spacing on screen is below
/// `MIN_GRID_SPACING` pixels.
pub fn generate_grid_commands(
    width: i32,
    height: i32,
    zoom: i64,
    pan_x: i64,
    pan_y: i64,
    spacing: i32,
) -> (r: GridLines)
    requires
        valid_zoom(zoom),
        width >= 0,
        height >= 0,
        spacing >= 0,
        within(pan_x as int, 0x1000_0000_0000_0000),
        within(pan_y as int, 0x1000_0000_0000_0000),
    ensures
        ({
            let step = screen_spacing(spacing as int, zoom as int);
            if step < MIN_GRID_UNITS {
                r.xs@.len() == 0 && r.ys@.len() == 0
            } else {
                grid_run(r.xs@, pan_x as int % step, step, width * UNITS_PER_PX + step) && grid_run(
                    r.ys@,
                    pan_y as int % step,
                    step,
                    height * UNITS_PER_PX + step,
                )
            }
        }),
{
    let step = zoom_to_units(spacing as i64, zoom);
    if step < MIN_GRID_UNITS {
        return GridLines { xs: Vec::new(), ys: Vec::new() };
    }
    GridLines {
        xs: grid_positions(pan_x, step, width as i64 * UNITS_PER_PX),
        ys: grid_positions(pan_y, step, height as i64 * UNITS_PER_PX),
    }
}

/// The view a grid was computed for.
#[derive(Clone, Copy, Debug, PartialEq, Eq, Structural)]
pub struct GridView {
    pub width: i32,
    pub height: i32,
    pub zoom: i64,
    pub pan_x: i64,
    pub pan_y: i64,
    pub spacing: i32,
}

pub open spec fn view_ok(v: GridView) -> bool {
    &&& valid_zoom(v.zoom)
    &&& v.width >= 0 && v.height >= 0 && v.spacing >= 0
    &&& within(v.pan_x as int, 0x1000_0000_0000_0000)
    &&& within(v.pan_y as int, 0x1000_0000_0000_0000)
}

/// The grid that `generate_grid_commands` gives for the view.
pub open spec fn grid_for(g: GridLines, v: GridView) -> bool {
    let step = screen_spacing(v.spacing as int, v.zoom as int);
    if step < MIN_GRID_UNITS {
        g.xs@.len() == 0 && g.ys@.len() == 0
    } else {
        grid_run(g.xs@, v.pan_x as int % step, step, v.width * UNITS_PER_PX + step) && grid_run(
            g.ys@,
            v.pan_y as int % step,
            step,
            v.height * UNITS_PER_PX + step,
        )
    }
}

/// The background layer: keeps the grid of the last view it drew.
pub struct NodeEditorBackground {
    pub last_view: Option<GridView>,
    pub grid: GridLines,
}

impl NodeEditorBackground {
    pub fn new() -> (r: Self)
        ensures
            r.last_view.is_none(),
            r.grid.xs@.len() == 0 && r.grid.ys@.len() == 0,
    {
        NodeEditorBackground { last_view: None, grid: GridLines { xs: Vec::new(), ys: Vec::new() } }
    }

    /// Brings the grid up to date for `view`, recomputing it only when the
    /// view differs from the last one. Returns whether it recomputed.
    pub fn render(&mut self, view: GridView) -> (r: bool)
        requires
            view_ok(view),
            old(self).last_view matches Some(v) ==> grid_for(old(self).grid, v),
        ensures
            r == (old(self).last_view != Some(view)),
            final(self).last_view == Some(view),
            grid_for(final(self).grid, view),
            !r ==> final(self).grid == old(self).grid,
    {
        if self.last_view == Some(view) {
            return false;
        }
        self.grid = generate_grid_commands(
            view.width,
            view.height,
            view.zoom,
            view.pan_x,
            view.pan_y,
            view.spacing,
        );
        self.last_view = Some(view);
        true
    }
}

} // verus!
