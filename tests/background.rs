use node_editor_core::background::{generate_grid_commands, GridView, NodeEditorBackground};
use node_editor_core::geometry::UNITS_PER_PX;

fn units(pixels: &[i64]) -> Vec<i64> {
    pixels.iter().map(|p| p * UNITS_PER_PX).collect()
}

#[test]
fn grid_lines_cover_view() {
    let g = generate_grid_commands(100, 50, 1000, 0, 0, 20);
    assert_eq!(g.xs, units(&[0, 20, 40, 60, 80, 100]));
    assert_eq!(g.ys, units(&[0, 20, 40, 60]));
}

#[test]
fn grid_moves_with_pan() {
    let g = generate_grid_commands(100, 50, 1000, -5 * UNITS_PER_PX, 47 * UNITS_PER_PX, 20);
    assert_eq!(g.xs, units(&[15, 35, 55, 75, 95, 115]));
    assert_eq!(g.ys, units(&[7, 27, 47, 67]));
}

#[test]
fn grid_spacing_scales_with_zoom() {
    let g = generate_grid_commands(100, 30, 2000, 0, 0, 20);
    assert_eq!(g.xs, units(&[0, 40, 80, 120]));
    assert_eq!(g.ys, units(&[0, 40]));
}

#[test]
fn grid_too_dense_is_empty() {
    let g = generate_grid_commands(100, 50, 1000, 0, 0, 3);
    assert!(g.xs.is_empty() && g.ys.is_empty());
    let g = generate_grid_commands(100, 50, 100, 0, 0, 20);
    assert!(g.xs.is_empty() && g.ys.is_empty());
}

#[test]
fn background_recomputes_only_on_change() {
    let mut bg = NodeEditorBackground::new();
    let view = GridView { width: 100, height: 50, zoom: 1000, pan_x: 0, pan_y: 0, spacing: 20 };
    assert!(bg.render(view));
    assert!(!bg.render(view));
    assert_eq!(bg.grid.xs.len(), 6);
    assert!(bg.render(GridView { pan_x: 10 * UNITS_PER_PX, ..view }));
    assert_eq!(bg.grid.xs[0], 10 * UNITS_PER_PX);
}
