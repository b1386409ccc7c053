use perfweave::lod::{choose_tile, should_serve_raw, tile_table_name, TILE_WIDTHS_NS};

#[test]
fn one_second_over_1024_px_picks_4ms() {
    let w = choose_tile(1_000_000_000, 1024).unwrap();
    assert_eq!(w, 4_096_000);
}

#[test]
fn narrow_range_serves_raw() {
    assert!(should_serve_raw(100_000, 1024));
}

#[test]
fn tile_edges() {
    assert_eq!(TILE_WIDTHS_NS[0], 1_000);
    for i in 1..TILE_WIDTHS_NS.len() {
        assert_eq!(TILE_WIDTHS_NS[i], 8 * TILE_WIDTHS_NS[i - 1]);
    }
    assert_eq!(choose_tile(0, 1024), Some(1_000));
    assert_eq!(choose_tile(u64::MAX, 0), Some(1_000));
    assert_eq!(choose_tile(8_000, 1), Some(8_000));
    assert_eq!(choose_tile(8_001, 1), Some(64_000));
    assert_eq!(choose_tile(u64::MAX, 1), Some(2_097_152_000));
    assert!(!should_serve_raw(1_000 * 1024, 1024));
    assert_eq!(tile_table_name(1_000, true), "tiles_metric");
    assert_eq!(tile_table_name(1_000, false), "tiles_activity");
}
