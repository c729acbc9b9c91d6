//! The coordinate mapper: centering, pinned edges, and scrolling.

use dungeon::to_world_coords;

#[test]
fn small_map_is_centered_for_every_view_cell() {
    // map_length = 10, view_length = 20: the map fits, so every view
    // coordinate maps by the centering rule: world = vx + 10/2 - 20/2,
    // off-map in the starting padding.
    for vx in 0u16..20 {
        let got = to_world_coords(vx, 3, 20, 10);
        if vx < 5 {
            assert_eq!(got, None);
        } else {
            assert_eq!(got, Some(vx - 5));
        }
    }
}

#[test]
fn equal_sizes_map_identically() {
    for vx in 0u16..20 {
        assert_eq!(to_world_coords(vx, 7, 20, 20), Some(vx));
    }
}

#[test]
fn player_near_start_edge_pins_map_origin() {
    // map_length = 100, view_length = 20, player at 5 <= 10.
    assert_eq!(to_world_coords(0, 5, 20, 100), Some(0));
    assert_eq!(to_world_coords(19, 5, 20, 100), Some(19));
    // The boundary player coordinate still counts as near the edge.
    assert_eq!(to_world_coords(0, 10, 20, 100), Some(0));
}

#[test]
fn player_near_end_edge_pins_map_far_edge() {
    // map_length = 100, view_length = 20, player at 95 >= 100 - 10.
    assert_eq!(to_world_coords(19, 95, 20, 100), Some(99));
    assert_eq!(to_world_coords(0, 95, 20, 100), Some(80));
    // The boundary player coordinate still counts as near the edge.
    assert_eq!(to_world_coords(19, 90, 20, 100), Some(99));
}

#[test]
fn player_in_the_middle_scrolls_the_map() {
    // map_length = 100, view_length = 20, player at 50: camera centered on
    // the player.
    assert_eq!(to_world_coords(10, 50, 20, 100), Some(50));
    assert_eq!(to_world_coords(0, 50, 20, 100), Some(40));
    assert_eq!(to_world_coords(19, 50, 20, 100), Some(59));
    // Just inside the scrollable region on both sides.
    assert_eq!(to_world_coords(0, 11, 20, 100), Some(1));
    assert_eq!(to_world_coords(0, 89, 20, 100), Some(79));
}
