use bevy_bird::terrain::{Segment, Terrain, HILL_TILE_WIDTH};

fn assert_contiguous(segs: &[Segment], tile: i64) {
    for s in segs {
        assert_eq!(s.right_edge_x - s.left_edge_x, tile);
    }
    for pair in segs.windows(2) {
        assert_eq!(pair[0].right_edge_x, pair[1].left_edge_x);
    }
}

#[test]
fn bootstrap_covers_twice_the_viewport() {
    let mut t = Terrain::new(HILL_TILE_WIDTH);
    let step = t.stream_step(0, 800);
    let segs = t.segments();
    assert_eq!(segs.len(), 7);
    assert_eq!(step.spawned, segs);
    assert_eq!(step.despawned, None);
    assert_eq!(segs[0].left_edge_x, -800);
    assert_eq!(segs[6].right_edge_x, 992);
    assert!(segs[0].left_edge_x <= -800 && segs[6].right_edge_x >= 800);
    for (i, s) in segs.iter().enumerate() {
        assert_eq!(s.left_edge_x, -800 + 256 * i as i64);
    }
    assert_contiguous(&segs, 256);
}

#[test]
fn bootstrap_with_zero_width_spawns_nothing() {
    let mut t = Terrain::new(HILL_TILE_WIDTH);
    let step = t.stream_step(100, 0);
    assert!(step.spawned.is_empty());
    assert!(t.segments().is_empty());
}

#[test]
fn bootstrap_exact_multiple() {
    let mut t = Terrain::new(100);
    t.stream_step(50, 300);
    let segs = t.segments();
    assert_eq!(segs.len(), 6);
    assert_eq!(segs[0].left_edge_x, -250);
    assert_eq!(segs[5].right_edge_x, 350);
}

#[test]
fn spawns_one_tile_when_camera_nears_right_end() {
    let mut t = Terrain::new(HILL_TILE_WIDTH);
    t.stream_step(0, 800);
    // right end at 992: the threshold is 992 - 800 = 192
    let quiet = t.stream_step(192, 800);
    assert!(quiet.spawned.is_empty());
    assert_eq!(quiet.despawned, None);
    let step = t.stream_step(193, 800);
    assert_eq!(step.spawned, vec![Segment { left_edge_x: 992, right_edge_x: 1248 }]);
    assert_eq!(step.despawned, None);
    assert_eq!(t.segments().len(), 8);
    assert_contiguous(&t.segments(), 256);
}

#[test]
fn despawns_leftmost_tile_behind_camera() {
    let mut t = Terrain::new(HILL_TILE_WIDTH);
    t.stream_step(0, 800);
    // leftmost tile ends at -544: the threshold is -544 + 800 = 256
    let step = t.stream_step(257, 800);
    assert_eq!(step.despawned, Some(Segment { left_edge_x: -800, right_edge_x: -544 }));
    assert_eq!(step.spawned.len(), 1);
    let segs = t.segments();
    assert_eq!(segs.len(), 7);
    assert_eq!(segs[0].left_edge_x, -544);
    assert_contiguous(&segs, 256);
}

#[test]
fn camera_jump_changes_at_most_one_tile_per_step() {
    let mut t = Terrain::new(HILL_TILE_WIDTH);
    t.stream_step(0, 800);
    let mut before = t.segments().len();
    for _ in 0..50 {
        let step = t.stream_step(100_000, 800);
        assert!(step.spawned.len() <= 1);
        let after = t.segments().len();
        assert!(after + 1 >= before && after <= before + 1);
        assert_contiguous(&t.segments(), 256);
        before = after;
    }
}

#[test]
fn camera_moving_back_spawns_nothing_behind() {
    let mut t = Terrain::new(HILL_TILE_WIDTH);
    t.stream_step(0, 800);
    let first = t.segments()[0];
    let step = t.stream_step(-5000, 800);
    assert!(step.spawned.is_empty());
    assert_eq!(step.despawned, None);
    assert_eq!(t.segments()[0], first);
}

#[test]
fn steady_scrolling_keeps_window_contiguous() {
    let mut t = Terrain::new(HILL_TILE_WIDTH);
    let mut x: i64 = 0;
    for _ in 0..400 {
        t.stream_step(x, 1024);
        assert_contiguous(&t.segments(), 256);
        let segs = t.segments();
        assert!(!segs.is_empty());
        x += 37;
    }
    let segs = t.segments();
    assert!(segs[segs.len() - 1].right_edge_x > x - 37);
    assert_eq!(t.tile_width(), 256);
}

#[test]
fn window_stays_ahead_of_advancing_camera() {
    let mut t = Terrain::new(HILL_TILE_WIDTH);
    let w: i64 = 800;
    let mut x: i64 = 0;
    t.stream_step(x, w);
    for _ in 0..300 {
        x += 250;
        t.stream_step(x, w);
        let segs = t.segments();
        assert!(!segs.is_empty());
        assert!(segs[segs.len() - 1].right_edge_x >= x + w - 256);
    }
}
