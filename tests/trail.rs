use bevy_bird::trail::{Trail, TRAIL_LENGTH};

type Pose = (f32, f32, f32);

const HIDDEN: Pose = (0.0, -1000.0, 0.0);

#[test]
fn new_trail_rests_hidden() {
    let t: Trail<Pose> = Trail::new(TRAIL_LENGTH, HIDDEN);
    assert_eq!(t.len(), 7);
    assert!(t.nodes().iter().all(|p| *p == HIDDEN));
}

#[test]
fn toggled_on_then_one_frame() {
    let mut t: Trail<Pose> = Trail::new(TRAIL_LENGTH, HIDDEN);
    t.step(false, (5.0, 5.0, 0.0), HIDDEN);
    let player = (10.0, 120.0, 0.25);
    t.step(true, player, HIDDEN);
    assert_eq!(t.node(0), player);
    for k in 1..TRAIL_LENGTH {
        assert_eq!(t.node(k), HIDDEN);
    }
}

#[test]
fn each_node_lags_its_parent_by_one_frame() {
    let mut t: Trail<Pose> = Trail::new(TRAIL_LENGTH, HIDDEN);
    for frame in 0..20 {
        let before = t.nodes();
        let player = (frame as f32 * 3.0, 100.0 + frame as f32, frame as f32 * 0.1);
        t.step(true, player, HIDDEN);
        let after = t.nodes();
        assert_eq!(after[0], player);
        for k in 1..TRAIL_LENGTH {
            assert_eq!(after[k], before[k - 1]);
        }
    }
    // after enough frames node k shows the player's pose from k frames ago
    assert_eq!(t.node(3), (16.0 * 3.0, 116.0, 16.0 * 0.1));
}

#[test]
fn switching_off_hides_every_node() {
    let mut t: Trail<Pose> = Trail::new(4, HIDDEN);
    t.step(true, (1.0, 2.0, 3.0), HIDDEN);
    t.step(true, (4.0, 5.0, 6.0), HIDDEN);
    t.step(false, (7.0, 8.0, 9.0), HIDDEN);
    assert_eq!(t.nodes(), vec![HIDDEN; 4]);
    t.step(true, (1.0, 1.0, 1.0), HIDDEN);
    assert_eq!(t.nodes(), vec![(1.0, 1.0, 1.0), HIDDEN, HIDDEN, HIDDEN]);
}

#[test]
fn empty_trail_stays_empty() {
    let mut t: Trail<i32> = Trail::new(0, 0);
    t.step(true, 5, 0);
    assert_eq!(t.len(), 0);
}
