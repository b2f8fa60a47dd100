use blorb::fixed::SCALE;
use blorb::geom::{Vec2Fx, ColorFx};
use blorb::blob::{
    Blob, BlobKind, BlobSizeRadius, BlobPosition, BlobVelocity, BlobColor, BlobGrowing,
    BlobClickableSize, SplashBlob, World,
};
use blorb::score::{Score, GameSpeed};
use blorb::sim::{
    shrink_grow_blobs, set_blob_state, move_blobs, update_score, spawn_blobs_init_game,
    update_game_text, count_alive, window_ratio,
};
use blorb::splash::{spawn_splash, splash_blobs, SPLASH_START_SIZE};
use blorb::click::{MousePosition, handle_mouse_move, click_blobs};
use blorb::state::GameState;

fn round_blob(id: u64, size: i64, x: i64, y: i64, vx: i64, vy: i64, growing: i64) -> Blob {
    Blob {
        id,
        size: BlobSizeRadius(size),
        pos: BlobPosition(Vec2Fx { x, y }),
        vel: BlobVelocity(Vec2Fx { x: vx, y: vy }),
        color: BlobColor(ColorFx { r: 500_000, g: 400_000, b: 300_000 }),
        kind: BlobKind::Round { growing: BlobGrowing(growing), clickable: false },
    }
}

fn splash_blob(id: u64, size: i64, x: i64, y: i64, age: i64, spawned_by: Vec<u64>) -> Blob {
    Blob {
        id,
        size: BlobSizeRadius(size),
        pos: BlobPosition(Vec2Fx { x, y }),
        vel: BlobVelocity(Vec2Fx { x: 0, y: 0 }),
        color: BlobColor(ColorFx { r: 500_000, g: 400_000, b: 300_000 }),
        kind: BlobKind::Splash(SplashBlob { age, spawned_by }),
    }
}

fn clickable(b: &Blob) -> bool {
    match &b.kind {
        BlobKind::Round { clickable, .. } => *clickable,
        BlobKind::Splash(_) => false,
    }
}

#[test]
fn a_new_game_spawns_the_full_set() {
    let mut world = World::new();
    let mut score = Score { raw: 123, hits: 4, misses: 5 };
    let mut speed = GameSpeed(2_000_000);
    let next = spawn_blobs_init_game(&mut world, &mut score, &mut speed);
    assert_eq!(next, GameState::Running);
    assert_eq!(world.blob_count(), 28);
    assert_eq!(world.next_id, 28);
    assert_eq!(score.raw, 0);
    assert_eq!(score.hits, 0);
    assert_eq!(score.misses, 0);
    assert_eq!(speed.0, 800_000);
    for (i, b) in world.blobs.iter().enumerate() {
        assert_eq!(b.id, i as u64);
        assert!(180_000 <= b.size.0 && b.size.0 < 480_000);
        assert!(b.pos.0.x.abs() <= 500_000 && b.pos.0.y.abs() <= 500_000);
        assert!(200_000 <= b.vel.0.x.abs() && b.vel.0.x.abs() <= 300_000);
        assert!(200_000 <= b.vel.0.y.abs() && b.vel.0.y.abs() <= 300_000);
        assert!(200_000 <= b.color.0.r && b.color.0.r < 700_000);
        match &b.kind {
            BlobKind::Round { growing, clickable } => {
                assert_eq!(growing.0, 0);
                assert!(!clickable);
            },
            BlobKind::Splash(_) => panic!("a new game spawns no splashes"),
        }
    }
}

#[test]
fn idle_blobs_shrink_linearly() {
    let mut world = World { blobs: vec![round_blob(0, 500_000, 0, 0, 0, 0, 0)], next_id: 1 };
    shrink_grow_blobs(&mut world, SCALE);
    assert_eq!(world.blobs[0].size.0, 480_000);
}

#[test]
fn growing_blobs_swell_and_their_impulse_decays() {
    let mut world = World { blobs: vec![round_blob(0, 100_000, 0, 0, 0, 0, SCALE)], next_id: 1 };
    shrink_grow_blobs(&mut world, SCALE);
    // One second of growth at 0.95 units per second.
    assert_eq!(world.blobs[0].size.0, 1_050_000);
    // The decay factor of a one-second frame is 0.00075 / 1.0 = 750.
    match &world.blobs[0].kind {
        BlobKind::Round { growing, .. } => assert_eq!(growing.0, 750),
        BlobKind::Splash(_) => panic!("still a round blob"),
    }
}

#[test]
fn small_settled_blobs_become_clickable() {
    let mut world = World {
        blobs: vec![
            round_blob(0, 50_000, 0, 0, 0, 0, 0),
            round_blob(1, 200_000, 0, 0, 0, 0, 0),
            round_blob(2, 50_000, 0, 0, 0, 0, 300),
        ],
        next_id: 3,
    };
    set_blob_state(&mut world, BlobClickableSize(100_000));
    assert!(clickable(&world.blobs[0]));
    assert!(!clickable(&world.blobs[1]));
    // A growing blob is not clickable however small.
    assert!(!clickable(&world.blobs[2]));
}

#[test]
fn blobs_drift_with_the_game_speed() {
    let mut world = World { blobs: vec![round_blob(0, 100_000, 0, 0, 100_000, 0, 0)], next_id: 1 };
    let mut speed = GameSpeed::default();
    let hit = move_blobs(&mut world, SCALE, 800, 600, &mut speed);
    // The speed advances first: 0.8 + 0.05 / 0.8 = 0.8625.
    assert_eq!(speed.0, 862_500);
    // One second of drift: 0.1 * 1.0 * 0.8625 = 0.08625 units.
    assert_eq!(world.blobs[0].pos.0.x, 86_250);
    assert_eq!(world.blobs[0].pos.0.y, 0);
    assert_eq!(world.blobs[0].vel.0.x, 100_000);
    assert!(hit.is_none());
}

#[test]
fn blobs_bounce_off_the_right_wall() {
    let mut world = World {
        blobs: vec![round_blob(0, 100_000, 1_300_000, 0, 100_000, 0, 0)],
        next_id: 1,
    };
    let mut speed = GameSpeed::default();
    // An 800 x 600 window reaches to ratio 4/3 on the x axis.
    assert_eq!(window_ratio(800, 600), 1_333_333);
    let hit = move_blobs(&mut world, SCALE, 800, 600, &mut speed);
    assert_eq!(world.blobs[0].pos.0.x, 1_386_250);
    // The velocity flipped.
    assert_eq!(world.blobs[0].vel.0.x, -100_000);
    let mark = hit.expect("the wall contact is reported");
    assert_eq!(mark.x, 1_486_250);
    assert_eq!(mark.y, 0);
    assert_eq!(mark.radius, 100_000);
}

#[test]
fn splashes_drift_but_never_bounce() {
    let mut world = World {
        blobs: vec![splash_blob(0, 100_000, 1_300_000, 0, 500_000, vec![])],
        next_id: 1,
    };
    world.blobs[0].vel = BlobVelocity(Vec2Fx { x: 100_000, y: 0 });
    let mut speed = GameSpeed::default();
    let hit = move_blobs(&mut world, SCALE, 800, 600, &mut speed);
    assert_eq!(world.blobs[0].pos.0.x, 1_386_250);
    assert_eq!(world.blobs[0].vel.0.x, 100_000);
    assert!(hit.is_none());
}

#[test]
fn a_click_on_a_clickable_blob_scores_and_splashes() {
    let mut world = World { blobs: vec![round_blob(0, 50_000, 0, 0, 0, 0, 0)], next_id: 1 };
    set_blob_state(&mut world, BlobClickableSize(100_000));
    let mut score = Score::default();
    let speed = GameSpeed::default();
    let mouse = MousePosition::default();
    let hit = click_blobs(&mut world, &mut score, &speed, &mouse, 7, true);
    assert!(hit);
    assert_eq!(score.raw, 4_000_000);
    assert_eq!(score.hits, 1);
    assert_eq!(score.misses, 0);
    // The hit blob now grows at full impulse.
    match &world.blobs[0].kind {
        BlobKind::Round { growing, .. } => assert_eq!(growing.0, SCALE),
        BlobKind::Splash(_) => panic!("still a round blob"),
    }
    // Three splashes burst out of the hit.
    assert_eq!(world.blob_count(), 4);
    assert_eq!(world.next_id, 4);
    for q in 1..4 {
        let b = &world.blobs[q];
        assert_eq!(b.id, q as u64);
        assert_eq!(b.size.0, SPLASH_START_SIZE);
        assert_eq!(b.pos.0.x, 0);
        // The splash keeps nine tenths of the parent's color.
        assert_eq!(b.color.0.r, 450_000);
        match &b.kind {
            BlobKind::Splash(sp) => {
                assert_eq!(sp.age, SCALE);
                assert_eq!(sp.spawned_by, vec![0]);
            },
            BlobKind::Round { .. } => panic!("bursts are splashes"),
        }
    }
}

#[test]
fn a_click_into_nothing_counts_a_miss() {
    let mut world = World { blobs: vec![round_blob(0, 200_000, 0, 0, 0, 0, 0)], next_id: 1 };
    let mut score = Score::default();
    let speed = GameSpeed::default();
    let mouse = MousePosition::default();
    // The blob is too large to be clickable.
    let hit = click_blobs(&mut world, &mut score, &speed, &mouse, 7, true);
    assert!(!hit);
    assert_eq!(score.misses, 1);
    assert_eq!(score.raw, 0);
    assert_eq!(world.blob_count(), 1);
}

#[test]
fn without_a_click_nothing_happens() {
    let mut world = World { blobs: vec![round_blob(0, 50_000, 0, 0, 0, 0, 0)], next_id: 1 };
    set_blob_state(&mut world, BlobClickableSize(100_000));
    let mut score = Score::default();
    let hit = click_blobs(
        &mut world,
        &mut score,
        &GameSpeed::default(),
        &MousePosition::default(),
        7,
        false,
    );
    assert!(!hit);
    assert_eq!(score.misses, 0);
    assert_eq!(world.blob_count(), 1);
}

#[test]
fn splashes_age_out_and_despawn() {
    let mut world = World {
        blobs: vec![splash_blob(1, 5_000, 900_000, 900_000, 50_000, vec![0])],
        next_id: 2,
    };
    let mut speed = GameSpeed::default();
    splash_blobs(&mut world, SCALE, 3, &mut speed);
    assert_eq!(world.blob_count(), 0);
    assert_eq!(world.next_id, 2);
}

#[test]
fn a_splash_merges_into_a_blob_it_touches() {
    let mut world = World {
        blobs: vec![
            round_blob(0, 200_000, 0, 0, 0, 0, 0),
            splash_blob(1, 30_000, 50_000, 0, 500_000, vec![]),
        ],
        next_id: 2,
    };
    let mut speed = GameSpeed::default();
    splash_blobs(&mut world, SCALE, 3, &mut speed);
    // The splash aged to 0.4 and its radius followed: 0.4 * 0.03 = 0.012.
    // The blob gained 0.012 * 0.4 + 0.03 * 0.1 = 0.0078.
    assert_eq!(world.blob_count(), 2);
    assert_eq!(world.blobs[0].size.0, 207_800);
    // The merged splash is gone; the follow-up splash takes the next id
    // and carries the blob in its chain.
    let follow = &world.blobs[1];
    assert_eq!(follow.id, 2);
    assert_eq!(follow.pos.0.x, 0);
    assert_eq!(follow.size.0, SPLASH_START_SIZE);
    assert_eq!(follow.color.0.r, 450_000);
    match &follow.kind {
        BlobKind::Splash(sp) => {
            assert_eq!(sp.age, SCALE);
            assert_eq!(sp.spawned_by, vec![0]);
        },
        BlobKind::Round { .. } => panic!("the follow-up is a splash"),
    }
    assert_eq!(world.next_id, 3);
}

#[test]
fn a_splash_never_merges_back_into_its_chain() {
    let mut world = World {
        blobs: vec![
            round_blob(0, 200_000, 0, 0, 0, 0, 0),
            splash_blob(1, 30_000, 50_000, 0, 500_000, vec![0]),
        ],
        next_id: 2,
    };
    let mut speed = GameSpeed::default();
    splash_blobs(&mut world, SCALE, 3, &mut speed);
    // The only overlapping blob spawned it: no merge, both stay.
    assert_eq!(world.blob_count(), 2);
    assert_eq!(world.blobs[0].size.0, 200_000);
    match &world.blobs[1].kind {
        BlobKind::Splash(sp) => assert_eq!(sp.age, 400_000),
        BlobKind::Round { .. } => panic!("the splash stays"),
    }
    assert_eq!(world.next_id, 2);
}

#[test]
fn a_full_chain_spawns_no_follow_up() {
    let mut world = World {
        blobs: vec![
            round_blob(9, 200_000, 0, 0, 0, 0, 0),
            splash_blob(10, 30_000, 50_000, 0, 500_000, vec![1, 2, 3, 4]),
        ],
        next_id: 11,
    };
    let mut speed = GameSpeed::default();
    splash_blobs(&mut world, SCALE, 3, &mut speed);
    // The merge lands but the chain is full: only the blob remains.
    assert_eq!(world.blob_count(), 1);
    assert_eq!(world.blobs[0].size.0, 207_800);
    assert_eq!(world.next_id, 11);
}

#[test]
fn score_accrues_for_living_blobs() {
    let world = World {
        blobs: vec![
            round_blob(0, 200_000, 0, 0, 0, 0, 0),
            round_blob(1, -5_000, 0, 0, 0, 0, 0),
            splash_blob(2, 30_000, 0, 0, 500_000, vec![]),
        ],
        next_id: 3,
    };
    assert_eq!(count_alive(&world), 1);
    let mut score = Score::default();
    update_score(&mut score, &world, SCALE);
    // Half a point per second for the one living round blob.
    assert_eq!(score.raw, 500_000);
}

#[test]
fn the_overlay_shows_alive_count_and_composite_score() {
    let world = World { blobs: vec![round_blob(0, 200_000, 0, 0, 0, 0, 0)], next_id: 1 };
    let score = Score { raw: 1_000_000, hits: 20, misses: 0 };
    let (alive, comp) = update_game_text(&world, &score);
    assert_eq!(alive, 1);
    assert_eq!(comp, 1_800_000);
}

#[test]
fn the_cursor_maps_to_normalized_coordinates() {
    let mut mouse = MousePosition::default();
    handle_mouse_move(&mut mouse, 400, 300, 800, 600);
    assert_eq!(mouse.ndc, Vec2Fx { x: 0, y: 0 });
    assert_eq!(mouse.window_rel, Vec2Fx { x: 0, y: 0 });
    handle_mouse_move(&mut mouse, 800, 0, 800, 600);
    assert_eq!(mouse.ndc, Vec2Fx { x: SCALE, y: -SCALE });
    // The x axis stretches by the aspect ratio 4/3.
    assert_eq!(mouse.window_rel, Vec2Fx { x: 1_333_333, y: -SCALE });
}

#[test]
fn spawned_bursts_take_sequential_ids() {
    let mut world = World { blobs: vec![], next_id: 40 };
    let pos = BlobPosition(Vec2Fx { x: 7, y: 8 });
    let color = BlobColor(ColorFx { r: 600_000, g: 500_000, b: 400_000 });
    spawn_splash(&mut world, 12, vec![3], &pos, &color, 0, 2);
    assert_eq!(world.blob_count(), 2);
    assert_eq!(world.next_id, 42);
    assert_eq!(world.blobs[0].id, 40);
    assert_eq!(world.blobs[1].id, 41);
    for b in world.blobs.iter() {
        assert_eq!(b.pos.0, Vec2Fx { x: 7, y: 8 });
        assert_eq!(b.color.0.r, 540_000);
        assert_eq!(b.size.0, SPLASH_START_SIZE);
    }
    // The two velocities come from different noise seeds.
    assert_ne!(world.blobs[0].vel.0, world.blobs[1].vel.0);
}

#[test]
fn packing_orders_clickable_blobs_last() {
    let mut world = World {
        blobs: vec![
            round_blob(0, 50_000, 1, 2, 0, 0, 0),
            round_blob(1, 200_000, 3, 4, 0, 0, 0),
        ],
        next_id: 2,
    };
    set_blob_state(&mut world, BlobClickableSize(100_000));
    let data = blorb::render::render_blobs(&world);
    assert_eq!(data.circle_count, 2);
    // The large blob is not clickable and comes first.
    assert_eq!(data.pos_radius[0].x, 3);
    assert_eq!(data.pos_radius[0].z, 200_000);
    assert_eq!(data.color[0].x, 500_000);
    // The small clickable blob comes last, highlighted.
    assert_eq!(data.pos_radius[1].x, 1);
    assert_eq!(data.pos_radius[1].z, 50_000);
    assert_eq!(data.color[1].x, blorb::render::CLICK_RENDER_COLOR);
    assert_eq!(data.color[1].y, blorb::render::CLICK_RENDER_COLOR);
}

#[test]
fn five_quiet_frames_shrink_everything_and_accrue_score() {
    let mut world = World::new();
    let mut score = Score::default();
    let mut speed = GameSpeed::default();
    assert_eq!(
        spawn_blobs_init_game(&mut world, &mut score, &mut speed),
        GameState::Running
    );
    let initial_sizes: Vec<i64> = world.blobs.iter().map(|b| b.size.0).collect();
    let dt = 16_667;
    let mouse = MousePosition::default();
    for frame in 0..5u32 {
        click_blobs(&mut world, &mut score, &speed, &mouse, frame, false);
        shrink_grow_blobs(&mut world, dt);
        set_blob_state(&mut world, BlobClickableSize(100_000));
        move_blobs(&mut world, dt, 1280, 720, &mut speed);
        splash_blobs(&mut world, dt, frame, &mut speed);
        update_score(&mut score, &world, dt);
    }
    // Nothing spawned and nothing despawned.
    assert_eq!(world.blob_count(), 28);
    assert_eq!(world.next_id, 28);
    // Each blob lost exactly five frames of shrinking: 333 units a frame.
    for (b, s0) in world.blobs.iter().zip(initial_sizes.iter()) {
        assert_eq!(b.size.0, s0 - 5 * 333);
    }
    // Half a point per second per living blob: 28 blobs, five frames.
    assert_eq!(score.raw, 5 * 233_338);
    assert_eq!(score.hits, 0);
    assert_eq!(score.misses, 0);
    // The speed crept up twice a frame.
    assert!(speed.0 > 800_000);
}
