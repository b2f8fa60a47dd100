use blorb::fixed::{SCALE, fp_mul, fp_div, clamp_fx, signum_fx};
use blorb::geom::{Vec2Fx, within_circle};
use blorb::sampling::{hash_noise, hash_noise_signed};
use blorb::blob::{contains_id, clone_ids, World};
use blorb::score::{
    Score, GameSpeed, bump_game_speed, add_hit, add_miss, comp_score, SCORE_LIMIT, SPEED_LIMIT,
};
use blorb::render::{render_blobs, data_image, fullscreen_tri, CLICK_RENDER_COLOR};
use blorb::ripple::{ImageAlloc, RippleImages, Resolution, ripple_swap, SIGNAL_CLICK, SIGNAL_INIT};
use blorb::state::{GameState, MenuText, main_menu_paused, unpaused, mute};

#[test]
fn fixed_point_products_truncate_toward_zero() {
    assert_eq!(fp_mul(3_000_000, 500_000), 1_500_000);
    assert_eq!(fp_mul(-3_000_000, 500_000), -1_500_000);
    assert_eq!(fp_mul(1, 999_999), 0);
    assert_eq!(fp_mul(-1, 999_999), 0);
    assert_eq!(fp_mul(0, 123_456), 0);
}

#[test]
fn fixed_point_quotients() {
    assert_eq!(fp_div(1_000_000, 3_000_000), 333_333);
    assert_eq!(fp_div(0, 5), 0);
    assert_eq!(fp_div(750, 1_000_000), 750);
}

#[test]
fn clamp_and_signum() {
    assert_eq!(clamp_fx(5, -3, 3), 3);
    assert_eq!(clamp_fx(-5, -3, 3), -3);
    assert_eq!(clamp_fx(2, -3, 3), 2);
    assert_eq!(signum_fx(0), SCALE);
    assert_eq!(signum_fx(17), SCALE);
    assert_eq!(signum_fx(-17), -SCALE);
}

#[test]
fn noise_is_deterministic_and_in_range() {
    let a = hash_noise(3, 14, 15);
    let b = hash_noise(3, 14, 15);
    assert_eq!(a, b);
    assert!(0 <= a && a < SCALE);
    let s = hash_noise_signed(9, 2, 6);
    assert_eq!(s, hash_noise_signed(9, 2, 6));
    assert!(-SCALE <= s && s < SCALE);
    assert_ne!(hash_noise(0, 0, 0), hash_noise(0, 0, 1));
}

#[test]
fn circle_test_compares_strictly_and_rejects_empty_circles() {
    let center = Vec2Fx { x: 0, y: 0 };
    let point = Vec2Fx { x: 300_000, y: 400_000 };
    assert!(within_circle(center, point, 600_000));
    assert!(!within_circle(center, point, 500_000));
    assert!(!within_circle(center, point, 0));
    assert!(!within_circle(center, point, -100));
    assert!(within_circle(center, center, 1));
}

#[test]
fn id_lists() {
    let ids: Vec<u64> = vec![4, 9, 2];
    assert!(contains_id(&ids, 9));
    assert!(!contains_id(&ids, 7));
    let copy = clone_ids(&ids);
    assert_eq!(copy, vec![4, 9, 2]);
}

#[test]
fn game_speed_creeps_up_and_saturates_per_formula() {
    let mut speed = GameSpeed::default();
    assert_eq!(speed.0, 800_000);
    bump_game_speed(&mut speed, SCALE);
    // gain = (SCALE * 0.05) / 0.8 = 62_500
    assert_eq!(speed.0, 862_500);
}

#[test]
fn hits_and_misses_score() {
    let mut score = Score::default();
    add_hit(&mut score, GameSpeed(800_000));
    assert_eq!(score.raw, 4_000_000);
    assert_eq!(score.hits, 1);
    assert_eq!(score.misses, 0);
    add_miss(&mut score);
    assert_eq!(score.misses, 1);
    assert_eq!(score.raw, 4_000_000);
}

#[test]
fn composite_score_blends_ratio() {
    // With no hits and no misses the ratio is one: the composite score is
    // the raw score itself.
    let even = Score { raw: 1_000_000, hits: 0, misses: 0 };
    assert_eq!(comp_score(&even), 1_000_000);
    // Twenty hits, no misses: ratio 40/20 = 2, composite = 0.2 + 1.6.
    let sharp = Score { raw: 1_000_000, hits: 20, misses: 0 };
    assert_eq!(comp_score(&sharp), 1_800_000);
}

#[test]
fn packing_an_empty_store_yields_one_zero_entry() {
    let world = World::new();
    let data = render_blobs(&world);
    assert_eq!(data.circle_count, 1);
    assert_eq!(data.pos_radius.len(), 1);
    assert_eq!(data.color.len(), 1);
    assert_eq!(data.pos_radius[0].x, 0);
    assert_eq!(data.pos_radius[0].z, 0);
    let tex = data_image(data.pos_radius);
    assert_eq!(tex.width, 1);
    assert_eq!(tex.height, 1);
}

#[test]
fn click_highlight_color_is_double_white() {
    assert_eq!(CLICK_RENDER_COLOR, 2 * SCALE);
}

#[test]
fn fullscreen_triangle_covers_everything() {
    let t = fullscreen_tri();
    assert_eq!(t.a.x, -10_000 * SCALE);
    assert_eq!(t.a.y, -100_000 * SCALE);
    assert_eq!(t.b.x, -10_000 * SCALE);
    assert_eq!(t.b.y, 10_000 * SCALE);
    assert_eq!(t.c.x, 100_000 * SCALE);
    assert_eq!(t.c.y, 10_000 * SCALE);
}

#[test]
fn ripple_targets_swap_every_frame() {
    let mut alloc = ImageAlloc::new();
    let res = Resolution { w: 800, h: 600 };
    let mut images = RippleImages::new(res, &mut alloc);
    assert_eq!(images.a, 0);
    assert_eq!(images.b, 1);
    assert_eq!(alloc.next, 2);
    images.swap();
    assert_eq!(images.a, 1);
    assert_eq!(images.b, 0);
    images.swap();
    assert_eq!(images.a, 0);
    assert_eq!(images.b, 1);
}

#[test]
fn ripple_frame_signals() {
    let res = Resolution { w: 800, h: 600 };
    let ndc = Vec2Fx { x: 100, y: -200 };

    // Quiet frame: high score, no click, no resize.
    let mut alloc = ImageAlloc::new();
    let mut images = RippleImages::new(res, &mut alloc);
    let frame = ripple_swap(&mut images, &mut alloc, res, false, 20_000_000, ndc, 16_667);
    assert_eq!(frame.signal, 0);
    assert_eq!(frame.target, 1);
    assert_eq!(frame.prev, 0);
    assert_eq!(frame.mouse_x, 100);
    assert_eq!(frame.mouse_y, -200);
    assert_eq!(frame.dt, 16_667);

    // A click wins over everything.
    let frame = ripple_swap(&mut images, &mut alloc, res, true, 0, ndc, 16_667);
    assert_eq!(frame.signal, SIGNAL_CLICK);

    // A low score seeds the buffer.
    let frame = ripple_swap(&mut images, &mut alloc, res, false, 9_999_999, ndc, 16_667);
    assert_eq!(frame.signal, SIGNAL_INIT);
}

#[test]
fn ripple_targets_rebuild_on_resize() {
    let mut alloc = ImageAlloc::new();
    let res = Resolution { w: 800, h: 600 };
    let mut images = RippleImages::new(res, &mut alloc);
    let bigger = Resolution { w: 1024, h: 768 };
    let frame = ripple_swap(&mut images, &mut alloc, bigger, false, 20_000_000, Vec2Fx {
        x: 0,
        y: 0,
    }, 16_667);
    assert_eq!(images.a, 2);
    assert_eq!(images.b, 3);
    assert_eq!(images.res, bigger);
    assert_eq!(alloc.next, 4);
    assert_eq!(frame.signal, SIGNAL_INIT);
    assert_eq!(frame.target, 2);
    assert_eq!(frame.prev, 3);
}

#[test]
fn menu_keys_drive_the_state_machine() {
    assert_eq!(GameState::default(), GameState::Paused);
    let (next, text) = main_menu_paused(false, true, 0);
    assert_eq!(next, Some(GameState::Start));
    assert_eq!(text, MenuText::StartOnly);
    let (next, text) = main_menu_paused(true, false, 5);
    assert_eq!(next, Some(GameState::Running));
    assert_eq!(text, MenuText::StartAndResume);
    let (next, _) = main_menu_paused(true, true, 0);
    assert_eq!(next, Some(GameState::Start));
    let (next, _) = main_menu_paused(false, false, 0);
    assert_eq!(next, None);
    assert_eq!(unpaused(true), Some(GameState::Paused));
    assert_eq!(unpaused(false), None);
}

#[test]
fn the_raw_score_saturates() {
    let mut score = Score { raw: SCORE_LIMIT - 1, hits: 0, misses: 0 };
    add_hit(&mut score, GameSpeed(800_000));
    assert_eq!(score.raw, SCORE_LIMIT);
    assert_eq!(score.hits, 1);
}

#[test]
fn the_game_speed_saturates() {
    let mut speed = GameSpeed(SPEED_LIMIT - 1);
    bump_game_speed(&mut speed, SCALE);
    assert_eq!(speed.0, SPEED_LIMIT);
}

#[test]
fn a_huge_composite_score_saturates_at_the_machine_limit() {
    let vast = Score { raw: SCORE_LIMIT, hits: 1_000_000_000_000, misses: 0 };
    assert_eq!(comp_score(&vast), i64::MAX);
}

#[test]
fn mute_key_toggles() {
    assert!(mute(false, true));
    assert!(!mute(true, true));
    assert!(mute(true, false));
}
