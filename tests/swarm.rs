use seek_swarm::{
    frame_steers, isqrt, seek_step, DrawOp, Element, Point, Renderer, World, DISC_RADIUS,
    FADE_ALPHA_PER_MILLE, FIELD, JITTER, STEP, SUBUNITS,
};

fn p(x: i64, y: i64) -> Point {
    Point::new(x, y)
}

fn world_of(points: &[(i64, i64)]) -> World {
    let v: Vec<Point> = points.iter().map(|&(x, y)| p(x, y)).collect();
    World::from_points(&v)
}

fn offset_len(a: Point, b: Point) -> f64 {
    let dx = (b.x - a.x) as f64;
    let dy = (b.y - a.y) as f64;
    (dx * dx + dy * dy).sqrt()
}

#[test]
fn isqrt_rounds_down() {
    assert_eq!(isqrt(0), 0);
    assert_eq!(isqrt(1), 1);
    assert_eq!(isqrt(2), 1);
    assert_eq!(isqrt(15), 3);
    assert_eq!(isqrt(16), 4);
    assert_eq!(isqrt(200_000_000), 14142);
    assert_eq!(isqrt(8_000_000_000_000_000_000_000_000), 2_828_427_124_746);
}

#[test]
fn element_new_keeps_position() {
    let e = Element::new(p(3, -4));
    assert_eq!(e.position, p(3, -4));
}

#[test]
fn seek_step_diagonal_example() {
    // (10, 0) toward (0, 10): distance 14.142, step of 4 units along the line.
    assert_eq!(seek_step(p(10_000, 0), p(0, 10_000)), (-2828, 2828));
}

#[test]
fn seek_step_is_step_long_along_the_line() {
    assert_eq!(seek_step(p(0, 0), p(30_000, 40_000)), (2400, 3200));
    assert_eq!(seek_step(p(30_000, 40_000), p(0, 0)), (-2400, -3200));
}

#[test]
fn seek_step_overshoots_a_near_target() {
    // one unit away: the step still has length four units
    assert_eq!(seek_step(p(0, 0), p(SUBUNITS, 0)), (STEP, 0));
}

#[test]
fn seek_step_at_the_target_is_no_move() {
    assert_eq!(seek_step(p(5_000, -7_000), p(5_000, -7_000)), (0, 0));
}

#[test]
fn distance_left_is_distance_less_step() {
    let e = p(0, 0);
    let m = p(30_000, 40_000);
    let (sx, sy) = seek_step(e, m);
    let after = p(e.x + sx, e.y + sy);
    assert!((offset_len(after, m) - 46_000.0).abs() < 1.5);
    // overshoot: |d - STEP| with d < STEP
    let m = p(1_000, 0);
    let (sx, sy) = seek_step(e, m);
    let after = p(e.x + sx, e.y + sy);
    assert!((offset_len(after, m) - 3_000.0).abs() < 1.5);
}

#[test]
fn steers_only_with_a_target_off_the_origin() {
    assert!(!frame_steers(&None));
    assert!(!frame_steers(&Some(p(0, 0))));
    assert!(frame_steers(&Some(p(0, 10))));
    assert!(frame_steers(&Some(p(10, 0))));
    assert!(frame_steers(&Some(p(-3, 7))));
}

#[test]
fn end_to_end_diagonal_step() {
    let mut w = world_of(&[(10_000, 0)]);
    w.advance(Some(p(0, 10_000)), &vec![(0, 0)]);
    // (7.172, 2.828) in world units
    assert_eq!(w.position(0), p(7_172, 2_828));
}

#[test]
fn end_to_end_diagonal_step_with_jitter() {
    let mut w = world_of(&[(10_000, 0)]);
    w.update(Some(p(0, 10_000)));
    let q = w.position(0);
    assert!(q.x >= 7_172 - JITTER && q.x < 7_172 + JITTER);
    assert!(q.y >= 2_828 - JITTER && q.y < 2_828 + JITTER);
}

#[test]
fn end_to_end_target_at_origin_never_moves() {
    let mut w = world_of(&[(100_000, 0)]);
    for _ in 0..50 {
        w.update(Some(p(0, 0)));
        assert_eq!(w.position(0), p(100_000, 0));
    }
}

#[test]
fn absent_target_leaves_world_unchanged() {
    let pts = [(1, 2), (-300_000, 250_000), (0, 0), (FIELD, -FIELD)];
    let mut w = world_of(&pts);
    for _ in 0..20 {
        w.update(None);
    }
    let expected: Vec<Point> = pts.iter().map(|&(x, y)| p(x, y)).collect();
    assert_eq!(w.positions(), expected);
}

#[test]
fn advance_without_steering_ignores_jitter() {
    let mut w = world_of(&[(4, 5), (6, 7)]);
    w.advance(None, &vec![(499, -500), (-500, 499)]);
    assert_eq!(w.positions(), vec![p(4, 5), p(6, 7)]);
    w.advance(Some(p(0, 0)), &vec![(499, -500), (-500, 499)]);
    assert_eq!(w.positions(), vec![p(4, 5), p(6, 7)]);
}

#[test]
fn advance_adds_jitter_after_the_step() {
    let mut w = world_of(&[(0, 0), (30_000, 40_000)]);
    w.advance(Some(p(30_000, 40_000)), &vec![(-500, 499), (123, -45)]);
    // the second element sits on the target: no seek move, jitter only
    assert_eq!(w.positions(), vec![p(2_400 - 500, 3_200 + 499), p(30_123, 39_955)]);
}

#[test]
fn jitter_stays_within_half_a_unit() {
    for _ in 0..200 {
        let mut w = world_of(&[(0, 0)]);
        w.update(Some(p(30_000, 40_000)));
        let q = w.position(0);
        assert!(q.x - 2_400 >= -JITTER && q.x - 2_400 < JITTER);
        assert!(q.y - 3_200 >= -JITTER && q.y - 3_200 < JITTER);
    }
}

#[test]
fn positions_stop_at_the_edge_of_the_field() {
    let mut w = world_of(&[(FIELD, 0)]);
    w.advance(Some(p(FIELD, 1_000)), &vec![(400, 0)]);
    assert_eq!(w.position(0), p(FIELD, STEP));
}

#[test]
fn initialize_places_every_element_on_the_surface() {
    let w = World::initialize(200, 1250, 650);
    assert_eq!(w.len(), 200);
    let ps = w.positions();
    for q in &ps {
        assert!(q.x >= -625_000 && q.x < 625_000);
        assert!(q.y >= -325_000 && q.y < 325_000);
    }
    // the draws are not all the lower bound
    assert!(ps.iter().any(|q| q.x != -625_000));
    assert!(ps.iter().any(|q| q.y != -325_000));
}

#[test]
fn initialize_with_no_elements() {
    let w = World::initialize(0, 1250, 650);
    assert_eq!(w.len(), 0);
    assert!(w.positions().is_empty());
}

#[test]
fn first_frame_clears_then_fades_then_draws() {
    let w = world_of(&[(1, 2), (3, 4)]);
    let mut r = Renderer::new(1250, 650);
    assert!(r.is_first_frame());
    let fade = DrawOp::Fade { width: 1250, height: 650, alpha_per_mille: FADE_ALPHA_PER_MILLE };
    let ops = r.frame(&w);
    assert_eq!(
        ops,
        vec![
            DrawOp::Clear,
            fade,
            DrawOp::Disc { center: p(1, 2), radius: DISC_RADIUS },
            DrawOp::Disc { center: p(3, 4), radius: DISC_RADIUS },
        ]
    );
    assert!(!r.is_first_frame());
    let ops = r.frame(&w);
    assert_eq!(
        ops,
        vec![
            fade,
            DrawOp::Disc { center: p(1, 2), radius: DISC_RADIUS },
            DrawOp::Disc { center: p(3, 4), radius: DISC_RADIUS },
        ]
    );
}

#[test]
fn frame_of_an_empty_world() {
    let w = World::initialize(0, 10, 10);
    let mut r = Renderer::new(10, 10);
    assert_eq!(r.frame(&w).len(), 2);
    assert_eq!(r.frame(&w).len(), 1);
}

#[test]
fn constants_in_world_units() {
    assert_eq!(SUBUNITS, 1000);
    assert_eq!(STEP, 4 * SUBUNITS);
    assert_eq!(JITTER * 2, SUBUNITS);
    assert_eq!(DISC_RADIUS, 10 * SUBUNITS);
    assert_eq!(FADE_ALPHA_PER_MILLE, 5);
}
