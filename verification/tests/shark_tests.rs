use fishtank::shark::{roam_seconds_from_draw, Behaviour, Shark, DRAW_STEPS};

type Vec3 = [f32; 3];

fn roam_time(b: Behaviour<Vec3>) -> u32 {
    match b {
        Behaviour::Roaming(t) => t,
        Behaviour::Hunting(_) => panic!("expected a roaming shark"),
    }
}

#[test]
fn new_shark_roams_whole_seconds() {
    for _ in 0..50 {
        let mut shark: Shark<f32, Vec3> = Shark::new([1.0, 2.0, 3.0], [0.0, 0.1, 0.0], 0.05, -1.5, 1.0);
        let t = roam_time(shark.evaluate_behaviour());
        assert_eq!(t % 60, 0);
        assert!((300..=1200).contains(&t), "roam time {}", t);
        assert_eq!(*shark.position(), [1.0, 2.0, 3.0]);
        assert_eq!(*shark.velocity(), [0.0, 0.1, 0.0]);
        assert_eq!(shark.preferred_depth(), -1.5);
        assert_eq!(shark.speed_modifier(), 1.0);
    }
}

#[test]
fn shark_hunts_after_roam_time_plus_two_evaluations() {
    let mut shark: Shark<f32, Vec3> = Shark::new([0.5, 0.0, 0.0], [0.0, 0.1, 0.0], 0.05, 0.0, 1.0);
    let first = shark.evaluate_behaviour();
    let t = roam_time(first);
    // the first evaluation counted one update; t more keep it roaming
    for _ in 0..t {
        assert_eq!(roam_time(shark.evaluate_behaviour()), t);
    }
    *shark.mutable_position() = [4.0, 5.0, 6.0];
    match shark.evaluate_behaviour() {
        Behaviour::Hunting(origin) => assert_eq!(origin, [4.0, 5.0, 6.0]),
        Behaviour::Roaming(_) => panic!("expected the hunt to start"),
    }
    // hunting is kept, from the same origin, even as the shark moves
    *shark.mutable_position() = [7.0, 7.0, 7.0];
    for _ in 0..10 {
        match shark.evaluate_behaviour() {
            Behaviour::Hunting(origin) => assert_eq!(origin, [4.0, 5.0, 6.0]),
            Behaviour::Roaming(_) => panic!("a hunt only ends by end_hunt"),
        }
    }
}

#[test]
fn end_hunt_roams_again_for_longer() {
    let mut shark: Shark<f32, Vec3> = Shark::new([0.0; 3], [0.1, 0.0, 0.0], 0.05, 0.0, 1.0);
    for _ in 0..20 {
        shark.end_hunt();
        let t = roam_time(shark.evaluate_behaviour());
        assert_eq!(t % 60, 0);
        assert!((600..=1800).contains(&t), "roam time {}", t);
    }
}

#[test]
fn speed_modifier_and_velocity_can_be_changed() {
    let mut shark: Shark<f32, Vec3> = Shark::new([0.0; 3], [0.1, 0.0, 0.0], 0.05, 0.0, 1.0);
    shark.set_speed_modifier(10.0);
    assert_eq!(shark.speed_modifier(), 10.0);
    *shark.mutable_velocity() = [0.0, 0.0, -0.2];
    assert_eq!(*shark.velocity(), [0.0, 0.0, -0.2]);
}

fn float_roam_seconds(draw: u32, min: f32, max: f32) -> u32 {
    let x = (draw as f32) * (1.0 / (DRAW_STEPS as f32));
    (x * (max - min) + min) as u32
}

#[test]
fn roam_draw_matches_f32_arithmetic_for_every_draw() {
    for draw in 0..DRAW_STEPS {
        assert_eq!(roam_seconds_from_draw(draw, 5, 20), float_roam_seconds(draw, 5.0, 20.0));
        assert_eq!(roam_seconds_from_draw(draw, 10, 30), float_roam_seconds(draw, 10.0, 30.0));
    }
}

#[test]
fn roam_draw_edges() {
    assert_eq!(roam_seconds_from_draw(0, 5, 20), 5);
    // the last draw rounds up to the top of the range for a first roam ...
    assert_eq!(roam_seconds_from_draw(DRAW_STEPS - 1, 5, 20), 20);
    assert_eq!(roam_seconds_from_draw(DRAW_STEPS - 2, 5, 20), 19);
    // ... but not after a hunt
    assert_eq!(roam_seconds_from_draw(DRAW_STEPS - 1, 10, 30), 29);
    // (2^24 - 1) / 15: x * 15 is just below 1, and 5 + it rounds to 6
    assert_eq!(roam_seconds_from_draw(1_118_481, 5, 20), 6);
}
