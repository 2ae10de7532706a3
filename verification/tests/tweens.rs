use squares::tween::{
    ChaseNumber, Easing, MoveTo, Position, ScaleTo, TweenEngine, TweenStep, PPM_UNIT,
};

const SECOND: u64 = 1_000_000; // time units per second, as the shell uses them

fn pos(x: i64, y: i64) -> Position {
    Position { x, y, z: 0 }
}

fn plain_move(start: Position, end: Position, duration: u64) -> MoveTo {
    MoveTo {
        elapsed_time: 0,
        duration,
        loop_count: 0,
        bounce: false,
        start_position: start,
        end_position: end,
        ease: Easing::EaseOutBack,
    }
}

#[test]
fn position_tween_snaps_to_end_and_leaves_the_set() {
    // duration 1.0, one tick of 1.0: complete, the value snaps exactly to
    // the end, and the tween is gone from the active set
    let mut engine = TweenEngine::new();
    let t = plain_move(pos(0, 0), pos(12_345, -500), SECOND);
    engine.add_move_to(7, t);
    assert!(engine.has_move_to(7));
    let snaps = engine.update_move_to(SECOND);
    assert_eq!(snaps, vec![(7, pos(12_345, -500))]);
    assert!(!engine.has_move_to(7));
}

#[test]
fn position_tween_short_tick_keeps_running() {
    let mut engine = TweenEngine::new();
    engine.add_move_to(7, plain_move(pos(0, 0), pos(100, 100), SECOND));
    let snaps = engine.update_move_to(SECOND / 4);
    assert!(snaps.is_empty());
    assert!(engine.has_move_to(7));
    assert_eq!(engine.moves[0].1.elapsed_time, SECOND / 4);
}

#[test]
fn bounce_tween_swaps_once_then_leaves() {
    // loop_count 1 with bounce: the first completion swaps start and end
    // and continues; the second completion removes it, its final value the
    // swapped end (the original start)
    let start = pos(10, 0);
    let end = pos(90, 0);
    let mut engine = TweenEngine::new();
    engine.add_move_to(
        3,
        MoveTo {
            elapsed_time: 0,
            duration: SECOND / 10,
            loop_count: 1,
            bounce: true,
            start_position: start,
            end_position: end,
            ease: Easing::EaseOutBack,
        },
    );
    let first = engine.update_move_to(SECOND / 10 + 1);
    assert!(first.is_empty());
    assert!(engine.has_move_to(3));
    assert_eq!(engine.moves[0].1.start_position, end); // swapped in place
    assert_eq!(engine.moves[0].1.end_position, start);
    assert_eq!(engine.moves[0].1.loop_count, 0);
    let second = engine.update_move_to(SECOND / 10 + 1);
    assert_eq!(second, vec![(3, start)]); // count exhausted: swapped once, then removed
    assert!(!engine.has_move_to(3));
}

#[test]
fn loop_wrap_continues_from_the_remainder() {
    let mut t = plain_move(pos(0, 0), pos(10, 0), 1000);
    t.loop_count = 2;
    let step = t.tick(1300);
    assert_eq!(step, TweenStep::Running { num: 1000, den: 1000 });
    assert_eq!(t.elapsed_time, 300); // wraps, does not reset to zero
    assert_eq!(t.loop_count, 1);
    assert_eq!(t.start_position, pos(0, 0)); // no bounce: no swap
}

#[test]
fn scale_tween_clamps_or_loops() {
    let mut once = ScaleTo {
        elapsed_time: 0,
        duration: 1000,
        looping: false,
        start_scale: 1_000_000,
        end_scale: 0,
        ease: Easing::EaseInOutCirc,
    };
    assert_eq!(once.tick(1500), TweenStep::Finished);

    let mut engine = TweenEngine::new();
    let mut forever = once;
    forever.looping = true;
    forever.elapsed_time = 0;
    engine.add_scale_to(4, forever);
    let snaps = engine.update_scale_to(2500);
    assert!(snaps.is_empty()); // an endlessly looping tween persists
    assert!(engine.has_scale_to(4));
    assert_eq!(engine.scales[0].1.elapsed_time, 500);
}

#[test]
fn chase_waits_out_its_delay_then_runs() {
    let mut c = ChaseNumber {
        elapsed_time: 0,
        duration: 500_000,
        delay: 350_000,
        start_number: 40,
        end_number: 100,
        cur_number: 40,
        ease: Easing::EaseInCirc,
    };
    let before = c.tick(200_000);
    assert_eq!(before, TweenStep::Pending);
    assert_eq!(c.cur_number, 40); // holds the start until the delay passes
    let during = c.tick(300_000);
    assert_eq!(during, TweenStep::Running { num: 150_000, den: 500_000 });
    let after = c.tick(900_000);
    assert_eq!(after, TweenStep::Finished);
    assert_eq!(c.cur_number, 100); // snaps exactly to the end value
}

#[test]
fn chase_leaves_the_engine_when_done() {
    let mut engine = TweenEngine::new();
    engine.add_chase_number(
        9,
        ChaseNumber {
            elapsed_time: 0,
            duration: 500_000,
            delay: 350_000,
            start_number: 0,
            end_number: 64,
            cur_number: 0,
            ease: Easing::EaseInCirc,
        },
    );
    let snaps = engine.update_chase_numbers(850_001);
    assert_eq!(snaps, vec![(9, 64)]);
    assert!(!engine.has_chase_number(9));
}

#[test]
fn interpolation_is_exact_at_the_ends_and_midway() {
    let t = plain_move(pos(0, -200), pos(100, 200), SECOND);
    assert_eq!(t.sample(0), pos(0, -200));
    assert_eq!(t.sample(PPM_UNIT), pos(100, 200));
    assert_eq!(t.sample(PPM_UNIT / 2), pos(50, 0));
    // an overshooting curve may report past the end
    assert_eq!(t.sample(PPM_UNIT + PPM_UNIT / 10), pos(110, 240));
}

#[test]
fn chase_interpolates_the_displayed_number() {
    let mut c = ChaseNumber {
        elapsed_time: 0,
        duration: 500_000,
        delay: 0,
        start_number: 0,
        end_number: 100,
        cur_number: 0,
        ease: Easing::EaseInCirc,
    };
    c.apply_eased(500_000);
    assert_eq!(c.cur_number, 50);
    c.apply_eased(PPM_UNIT);
    assert_eq!(c.cur_number, 100);
    // a falling chase (after a reset) interpolates downward
    let mut down = c;
    down.start_number = 80;
    down.end_number = 0;
    down.apply_eased(250_000);
    assert_eq!(down.cur_number, 60);
}

#[test]
fn replacing_a_tween_keeps_one_per_entity() {
    let mut engine = TweenEngine::new();
    engine.add_move_to(5, plain_move(pos(0, 0), pos(10, 0), 1000));
    engine.add_move_to(5, plain_move(pos(0, 0), pos(99, 0), 1000));
    assert_eq!(engine.moves.len(), 1);
    assert_eq!(engine.moves[0].1.end_position, pos(99, 0));
}

#[test]
fn cancelled_tweens_fire_no_completion() {
    let mut engine = TweenEngine::new();
    engine.add_move_to(5, plain_move(pos(0, 0), pos(10, 0), 1000));
    engine.add_scale_to(
        5,
        ScaleTo {
            elapsed_time: 0,
            duration: 1000,
            looping: false,
            start_scale: 0,
            end_scale: 1_000_000,
            ease: Easing::EaseOutBounce,
        },
    );
    engine.remove_entity(5);
    assert!(!engine.has_move_to(5));
    assert!(!engine.has_scale_to(5));
    let snaps = engine.update_move_to(5000);
    assert!(snaps.is_empty());
}

#[test]
fn default_easing_is_ease_out_back() {
    assert_eq!(Easing::default(), Easing::EaseOutBack);
}
