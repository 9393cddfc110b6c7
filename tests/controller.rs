use life_board::controller::{Controller, FrameInput};
use life_board::world::Board;

fn idle(bits: Board) -> FrameInput {
    FrameInput { a_pressed: false, a_released: true, b_pressed: false, bits }
}

fn press_b(bits: Board) -> FrameInput {
    FrameInput { a_pressed: false, a_released: true, b_pressed: true, bits }
}

fn glider_bits() -> Board {
    [
        [0, 3, 0, 0, 0],
        [0, 0, 5, 0, 0],
        [7, 9, 11, 0, 0],
        [0, 0, 0, 0, 0],
        [0, 0, 0, 0, 0],
    ]
}

#[test]
fn new_fills_from_low_bits() {
    let ctl = Controller::new(&glider_bits());
    assert_eq!(ctl.world()[0], [0, 1, 0, 0, 0]);
    assert_eq!(ctl.world()[2], [1, 1, 1, 0, 0]);
    assert_eq!(ctl.last_world(), [[0; 5]; 5]);
    assert_eq!(ctl.tick_count(), 0);
    assert_eq!(ctl.same_board_count(), 0);
    assert!(!ctl.a_ignore());
    assert!(!ctl.b_ignore());
    assert_eq!(ctl.b_ignore_count(), 0);
    assert!(ctl.update_serial());
}

#[test]
fn first_frame_paints_serial_once() {
    let mut ctl = Controller::new(&glider_bits());
    let out = ctl.frame(&idle([[0; 5]; 5]));
    assert!(out.emit_serial);
    assert!(!out.generation);
    assert_eq!(out.clears, 0);
    let out = ctl.frame(&idle([[0; 5]; 5]));
    assert!(!out.emit_serial);
}

#[test]
fn generation_on_eleventh_frame() {
    let mut ctl = Controller::new(&glider_bits());
    let start = ctl.world();
    for k in 1..=10u8 {
        let out = ctl.frame(&idle([[0; 5]; 5]));
        assert!(!out.generation);
        assert_eq!(ctl.tick_count(), k);
        assert_eq!(ctl.world(), start);
    }
    let out = ctl.frame(&idle([[0; 5]; 5]));
    assert!(out.generation);
    assert!(!out.reseeded);
    assert!(out.emit_serial);
    assert_eq!(out.clears, 1);
    assert_eq!(ctl.tick_count(), 0);
    let mut expected = start;
    life_board::life(&mut expected);
    assert_eq!(ctl.world(), expected);
    assert_eq!(ctl.last_world(), expected);
    assert_eq!(ctl.same_board_count(), 0);
}

#[test]
fn b_press_complements_once_within_cooldown() {
    let mut ctl = Controller::new(&glider_bits());
    let before = ctl.world();
    let out = ctl.frame(&press_b([[0; 5]; 5]));
    assert!(out.complemented);
    assert_eq!(out.clears, 1);
    assert!(out.emit_serial);
    let mut expected = before;
    life_board::world::complement(&mut expected);
    assert_eq!(ctl.world(), expected);
    assert!(ctl.b_ignore());
    assert_eq!(ctl.b_ignore_count(), 1);
    let mut count = 1;
    for _ in 0..100 {
        if ctl.frame(&press_b([[0; 5]; 5])).complemented {
            count += 1;
        }
    }
    assert_eq!(count, 1);
    assert!(!ctl.b_ignore());
    assert_eq!(ctl.b_ignore_count(), 0);
    assert!(ctl.frame(&press_b([[0; 5]; 5])).complemented);
}

#[test]
fn second_b_press_after_cooldown_acts() {
    let mut ctl = Controller::new(&glider_bits());
    assert!(ctl.frame(&press_b([[0; 5]; 5])).complemented);
    for k in 2..=100u8 {
        ctl.frame(&idle([[0; 5]; 5]));
        assert!(ctl.b_ignore());
        assert_eq!(ctl.b_ignore_count(), k);
    }
    assert!(!ctl.frame(&press_b([[0; 5]; 5])).complemented);
    assert!(!ctl.b_ignore());
    assert!(ctl.frame(&press_b([[0; 5]; 5])).complemented);
}

#[test]
fn held_a_rerandomizes_and_blocks_b() {
    let mut ctl = Controller::new(&[[0; 5]; 5]);
    let held = FrameInput { a_pressed: true, a_released: false, b_pressed: true, bits: [[1; 5]; 5] };
    let out = ctl.frame(&held);
    assert!(out.randomized);
    assert!(!out.complemented);
    assert_eq!(out.clears, 1);
    assert!(ctl.a_ignore());
    assert_eq!(ctl.world(), [[1; 5]; 5]);
    let held2 = FrameInput { a_pressed: true, a_released: false, b_pressed: true, bits: [[2; 5]; 5] };
    let out = ctl.frame(&held2);
    assert!(out.randomized);
    assert!(!out.complemented);
    assert_eq!(ctl.world(), [[0; 5]; 5]);
    let release = FrameInput { a_pressed: false, a_released: true, b_pressed: true, bits: [[0; 5]; 5] };
    let out = ctl.frame(&release);
    assert!(!ctl.a_ignore());
    assert!(out.complemented);
    assert_eq!(ctl.world(), [[1; 5]; 5]);
}

#[test]
fn a_released_during_debounce_lets_b_act() {
    let mut ctl = Controller::new(&[[0; 5]; 5]);
    let tap = FrameInput { a_pressed: true, a_released: true, b_pressed: true, bits: [[1; 5]; 5] };
    let out = ctl.frame(&tap);
    assert!(out.randomized);
    assert!(out.complemented);
    assert_eq!(out.clears, 2);
    assert_eq!(ctl.world(), [[0; 5]; 5]);
}

#[test]
fn stagnation_rerandomizes_after_fifty_one_generations() {
    // An empty board equals the empty snapshot at every generation.
    let mut ctl = Controller::new(&[[0; 5]; 5]);
    let fresh: Board = [[1, 0, 1, 0, 1]; 5];
    let mut generations = 0;
    loop {
        let out = ctl.frame(&idle(fresh));
        if out.generation {
            generations += 1;
            if generations <= 50 {
                assert!(!out.reseeded);
                assert_eq!(ctl.same_board_count(), generations);
                assert_eq!(ctl.world(), [[0; 5]; 5]);
            } else {
                assert!(out.reseeded);
                assert_eq!(ctl.same_board_count(), 51);
                assert_eq!(ctl.world(), fresh);
                break;
            }
        }
    }
    assert_eq!(generations, 51);
}

#[test]
fn count_runs_against_snapshot_across_presses() {
    let mut ctl = Controller::new(&[[0; 5]; 5]);
    for _ in 0..22 {
        ctl.frame(&idle([[0; 5]; 5]));
    }
    assert_eq!(ctl.same_board_count(), 2);
    // Complementing the empty board gives a full one, which dies at the next generation.
    assert!(ctl.frame(&press_b([[0; 5]; 5])).complemented);
    assert_eq!(ctl.world(), [[1; 5]; 5]);
    for _ in 0..10 {
        ctl.frame(&idle([[0; 5]; 5]));
    }
    assert_eq!(ctl.world(), [[0; 5]; 5]);
    assert_eq!(ctl.same_board_count(), 3);
}

#[test]
fn changed_board_resets_stagnation_count() {
    let mut ctl = Controller::new(&[[0; 5]; 5]);
    for _ in 0..22 {
        ctl.frame(&idle([[0; 5]; 5]));
    }
    assert_eq!(ctl.same_board_count(), 2);
    let tap = FrameInput { a_pressed: true, a_released: true, b_pressed: false, bits: glider_bits() };
    assert!(ctl.frame(&tap).randomized);
    let seeded = ctl.world();
    for _ in 0..10 {
        ctl.frame(&idle([[0; 5]; 5]));
    }
    let mut expected = seeded;
    life_board::life(&mut expected);
    assert_eq!(ctl.world(), expected);
    assert_eq!(ctl.last_world(), expected);
    assert_eq!(ctl.same_board_count(), 0);
}

#[test]
fn bits_needed_only_for_a_or_generation() {
    let mut ctl = Controller::new(&[[0; 5]; 5]);
    assert!(!ctl.needs_bits(false));
    assert!(ctl.needs_bits(true));
    for _ in 0..10 {
        ctl.frame(&idle([[0; 5]; 5]));
    }
    assert!(ctl.needs_bits(false));
}
