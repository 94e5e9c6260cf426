use starsoldier_bytecode::{
    assemble, DecodeError, Effect, EnemyState, Frame, Game, HostView, InterpretError, Interpreter,
    InterpreterInit, Tick,
};

#[derive(Default)]
struct Host {
    second_round: bool,
    stage: u8,
    hero: (u8, u8),
    rand_value: u8,
    rand_calls: u32,
    shots: Vec<(u8, u8, u8, bool)>,
    restored: u32,
    sounds: Vec<u8>,
}

impl Game for Host {
    fn is_second_round(&self) -> bool {
        self.second_round
    }
    fn stage(&self) -> u8 {
        self.stage
    }
    fn hero_x(&self) -> u8 {
        self.hero.0
    }
    fn hero_y(&self) -> u8 {
        self.hero.1
    }
    fn rand(&mut self) -> u8 {
        self.rand_calls += 1;
        self.rand_value
    }
    fn try_shoot_aim(&mut self, x: u8, y: u8, speed_mask: u8, force_homing: bool) {
        self.shots.push((x, y, speed_mask, force_homing));
    }
    fn restore_music(&mut self) {
        self.restored += 1;
    }
    fn play_sound(&mut self, sound: u8) {
        self.sounds.push(sound);
    }
}

fn host() -> Host {
    Host { stage: 1, hero: (128, 120), ..Host::default() }
}

fn enemy(program: Vec<u8>, boss: bool, rank: u8, x: u8, y: u8) -> Interpreter {
    InterpreterInit {
        program,
        pc: 0,
        boss,
        difficulty: 1,
        shot_with_rank: false,
        accel_shot_with_rank: false,
        homing_shot_with_rank: false,
        extra_act_with_rank: false,
        accel_with_rank: false,
        rank,
        x,
        y,
    }
    .init()
}

fn padded(mut program: Vec<u8>, len: usize, tail: &[u8]) -> Vec<u8> {
    while program.len() < len {
        program.push(0x41);
    }
    program.extend_from_slice(tail);
    program
}

#[test]
fn init_state() {
    let e = enemy(vec![0x41], false, 0, 120, 239);
    assert_eq!(e.x(), 120);
    assert_eq!(e.y(), 239);
    assert_eq!(e.state(), EnemyState::Alive);
}

#[test]
fn minion_jump_on_damage() {
    // 0x20: set_position 50, 60 and sleep.
    let program = padded(vec![0xA1, 0x20], 0x20, &[0xA0, 50, 60, 0x4F]);
    let mut e = enemy(program, false, 0, 10, 10);
    let mut h = host();
    e.step(&mut h).unwrap();
    assert_eq!((e.x(), e.y()), (10, 10));
    e.damage(&mut h);
    assert_eq!(e.state(), EnemyState::Alive);
    e.step(&mut h).unwrap();
    assert_eq!((e.x(), e.y()), (50, 60));
}

#[test]
fn minion_dies_without_handler() {
    let mut e = enemy(vec![0x41], false, 0, 10, 10);
    let mut h = host();
    e.damage(&mut h);
    assert_eq!(e.state(), EnemyState::Dying);
}

#[test]
fn boss_health() {
    let program = padded(vec![0xA1, 0x20], 0x21, &[]);
    let mut e = enemy(program, true, 0, 10, 10);
    let mut h = host();
    e.step(&mut h).unwrap();
    for _ in 0..0x20 {
        e.damage(&mut h);
        assert_eq!(e.state(), EnemyState::Alive);
    }
    e.damage(&mut h);
    assert_eq!(e.state(), EnemyState::Dying);
}

#[test]
fn homing_step_points_east() {
    // set_homing_timer 1, then sleep.
    let mut e = enemy(vec![0x81, 0x4F], false, 0, 100, 100);
    let mut h = Host { stage: 1, hero: (120, 100), ..Host::default() };
    e.step(&mut h).unwrap();
    assert_eq!((e.x(), e.y()), (101, 100));
}

#[test]
fn shoot_aim_gated_by_rank() {
    let mut low = InterpreterInit {
        program: vec![0xC0, 0x41],
        pc: 0,
        boss: false,
        difficulty: 1,
        shot_with_rank: true,
        accel_shot_with_rank: false,
        homing_shot_with_rank: false,
        extra_act_with_rank: false,
        accel_with_rank: false,
        rank: 3,
        x: 30,
        y: 40,
    }
    .init();
    let mut h = host();
    low.step(&mut h).unwrap();
    assert!(h.shots.is_empty());

    let mut high = InterpreterInit {
        program: vec![0xC0, 0x41],
        pc: 0,
        boss: false,
        difficulty: 1,
        shot_with_rank: true,
        accel_shot_with_rank: false,
        homing_shot_with_rank: false,
        extra_act_with_rank: false,
        accel_with_rank: false,
        rank: 4,
        x: 30,
        y: 40,
    }
    .init();
    let mut h = host();
    high.step(&mut h).unwrap();
    assert_eq!(h.shots, vec![(30, 40, 0, false)]);
}

#[test]
fn shoot_aim_parameters() {
    let mut e = InterpreterInit {
        program: vec![0xC0, 0x41],
        pc: 0,
        boss: false,
        difficulty: 1,
        shot_with_rank: false,
        accel_shot_with_rank: true,
        homing_shot_with_rank: true,
        extra_act_with_rank: false,
        accel_with_rank: false,
        rank: 7,
        x: 1,
        y: 2,
    }
    .init();
    let mut h = host();
    e.step(&mut h).unwrap();
    assert_eq!(h.shots, vec![(1, 2, 0x30, false)]);

    let mut e = InterpreterInit {
        program: vec![0xC0, 0x41],
        pc: 0,
        boss: false,
        difficulty: 1,
        shot_with_rank: false,
        accel_shot_with_rank: true,
        homing_shot_with_rank: true,
        extra_act_with_rank: false,
        accel_with_rank: false,
        rank: 7,
        x: 1,
        y: 2,
    }
    .init();
    let mut h = Host { second_round: true, ..host() };
    e.step(&mut h).unwrap();
    assert_eq!(h.shots, vec![(1, 2, 0, true)]);
}

#[test]
fn move_off_screen_leaves() {
    let mut e = enemy(vec![0x08], false, 0, 50, 238);
    let mut h = host();
    e.step(&mut h).unwrap();
    assert_eq!(e.y(), 239);
    assert_eq!(e.state(), EnemyState::Leaving);
}

#[test]
fn move_speeds_up_with_rank() {
    let mut e = InterpreterInit {
        program: vec![0x04],
        pc: 0,
        boss: false,
        difficulty: 1,
        shot_with_rank: false,
        accel_shot_with_rank: false,
        homing_shot_with_rank: false,
        extra_act_with_rank: false,
        accel_with_rank: true,
        rank: 7,
        x: 100,
        y: 100,
    }
    .init();
    let mut h = host();
    e.step(&mut h).unwrap();
    // 0x04 + 0x20 = 0x24: east at speed level 2.
    assert_eq!((e.x(), e.y()), (103, 100));
}

#[test]
fn extra_act_after_move() {
    let mut e = InterpreterInit {
        program: vec![0x04, 0x04, 0x04, 0x4F],
        pc: 0,
        boss: false,
        difficulty: 1,
        shot_with_rank: false,
        accel_shot_with_rank: false,
        homing_shot_with_rank: false,
        extra_act_with_rank: true,
        accel_with_rank: false,
        rank: 4,
        x: 100,
        y: 100,
    }
    .init();
    let mut h = host();
    e.step(&mut h).unwrap();
    assert_eq!(e.x(), 102);
    e.step(&mut h).unwrap();
    assert_eq!(e.x(), 103);
}

#[test]
fn inversion_mirrors_moves() {
    let mut e = enemy(vec![0x93, 0x06], false, 0, 100, 100);
    let mut h = host();
    e.step(&mut h).unwrap();
    // 0x06 moves right and down; both axes mirrored.
    assert_eq!((e.x(), e.y()), (99, 99));
}

#[test]
fn loop_runs_body_n_times() {
    let code = assemble(
        "loop_begin 3\nmove 0x04\nloop_end\nset_position 200, 50\nset_sleep_timer 15\n".as_bytes(),
    )
    .unwrap();
    let mut e = enemy(code, false, 0, 100, 100);
    let mut h = host();
    for expected in [101u8, 102, 103] {
        e.step(&mut h).unwrap();
        assert_eq!(e.x(), expected);
    }
    e.step(&mut h).unwrap();
    assert_eq!((e.x(), e.y()), (200, 50));
}

#[test]
fn sleep_timer_skips_frames() {
    // set_sleep_timer 1 sleeps four frames, then move east.
    let mut e = enemy(vec![0x41, 0x04, 0x41], false, 0, 100, 100);
    let mut h = host();
    e.step(&mut h).unwrap();
    for _ in 0..4 {
        e.step(&mut h).unwrap();
        assert_eq!(e.x(), 100);
    }
    e.step(&mut h).unwrap();
    assert_eq!(e.x(), 101);
}

#[test]
fn randomize_and_branches() {
    // randomize_x 0x0F; bcc_x 6 (taken: hero to the right); set_sleep_timer; 6: set_position.
    let program = vec![0xA5, 0x0F, 0xB0, 0x06, 0x4F, 0x4F, 0xA0, 7, 8, 0x4F];
    let mut e = enemy(program, false, 0, 0xF0, 100);
    let mut h = Host { rand_value: 0x3C, ..host() };
    h.hero = (0xFF, 0);
    e.step(&mut h).unwrap();
    assert_eq!(h.rand_calls, 1);
    assert_eq!((e.x(), e.y()), (7, 8));
}

#[test]
fn music_hooks() {
    let mut e = enemy(vec![0xF0, 0xF3, 0x4F], false, 0, 0, 0);
    let mut h = host();
    e.step(&mut h).unwrap();
    assert_eq!(h.restored, 1);
    assert_eq!(h.sounds, vec![3]);
}

#[test]
fn frames_are_deterministic() {
    let code = vec![0xA5, 0xFF, 0xA6, 0x0F, 0x81, 0x4F];
    let run = || {
        let mut e = enemy(code.clone(), false, 5, 10, 20);
        let mut h = Host { rand_value: 0x5A, hero: (200, 20), ..host() };
        e.step(&mut h).unwrap();
        (e.x(), e.y(), e.state())
    };
    assert_eq!(run(), run());
}

#[test]
fn decode_error_in_step() {
    let mut e = enemy(vec![0x41, 0xA7], false, 0, 0, 0);
    let mut h = host();
    e.step(&mut h).unwrap();
    for _ in 0..4 {
        e.step(&mut h).unwrap();
    }
    assert_eq!(
        e.step(&mut h),
        Err(InterpretError::Decode { addr: 1, source: DecodeError::Undefined { opcode: 0xA7 } })
    );
}

#[test]
fn running_off_the_program() {
    let mut e = enemy(vec![0x70], false, 0, 0, 0);
    let mut h = host();
    assert_eq!(e.step(&mut h), Err(InterpretError::EndOfProgram { addr: 1 }));
}

#[test]
fn endless_frame_is_cut_off() {
    let mut e = enemy(vec![0x40, 0x00], false, 0, 0, 0);
    let mut h = host();
    assert_eq!(e.step(&mut h), Err(InterpretError::FrameLimit));
}

#[test]
fn loop_count_zero_runs_256_times() {
    let code = assemble("loop_begin 0\nmove 0x04\nloop_end\nset_position 7, 9\nset_sleep_timer 15\n".as_bytes())
        .unwrap();
    let mut e = enemy(code, false, 0, 0, 100);
    let mut h = host();
    for _ in 0..256 {
        e.step(&mut h).unwrap();
        assert_eq!(e.y(), 100);
    }
    // 256 moves east wrap the 8-bit position back to 0.
    assert_eq!(e.x(), 0);
    e.step(&mut h).unwrap();
    assert_eq!((e.x(), e.y()), (7, 9));
}

#[test]
fn boss_set_health_then_hits() {
    let code = assemble("set_health 1\nset_sleep_timer 15\n".as_bytes()).unwrap();
    let mut e = enemy(code, true, 0, 0, 0);
    let mut h = host();
    e.step(&mut h).unwrap();
    e.damage(&mut h);
    assert_eq!(e.state(), EnemyState::Alive);
    e.damage(&mut h);
    assert_eq!(e.state(), EnemyState::Dying);
}

fn view(hero_x: u8, hero_y: u8) -> HostView {
    HostView { second_round: false, stage: 1, hero_x, hero_y }
}

#[test]
fn tick_on_given_host_values() {
    // randomize_x 0x0F; bcs_x 0; shoot_aim 0.
    let mut e = enemy(vec![0xA5, 0x0F, 0xB1, 0x00, 0xC0], false, 4, 0xF0, 40);
    let mut frame = Frame { do_try_homing: false, do_try_extra_act: false };
    assert!(e.wants_rand(&frame));
    let t = e.tick(&mut frame, &view(0xFF, 0), 0x3C).unwrap();
    assert_eq!(t, Tick { end: false, effect: Effect::Nothing });
    assert_eq!(e.x(), 0xFC);
    assert!(!e.wants_rand(&frame));
    // x < hero_x: bcs_x is not taken.
    e.tick(&mut frame, &view(0xFF, 0), 0).unwrap();
    let t = e.tick(&mut frame, &view(0xFF, 0), 0).unwrap();
    assert_eq!(
        t,
        Tick { end: false, effect: Effect::ShootAim { x: 0xFC, y: 40, speed_mask: 0, force_homing: false } }
    );
    assert_eq!(e.tick(&mut frame, &view(0xFF, 0), 0), Err(InterpretError::EndOfProgram { addr: 5 }));
}

#[test]
fn tick_is_deterministic() {
    let run = || {
        let mut e = enemy(vec![0xA6, 0xFF, 0x8F, 0x04], false, 0, 10, 20);
        let mut frame = Frame { do_try_homing: true, do_try_extra_act: false };
        let h = HostView { second_round: true, stage: 3, hero_x: 200, hero_y: 20 };
        let mut ticks = vec![];
        for _ in 0..3 {
            ticks.push(e.tick(&mut frame, &h, 0x77).unwrap());
        }
        (ticks, e.x(), e.y(), frame)
    };
    assert_eq!(run(), run());
}

#[test]
fn failing_tick_changes_nothing() {
    let mut e = enemy(vec![0xA7], false, 0, 3, 4);
    let mut frame = Frame { do_try_homing: true, do_try_extra_act: false };
    assert_eq!(
        e.tick(&mut frame, &view(0, 0), 0),
        Err(InterpretError::Decode { addr: 0, source: DecodeError::Undefined { opcode: 0xA7 } })
    );
    assert_eq!((e.x(), e.y(), e.state()), (3, 4, EnemyState::Alive));
}
