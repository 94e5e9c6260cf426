use starsoldier_bytecode::{DecodeError, Direction, Op};

fn encoded(op: Op) -> Vec<u8> {
    let mut buf = vec![0u8; op.len()];
    op.encode(&mut buf);
    buf
}

#[test]
fn encode_move() {
    let op = Op::new_move(Direction::new(0x2A));
    assert_eq!(encoded(op), vec![0x2A]);
    assert_eq!(Op::decode(&[0x2A]).unwrap(), op);
}

#[test]
fn encode_jump() {
    assert_eq!(encoded(Op::new_jump(0x16)), vec![0x40, 0x16]);
}

#[test]
fn encode_set_position() {
    assert_eq!(encoded(Op::new_set_position(224, 16)), vec![0xA0, 0xE0, 0x10]);
}

#[test]
fn encode_loop_begin() {
    assert_eq!(encoded(Op::new_loop_begin(4)), vec![0x54]);
}

#[test]
fn encode_set_inversion() {
    assert_eq!(encoded(Op::new_set_inversion(true, false)), vec![0x91]);
    assert_eq!(encoded(Op::new_set_inversion(false, true)), vec![0x92]);
}

#[test]
fn encode_shoot_aim() {
    assert_eq!(encoded(Op::new_shoot_aim(0)), vec![0xC0]);
}

#[test]
fn encode_leaves_rest_of_buffer() {
    let mut buf = vec![0xEE; 5];
    Op::new_bcs_y(0x33).encode(&mut buf);
    assert_eq!(buf, vec![0xB3, 0x33, 0xEE, 0xEE, 0xEE]);
}

fn all_shapes() -> Vec<Op> {
    vec![
        Op::new_move(Direction::new(0x3F)),
        Op::new_jump(0x80),
        Op::new_set_sleep_timer(7),
        Op::new_loop_begin(0),
        Op::new_loop_begin(15),
        Op::new_loop_end(),
        Op::new_shoot_direction(Direction::new(0xF)),
        Op::new_set_sprite(3),
        Op::new_set_homing_timer(0),
        Op::new_set_inversion(true, true),
        Op::new_set_position(1, 2),
        Op::new_set_jump_on_damage(0x20),
        Op::new_increment_sprite(),
        Op::new_decrement_sprite(),
        Op::new_set_part(9),
        Op::new_randomize_x(0x0F),
        Op::new_randomize_y(0xF0),
        Op::new_bcc_x(1),
        Op::new_bcs_x(2),
        Op::new_bcc_y(3),
        Op::new_bcs_y(4),
        Op::new_shoot_aim(0xC),
        Op::new_change_music(5),
    ]
}

#[test]
fn decode_inverts_encode() {
    for op in all_shapes() {
        let mut bytes = encoded(op);
        assert_eq!(bytes.len(), op.len());
        bytes.push(0xFF);
        assert_eq!(Op::decode(&bytes).unwrap(), op);
    }
}

#[test]
fn sleep_timer_zero_encodes_as_jump_opcode() {
    assert_eq!(encoded(Op::new_set_sleep_timer(0)), vec![0x40]);
    assert!(matches!(Op::decode(&[0x40]), Err(DecodeError::Incomplete { opcode: 0x40 })));
}

#[test]
fn decode_errors() {
    assert_eq!(Op::decode(&[0xA7]), Err(DecodeError::Undefined { opcode: 0xA7 }));
    assert_eq!(Op::decode(&[0xD0]), Err(DecodeError::Undefined { opcode: 0xD0 }));
    assert_eq!(Op::decode(&[0x94]), Err(DecodeError::Undefined { opcode: 0x94 }));
    assert_eq!(Op::decode(&[0xA0, 1]), Err(DecodeError::Incomplete { opcode: 0xA0 }));
    assert_eq!(Op::decode(&[0xB2]), Err(DecodeError::Incomplete { opcode: 0xB2 }));
}

#[test]
fn decode_opcode_ranges() {
    assert_eq!(Op::decode(&[0x51]).unwrap(), Op::LoopEnd);
    assert_eq!(Op::decode(&[0x50]).unwrap(), Op::LoopBegin(0));
    assert_eq!(Op::decode(&[0x4F]).unwrap(), Op::SetSleepTimer(15));
    assert_eq!(Op::decode(&[0x8A]).unwrap(), Op::SetHomingTimer(10));
    assert_eq!(Op::decode(&[0xCD]).unwrap(), Op::ShootAim(0xD));
    assert_eq!(Op::decode(&[0xF3]).unwrap(), Op::ChangeMusic(3));
    assert_eq!(
        Op::decode(&[0x65]).unwrap(),
        Op::ShootDirection(Direction::new(5))
    );
}

#[test]
fn lengths_and_destinations() {
    assert_eq!(Op::new_set_position(0, 0).len(), 3);
    assert_eq!(Op::new_set_part(0).len(), 2);
    assert_eq!(Op::new_loop_end().len(), 1);
    assert_eq!(Op::new_jump(9).addr_destination(), Some(9));
    assert_eq!(Op::new_set_jump_on_damage(7).addr_destination(), Some(7));
    assert_eq!(Op::new_bcc_y(5).addr_destination(), Some(5));
    assert_eq!(Op::new_set_part(5).addr_destination(), None);
}

#[test]
fn direction_tables() {
    assert_eq!(Direction::new(0).index(), 0);
    assert_eq!(Direction::new(0x00).displacement_object(), (0, -1));
    assert_eq!(Direction::new(0x04).displacement_object(), (1, 0));
    assert_eq!(Direction::new(0x08).displacement_object(), (0, 1));
    assert_eq!(Direction::new(0x0C).displacement_object(), (-1, 0));
    assert_eq!(Direction::new(0x34).displacement_object(), (4, 0));
    assert_eq!(Direction::new(0x26).displacement_object(), (2, 2));
    assert_eq!(Direction::new(0x14).displacement_bullet(), (4, 0));
    assert_eq!(Direction::new(0x02).displacement_bullet(), (1, -1));
    for i in 0..0x40u8 {
        let (dx, dy) = Direction::new(i).displacement_object();
        assert!((-4..=4).contains(&dx) && (-4..=4).contains(&dy));
    }
}

#[test]
fn aim_picks_nearest_angle() {
    assert_eq!(Direction::aim((100, 100), (120, 100)).index(), 4);
    assert_eq!(Direction::aim((100, 100), (100, 50)).index(), 0);
    assert_eq!(Direction::aim((100, 100), (100, 150)).index(), 8);
    assert_eq!(Direction::aim((100, 100), (10, 100)).index(), 12);
    assert_eq!(Direction::aim((100, 100), (150, 150)).index(), 6);
}
