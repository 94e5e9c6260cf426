use starsoldier_bytecode::{assemble, disasm, AsmError, DecodeError, DisasmError};

const DEMO: &str = "
        bcc_x L07
        set_position 224, 16
        jump L16
L07:
        set_position 16, 16
L0A:
        set_sprite 1
        loop_begin 4
        move 0x26
        loop_end
        loop_begin 4
        move 0x15
        loop_end
        loop_begin 15
        move 0x14
        move 0x14
        loop_end
        shoot_aim 0
L16:
        set_sprite 0
        loop_begin 4
        move 0x2A
        loop_end
        loop_begin 4
        move 0x1B
        loop_end
        loop_begin 15
        move 0x1C
        move 0x1C
        loop_end
        shoot_aim 0
        jump L0A
";

fn text(bytes: Vec<u8>) -> String {
    String::from_utf8(bytes).unwrap()
}

#[test]
fn assemble_demo_program() {
    let code = assemble(DEMO.as_bytes()).unwrap();
    // 7 + 3 + 12 bytes up to L16, then 14 more.
    assert_eq!(code.len(), 0x24);
    assert_eq!(code[0], 0xB0);
    assert_eq!(code[1], 0x07);
    assert_eq!(&code[2..5], &[0xA0, 0xE0, 0x10]);
    assert_eq!(&code[5..7], &[0x40, 0x16]);
    assert_eq!(code[0x16], 0x70);
    assert_eq!(&code[0x22..0x24], &[0x40, 0x0A]);
}

#[test]
fn disassemble_demo_program() {
    let code = assemble(DEMO.as_bytes()).unwrap();
    let listing = text(disasm(&code).unwrap());
    assert!(listing.contains("L07:\n"));
    assert!(listing.contains("L0A:\n"));
    assert!(listing.contains("L16:\n"));
    assert!(listing.starts_with("        bcc_x L07\n        set_position 224, 16\n"));
    assert!(listing.contains("        move 0x26\n"));
    assert!(listing.contains("        loop_begin 15\n"));
    assert!(listing.contains("        shoot_aim 0\n"));
}

#[test]
fn demo_round_trip() {
    let code = assemble(DEMO.as_bytes()).unwrap();
    let listing = disasm(&code).unwrap();
    assert_eq!(assemble(&listing).unwrap(), code);
}

#[test]
fn round_trip_of_every_shape() {
    let code: Vec<u8> = vec![
        0x3F, 0x47, 0x50, 0x5F, 0x51, 0x6A, 0x7F, 0x80, 0x93, 0xA0, 0x01, 0x02, 0xA2, 0xA3,
        0xA4, 0x09, 0xA5, 0x0F, 0xA6, 0xF0, 0xB0, 0x00, 0xB1, 0x02, 0xB2, 0x03, 0xB3, 0x04,
        0xCC, 0xF5, 0xA1, 0x0C, 0xA1, 0x0F, 0xA1, 0x00, 0xA1, 0xC8, 0x40, 0x00,
    ];
    let listing = disasm(&code).unwrap();
    let t = text(listing.clone());
    assert!(t.contains("set_jump_on_damage L0C\n"));
    assert!(t.contains("set_health 15\n"));
    assert!(t.contains("unset_jump_on_damage\n"));
    assert!(t.contains("set_health 200\n"));
    assert!(t.contains("randomize_y 0xF0\n"));
    assert!(t.contains("set_inversion 1, 1\n"));
    assert_eq!(assemble(&listing).unwrap(), code);
}

#[test]
fn set_health_out_of_range() {
    let listing = text(disasm(&[0xA1, 0x05]).unwrap());
    assert_eq!(listing, "        set_health 5\n");
}

#[test]
fn disasm_errors() {
    assert_eq!(
        disasm(&[0x00, 0xA7]),
        Err(DisasmError::Decode { addr: 1, source: DecodeError::Undefined { opcode: 0xA7 } })
    );
    assert_eq!(
        disasm(&[0x51, 0x40]),
        Err(DisasmError::Decode { addr: 1, source: DecodeError::Incomplete { opcode: 0x40 } })
    );
    assert_eq!(
        disasm(&[0x40, 0x10]),
        Err(DisasmError::InvalidDestination { addr: 0, addr_dst: 0x10 })
    );
}

#[test]
fn disasm_empty() {
    assert_eq!(disasm(&[]).unwrap(), Vec::<u8>::new());
}

#[test]
fn assemble_numbers_and_comments() {
    let src = "  set_position 0x10, 0b11 ; comment\r\n\n; only a comment\n  set_part 0o17\n  randomize_x 255";
    assert_eq!(assemble(src.as_bytes()).unwrap(), vec![0xA0, 0x10, 0x03, 0xA4, 0x0F, 0xA5, 0xFF]);
}

#[test]
fn assemble_overloaded_mnemonics() {
    let src = "set_health 32\nunset_jump_on_damage\nL:\nset_jump_on_damage L\n";
    assert_eq!(assemble(src.as_bytes()).unwrap(), vec![0xA1, 0x20, 0xA1, 0x00, 0xA1, 0x04]);
}

#[test]
fn set_jump_on_damage_zero() {
    let src = "L:\n set_jump_on_damage L\n";
    assert_eq!(assemble(src.as_bytes()), Err(AsmError::SetJumpOnDamageZero { lineno: 2 }));
}

#[test]
fn undefined_label() {
    let src = "move 1\n\njump nowhere\n";
    assert_eq!(
        assemble(src.as_bytes()),
        Err(AsmError::UndefinedLabel { lineno: 3, label: "nowhere".to_string() })
    );
}

#[test]
fn overflow_at_257_bytes() {
    let mut src = String::new();
    for _ in 0..85 {
        src.push_str("set_position 1, 2\n");
    }
    src.push_str("move 1\n");
    assert_eq!(assemble(src.as_bytes()).unwrap().len(), 256);
    src.push_str("move 1\n");
    assert_eq!(assemble(src.as_bytes()), Err(AsmError::Overflow { lineno: 87 }));
}

#[test]
fn label_past_the_end_is_rejected() {
    let mut src = String::new();
    for _ in 0..128 {
        src.push_str("jump L\n");
    }
    assert_eq!(parse_line_of(&(src.clone() + "L:\n")), 129);
    src.push_str("; the code is full\n\n");
    assert_eq!(assemble(src.as_bytes()), Err(AsmError::UndefinedLabel { lineno: 1, label: "L".to_string() }));
}

fn parse_line_of(src: &str) -> usize {
    match assemble(src.as_bytes()) {
        Err(AsmError::Parse { lineno, .. }) => lineno,
        other => panic!("expected a parse error, got {:?}", other),
    }
}

#[test]
fn parse_errors() {
    assert_eq!(parse_line_of("move 0x40"), 1);
    assert_eq!(parse_line_of("nop\n"), 1);
    assert_eq!(parse_line_of("move 1\nloop_begin 1"), 2);
    assert_eq!(parse_line_of("loop_begin 16"), 1);
    assert_eq!(parse_line_of("set_inversion 2, 0"), 1);
    assert_eq!(parse_line_of("set_position 1 2"), 1);
    assert_eq!(parse_line_of("set_part 256"), 1);
    assert_eq!(parse_line_of("jump 5"), 1);
    assert_eq!(parse_line_of("L: move 1"), 1);
    assert_eq!(parse_line_of("L:\nL:\n"), 2);
    assert_eq!(parse_line_of("loop_end 3"), 1);
    assert_eq!(parse_line_of("move 1 @"), 1);
}

#[test]
fn parse_error_message_names_token() {
    match assemble("  bogus 3".as_bytes()) {
        Err(AsmError::Parse { lineno: 1, msg }) => assert!(msg.contains("bogus")),
        other => panic!("unexpected {:?}", other),
    }
}
