use stackvm::program::Program;

#[test]
fn test_load_bytes() {
    let mut prog = Program::new();
    let bytes: Vec<u8> = vec![0xFF, 0xFF, 0xFF, 0xFF, 0x00, 0x00];
    prog.load_bytes(bytes);
    assert!(prog.pc == 0);
    assert!(prog.bytes.len() == 6);
}

#[test]
fn test_next_byte() {
    let mut prog = Program::new();
    let bytes: Vec<u8> = vec![0xFA, 0xFF, 0xFF, 0xFF, 0x00, 0x00];
    prog.load_bytes(bytes);
    let val = prog.next_byte();
    assert!(val == 0xFA);
    assert!(prog.pc == 1);
}

#[test]
fn test_next_halfword() {
    let mut prog = Program::new();
    let bytes: Vec<u8> = vec![0xFA, 0xFF, 0xFF, 0xFF, 0x00, 0x00];
    prog.load_bytes(bytes);
    let val = prog.next_halfword();
    assert!(val == 0xFAFF);
    assert!(prog.pc == 2);
}

#[test]
fn test_next_code() {
    let mut prog = Program::new();
    let mut prog2 = Program::new();
    let bytes: Vec<u8> = vec![0xFA, 0xFF, 0xFF, 0xFF, 0x00, 0x00];
    let bytes2 = bytes.clone();
    prog.load_bytes(bytes);
    prog2.load_bytes(bytes2);
    assert!(prog2.next_code() == prog.next_code());
}

#[test]
fn test_jump_to() {
    let mut prog = Program::new();
    let bytes: Vec<u8> = vec![0xFA, 0xFF, 0xFF, 0xFF, 0x00, 0x01];
    prog.load_bytes(bytes);
    prog.jump_to(5);
    assert!(prog.pc == 5);
    assert!(prog.next_byte() == 0x01);
}

#[test]
fn test_reset() {
    let mut prog = Program::new();
    let bytes: Vec<u8> = vec![0xFA, 0xFF, 0xFF, 0xFF, 0x00, 0x01];
    prog.load_bytes(bytes);
    prog.jump_to(5);
    prog.reset();
    assert!(prog.pc == 0);
}

#[test]
fn next_word_reads_big_endian() {
    let mut prog = Program::new();
    prog.load_bytes(vec![0x00, 0x0F, 0x42, 0x3F]);
    assert_eq!(prog.next_word(), 999_999);
    assert_eq!(prog.pc, 4);
}

#[test]
fn jump_relative_moves_both_ways() {
    let mut prog = Program::new();
    prog.load_bytes(vec![0; 16]);
    prog.jump_to(8);
    prog.jump_relative(5);
    assert_eq!(prog.pc, 13);
    prog.jump_relative(-13);
    assert_eq!(prog.pc, 0);
}
