use chippy::interpretor::Interpretor;

#[test]
fn test_add_sets_carry_flag() {
    // r0 := 0xFF; r1 := 0x01; r0 := r0 + r1
    let mut vm = Interpretor::new(vec![0x60, 0xFF, 0x61, 0x01, 0x80, 0x14]);

    vm.cycle();
    vm.cycle();
    vm.cycle();

    assert_eq!(vm.register(0), 0x00);
    assert_eq!(vm.register(15), 1);
}

#[test]
fn test_sub_clears_flag_on_borrow() {
    // r0 := 0x01; r1 := 0x02; r0 := r0 - r1
    let mut vm = Interpretor::new(vec![0x60, 0x01, 0x61, 0x02, 0x80, 0x15]);

    vm.cycle();
    vm.cycle();
    vm.cycle();

    assert_eq!(vm.register(0), 0xFF);
    assert_eq!(vm.register(15), 0);
}

#[test]
fn test_delay_timer_decays_to_zero_and_stays() {
    // r0 := 2; delay := r0; then read the timer back on three later cycles
    let mut vm = Interpretor::new(vec![
        0x60, 0x02, 0xF0, 0x15, 0xF1, 0x07, 0xF2, 0x07, 0xF3, 0x07,
    ]);

    vm.cycle(); // r0 := 2
    vm.cycle(); // delay := 2
    vm.cycle(); // delay decays to 1; r1 := 1
    vm.cycle(); // delay decays to 0; r2 := 0
    vm.cycle(); // delay stays 0; r3 := 0

    assert_eq!(vm.register(1), 1);
    assert_eq!(vm.register(2), 0);
    assert_eq!(vm.register(3), 0);
}

#[test]
fn test_wait_key_blocks_until_release() {
    // blocking key read into r5
    let mut vm = Interpretor::new(vec![0xF5, 0x0A]);

    vm.cycle();
    assert_eq!(vm.program_counter(), 0x200);
    vm.cycle();
    assert_eq!(vm.program_counter(), 0x200);

    vm.set_pressed(5);
    vm.cycle();
    assert_eq!(vm.register(5), 5);
    assert_eq!(vm.program_counter(), 0x200);
    vm.cycle();
    assert_eq!(vm.program_counter(), 0x200);

    vm.set_released(5);
    vm.cycle();
    assert_eq!(vm.program_counter(), 0x202);
}

#[test]
fn test_register_dump_advances_index() {
    // r0..r3 := 0x0A..0x0D; i := 0x300; dump r0..=r3; padded so that memory
    // reaches past 0x304
    let mut program = vec![
        0x60, 0x0A, 0x61, 0x0B, 0x62, 0x0C, 0x63, 0x0D, 0xA3, 0x00, 0xF3, 0x55,
    ];
    program.resize(0x110, 0);
    let mut vm = Interpretor::new(program);

    for _ in 0..6 {
        vm.cycle();
    }

    assert_eq!(vm.read_memory(0x300), 0x0A);
    assert_eq!(vm.read_memory(0x301), 0x0B);
    assert_eq!(vm.read_memory(0x302), 0x0C);
    assert_eq!(vm.read_memory(0x303), 0x0D);
    assert_eq!(vm.index_register(), 0x304);
}

#[test]
fn test_register_load_advances_index() {
    // i := 0x206; load r0..=r1 from the two bytes stored there
    let mut vm = Interpretor::new(vec![0xA2, 0x06, 0xF1, 0x65, 0x00, 0x00, 0x2A, 0x3B]);

    vm.cycle();
    vm.cycle();

    assert_eq!(vm.register(0), 0x2A);
    assert_eq!(vm.register(1), 0x3B);
    assert_eq!(vm.index_register(), 0x208);
}

#[test]
fn test_bcd_store() {
    // r0 := 156; i := 0x300; store its decimal digits; padded so that memory
    // reaches past 0x302
    let mut program = vec![0x60, 0x9C, 0xA3, 0x00, 0xF0, 0x33];
    program.resize(0x110, 0);
    let mut vm = Interpretor::new(program);

    vm.cycle();
    vm.cycle();
    vm.cycle();

    assert_eq!(vm.read_memory(0x300), 1);
    assert_eq!(vm.read_memory(0x301), 5);
    assert_eq!(vm.read_memory(0x302), 6);
}

#[test]
fn test_draw_instruction_sets_pixels_and_flag() {
    // i := 0x206; draw the 1-byte sprite 0x80 at (r0, r1) = (0, 0)
    let mut vm = Interpretor::new(vec![0xA2, 0x06, 0xD0, 0x11, 0x00, 0x00, 0x80]);

    vm.cycle();
    assert!(!vm.has_drawn());
    vm.cycle();

    assert!(vm.has_drawn());
    assert_eq!(vm.screen_value(0, 0), 1);
    assert_eq!(vm.screen_value(1, 0), 0);
    assert_eq!(vm.register(15), 0);
    assert_eq!(vm.screen_width(), 64);
    assert_eq!(vm.screen_height(), 32);
}

#[test]
fn test_sound_timer_drives_beep() {
    // r0 := 2; sound := r0; padded with no-ops for the decay cycles
    let mut program = vec![0x60, 0x02, 0xF0, 0x18];
    program.resize(8, 0);
    let mut vm = Interpretor::new(program);

    vm.cycle();
    assert!(!vm.is_beeping());
    vm.cycle();
    assert!(vm.is_beeping());
    vm.cycle(); // decays to 1
    assert!(vm.is_beeping());
    vm.cycle(); // decays to 0
    assert!(!vm.is_beeping());
}

#[test]
fn test_call_and_return() {
    // call 0x204; the routine there returns at once
    let mut vm = Interpretor::new(vec![0x22, 0x04, 0x00, 0x00, 0x00, 0xEE]);

    vm.cycle();
    assert_eq!(vm.program_counter(), 0x204);
    vm.cycle();
    assert_eq!(vm.program_counter(), 0x202);
}

#[test]
fn test_jump_and_skip() {
    // r0 := 5; skip next if r0 == 5; (skipped: r1 := 1); jump to 0x200
    let mut vm = Interpretor::new(vec![0x60, 0x05, 0x30, 0x05, 0x61, 0x01, 0x12, 0x00]);

    vm.cycle();
    vm.cycle();
    assert_eq!(vm.program_counter(), 0x206);
    vm.cycle();
    assert_eq!(vm.program_counter(), 0x200);
    assert_eq!(vm.register(1), 0);
}

#[test]
fn test_add_immediate_wraps_without_flag() {
    // r0 := 0xFF; r0 += 2; the flag register is untouched
    let mut vm = Interpretor::new(vec![0x60, 0xFF, 0x70, 0x02]);

    vm.cycle();
    vm.cycle();

    assert_eq!(vm.register(0), 0x01);
    assert_eq!(vm.register(15), 0);
}

#[test]
fn test_font_index_points_at_glyph() {
    // r0 := 0xC; i := font address of digit C
    let mut vm = Interpretor::new(vec![0x60, 0x0C, 0xF0, 0x29]);

    vm.cycle();
    vm.cycle();

    assert_eq!(vm.index_register(), 60);
    assert_eq!(vm.read_memory(60), 0xF0);
    assert_eq!(vm.read_memory(61), 0x80);
}

#[test]
fn test_unknown_opcode_is_a_no_op() {
    let mut vm = Interpretor::new(vec![0x00, 0x00, 0x00, 0xFF]);

    vm.cycle();
    assert_eq!(vm.program_counter(), 0x202);
    vm.cycle();
    assert_eq!(vm.program_counter(), 0x204);
    for idx in 0..16 {
        assert_eq!(vm.register(idx), 0);
    }
}

#[test]
fn test_random_register_advances() {
    // r0 := random XOR 0x00
    let mut vm = Interpretor::new(vec![0xC0, 0x00]);

    vm.cycle();

    assert_eq!(vm.program_counter(), 0x202);
}

#[test]
fn test_self_jump_finishes() {
    // jump to the jump itself
    let mut vm = Interpretor::new(vec![0x12, 0x00]);

    assert!(vm.is_finished());
    vm.cycle();
    assert!(vm.is_finished());
    assert_eq!(vm.program_counter(), 0x200);

    let other = Interpretor::new(vec![0x60, 0x01]);
    assert!(!other.is_finished());
}

#[test]
fn test_shifts_report_shifted_bits() {
    // r1 := 0x81; r0 := r1 >> 1; r2 := r1 << 1 (through the y operand)
    let mut vm = Interpretor::new(vec![0x61, 0x81, 0x80, 0x16, 0x82, 0x1E]);

    vm.cycle();
    vm.cycle();
    assert_eq!(vm.register(0), 0x40);
    assert_eq!(vm.register(15), 1);
    vm.cycle();
    assert_eq!(vm.register(2), 0x02);
    assert_eq!(vm.register(15), 1);
}
