//! Exact results of the arithmetic, logic, flow and memory opcodes.  A
//! register Vx is made observable by running `dt := Vx` (opcode Fx15) and
//! reading the delay timer back.

use chip8_core::{Chip8Error, Emu};

fn machine_running(rom: &[u8], ticks: usize) -> Emu {
    let mut emu = Emu::new();
    emu.load(rom).expect("rom fits");
    for _ in 0..ticks {
        emu.tick().expect("tick runs");
    }
    emu
}

/// The delay timer after running `rom` whole, one tick per word.
fn timer_after(rom: &[u8]) -> u8 {
    let emu = machine_running(rom, rom.len() / 2);
    emu.get_delay_timer()
}

#[test]
fn add_with_carry_wraps_and_flags() {
    // V1 := 200; V2 := 100; V1 += V2: 300 wraps to 44 and VF reports 1.
    let rom = [0x61, 0xC8, 0x62, 0x64, 0x81, 0x24, 0xF1, 0x15, 0xFF, 0x15];
    let mut emu = machine_running(&rom, 4);
    assert_eq!(emu.get_delay_timer(), 44);
    emu.tick().expect("read flag");
    assert_eq!(emu.get_delay_timer(), 1);
}

#[test]
fn add_without_carry_clears_flag() {
    let rom = [0x61, 0x14, 0x62, 0x1E, 0x81, 0x24, 0xF1, 0x15, 0xFF, 0x15];
    let mut emu = machine_running(&rom, 4);
    assert_eq!(emu.get_delay_timer(), 50);
    emu.tick().expect("read flag");
    assert_eq!(emu.get_delay_timer(), 0);
}

#[test]
fn sub_with_borrow_wraps_and_clears_flag() {
    // V1 := 10; V2 := 20; V1 -= V2: 10 - 20 wraps to 246, VF := 0 (borrow).
    let rom = [0x61, 0x0A, 0x62, 0x14, 0x81, 0x25, 0xF1, 0x15, 0xFF, 0x15];
    let mut emu = machine_running(&rom, 4);
    assert_eq!(emu.get_delay_timer(), 246);
    emu.tick().expect("read flag");
    assert_eq!(emu.get_delay_timer(), 0);
}

#[test]
fn sub_without_borrow_sets_flag() {
    let rom = [0x61, 0x14, 0x62, 0x0A, 0x81, 0x25, 0xF1, 0x15, 0xFF, 0x15];
    let mut emu = machine_running(&rom, 4);
    assert_eq!(emu.get_delay_timer(), 10);
    emu.tick().expect("read flag");
    assert_eq!(emu.get_delay_timer(), 1);
}

#[test]
fn reverse_sub_sets_flag() {
    // V1 := 10; V2 := 20; V1 := V2 - V1 = 10, no borrow so VF := 1.
    let rom = [0x61, 0x0A, 0x62, 0x14, 0x81, 0x27, 0xF1, 0x15, 0xFF, 0x15];
    let mut emu = machine_running(&rom, 4);
    assert_eq!(emu.get_delay_timer(), 10);
    emu.tick().expect("read flag");
    assert_eq!(emu.get_delay_timer(), 1);
}

#[test]
fn immediate_add_wraps_without_flag() {
    // V1 := 254 with VF set to 1 by a carry first; V1 += 3 wraps to 1 and
    // must leave VF alone.
    let rom = [0x61, 0xFF, 0x62, 0xFF, 0x81, 0x24, 0x71, 0x03, 0xF1, 0x15, 0xFF, 0x15];
    let mut emu = machine_running(&rom, 5);
    assert_eq!(emu.get_delay_timer(), 1);
    emu.tick().expect("read flag");
    assert_eq!(emu.get_delay_timer(), 1);
}

#[test]
fn bitwise_or_and_xor() {
    assert_eq!(timer_after(&[0x61, 0x33, 0x62, 0x0F, 0x81, 0x21, 0xF1, 0x15]), 0x3F);
    assert_eq!(timer_after(&[0x61, 0x33, 0x62, 0x0F, 0x81, 0x22, 0xF1, 0x15]), 0x03);
    assert_eq!(timer_after(&[0x61, 0x33, 0x62, 0x0F, 0x81, 0x23, 0xF1, 0x15]), 0x3C);
}

#[test]
fn move_register() {
    assert_eq!(timer_after(&[0x62, 0x7B, 0x81, 0x20, 0xF1, 0x15]), 0x7B);
}

#[test]
fn shift_right_keeps_low_bit_in_flag() {
    let rom = [0x61, 0x05, 0x81, 0x06, 0xF1, 0x15, 0xFF, 0x15];
    let mut emu = machine_running(&rom, 3);
    assert_eq!(emu.get_delay_timer(), 2);
    emu.tick().expect("read flag");
    assert_eq!(emu.get_delay_timer(), 1);
}

#[test]
fn shift_left_keeps_high_bit_in_flag() {
    let rom = [0x61, 0x81, 0x81, 0x0E, 0xF1, 0x15, 0xFF, 0x15];
    let mut emu = machine_running(&rom, 3);
    assert_eq!(emu.get_delay_timer(), 0x02);
    emu.tick().expect("read flag");
    assert_eq!(emu.get_delay_timer(), 1);
}

#[test]
fn immediate_skips_take_the_right_branch() {
    // V3 := 5; skip over "V1 := 7" since V3 == 5; do not skip over
    // "V2 := 8" since V3 != 6; then read V1 (untouched) and V2.
    let rom = [0x63, 0x05, 0x33, 0x05, 0x61, 0x07, 0x33, 0x06, 0x62, 0x08, 0xF1, 0x15, 0xF2, 0x15];
    let mut emu = machine_running(&rom, 5);
    assert_eq!(emu.get_delay_timer(), 0);
    emu.tick().expect("read V2");
    assert_eq!(emu.get_delay_timer(), 8);
}

#[test]
fn register_skips_take_the_right_branch() {
    // V3 := 5; V4 := 5; skip-if-equal skips; skip-if-unequal does not;
    // not-equal immediate skips.
    let rom = [
        0x63, 0x05, 0x64, 0x05, 0x53, 0x40, 0x61, 0x01, 0x93, 0x40, 0x62, 0x02, 0x43, 0x06, 0x63,
        0x03, 0xF1, 0x15, 0xF2, 0x15, 0xF3, 0x15,
    ];
    let mut emu = machine_running(&rom, 7);
    assert_eq!(emu.get_delay_timer(), 0);
    emu.tick().expect("read V2");
    assert_eq!(emu.get_delay_timer(), 2);
    emu.tick().expect("read V3");
    assert_eq!(emu.get_delay_timer(), 5);
}

#[test]
fn call_and_return_round_trip() {
    // Call a routine that sets V1 := 0x42 and returns; then V2 := 5.
    let rom = [0x22, 0x08, 0x62, 0x05, 0xF1, 0x15, 0xF2, 0x15, 0x61, 0x42, 0x00, 0xEE];
    let mut emu = machine_running(&rom, 5);
    assert_eq!(emu.get_delay_timer(), 0x42);
    emu.tick().expect("read V2");
    assert_eq!(emu.get_delay_timer(), 5);
}

#[test]
fn jump_with_offset_uses_v0() {
    // V0 := 2; jump to V0 + 0x202 = 0x204, past the poisoned word.
    let rom = [0x60, 0x02, 0xB2, 0x02, 0x61, 0x07, 0xF1, 0x15];
    let emu = machine_running(&rom, 4);
    assert_eq!(emu.get_delay_timer(), 7);
}

#[test]
fn plain_jump_lands_exactly() {
    let rom = [0x12, 0x06, 0x00, 0xEE, 0x00, 0xEE, 0x61, 0x09, 0xF1, 0x15];
    let emu = machine_running(&rom, 3);
    assert_eq!(emu.get_delay_timer(), 9);
}

#[test]
fn random_byte_is_masked() {
    // A zero mask forces V0 := 0 whatever byte was drawn.
    assert_eq!(timer_after(&[0xC0, 0x00, 0xF0, 0x15]), 0);
}

#[test]
fn binary_coded_decimal_digits() {
    // V0 := 254; its digits 2, 5, 4 go to memory at I and are read back
    // into V0..V2.
    let rom = [0x60, 0xFE, 0xA3, 0x00, 0xF0, 0x33, 0xF2, 0x65, 0xF0, 0x15, 0xF1, 0x15, 0xF2, 0x15];
    let mut emu = machine_running(&rom, 5);
    assert_eq!(emu.get_delay_timer(), 2);
    emu.tick().expect("read V1");
    assert_eq!(emu.get_delay_timer(), 5);
    emu.tick().expect("read V2");
    assert_eq!(emu.get_delay_timer(), 4);
}

#[test]
fn store_and_reload_registers() {
    // V0 := 0x11; V1 := 0x22; store V0..V1 at 0x310; zero both; load back.
    let rom = [
        0x60, 0x11, 0x61, 0x22, 0xA3, 0x10, 0xF1, 0x55, 0x60, 0x00, 0x61, 0x00, 0xF1, 0x65, 0xF0,
        0x15, 0xF1, 0x15,
    ];
    let mut emu = machine_running(&rom, 8);
    assert_eq!(emu.get_delay_timer(), 0x11);
    emu.tick().expect("read V1");
    assert_eq!(emu.get_delay_timer(), 0x22);
}

#[test]
fn add_to_index_moves_the_window() {
    // I := 0x300; V0 := 5; I += V0; store digits of 123 at 0x305 and read
    // them back from there.
    let rom = [
        0xA3, 0x00, 0x60, 0x05, 0xF0, 0x1E, 0x60, 0x7B, 0xF0, 0x33, 0xF2, 0x65, 0xF0, 0x15, 0xF1,
        0x15, 0xF2, 0x15,
    ];
    let mut emu = machine_running(&rom, 7);
    assert_eq!(emu.get_delay_timer(), 1);
    emu.tick().expect("read V1");
    assert_eq!(emu.get_delay_timer(), 2);
    emu.tick().expect("read V2");
    assert_eq!(emu.get_delay_timer(), 3);
}

#[test]
fn key_skips_follow_key_state() {
    // V3 := 3; skip-if-pressed and skip-if-not-pressed on key 3.
    let rom = [0x63, 0x03, 0xE3, 0x9E, 0x61, 0x01, 0xE3, 0xA1, 0x62, 0x02, 0xF1, 0x15, 0xF2, 0x15];
    // Key 3 held: the first skip fires, the second does not.
    let mut emu = Emu::new();
    emu.load(&rom).expect("rom fits");
    emu.keypress(3, true);
    for _ in 0..4 {
        emu.tick().expect("tick runs");
    }
    emu.tick().expect("read V1");
    assert_eq!(emu.get_delay_timer(), 0);
    emu.tick().expect("read V2");
    assert_eq!(emu.get_delay_timer(), 2);
    // Key 3 up: the branches swap.
    let mut emu = Emu::new();
    emu.load(&rom).expect("rom fits");
    emu.keypress(3, true);
    emu.keypress(3, false);
    for _ in 0..4 {
        emu.tick().expect("tick runs");
    }
    emu.tick().expect("read V1");
    assert_eq!(emu.get_delay_timer(), 1);
    emu.tick().expect("read V2");
    assert_eq!(emu.get_delay_timer(), 0);
}

#[test]
fn wait_for_key_blocks_until_pressed() {
    // The first word waits for a key into V1; then dt := V1.
    let rom = [0xF1, 0x0A, 0xF1, 0x15];
    let mut emu = Emu::new();
    emu.load(&rom).expect("rom fits");
    // With no key pressed the instruction re-arms itself: however often the
    // machine ticks, the follower never runs.
    for _ in 0..5 {
        assert_eq!(emu.tick(), Ok(()));
        assert_eq!(emu.get_delay_timer(), 0);
    }
    // Pressing key 3 lets one tick read it and move on.
    emu.keypress(3, true);
    emu.tick().expect("read key");
    emu.tick().expect("write dt");
    assert_eq!(emu.get_delay_timer(), 3);
}

#[test]
fn wait_for_key_takes_lowest_pressed() {
    let rom = [0xF1, 0x0A, 0xF1, 0x15];
    let mut emu = Emu::new();
    emu.load(&rom).expect("rom fits");
    emu.keypress(9, true);
    emu.keypress(4, true);
    emu.tick().expect("read key");
    emu.tick().expect("write dt");
    assert_eq!(emu.get_delay_timer(), 4);
}

#[test]
fn halted_machine_reports_the_same_error_again() {
    let mut emu = Emu::new();
    emu.load(&[0x00, 0xEE]).expect("rom fits");
    assert_eq!(emu.tick(), Err(Chip8Error::StackUnderflow));
    assert_eq!(emu.tick(), Err(Chip8Error::StackUnderflow));
}
