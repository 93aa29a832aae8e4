//! Display-level scenarios: sprite wrapping and the XOR involution.

use chip8_core::{Emu, SCREEN_WIDTH};

fn machine_running(rom: &[u8], ticks: usize) -> Emu {
    let mut emu = Emu::new();
    emu.load(rom).expect("rom fits");
    for _ in 0..ticks {
        emu.tick().expect("tick runs");
    }
    emu
}

#[test]
fn sprite_wraps_at_the_right_edge() {
    // V0 := 63; V1 := 0; I := the sprite byte 0xC0 (two leftmost bits);
    // draw one row at (63, 0): pixel (63, 0) lights and the second column
    // wraps to (0, 0).
    let rom = [0x60, 0x3F, 0x61, 0x00, 0xA2, 0x0A, 0xD0, 0x11, 0x00, 0x00, 0xC0];
    let emu = machine_running(&rom, 4);
    let display = emu.get_display();
    assert!(display[63]);
    assert!(display[0]);
    assert_eq!(display.iter().filter(|p| **p).count(), 2);
}

#[test]
fn sprite_wraps_at_the_bottom_edge() {
    // Draw two rows at (60, 31): the first row sits on the last line, the
    // second wraps to line 0; columns 60..67 wrap to 60..63 and 0..3.
    let rom = [0x60, 0x3C, 0x61, 0x1F, 0xA2, 0x08, 0xD0, 0x12, 0xFF, 0xFF];
    let emu = machine_running(&rom, 4);
    let display = emu.get_display();
    for x in [60usize, 61, 62, 63, 0, 1, 2, 3] {
        assert!(display[31 * SCREEN_WIDTH + x]);
        assert!(display[x]);
    }
    assert_eq!(display.iter().filter(|p| **p).count(), 16);
}

#[test]
fn drawing_twice_restores_the_display() {
    // The same two-row sprite drawn twice at (60, 31): the first draw meets
    // a blank screen (no collision), the second draw lands wholly on its
    // own pixels, erases them all, and reports the collision in VF.
    let rom = [
        0x60, 0x3C, 0x61, 0x1F, 0xA2, 0x0C, 0xD0, 0x12, 0xD0, 0x12, 0xFF, 0x15, 0xFF, 0x81,
    ];
    let mut emu = machine_running(&rom, 4);
    let lit = emu.get_display().iter().filter(|p| **p).count();
    assert_eq!(lit, 10);
    emu.tick().expect("second draw");
    assert!(emu.get_display().iter().all(|p| !p));
    emu.tick().expect("read flag");
    assert_eq!(emu.get_delay_timer(), 1);
}

#[test]
fn first_draw_on_blank_screen_reports_no_collision() {
    let rom = [0x60, 0x00, 0x61, 0x00, 0xA2, 0x0A, 0xD0, 0x11, 0xFF, 0x15, 0xF0];
    let emu = machine_running(&rom, 5);
    assert_eq!(emu.get_delay_timer(), 0);
}

#[test]
fn overlapping_draws_xor_and_collide() {
    // One row 0xF0 at (0, 0), then 0x30 at the same spot: the overlap
    // erases two pixels, the XOR leaves exactly 0xC0, and VF reports 1.
    let rom = [
        0x60, 0x00, 0xA2, 0x0E, 0xD0, 0x01, 0xA2, 0x0F, 0xD0, 0x01, 0xFF, 0x15, 0x00, 0x00, 0xF0,
        0x30,
    ];
    let mut emu = machine_running(&rom, 5);
    let display = emu.get_display();
    assert!(display[0] && display[1]);
    assert!(!display[2] && !display[3] && !display[4]);
    assert_eq!(display.iter().filter(|p| **p).count(), 2);
    emu.tick().expect("read flag");
    assert_eq!(emu.get_delay_timer(), 1);
}
