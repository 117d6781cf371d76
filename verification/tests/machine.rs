use chip8::cpu::Chip8Error;
use chip8::Chip8;

#[test]
fn store_and_draw_two_rows() {
    let mut chip8 = Chip8::new();
    chip8
        .set_program(&[
            0x60, 0xAA, // ld v0, 0xaa
            0xF0, 0x55, // store v0 at [i], i += 1
            0x60, 0x55, // ld v0, 0x55
            0xF0, 0x55, // store v0 at [i], i += 1
            0x60, 0x00, // ld v0, 0x00
            0xA0, 0x00, // ld i, 0x000
            0xD0, 0x02, // draw 2 rows at (v0, v0)
        ])
        .unwrap();

    for _ in 0..7 {
        chip8.run().unwrap();
    }

    let buffer = chip8.get_framebuffer();
    assert_eq!(&buffer[..8], &[1, 0, 1, 0, 1, 0, 1, 0]);
    assert_eq!(&buffer[64..72], &[0, 1, 0, 1, 0, 1, 0, 1]);
}

#[test]
fn jump_with_offset() {
    let mut chip8 = Chip8::new();
    chip8
        .set_program(&[
            0x60, 0x10, // ld v0, 0x10
            0xB4, 0x00, // jmp 0x400 + v0
        ])
        .unwrap();

    chip8.run().unwrap();
    chip8.run().unwrap();
    assert_eq!(chip8.cpu.pc, 0x0410);
}

#[test]
fn unknown_instruction_halts() {
    let mut chip8 = Chip8::new();
    chip8.set_program(&[0x00, 0x00]).unwrap();
    assert_eq!(chip8.run(), Err(Chip8Error::UnknownInstruction));
}

#[test]
fn fetch_past_memory_fails() {
    let mut chip8 = Chip8::new();
    chip8.set_program(&[0x1F, 0xFF]).unwrap(); // jmp 0xfff
    chip8.run().unwrap();
    assert_eq!(chip8.cpu.pc, 0x0fff);
    assert_eq!(chip8.run(), Err(Chip8Error::OutOfBounds));
}

#[test]
fn call_depth_is_bounded() {
    let mut chip8 = Chip8::new();
    chip8.set_program(&[0x22, 0x00]).unwrap(); // call 0x200, forever
    for _ in 0..16 {
        chip8.run().unwrap();
    }
    assert_eq!(chip8.run(), Err(Chip8Error::StackOverflow));
}

#[test]
fn return_on_empty_stack_fails() {
    let mut chip8 = Chip8::new();
    chip8.set_program(&[0x00, 0xEE]).unwrap(); // ret
    assert_eq!(chip8.run(), Err(Chip8Error::StackUnderflow));
}

#[test]
fn clear_screen_instruction() {
    let mut chip8 = Chip8::new();
    chip8
        .set_program(&[
            0xA0, 0x00, // ld i, 0x000 (first font byte, 0xf0)
            0xD0, 0x01, // draw 1 row at (v0, v0)
            0x00, 0x0E, // clear the display
        ])
        .unwrap();
    chip8.run().unwrap();
    chip8.run().unwrap();
    assert_eq!(&chip8.get_framebuffer()[..4], &[1, 1, 1, 1]);
    chip8.run().unwrap();
    assert!(chip8.get_framebuffer().iter().all(|&pixel| pixel == 0));
}

#[test]
fn draw_collision_flag() {
    let mut chip8 = Chip8::new();
    chip8
        .set_program(&[
            0xA0, 0x00, // ld i, 0x000
            0xD0, 0x01, // draw glyph row 0xf0 at (0, 0): no collision
            0xA0, 0x05, // ld i, 0x005 (first byte of glyph 1, 0x20)
            0xD0, 0x01, // draw 0x20 over it: clear bits over lit pixels
        ])
        .unwrap();
    chip8.run().unwrap();
    chip8.run().unwrap();
    assert_eq!(chip8.cpu.vx[0xf], 0);
    chip8.run().unwrap();
    chip8.run().unwrap();
    assert_eq!(chip8.cpu.vx[0xf], 1);
}

#[test]
fn wait_for_key_blocks_until_pressed() {
    let mut chip8 = Chip8::new();
    chip8.set_program(&[0xF0, 0x0A]).unwrap(); // ld v0, key
    chip8.run().unwrap();
    assert_eq!(chip8.cpu.pc, 0x0200);
    chip8.run().unwrap();
    assert_eq!(chip8.cpu.pc, 0x0200);

    chip8.set_key_pressed(Some(5));
    chip8.run().unwrap();
    assert_eq!(chip8.cpu.pc, 0x0202);
    assert_eq!(chip8.cpu.vx[0], 5);
}

#[test]
fn skip_on_key_state() {
    let mut chip8 = Chip8::new();
    chip8
        .set_program(&[
            0xE0, 0x9E, // skip if key v0 pressed (it is): pc += 4
            0x00, 0x00, // skipped
            0xE0, 0xA1, // skip if key v0 not pressed (it is): pc += 2
        ])
        .unwrap();
    chip8.set_key_pressed(Some(0));
    chip8.run().unwrap();
    assert_eq!(chip8.cpu.pc, 0x0204);
    chip8.run().unwrap();
    assert_eq!(chip8.cpu.pc, 0x0206);
}

#[test]
fn timers_count_down() {
    let mut chip8 = Chip8::new();
    chip8
        .set_program(&[
            0x60, 0x05, // ld v0, 5
            0xF0, 0x15, // ld dt, v0
            0xF0, 0x18, // ld st, v0
            0xF1, 0x07, // ld v1, dt
        ])
        .unwrap();
    chip8.run().unwrap();
    chip8.run().unwrap();
    chip8.run().unwrap();
    assert_eq!(chip8.cpu.delay_timer, 5);
    assert_eq!(chip8.cpu.sound_timer, 5);

    chip8.tick_timers();
    chip8.tick_timers();
    assert_eq!(chip8.cpu.delay_timer, 3);
    assert_eq!(chip8.cpu.sound_timer, 3);

    chip8.run().unwrap();
    assert_eq!(chip8.cpu.vx[1], 3);

    let mut idle = Chip8::new();
    idle.tick_timers();
    assert_eq!(idle.cpu.delay_timer, 0);
    assert_eq!(idle.cpu.sound_timer, 0);
}

#[test]
fn random_masked_with_zero_is_zero() {
    let mut chip8 = Chip8::new();
    chip8.set_program(&[0x61, 0xFF, 0xC1, 0x00]).unwrap(); // ld v1, 0xff; rnd v1 & 0x00
    chip8.run().unwrap();
    chip8.run().unwrap();
    assert_eq!(chip8.cpu.vx[1], 0);
    assert_eq!(chip8.cpu.pc, 0x0204);
}

#[test]
fn decimal_decomposition() {
    let mut chip8 = Chip8::new();
    chip8
        .set_program(&[
            0x60, 0x9C, // ld v0, 156
            0xA3, 0x00, // ld i, 0x300
            0xF0, 0x33, // store digits of v0 at [i]
        ])
        .unwrap();
    chip8.run().unwrap();
    chip8.run().unwrap();
    chip8.run().unwrap();
    assert_eq!(chip8.bus.read_ram(0x300).unwrap(), 1);
    assert_eq!(chip8.bus.read_ram(0x301).unwrap(), 5);
    assert_eq!(chip8.bus.read_ram(0x302).unwrap(), 6);
}

#[test]
fn store_and_load_registers() {
    let mut chip8 = Chip8::new();
    chip8
        .set_program(&[
            0x60, 0x0A, // ld v0, 0x0a
            0x61, 0x0B, // ld v1, 0x0b
            0xA3, 0x00, // ld i, 0x300
            0xF1, 0x55, // store v0..=v1 at [i], i += 2
            0x60, 0x00, // ld v0, 0
            0x61, 0x00, // ld v1, 0
            0xA3, 0x00, // ld i, 0x300
            0xF1, 0x65, // load v0..=v1 from [i], i += 2
        ])
        .unwrap();
    for _ in 0..8 {
        chip8.run().unwrap();
    }
    assert_eq!(chip8.cpu.vx[0], 0x0A);
    assert_eq!(chip8.cpu.vx[1], 0x0B);
    assert_eq!(chip8.cpu.i, 0x302);
}

#[test]
fn font_glyph_lookup() {
    let mut chip8 = Chip8::new();
    chip8
        .set_program(&[
            0x60, 0x0A, // ld v0, 0x0a
            0xF0, 0x29, // ld i, glyph(v0)
        ])
        .unwrap();
    chip8.run().unwrap();
    chip8.run().unwrap();
    assert_eq!(chip8.cpu.i, 50);
    // the glyph for digit a, byte for byte
    assert_eq!(chip8.bus.read_ram(50).unwrap(), 0xF0);
    assert_eq!(chip8.bus.read_ram(51).unwrap(), 0x90);
    assert_eq!(chip8.bus.read_ram(52).unwrap(), 0xF0);
    assert_eq!(chip8.bus.read_ram(53).unwrap(), 0x90);
    assert_eq!(chip8.bus.read_ram(54).unwrap(), 0x90);
}

#[test]
fn add_to_index_register() {
    let mut chip8 = Chip8::new();
    chip8
        .set_program(&[
            0xA1, 0x23, // ld i, 0x123
            0x60, 0x10, // ld v0, 0x10
            0xF0, 0x1E, // add i, v0
        ])
        .unwrap();
    chip8.run().unwrap();
    chip8.run().unwrap();
    chip8.run().unwrap();
    assert_eq!(chip8.cpu.i, 0x133);
}

#[test]
fn program_image_too_large_is_rejected() {
    let mut chip8 = Chip8::new();
    let image = vec![0u8; 4096 - 0x200];
    assert!(chip8.set_program(&image).is_err());
    let fits = vec![0u8; 4096 - 0x200 - 1];
    assert!(chip8.set_program(&fits).is_ok());
}
