use chip8::framebuffer::{Framebuffer, HEIGHT, WIDTH};

#[test]
fn draw_byte() {
    let mut framebuffer = Framebuffer::new();

    let byte = 0b01010101;
    let x = 0;
    let y = 5;
    let index = Framebuffer::xy_to_index(x as usize, y as usize);
    let expected = &[0, 1, 0, 1, 0, 1, 0, 1];

    framebuffer.draw(x, y, byte);
    let actual = &framebuffer.get_buffer()[index..index + 8];

    assert_eq!(actual, expected);
}

#[test]
fn collision() {
    let mut framebuffer = Framebuffer::new();

    let byte1 = 0b11100001;
    let byte2 = 0b00000001;
    let x = 0;
    let y = 5;

    let has_collision = framebuffer.draw(x, y, byte1);
    assert!(!has_collision);

    let has_collision = framebuffer.draw(x, y, byte2);
    assert!(has_collision);
}

#[test]
fn wrapping_x() {
    let mut framebuffer = Framebuffer::new();

    let byte = 0b11100001;
    let x = (WIDTH - 4) as u8;
    let y = 0;

    framebuffer.draw(x, y, byte);
    let start = &framebuffer.get_buffer()[..4];
    let end = &framebuffer.get_buffer()[60..64];
    assert_eq!(start, &[0, 0, 0, 1]);
    assert_eq!(end, &[1, 1, 1, 0]);
}

#[test]
fn wrapping_y() {
    let mut framebuffer = Framebuffer::new();

    let byte = 0b11100001;
    let x = 0;
    let y = (HEIGHT + 1) as u8;
    let index = Framebuffer::xy_to_index(0, 1);

    framebuffer.draw(x, y, byte);
    let actual = &framebuffer.get_buffer()[index..index + 8];
    assert_eq!(actual, &[1, 1, 1, 0, 0, 0, 0, 1]);
}

#[test]
fn xy_to_index() {
    let x = 4;
    let y = 20;
    let expected = 1284;
    let actual = Framebuffer::xy_to_index(x, y);

    assert_eq!(actual, expected);
}

#[test]
fn wrapping_x_at_62() {
    let mut framebuffer = Framebuffer::new();

    framebuffer.draw(62, 0, 0xff);
    let buffer = framebuffer.get_buffer();
    assert_eq!(&buffer[62..64], &[1, 1]);
    assert_eq!(&buffer[..6], &[1, 1, 1, 1, 1, 1]);
    assert_eq!(buffer[6], 0);
}

#[test]
fn clear_row_never_collides() {
    let mut framebuffer = Framebuffer::new();
    assert!(!framebuffer.draw(10, 10, 0x00));
    assert!(!framebuffer.draw(11, 11, 0xff));
    assert!(!framebuffer.draw(12, 12, 0xa5));
}

#[test]
fn clear_resets_every_pixel() {
    let mut framebuffer = Framebuffer::new();
    framebuffer.draw(0, 0, 0xff);
    framebuffer.clear();
    assert!(framebuffer.get_buffer().iter().all(|&pixel| pixel == 0));
}
