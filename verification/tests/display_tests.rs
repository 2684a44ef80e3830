use chippy::display::Display;

#[test]
fn test_aligned_draw() {
    let mut screen = Display::new(16, 2);
    let sprite: Vec<u8> = vec![0xFF, 0xAE];

    screen.draw(8, 0, &sprite);

    assert_eq!(*screen.buffer(), vec![0x00, 0xFF, 0x00, 0xAE]);
}

#[test]
fn test_non_aligned_draw() {
    let mut screen = Display::new(16, 2);
    let sprite: Vec<u8> = vec![0x12, 0xAE];

    screen.draw(5, 0, &sprite);

    assert_eq!(*screen.buffer(), vec![0x00, 0x90, 0x05, 0x70]);
}

#[test]
fn test_wrap_draw() {
    let mut screen = Display::new(16, 2);
    let sprite: Vec<u8> = vec![0x12, 0xAE];

    screen.draw(16, 2, &sprite);

    assert_eq!(*screen.buffer(), vec![0x12, 0x00, 0xAE, 0x00]);
}

#[test]
fn test_clip_draw() {
    let mut screen = Display::new(16, 2);
    let sprite: Vec<u8> = vec![0xFF, 0xFF];

    screen.draw(10, 1, &sprite);

    assert_eq!(*screen.buffer(), vec![0x00, 0x00, 0x00, 0x3F]);
}

#[test]
fn test_clear() {
    let mut screen = Display::new(16, 2);
    let sprite: Vec<u8> = vec![0x12, 0xAE];

    screen.draw(5, 0, &sprite);
    screen.clear();

    assert_eq!(*screen.buffer(), vec![0x00, 0x00, 0x00, 0x00]);
}

#[test]
fn test_draw_reports_no_collision_on_cleared_display() {
    let mut screen = Display::new(16, 2);

    let collided = screen.draw(8, 0, &[0xFF, 0xAE]);

    assert!(!collided);
}

#[test]
fn test_redraw_reports_collision() {
    let mut screen = Display::new(16, 2);

    let first = screen.draw(3, 0, &[0xFF, 0xFF]);
    let second = screen.draw(3, 0, &[0xFF, 0xFF]);

    assert!(!first);
    assert!(second);
    // every set bit flipped back to clear
    assert_eq!(*screen.buffer(), vec![0x00, 0x00, 0x00, 0x00]);
}

#[test]
fn test_wrap_draw_matches_origin_draw() {
    let mut wrapped = Display::new(16, 2);
    let mut plain = Display::new(16, 2);

    wrapped.draw(16, 2, &[0x12, 0xAE]);
    plain.draw(0, 0, &[0x12, 0xAE]);

    assert_eq!(*wrapped.buffer(), *plain.buffer());
}

#[test]
fn test_empty_sprite_draws_nothing() {
    let mut screen = Display::new(16, 2);

    let collided = screen.draw(4, 1, &[]);

    assert!(!collided);
    assert_eq!(*screen.buffer(), vec![0x00, 0x00, 0x00, 0x00]);
}

#[test]
fn test_get_reads_single_pixels() {
    let mut screen = Display::new(16, 2);

    screen.draw(8, 0, &[0x80]);

    assert_eq!(screen.get(8, 0), 1);
    assert_eq!(screen.get(9, 0), 0);
    assert_eq!(screen.get(8, 1), 0);
    assert_eq!(screen.width(), 16);
    assert_eq!(screen.height(), 2);
}
