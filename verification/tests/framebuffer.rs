use doom_iow::framebuffer::WHITE;
use doom_iow::{FrameError, Framebuffer};

#[test]
fn new_target_is_white() {
    let fb = Framebuffer::new(3, 2);
    assert_eq!(fb.width(), 3);
    assert_eq!(fb.height(), 2);
    assert_eq!(fb.pixels(), &vec![WHITE; 6]);
}

#[test]
fn new_target_may_be_empty() {
    let fb = Framebuffer::new(0, 5);
    assert_eq!(fb.width(), 0);
    assert_eq!(fb.height(), 5);
    assert!(fb.pixels().is_empty());
}

#[test]
fn clear_fills_every_pixel() {
    let mut fb = Framebuffer::new(4, 3);
    fb.set_pixel(1, 1, 5).unwrap();
    fb.clear(7);
    assert_eq!(fb.pixels(), &vec![7u32; 12]);
    assert_eq!(fb.width(), 4);
    assert_eq!(fb.height(), 3);
}

#[test]
fn set_pixel_writes_row_by_row() {
    let mut fb = Framebuffer::new(3, 2);
    assert_eq!(fb.set_pixel(2, 1, 5), Ok(()));
    assert_eq!(fb.set_pixel(0, 0, 6), Ok(()));
    assert_eq!(fb.set_pixel(1, 0, 8), Ok(()));
    assert_eq!(fb.pixels(), &vec![6, 8, WHITE, WHITE, WHITE, 5]);
}

#[test]
fn set_pixel_outside_fails_and_changes_nothing() {
    let mut fb = Framebuffer::new(3, 2);
    assert_eq!(fb.set_pixel(3, 0, 5), Err(FrameError::PixelOutOfBounds));
    assert_eq!(fb.set_pixel(0, 2, 5), Err(FrameError::PixelOutOfBounds));
    assert_eq!(fb.set_pixel(3, 1, 5), Err(FrameError::PixelOutOfBounds));
    assert_eq!(fb.set_pixel(usize::MAX, usize::MAX, 5), Err(FrameError::PixelOutOfBounds));
    assert_eq!(fb.pixels(), &vec![WHITE; 6]);
}

#[test]
fn set_pixel_does_not_wrap_into_the_next_row() {
    // Column 3 of row 0 would be stored where column 0 of row 1 is.
    let mut fb = Framebuffer::new(3, 2);
    assert_eq!(fb.set_pixel(3, 0, 5), Err(FrameError::PixelOutOfBounds));
    assert_eq!(fb.pixels()[3], WHITE);
}

#[test]
fn rectangle_inside_is_filled() {
    let mut fb = Framebuffer::new(4, 4);
    assert_eq!(fb.draw_rectangle(1, 1, 2, 2, 9), Ok(()));
    let w = WHITE;
    assert_eq!(
        fb.pixels(),
        &vec![w, w, w, w, w, 9, 9, w, w, 9, 9, w, w, w, w, w]
    );
}

#[test]
fn rectangle_is_clipped_at_the_edges() {
    let mut fb = Framebuffer::new(3, 3);
    assert_eq!(fb.draw_rectangle(2, 1, 5, 5, 9), Ok(()));
    let w = WHITE;
    assert_eq!(fb.pixels(), &vec![w, w, w, w, w, 9, w, w, 9]);
}

#[test]
fn rectangle_outside_draws_nothing() {
    let mut fb = Framebuffer::new(3, 3);
    assert_eq!(fb.draw_rectangle(3, 0, 2, 2, 9), Ok(()));
    assert_eq!(fb.draw_rectangle(0, 3, 2, 2, 9), Ok(()));
    assert_eq!(fb.draw_rectangle(usize::MAX, usize::MAX, 2, 2, 9), Ok(()));
    assert_eq!(fb.pixels(), &vec![WHITE; 9]);
}

#[test]
fn rectangle_without_area_draws_nothing() {
    let mut fb = Framebuffer::new(3, 3);
    assert_eq!(fb.draw_rectangle(1, 1, 0, 2, 9), Ok(()));
    assert_eq!(fb.draw_rectangle(1, 1, 2, 0, 9), Ok(()));
    assert_eq!(fb.pixels(), &vec![WHITE; 9]);
}

#[test]
fn huge_rectangle_covers_the_target() {
    let mut fb = Framebuffer::new(3, 2);
    assert_eq!(fb.draw_rectangle(0, 0, usize::MAX, usize::MAX, 4), Ok(()));
    assert_eq!(fb.pixels(), &vec![4u32; 6]);
}
