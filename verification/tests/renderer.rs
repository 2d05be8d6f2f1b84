use frame_renderer::events::{AppEvent, ESCAPE_KEYCODE};
use frame_renderer::renderer::FrameRenderer;
use frame_renderer::scale::{ConfigError, DstRect};

#[test]
fn new_rejects_zero_extents() {
    assert_eq!(
        FrameRenderer::new(0, 240).unwrap_err(),
        ConfigError::ZeroBufferDimension
    );
    assert_eq!(
        FrameRenderer::new(320, 0).unwrap_err(),
        ConfigError::ZeroBufferDimension
    );
}

#[test]
fn new_starts_without_exit_request() {
    let renderer = FrameRenderer::new(320, 240).unwrap();
    assert_eq!(renderer.width, 320);
    assert_eq!(renderer.height, 240);
    assert!(!renderer.should_quit);
}

#[test]
fn quit_event_requests_exit() {
    let mut renderer = FrameRenderer::new(320, 240).unwrap();
    renderer.handle_event(&AppEvent::Quit);
    assert!(renderer.should_quit);
}

#[test]
fn escape_key_requests_exit() {
    let mut renderer = FrameRenderer::new(320, 240).unwrap();
    renderer.handle_event(&AppEvent::KeyPressed(ESCAPE_KEYCODE));
    assert!(renderer.should_quit);
}

#[test]
fn other_keys_and_events_are_ignored() {
    let mut renderer = FrameRenderer::new(320, 240).unwrap();
    renderer.handle_event(&AppEvent::KeyPressed(97));
    renderer.handle_event(&AppEvent::Other);
    assert!(!renderer.should_quit);
}

#[test]
fn exit_request_is_sticky() {
    let mut renderer = FrameRenderer::new(320, 240).unwrap();
    renderer.handle_key(ESCAPE_KEYCODE);
    assert!(renderer.should_quit);
    renderer.handle_event(&AppEvent::Other);
    renderer.handle_key(97);
    assert!(renderer.should_quit);
}

#[test]
fn draw_frame_fills_buffer_and_scales() {
    let renderer = FrameRenderer::new(8, 6).unwrap();
    let pitch = 32usize;
    let mut data = vec![0xEEu8; pitch * 6];
    let rect = renderer.draw_frame(&mut data, pitch, 800, 600);
    // 8:6 and 800:600 have the same aspect ratio: the surface is filled
    assert_eq!(
        rect,
        DstRect { x: 0, y: 0, width: 800, height: 600 }
    );
    for y in 0..6usize {
        for x in 0..8usize {
            let base = pitch * y + 4 * x;
            let expected_green = if x > y { 255 } else { 0 };
            assert_eq!(data[base], 0);
            assert_eq!(data[base + 1], expected_green);
            assert_eq!(data[base + 2], 0);
            assert_eq!(data[base + 3], 0xEE);
        }
    }
}
