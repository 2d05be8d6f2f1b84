use frame_renderer::scale::{letterbox, ConfigError, DstRect};

#[test]
fn scenario_320x240_into_800x600_fills_exactly() {
    // ratio = min(800/320, 600/240) = min(2.5, 2.5) = 2.5
    let rect = letterbox(320, 240, 800, 600).unwrap();
    assert_eq!(
        rect,
        DstRect { x: 0, y: 0, width: 800, height: 600 }
    );
}

#[test]
fn scenario_320x240_into_640x600_letterboxes_vertically() {
    // ratio = min(640/320, 600/240) = min(2.0, 2.5) = 2.0
    let rect = letterbox(320, 240, 640, 600).unwrap();
    assert_eq!(
        rect,
        DstRect { x: 0, y: 60, width: 640, height: 480 }
    );
}

#[test]
fn zero_buffer_width_rejected() {
    assert_eq!(
        letterbox(0, 240, 640, 600),
        Err(ConfigError::ZeroBufferDimension)
    );
}

#[test]
fn zero_buffer_height_rejected() {
    assert_eq!(
        letterbox(320, 0, 640, 600),
        Err(ConfigError::ZeroBufferDimension)
    );
}

#[test]
fn zero_surface_is_not_an_error() {
    let rect = letterbox(320, 240, 0, 0).unwrap();
    assert_eq!(
        rect,
        DstRect { x: 0, y: 0, width: 0, height: 0 }
    );
}

#[test]
fn error_message_names_the_problem() {
    let err = letterbox(0, 0, 640, 600).unwrap_err();
    assert_eq!(err.message(), "pixel buffer width and height must be nonzero");
}

#[test]
fn equal_aspect_ratio_fills_surface() {
    let rect = letterbox(100, 50, 400, 200).unwrap();
    assert_eq!(
        rect,
        DstRect { x: 0, y: 0, width: 400, height: 200 }
    );
}

#[test]
fn width_is_the_limiting_axis() {
    // 300/100 < 500/100: the width fits exactly, the height is centered.
    let rect = letterbox(100, 100, 300, 500).unwrap();
    assert_eq!(
        rect,
        DstRect { x: 0, y: 100, width: 300, height: 300 }
    );
}

#[test]
fn height_is_the_limiting_axis() {
    // 300/100 < 500/100 on the other axis: symmetric case.
    let rect = letterbox(100, 100, 500, 300).unwrap();
    assert_eq!(
        rect,
        DstRect { x: 100, y: 0, width: 300, height: 300 }
    );
}

#[test]
fn halves_round_up() {
    // ratio = min(200/1, 3/2) = 1.5; width 1 * 1.5 = 1.5 rounds to 2,
    // x = round((200 - 1.5) / 2) = round(99.25) = 99.
    let rect = letterbox(1, 2, 200, 3).unwrap();
    assert_eq!(
        rect,
        DstRect { x: 99, y: 0, width: 2, height: 3 }
    );
}

#[test]
fn rectangle_stays_within_awkward_surfaces() {
    // exact values: ratio = min(100/7, 10/3) = 10/3;
    // width = round(70/3) = 23, x = round((100 - 70/3)/2) = 38.
    let rect = letterbox(7, 3, 100, 10).unwrap();
    assert_eq!(
        rect,
        DstRect { x: 38, y: 0, width: 23, height: 10 }
    );
    // containment and aspect-ratio tolerance, over a sweep of odd extents
    let bufs = [(1u32, 1u32), (3, 7), (13, 5), (640, 481), (1, 999)];
    let wins = [(1u32, 1u32), (2, 3), (99, 100), (801, 599), (1000, 1)];
    for &(bw, bh) in bufs.iter() {
        for &(ww, wh) in wins.iter() {
            let rect = letterbox(bw, bh, ww, wh).unwrap();
            assert!(rect.x + rect.width <= ww);
            assert!(rect.y + rect.height <= wh);
            // the cross products height * bw and width * bh agree up to
            // half the rounding slack (bw + bh) / 2
            let skew = 2 * (i64::from(rect.height) * i64::from(bw)
                - i64::from(rect.width) * i64::from(bh));
            assert!(skew.abs() <= i64::from(bw) + i64::from(bh));
        }
    }
}
