use fgbgg::position::ROIPosition;
use fgbgg::roi::{roi_for_position, Rect};

fn rect(x: i32, y: i32, width: i32, height: i32) -> Rect {
    Rect { x, y, width, height }
}

#[test]
fn roi_at_each_position() {
    // foreground 4 x 2 on background 10 x 7
    assert_eq!(roi_for_position(&ROIPosition::Left, 4, 2, 10, 7), rect(0, 2, 4, 2));
    assert_eq!(roi_for_position(&ROIPosition::Right, 4, 2, 10, 7), rect(6, 2, 4, 2));
    assert_eq!(roi_for_position(&ROIPosition::Top, 4, 2, 10, 7), rect(3, 0, 4, 2));
    assert_eq!(roi_for_position(&ROIPosition::Bottom, 4, 2, 10, 7), rect(3, 5, 4, 2));
    assert_eq!(roi_for_position(&ROIPosition::TopLeft, 4, 2, 10, 7), rect(0, 0, 4, 2));
    assert_eq!(roi_for_position(&ROIPosition::TopRight, 4, 2, 10, 7), rect(6, 0, 4, 2));
    assert_eq!(roi_for_position(&ROIPosition::BottomLeft, 4, 2, 10, 7), rect(0, 5, 4, 2));
    assert_eq!(roi_for_position(&ROIPosition::BottomRight, 4, 2, 10, 7), rect(6, 5, 4, 2));
    assert_eq!(roi_for_position(&ROIPosition::Center, 4, 2, 10, 7), rect(3, 2, 4, 2));
}

#[test]
fn roi_of_oversized_foreground_leaves_background() {
    // halving rounds toward zero, as integer division does
    assert_eq!(roi_for_position(&ROIPosition::Center, 13, 8, 10, 7), rect(-1, 0, 13, 8));
    assert_eq!(roi_for_position(&ROIPosition::BottomRight, 13, 8, 10, 7), rect(-3, -1, 13, 8));
}

#[test]
fn roi_inside_exactly_when_foreground_fits() {
    let positions = [
        ROIPosition::Left,
        ROIPosition::Right,
        ROIPosition::Top,
        ROIPosition::Bottom,
        ROIPosition::TopLeft,
        ROIPosition::TopRight,
        ROIPosition::BottomLeft,
        ROIPosition::BottomRight,
        ROIPosition::Center,
    ];
    for p in positions.iter() {
        for fw in 0..6 {
            for fh in 0..6 {
                let r = roi_for_position(p, fw, fh, 4, 3);
                let inside = r.x >= 0 && r.y >= 0 && r.x + r.width <= 4 && r.y + r.height <= 3;
                assert_eq!(inside, fw <= 4 && fh <= 3);
            }
        }
    }
}
