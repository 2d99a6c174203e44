use fgbgg::position::{check_position, int_to_position, position_of_draw, position_to_int, random_roi_position, ROIPosition};

const ALL: [ROIPosition; 9] = [
    ROIPosition::Left,
    ROIPosition::Right,
    ROIPosition::Top,
    ROIPosition::Bottom,
    ROIPosition::TopLeft,
    ROIPosition::TopRight,
    ROIPosition::BottomLeft,
    ROIPosition::BottomRight,
    ROIPosition::Center,
];

#[test]
fn roi_position_rand_gen_test() {
    for _ in (0..20).collect::<Vec<usize>>() {
        println!("{:?}", random_roi_position());
    }
}

#[test]
fn random_position_is_never_bottom_right() {
    for _ in 0..500 {
        let p = random_roi_position();
        assert_ne!(p, ROIPosition::BottomRight);
        assert!(position_to_int(&p) < 8);
    }
}

#[test]
fn random_position_varies() {
    let first = random_roi_position();
    let mut other = false;
    for _ in 0..500 {
        if random_roi_position() != first {
            other = true;
        }
    }
    assert!(other);
}

#[test]
fn position_codes() {
    assert_eq!(position_to_int(&ROIPosition::Center), 0);
    assert_eq!(position_to_int(&ROIPosition::Left), 1);
    assert_eq!(position_to_int(&ROIPosition::Right), 2);
    assert_eq!(position_to_int(&ROIPosition::Top), 3);
    assert_eq!(position_to_int(&ROIPosition::Bottom), 4);
    assert_eq!(position_to_int(&ROIPosition::TopLeft), 5);
    assert_eq!(position_to_int(&ROIPosition::TopRight), 6);
    assert_eq!(position_to_int(&ROIPosition::BottomLeft), 7);
    assert_eq!(position_to_int(&ROIPosition::BottomRight), 8);
}

#[test]
fn code_round_trip_every_position() {
    for p in ALL.iter() {
        assert_eq!(int_to_position(position_to_int(p)), *p);
    }
}

#[test]
fn codes_round_trip_and_large_codes_mean_center() {
    for n in 0u8..=8 {
        assert_eq!(position_to_int(&int_to_position(n)), n);
    }
    assert_eq!(int_to_position(9), ROIPosition::Center);
    assert_eq!(int_to_position(255), ROIPosition::Center);
    assert_eq!(position_to_int(&int_to_position(200)), 0);
}

#[test]
fn position_names() {
    let names = [
        ("left", ROIPosition::Left),
        ("right", ROIPosition::Right),
        ("top", ROIPosition::Top),
        ("bottom", ROIPosition::Bottom),
        ("top-left", ROIPosition::TopLeft),
        ("top-right", ROIPosition::TopRight),
        ("bottom-left", ROIPosition::BottomLeft),
        ("bottom-right", ROIPosition::BottomRight),
        ("center", ROIPosition::Center),
    ];
    for (name, p) in names.iter() {
        assert_eq!(check_position(name.to_string()), Some(*p));
    }
}

#[test]
fn unknown_position_names() {
    assert_eq!(check_position("Left".to_string()), None);
    assert_eq!(check_position("centre".to_string()), None);
    assert_eq!(check_position("".to_string()), None);
    assert_eq!(check_position("random".to_string()), None);
    assert_eq!(check_position("top_left".to_string()), None);
}

#[test]
fn draw_picks_first_code() {
    assert_eq!(position_of_draw(&vec![3u8, 0, 1]), ROIPosition::Top);
    assert_eq!(position_of_draw(&vec![0u8]), ROIPosition::Center);
    assert_eq!(position_of_draw(&vec![8u8, 2]), ROIPosition::BottomRight);
    assert_eq!(position_of_draw(&vec![7u8, 6, 5]), ROIPosition::BottomLeft);
}
