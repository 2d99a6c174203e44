use fgbgg::mask::{bitwise_and, count_pixels, miou_counts, Image, MiouError};

fn gray(rows: usize, cols: usize, data: Vec<u8>) -> Image {
    Image { rows, cols, channels: 1, data }
}

#[test]
fn miou_test() {
    // Reading a missing image file gives an empty image.
    let img = gray(0, 0, vec![]);
    let n = count_pixels(&img);
    println!("{}", n);
    assert_eq!(n, 0);
}

#[test]
fn count_reads_only_last_row_without_first_column() {
    let img = gray(3, 4, vec![
        255, 255, 255, 255, //
        255, 255, 255, 255, //
        255, 128, 127, 200,
    ]);
    assert_eq!(count_pixels(&img), 2);
}

#[test]
fn count_of_single_row_is_zero() {
    let img = gray(1, 5, vec![255; 5]);
    assert_eq!(count_pixels(&img), 0);
    let img = gray(3, 1, vec![255; 3]);
    assert_eq!(count_pixels(&img), 0);
}

#[test]
fn and_of_images() {
    let a = gray(1, 3, vec![0b1100, 255, 128]);
    let b = gray(1, 3, vec![0b1010, 1, 255]);
    let c = bitwise_and(&a, &b);
    assert_eq!(c.data, vec![0b1000, 1, 128]);
    assert_eq!((c.rows, c.cols, c.channels), (1, 3, 1));
}

#[test]
fn miou_counts_of_two_masks() {
    let a = gray(2, 4, vec![0, 0, 0, 0, 0, 200, 200, 0]);
    let b = gray(2, 4, vec![0, 0, 0, 0, 0, 0, 200, 200]);
    // intersection: column 2 only; a has 2, b has 2 set pixels
    assert_eq!(miou_counts(&a, &b), Ok((1, 3)));
}

#[test]
fn miou_counts_bounded() {
    let a = gray(2, 3, vec![0, 0, 0, 255, 200, 130]);
    let b = gray(2, 3, vec![0, 0, 0, 0, 129, 126]);
    let (inter, union) = miou_counts(&a, &b).unwrap();
    assert_eq!((inter, union), (1, 2));
    assert!(inter <= union);
}

#[test]
fn miou_errors() {
    let a = gray(2, 2, vec![0; 4]);
    let four = Image { rows: 2, cols: 2, channels: 4, data: vec![0; 16] };
    assert_eq!(miou_counts(&a, &four), Err(MiouError::TooManyChannels));
    assert_eq!(miou_counts(&four, &a), Err(MiouError::TooManyChannels));
    let b = gray(1, 4, vec![0; 4]);
    assert_eq!(miou_counts(&a, &b), Err(MiouError::SizeMismatch));
}

#[test]
fn miou_counts_do_not_depend_on_order() {
    let a = gray(3, 4, vec![0, 0, 0, 0, 0, 0, 0, 0, 9, 255, 140, 3]);
    let b = gray(3, 4, vec![1, 2, 3, 4, 5, 6, 7, 8, 200, 129, 12, 250]);
    assert_eq!(miou_counts(&a, &b), miou_counts(&b, &a));
    assert_eq!(miou_counts(&a, &b), Ok((1, 3)));
    let c = gray(2, 4, vec![0; 8]);
    assert_eq!(miou_counts(&a, &c), miou_counts(&c, &a));
}

#[test]
fn equal_single_channel_masks_always_compare() {
    let a = gray(2, 2, vec![0, 0, 0, 0]);
    let b = gray(2, 2, vec![0, 0, 0, 0]);
    assert_eq!(miou_counts(&a, &b), Ok((0, 0)));
}
