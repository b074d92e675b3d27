use std::io::Cursor;

use mnist_parquet::record::{decode_row, DecodeFault, Field, Leaf, Row, PIXELS_PER_IMAGE};
use mnist_parquet::split::{load_split, LoadFault};
use mnist_parquet::splits::{load_splits, SplitKind, LABEL_COUNT};

fn pixels(seed: u8) -> Vec<u8> {
    (0..PIXELS_PER_IMAGE).map(|i| (i as u8).wrapping_mul(7).wrapping_add(seed)).collect()
}

fn png(width: u32, height: u32, raw: Vec<u8>) -> Vec<u8> {
    let img = image::GrayImage::from_raw(width, height, raw).unwrap();
    let mut out = Vec::new();
    img.write_to(&mut Cursor::new(&mut out), image::ImageFormat::Png).unwrap();
    out
}

fn row_of(encoded: Vec<u8>, label: i64) -> Row {
    Row {
        fields: vec![
            Field::Group(vec![Leaf::Bytes(encoded), Leaf::Other]),
            Field::Leaf(Leaf::Long(label)),
        ],
    }
}

fn valid_row(seed: u8, label: i64) -> Row {
    row_of(png(28, 28, pixels(seed)), label)
}

fn corrupt_row(label: i64) -> Row {
    let mut bytes = png(28, 28, pixels(1));
    bytes.truncate(8);
    for b in bytes.iter_mut() {
        *b ^= 0x5a;
    }
    row_of(bytes, label)
}

#[test]
fn decode_valid_row_appends_pixels_and_label() {
    let mut images = vec![9u8];
    let mut labels = vec![1u8];
    let row = valid_row(3, 7);
    assert_eq!(decode_row(&row, &mut images, &mut labels), Ok(()));
    assert_eq!(images.len(), 1 + PIXELS_PER_IMAGE);
    assert_eq!(images[0], 9);
    assert_eq!(&images[1..], &pixels(3)[..]);
    assert_eq!(labels, vec![1, 7]);
}

#[test]
fn decode_converts_colour_to_gray() {
    let mut rgb = image::RgbImage::new(28, 28);
    for p in rgb.pixels_mut() {
        *p = image::Rgb([200, 200, 200]);
    }
    let mut encoded = Vec::new();
    rgb.write_to(&mut Cursor::new(&mut encoded), image::ImageFormat::Png).unwrap();
    let mut images = Vec::new();
    let mut labels = Vec::new();
    assert_eq!(decode_row(&row_of(encoded.clone(), 2), &mut images, &mut labels), Ok(()));
    assert_eq!(images, vec![200u8; PIXELS_PER_IMAGE]);
    assert_ne!(images, encoded);
}

#[test]
fn decode_narrows_label_to_a_byte() {
    let mut images = Vec::new();
    let mut labels = Vec::new();
    assert_eq!(decode_row(&valid_row(0, 259), &mut images, &mut labels), Ok(()));
    assert_eq!(labels, vec![3]);
}

#[test]
fn decode_malformed_image() {
    let mut images = vec![4u8];
    let mut labels = vec![5u8];
    assert_eq!(
        decode_row(&corrupt_row(1), &mut images, &mut labels),
        Err(DecodeFault::MalformedImage)
    );
    assert_eq!(images, vec![4]);
    assert_eq!(labels, vec![5]);
}

#[test]
fn decode_wrong_dimensions() {
    let row = row_of(png(10, 10, vec![1u8; 100]), 1);
    let mut images = Vec::new();
    let mut labels = Vec::new();
    assert_eq!(decode_row(&row, &mut images, &mut labels), Err(DecodeFault::MalformedImage));
    assert!(images.is_empty() && labels.is_empty());
}

#[test]
fn decode_missing_label() {
    let row = Row { fields: vec![Field::Group(vec![Leaf::Bytes(png(28, 28, pixels(0)))])] };
    let mut images = Vec::new();
    let mut labels = Vec::new();
    assert_eq!(decode_row(&row, &mut images, &mut labels), Err(DecodeFault::UnexpectedSchema));
    assert!(images.is_empty() && labels.is_empty());
}

#[test]
fn decode_missing_image_bytes() {
    let row = Row { fields: vec![Field::Group(vec![Leaf::Other]), Field::Leaf(Leaf::Long(1))] };
    let mut images = Vec::new();
    let mut labels = Vec::new();
    assert_eq!(decode_row(&row, &mut images, &mut labels), Err(DecodeFault::UnexpectedSchema));
}

#[test]
fn decode_two_labels() {
    let mut row = valid_row(0, 1);
    row.fields.push(Field::Leaf(Leaf::Long(2)));
    let mut images = Vec::new();
    let mut labels = Vec::new();
    assert_eq!(decode_row(&row, &mut images, &mut labels), Err(DecodeFault::UnexpectedSchema));
}

#[test]
fn empty_split_has_no_rows() {
    let split = load_split(&Vec::new(), 0).unwrap();
    assert_eq!(split.image_shape(), (0, 784));
    assert_eq!(split.label_shape(), 0);
    assert!(split.images.is_empty() && split.labels.is_empty());
}

#[test]
fn three_valid_rows() {
    let rows = vec![valid_row(0, 0), valid_row(1, 3), valid_row(2, 9)];
    let split = load_split(&rows, 3).unwrap();
    assert_eq!(split.image_shape(), (3, 784));
    assert_eq!(split.label_shape(), 3);
    assert_eq!(split.labels, vec![0, 3, 9]);
    let mut expected = pixels(0);
    expected.extend(pixels(1));
    expected.extend(pixels(2));
    assert_eq!(split.images, expected);
}

#[test]
fn declared_count_only_sizes_buffers() {
    let rows = vec![valid_row(0, 4)];
    let split = load_split(&rows, 5).unwrap();
    assert_eq!(split.image_shape(), (1, 784));
    assert_eq!(split.labels, vec![4]);
}

#[test]
fn corrupt_row_fails_split() {
    let rows = vec![valid_row(0, 0), corrupt_row(3), valid_row(2, 9)];
    assert!(matches!(
        load_split(&rows, 3),
        Err(LoadFault::Decode(DecodeFault::MalformedImage))
    ));
}

#[test]
fn dataset_of_valid_splits() {
    let train = vec![valid_row(0, 0), valid_row(1, 3), valid_row(2, 9)];
    let test = vec![valid_row(5, 1)];
    let d = load_splits(&train, 3, &test, 1).unwrap();
    assert_eq!(d.train.image_shape(), (3, 784));
    assert_eq!(d.train.labels, vec![0, 3, 9]);
    assert_eq!(d.test.image_shape(), (1, 784));
    assert_eq!(d.labels, LABEL_COUNT);
    assert_eq!(LABEL_COUNT, 10);
}

#[test]
fn dataset_with_corrupt_train_row_fails() {
    let train = vec![valid_row(0, 0), corrupt_row(3), valid_row(2, 9)];
    let test = vec![valid_row(5, 1)];
    let err = load_splits(&train, 3, &test, 1).err().unwrap();
    assert_eq!(err.split, SplitKind::Train);
    assert_eq!(err.fault, LoadFault::Decode(DecodeFault::MalformedImage));
}

#[test]
fn dataset_with_bad_test_schema_fails_on_test() {
    let train = vec![valid_row(0, 0)];
    let test = vec![Row { fields: vec![] }];
    let err = load_splits(&train, 1, &test, 1).err().unwrap();
    assert_eq!(err.split, SplitKind::Test);
    assert_eq!(err.fault, LoadFault::Decode(DecodeFault::UnexpectedSchema));
}
