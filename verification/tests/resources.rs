use rootspace::engine::common::file_manipulation::{image_from_raw, FileError, RawRgba};

#[test]
fn test_image_from_raw() {
    assert_eq!(image_from_raw(2, 2, vec![0; 15]), Err(FileError::CannotCreateImageFromRaw));
    let img = image_from_raw(2, 2, vec![7; 16]).unwrap();
    assert_eq!(img, RawRgba { width: 2, height: 2, data: vec![7; 16] });
    let longer = image_from_raw(1, 1, vec![1, 2, 3, 4, 5]).unwrap();
    assert_eq!(longer.data, vec![1, 2, 3, 4, 5]);
}

