use codegen::{calculate_for_audio_file, CodeSegment, Fingerprint, Matrix};

#[test]
fn matrix_new_has_dimensions_and_default_elements() {
    let m: Matrix<i32> = Matrix::new(2, 3);
    assert_eq!(m.rows, 2);
    assert_eq!(m.cols, 3);
    assert_eq!(m.get_array(), &[0, 0, 0, 0, 0, 0]);
}

#[test]
fn matrix_empty() {
    let m: Matrix<u8> = Matrix::new(0, 5);
    assert_eq!(m.get_array().len(), 0);
}

#[test]
fn matrix_is_row_major() {
    let mut m: Matrix<i32> = Matrix::new(2, 3);
    *m.get_mut([1, 0]) = 7;
    *m.get_mut([0, 2]) = 5;
    assert_eq!(m.get_array(), &[0, 0, 5, 7, 0, 0]);
    assert_eq!(m[[1, 0]], 7);
    assert_eq!(*m.get([0, 2]), 5);
}

#[test]
fn matrix_read_after_write() {
    let mut m: Matrix<i32> = Matrix::new(3, 4);
    *m.get_mut([2, 3]) = -9;
    *m.get_mut([1, 1]) = 4;
    *m.get_mut([2, 3]) = 11;
    assert_eq!(m[[2, 3]], 11);
    assert_eq!(m[[1, 1]], 4);
    assert_eq!(m[[0, 0]], 0);
}

#[test]
fn fingerprint_new_keeps_codes() {
    let codes = vec![CodeSegment { code: 1, time: 2 }, CodeSegment { code: 3, time: 4 }];
    let f = Fingerprint::new(codes);
    assert_eq!(f.codes, vec![CodeSegment { code: 1, time: 2 }, CodeSegment { code: 3, time: 4 }]);
}

#[test]
fn audio_file_gives_empty_fingerprint() {
    let f = calculate_for_audio_file("song.mp3").expect("always succeeds");
    assert_eq!(f.codes.len(), 0);
}
