use codegen::{check_sample_count, onset_pairings, record_onsets, Matrix};

#[test]
fn record_onsets_per_band() {
    let mut detaches: Vec<Vec<usize>> = vec![Vec::new(); 8];
    detaches[0] = vec![3, 50, 140, 200, 400, 527, 530, 700];
    detaches[6] = vec![10, 300];
    let (m, counts, total) = record_onsets(&detaches, 800);
    assert_eq!(m.rows(), 8);
    assert_eq!(m.cols(), 800);
    assert_eq!(m.get_array().len(), 8 * 800);
    assert_eq!(counts, [3, 0, 0, 0, 0, 0, 2, 0]);
    assert_eq!(total, 5);
    assert_eq!((m[[0, 0]], m[[0, 1]], m[[0, 2]], m[[0, 3]]), (200, 530, 700, 0));
    assert_eq!((m[[6, 0]], m[[6, 1]], m[[6, 2]]), (10, 300, 0));
    assert!(m.get_array()[800..6 * 800].iter().all(|&x| x == 0));
}

#[test]
fn recorded_onsets_can_be_paired() {
    let mut detaches: Vec<Vec<usize>> = vec![Vec::new(); 8];
    detaches[2] = vec![0, 130, 300];
    let (m, counts, total) = record_onsets(&detaches, 400);
    assert_eq!(total, 3);
    let p = onset_pairings(&m, &counts);
    assert_eq!(p.len(), 6);
    assert_eq!((p[0].band, p[0].onset_frame, p[0].first_delta, p[0].second_delta), (2, 0, 130, 170));
}

#[test]
fn record_onsets_without_frames() {
    let detaches: Vec<Vec<usize>> = vec![Vec::new(); 8];
    let (m, counts, total) = record_onsets(&detaches, 0);
    assert!(m.get_array().is_empty());
    assert_eq!(counts, [0; 8]);
    assert_eq!(total, 0);
}

#[test]
fn sample_count_checks() {
    assert_eq!(check_sample_count(0, 1000), Err("Not enough samples"));
    assert_eq!(check_sample_count(99, 50), Err("Not enough samples"));
    assert_eq!(check_sample_count(100, 1000), Ok(()));
    assert_eq!(check_sample_count(999, 1000), Ok(()));
    assert_eq!(check_sample_count(1000, 1000), Err("File is too big"));
}

#[test]
fn matrix_row_major_positions() {
    let mut m: Matrix<i32> = Matrix::new(3, 4);
    for i in 0..3 {
        for j in 0..4 {
            *m.get_mut([i, j]) = (10 * i + j) as i32;
        }
    }
    assert_eq!(m.get_array().len(), m.rows() * m.cols());
    for i in 0..3 {
        for j in 0..4 {
            assert_eq!(m.get_array()[i * m.cols() + j], m[[i, j]]);
            assert_eq!(m[[i, j]], (10 * i + j) as i32);
        }
    }
}
