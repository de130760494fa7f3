use codegen::{
    contact_step, fingerprint_from_quantized, hashed_code, onset_pairings, record_onset, Matrix, OnsetPairing,
    QuantizedPairing, DEADTIME, TTARG,
};

fn onset_matrix(rows: &[&[i32]]) -> Matrix<i32> {
    let mut m: Matrix<i32> = Matrix::new(8, 6);
    for (band, row) in rows.iter().enumerate() {
        for (i, frame) in row.iter().enumerate() {
            *m.get_mut([band, i]) = *frame;
        }
    }
    m
}

fn pairing(band: usize, onset_frame: i32, first_delta: i32, second_delta: i32) -> OnsetPairing {
    OnsetPairing { band, onset_frame, first_delta, second_delta }
}

#[test]
fn pairings_of_a_band_with_five_onsets() {
    let m = onset_matrix(&[&[0, 130, 300, 500, 700]]);
    let counts = [5, 0, 0, 0, 0, 0, 0, 0];
    let p = onset_pairings(&m, &counts);
    assert_eq!(p.len(), 18);
    let expected = vec![
        pairing(0, 0, 130, 170),
        pairing(0, 0, 130, 370),
        pairing(0, 0, 300, 200),
        pairing(0, 0, 130, 570),
        pairing(0, 0, 300, 400),
        pairing(0, 0, 500, 200),
        pairing(0, 130, 170, 200),
        pairing(0, 130, 170, 400),
        pairing(0, 130, 370, 200),
        pairing(0, 130, 0, 0),
        pairing(0, 130, 0, 0),
        pairing(0, 130, 0, 0),
        pairing(0, 300, 200, 200),
        pairing(0, 300, 0, 0),
        pairing(0, 300, 0, 0),
        pairing(0, 300, 0, 0),
        pairing(0, 300, 0, 0),
        pairing(0, 300, 0, 0),
    ];
    assert_eq!(p, expected);
}

#[test]
fn bands_with_two_onsets_or_fewer_give_nothing() {
    let m = onset_matrix(&[&[0, 200], &[5], &[], &[10, 200, 400]]);
    let counts = [2, 1, 0, 3, 0, 0, 0, 0];
    let p = onset_pairings(&m, &counts);
    assert_eq!(
        p,
        vec![
            pairing(3, 10, 190, 200),
            pairing(3, 10, 0, 0),
            pairing(3, 10, 0, 0),
            pairing(3, 10, 0, 0),
            pairing(3, 10, 0, 0),
            pairing(3, 10, 0, 0),
        ]
    );
}

#[test]
fn no_onsets_no_pairings() {
    let m: Matrix<i32> = Matrix::new(8, 0);
    let counts = [0; 8];
    assert!(onset_pairings(&m, &counts).is_empty());
}

#[test]
fn pairings_come_band_after_band() {
    let m = onset_matrix(&[&[0, 130, 300], &[], &[], &[], &[], &[], &[], &[1, 200, 400]]);
    let counts = [3, 0, 0, 0, 0, 0, 0, 3];
    let p = onset_pairings(&m, &counts);
    assert_eq!(p.len(), 12);
    assert!(p[..6].iter().all(|x| x.band == 0));
    assert!(p[6..].iter().all(|x| x.band == 7));
    assert_eq!(p[6], pairing(7, 1, 199, 200));
}

#[test]
fn record_onset_appends_far_apart_onsets() {
    let mut m: Matrix<i32> = Matrix::new(8, 4);
    let mut counts = [0usize; 8];
    let mut total = 0usize;
    record_onset(&mut m, &mut counts, &mut total, 2, 10);
    record_onset(&mut m, &mut counts, &mut total, 2, 138);
    assert_eq!(counts[2], 2);
    assert_eq!(total, 2);
    assert_eq!(m[[2, 0]], 10);
    assert_eq!(m[[2, 1]], 138);
}

#[test]
fn record_onset_replaces_onsets_within_deadtime() {
    let mut m: Matrix<i32> = Matrix::new(8, 4);
    let mut counts = [0usize; 8];
    let mut total = 0usize;
    record_onset(&mut m, &mut counts, &mut total, 5, 10);
    record_onset(&mut m, &mut counts, &mut total, 5, 137);
    assert_eq!(counts[5], 1);
    assert_eq!(total, 1);
    assert_eq!(m[[5, 0]], 137);
    record_onset(&mut m, &mut counts, &mut total, 1, 200);
    assert_eq!(counts[1], 1);
    assert_eq!(total, 2);
    assert_eq!(m[[1, 0]], 200);
}

#[test]
fn hashed_code_values() {
    assert_eq!(hashed_code(0, 0, 0), 763704);
    assert_eq!(hashed_code(5, -3, 2), 1015656);
    assert_eq!(hashed_code(300, 1, 7), 482543);
    assert_eq!(hashed_code(-1, -1, 0), 777770);
    assert_eq!(hashed_code(4, 5, 1), 846143);
}

#[test]
fn hashed_code_depends_on_byte_order_of_deltas() {
    // 0x0100 and 0x0001 differ only in byte order.
    assert_ne!(hashed_code(0x0100, 0, 0), hashed_code(0x0001, 0, 0));
}

#[test]
fn fingerprint_from_quantized_pairs_codes_with_times() {
    let pairings = vec![pairing(2, 64, 10, 20), pairing(1, 64, 0, 0)];
    let quantized = vec![
        QuantizedPairing { first_delta: 5, second_delta: -3, time: 64 },
        QuantizedPairing { first_delta: 4, second_delta: 5, time: 70 },
    ];
    let f = fingerprint_from_quantized(&pairings, &quantized);
    assert_eq!(f.codes.len(), 2);
    assert_eq!(f.codes[0].code, 1015656);
    assert_eq!(f.codes[0].time, 64);
    assert_eq!(f.codes[1].code, 846143);
    assert_eq!(f.codes[1].time, 70);
    assert!(f.codes.iter().all(|c| 0 <= c.code && c.code <= 0xfffff));
}

#[test]
fn contact_step_attach_and_detach() {
    let s = contact_step(true, false, 5);
    assert!(s.attach && !s.detach);
    assert_eq!(s.frames_since_onset, 6);
    assert!(!s.forget_threshold);
    let s = contact_step(false, true, 500);
    assert!(!s.attach && s.detach);
    assert_eq!(s.frames_since_onset, 1);
    assert!(!s.shorten_decay);
}

#[test]
fn contact_step_thresholds() {
    let s = contact_step(false, false, DEADTIME);
    assert!(s.forget_threshold);
    let s = contact_step(true, true, DEADTIME);
    assert!(!s.forget_threshold);
    let s = contact_step(true, true, TTARG);
    assert!(s.shorten_decay);
    let s = contact_step(true, true, TTARG - 1);
    assert!(!s.shorten_decay);
}

#[test]
fn recorded_onsets_stay_deadtime_apart() {
    let mut m: Matrix<i32> = Matrix::new(8, 16);
    let mut counts = [0usize; 8];
    let mut total = 0usize;
    for frame in [3usize, 50, 140, 200, 400, 527, 530, 700] {
        record_onset(&mut m, &mut counts, &mut total, 0, frame);
    }
    let onsets: Vec<i32> = (0..counts[0]).map(|i| m[[0, i]]).collect();
    assert_eq!(onsets, vec![200, 530, 700]);
    assert_eq!(total, 3);
    for i in 0..onsets.len() {
        for j in (i + 1)..onsets.len() {
            assert!(onsets[j] - onsets[i] >= 128);
        }
    }
}
