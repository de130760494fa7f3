use vstd::prelude::*;

use crate::fingerprinting::fingerprint_calculations::{
    band_onsets, onset_at, onsets_spaced, pairings_defined, record_onset, replaces_last,
    lemma_spaced_onsets_pairable, DEADTIME, SUBBANDS,
};
use crate::structures::matrix::Matrix;

verus! {

/// The onsets of a band after recording, in order, an onset at each of the
/// detach frames `frames`: an onset less than `DEADTIME` frames after the
/// last recorded one replaces it, any other is appended.
pub open spec fn recorded_onsets(frames: Seq<usize>) -> Seq<i32>
    decreases frames.len(),
{
    if frames.len() == 0 {
        Seq::<i32>::empty()
    } else {
        let prev = recorded_onsets(frames.drop_last());
        let f = frames.last();
        if prev.len() > 0 && prev.last() > f - DEADTIME {
            prev.drop_last().push(f as i32)
        } else {
            prev.push(f as i32)
        }
    }
}

/// Detach frames of a band as a frame-by-frame detector produces them: in
/// increasing order, before frame `frames`, and representable as `i32`.
pub open spec fn detaches_ordered(detaches: Seq<usize>, frames: usize) -> bool {
    &&& forall|i: int, j: int| 0 <= i < j < detaches.len() ==> detaches[i] < detaches[j]
    &&& forall|i: int| 0 <= i < detaches.len() ==> #[trigger] detaches[i] < frames
    &&& forall|i: int| 0 <= i < detaches.len() ==> #[trigger] detaches[i] <= i32::MAX
}

/// Sum of the first `n` counts.
pub open spec fn sum_counts(counts: Seq<usize>, n: nat) -> int
    decreases n,
{
    if n == 0 {
        0
    } else {
        sum_counts(counts, (n - 1) as nat) + counts[n - 1]
    }
}

/// Row `band` of the row-major `m` with `cols` columns holds `onsets` and
/// zeros after them.
pub open spec fn row_holds(m: Seq<i32>, cols: usize, band: int, onsets: Seq<i32>) -> bool {
    forall|i: int|
        0 <= i < cols ==> #[trigger] onset_at(m, cols, band, i) == if i < onsets.len() {
            onsets[i] as int
        } else {
            0
        }
}

proof fn lemma_ordered_len(detaches: Seq<usize>, frames: usize)
    requires
        detaches_ordered(detaches, frames),
    ensures
        detaches.len() <= frames,
        forall|i: int| 0 <= i < detaches.len() ==> #[trigger] detaches[i] >= i,
    decreases detaches.len(),
{
    if detaches.len() > 0 {
        let shorter = detaches.drop_last();
        lemma_ordered_len(shorter, frames);
        let n = detaches.len() - 1;
        assert forall|i: int| 0 <= i < detaches.len() implies #[trigger] detaches[i] >= i by {
            if i < n {
                assert(shorter[i] == detaches[i]);
            } else if n > 0 {
                assert(shorter[n - 1] == detaches[n - 1]);
                assert(detaches[n - 1] < detaches[n]);
            }
        }
        assert(detaches[n] >= n);
    }
}

proof fn lemma_sum_prefix(a: Seq<usize>, b: Seq<usize>, n: nat)
    requires
        n <= a.len(),
        n <= b.len(),
        forall|i: int| 0 <= i < n ==> a[i] == b[i],
    ensures
        sum_counts(a, n) == sum_counts(b, n),
    decreases n,
{
    if n > 0 {
        lemma_sum_prefix(a, b, (n - 1) as nat);
    }
}

/// Recording detach frames that come in increasing order keeps the onsets
/// `DEADTIME` apart, inside the frames seen, and ending at the last frame.
pub proof fn lemma_recorded_onsets_spaced(detaches: Seq<usize>, frames: usize)
    requires
        detaches_ordered(detaches, frames),
    ensures
        onsets_spaced(recorded_onsets(detaches)),
        recorded_onsets(detaches).len() <= detaches.len(),
        forall|i: int|
            0 <= i < recorded_onsets(detaches).len() ==> #[trigger] recorded_onsets(detaches)[i]
                < frames,
        detaches.len() > 0 ==> recorded_onsets(detaches).len() > 0 && recorded_onsets(
            detaches,
        ).last() == detaches.last(),
    decreases detaches.len(),
{
    if detaches.len() > 0 {
        let shorter = detaches.drop_last();
        assert(detaches_ordered(shorter, frames)) by {
            assert forall|i: int, j: int| 0 <= i < j < shorter.len() implies shorter[i] < shorter[j] by {
                assert(shorter[i] == detaches[i] && shorter[j] == detaches[j]);
            }
            assert forall|i: int| 0 <= i < shorter.len() implies #[trigger] shorter[i] < frames
                && shorter[i] <= i32::MAX by {
                assert(shorter[i] == detaches[i]);
            }
        }
        lemma_recorded_onsets_spaced(shorter, frames);
        let prev = recorded_onsets(shorter);
        let f = detaches.last();
        let rec = recorded_onsets(detaches);
        let n = detaches.len() - 1;
        // every earlier onset lies before `f`
        assert forall|i: int| 0 <= i < prev.len() implies #[trigger] prev[i] < f by {
            assert(prev.last() == shorter.last());
            assert(shorter.last() == detaches[n - 1]);
            assert(detaches[n - 1] < detaches[n]);
            if i < prev.len() - 1 {
                assert(prev[prev.len() - 1] - prev[i] >= DEADTIME);
            }
        }
        assert forall|i: int, j: int| 0 <= i < j < rec.len() implies #[trigger] rec[j]
            - #[trigger] rec[i] >= DEADTIME by {
            if j == rec.len() - 1 {
                assert(rec[j] == f);
                assert(rec[i] == prev[i]);
                if prev.len() > 0 && prev.last() > f - DEADTIME {
                    assert(prev[prev.len() - 1] - prev[i] >= DEADTIME);
                } else if i < prev.len() - 1 {
                    assert(prev[prev.len() - 1] - prev[i] >= DEADTIME);
                }
            } else {
                assert(rec[i] == prev[i] && rec[j] == prev[j]);
            }
        }
        assert forall|i: int| 0 <= i < rec.len() implies #[trigger] rec[i] >= 0 && rec[i] < frames by {
            if i < rec.len() - 1 {
                assert(rec[i] == prev[i]);
            }
        }
    }
}

proof fn lemma_cell_in_range(cols: usize, rows: int, b: int, i: int)
    requires
        0 <= b < rows,
        0 <= i < cols,
    ensures
        0 <= b * cols + i < rows * cols,
{
    assert(0 <= b * cols + i < rows * cols) by (nonlinear_arith)
        requires 0 <= b < rows, 0 <= i < cols;
}

proof fn lemma_cell_update(m: Seq<i32>, cols: usize, band: int, slot: int, v: i32, b: int, i: int)
    requires
        0 <= band,
        0 <= b,
        0 <= slot < cols,
        0 <= i < cols,
        band * cols + slot < m.len(),
        b * cols + i < m.len(),
    ensures
        onset_at(m.update(band * cols + slot, v), cols, b, i) == if b == band && i == slot {
            v as int
        } else {
            onset_at(m, cols, b, i)
        },
{
    let n = cols as int;
    if b < band {
        assert(b * n + i < band * n + slot) by (nonlinear_arith)
            requires b < band, 0 <= i < n, 0 <= slot, b >= 0;
    } else if band < b {
        assert(band * n + slot < b * n + i) by (nonlinear_arith)
            requires band < b, 0 <= slot < n, 0 <= i, band >= 0;
    }
}

/// The onsets of every band, recorded from each band's detach frames in
/// order, in a `SUBBANDS` by `frames` matrix that is zero past each band's
/// onsets; with the number of onsets of each band and their total. The
/// onsets of each band stay `DEADTIME` apart within the frames, so they can
/// be paired.
pub fn record_onsets(detach_frames: &[Vec<usize>], frames: usize) -> (r: (
    Matrix<i32>,
    [usize; SUBBANDS],
    usize,
))
    requires
        detach_frames@.len() == SUBBANDS,
        SUBBANDS * frames <= usize::MAX,
        forall|b: int| 0 <= b < SUBBANDS ==> detaches_ordered(#[trigger] detach_frames@[b]@, frames),
    ensures
        r.0.wf(),
        r.0.num_rows() == SUBBANDS,
        r.0.num_cols() == frames,
        forall|b: int|
            0 <= b < SUBBANDS ==> {
                &&& #[trigger] r.1@[b] == recorded_onsets(detach_frames@[b]@).len()
                &&& band_onsets(r.0@, frames, b, r.1@[b] as int) == recorded_onsets(
                    detach_frames@[b]@,
                )
                &&& forall|i: int| r.1@[b] <= i < frames ==> onset_at(r.0@, frames, b, i) == 0
                &&& onsets_spaced(band_onsets(r.0@, frames, b, r.1@[b] as int))
                &&& forall|i: int|
                    0 <= i < r.1@[b] ==> #[trigger] band_onsets(r.0@, frames, b, r.1@[b] as int)[i]
                        < frames
            },
        r.2 == sum_counts(r.1@, SUBBANDS as nat),
        pairings_defined(r.0@, frames, r.1@),
{
    let mut out_matrix: Matrix<i32> = Matrix::new(SUBBANDS, frames);
    let mut counts: [usize; SUBBANDS] = [0; SUBBANDS];
    let mut total: usize = 0;
    let ghost lists = detach_frames@.map_values(|v: Vec<usize>| v@);

    proof {
        assert forall|b: int| 0 <= b < SUBBANDS implies row_holds(out_matrix@, frames, b, Seq::<i32>::empty())
            by {
            assert forall|i: int| 0 <= i < frames implies #[trigger] onset_at(out_matrix@, frames, b, i)
                == 0 by {
                lemma_cell_in_range(frames, SUBBANDS as int, b, i);
            }
        }
    }

    for band in 0..SUBBANDS
        invariant
            detach_frames@.len() == SUBBANDS,
            SUBBANDS * frames <= usize::MAX,
            forall|b: int| 0 <= b < SUBBANDS ==> detaches_ordered(#[trigger] detach_frames@[b]@, frames),
            out_matrix@.len() == SUBBANDS * frames,
            out_matrix.num_rows() == SUBBANDS,
            out_matrix.num_cols() == frames,
            forall|b: int|
                0 <= b < band ==> row_holds(
                    out_matrix@,
                    frames,
                    b,
                    recorded_onsets(#[trigger] detach_frames@[b]@),
                ) && counts@[b] == recorded_onsets(detach_frames@[b]@).len(),
            forall|b: int|
                band <= b < SUBBANDS ==> row_holds(out_matrix@, frames, b, Seq::<i32>::empty()) && #[trigger] counts@[b]
                    == 0,
            total == sum_counts(counts@, band as nat),
            total <= band * frames,
    {
        let detaches = &detach_frames[band];
        let ghost list = detaches@;
        proof {
            lemma_ordered_len(list, frames);
            assert(list.take(0) =~= Seq::<usize>::empty());
            assert(sum_counts(counts@, (band + 1) as nat) == sum_counts(counts@, band as nat));
            assert(band * frames + frames <= SUBBANDS * frames) by (nonlinear_arith)
                requires band < SUBBANDS;
        }
        let ghost others = out_matrix@;
        let ghost other_counts = counts@;
        for k in 0..detaches.len()
            invariant
                detaches@ == list,
                detaches_ordered(list, frames),
                list.len() <= frames,
                band < SUBBANDS,
                band * frames + frames <= SUBBANDS * frames,
                SUBBANDS * frames <= usize::MAX,
                out_matrix@.len() == SUBBANDS * frames,
                out_matrix.num_rows() == SUBBANDS,
                out_matrix.num_cols() == frames,
                forall|b: int, i: int|
                    0 <= b < SUBBANDS && b != band && 0 <= i < frames ==> #[trigger] onset_at(
                        out_matrix@,
                        frames,
                        b,
                        i,
                    ) == onset_at(others, frames, b, i),
                other_counts.len() == SUBBANDS,
                forall|b: int| 0 <= b < SUBBANDS && b != band ==> #[trigger] counts@[b] == other_counts[b],
                row_holds(out_matrix@, frames, band as int, recorded_onsets(list.take(k as int))),
                counts@[band as int] == recorded_onsets(list.take(k as int)).len(),
                counts@[band as int] <= k,
                total == sum_counts(counts@, band as nat) + counts@[band as int],
                0 <= sum_counts(counts@, band as nat) <= band * frames,
        {
            let frame = detaches[k];
            let ghost m = out_matrix@;
            let ghost cs = counts@;
            let ghost prev = recorded_onsets(list.take(k as int));
            let ghost count = cs[band as int] as int;
            proof {
                assert(list.take(k + 1).drop_last() =~= list.take(k as int));
                assert(list.take(k + 1).last() == frame);
                if count > 0 {
                    assert(onset_at(m, frames, band as int, count - 1) == prev[count - 1]);
                    lemma_cell_in_range(frames, SUBBANDS as int, band as int, count - 1);
                }
                assert(replaces_last(m, frames, cs, band as int, frame as int) == (prev.len() > 0
                    && prev.last() > frame - DEADTIME));
                lemma_cell_in_range(frames, SUBBANDS as int, band as int, count);
                assert(band * frames + count < SUBBANDS * frames);
            }
            record_onset(&mut out_matrix, &mut counts, &mut total, band, frame);
            proof {
                let slot = if prev.len() > 0 && prev.last() > frame - DEADTIME {
                    count - 1
                } else {
                    count
                };
                let next = recorded_onsets(list.take(k + 1));
                assert(out_matrix@ == m.update(band * frames + slot, frame as i32));
                assert forall|b: int, i: int| 0 <= b < SUBBANDS && 0 <= i < frames implies #[trigger] onset_at(
                    out_matrix@,
                    frames,
                    b,
                    i,
                ) == if b == band && i == slot {
                    frame as int
                } else {
                    onset_at(m, frames, b, i)
                } by {
                    lemma_cell_in_range(frames, SUBBANDS as int, b, i);
                    lemma_cell_in_range(frames, SUBBANDS as int, band as int, slot);
                    lemma_cell_update(m, frames, band as int, slot, frame as i32, b, i);
                }
                assert forall|i: int| 0 <= i < frames implies #[trigger] onset_at(
                    out_matrix@,
                    frames,
                    band as int,
                    i,
                ) == if i < next.len() {
                    next[i] as int
                } else {
                    0
                } by {
                    assert(onset_at(m, frames, band as int, i) == if i < prev.len() {
                        prev[i] as int
                    } else {
                        0
                    });
                }
                lemma_sum_prefix(cs, counts@, band as nat);
            }
        }
        proof {
            assert(list.take(list.len() as int) =~= list);
            assert forall|b: int| 0 <= b < band implies row_holds(
                out_matrix@,
                frames,
                b,
                recorded_onsets(#[trigger] detach_frames@[b]@),
            ) by {
                assert(row_holds(others, frames, b, recorded_onsets(detach_frames@[b]@)));
                assert forall|i: int| 0 <= i < frames implies #[trigger] onset_at(out_matrix@, frames, b, i)
                    == onset_at(others, frames, b, i) by {}
            }
            assert forall|b: int|
                #![trigger counts@[b]]
                #![trigger row_holds(out_matrix@, frames, b, Seq::<i32>::empty())]
                band < b < SUBBANDS implies row_holds(out_matrix@, frames, b, Seq::<i32>::empty())
                && counts@[b] == 0 by {
                assert(other_counts[b] == 0);
                assert(row_holds(others, frames, b, Seq::<i32>::empty()));
                assert forall|i: int| 0 <= i < frames implies #[trigger] onset_at(out_matrix@, frames, b, i)
                    == onset_at(others, frames, b, i) by {}
            }
            assert(sum_counts(counts@, (band + 1) as nat) == sum_counts(counts@, band as nat) + counts@[band as int]);
            lemma_recorded_onsets_spaced(list, frames);
            assert(total <= (band + 1) * frames) by (nonlinear_arith)
                requires total <= band * frames + list.len(), list.len() <= frames;
        }
    }

    proof {
        let m = out_matrix@;
        assert forall|b: int| 0 <= b < SUBBANDS implies {
            &&& #[trigger] counts@[b] == recorded_onsets(detach_frames@[b]@).len()
            &&& band_onsets(m, frames, b, counts@[b] as int) == recorded_onsets(detach_frames@[b]@)
            &&& forall|i: int| counts@[b] <= i < frames ==> onset_at(m, frames, b, i) == 0
            &&& onsets_spaced(band_onsets(m, frames, b, counts@[b] as int))
            &&& forall|i: int|
                0 <= i < counts@[b] ==> #[trigger] band_onsets(m, frames, b, counts@[b] as int)[i] < frames
        } by {
            let rec = recorded_onsets(detach_frames@[b]@);
            lemma_recorded_onsets_spaced(detach_frames@[b]@, frames);
            lemma_ordered_len(detach_frames@[b]@, frames);
            assert(row_holds(m, frames, b, rec));
            assert forall|i: int| 0 <= i < rec.len() implies band_onsets(m, frames, b, rec.len() as int)[i]
                == rec[i] by {
                assert(onset_at(m, frames, b, i) == rec[i] as int);
            }
            assert(band_onsets(m, frames, b, counts@[b] as int) =~= rec);
            assert forall|i: int| counts@[b] <= i < frames implies onset_at(m, frames, b, i) == 0 by {
                assert(onset_at(m, frames, b, i) == 0);
            }
        }
        assert forall|b: int| 0 <= b < SUBBANDS implies b * frames + counts@[b] <= m.len()
            && onsets_spaced(#[trigger] band_onsets(m, frames, b, counts@[b] as int)) by {
            lemma_ordered_len(detach_frames@[b]@, frames);
            lemma_recorded_onsets_spaced(detach_frames@[b]@, frames);
            assert(b * frames + frames <= SUBBANDS * frames) by (nonlinear_arith)
                requires b < SUBBANDS;
        }
        lemma_spaced_onsets_pairable(m, frames, counts@);
    }
    (out_matrix, counts, total)
}

} // verus!
