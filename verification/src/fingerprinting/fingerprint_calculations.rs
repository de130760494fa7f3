use vstd::prelude::*;
use byteorder::{LittleEndian, WriteBytesExt};

use crate::fingerprinting::murmurhash2::{murmurhash2, murmurhash2_spec};
use crate::structures::code_segment::CodeSegment;
use crate::structures::fingerprint::Fingerprint;
use crate::structures::matrix::Matrix;

verus! {

/// Number of subbands that onsets are detected in.
pub const SUBBANDS: usize = 8;

/// The bits of a hash that a code keeps.
pub const HASH_BITMASK: u32 = 0x000fffff;

/// What one code is made from before its time deltas are quantized: the band,
/// the frame of the onset that the code is anchored at, and two frame deltas
/// between later onsets of the band.
#[derive(PartialEq, Eq, Structural, Debug, Clone, Copy)]
pub struct OnsetPairing {
    pub band: usize,
    pub onset_frame: i32,
    pub first_delta: i32,
    pub second_delta: i32,
}

/// The quantized values that one code is hashed from: both frame deltas
/// quantized to 23 ms steps, and the quantized time of the onset.
#[derive(PartialEq, Eq, Structural, Debug, Clone, Copy)]
pub struct QuantizedPairing {
    pub first_delta: i16,
    pub second_delta: i16,
    pub time: i32,
}

/// Frames within which a new onset replaces the previous one of its band.
pub const DEADTIME: usize = 128;

/// Frames since the last onset beyond which a band's threshold decays faster.
pub const TTARG: usize = 345;

/// What one frame of a band's onset detector decides, given whether the band's
/// filtered level is in contact with its threshold.
#[derive(PartialEq, Eq, Structural, Debug, Clone, Copy)]
pub struct ContactStep {
    /// Contact begins at this frame.
    pub attach: bool,
    /// Contact ends at this frame: an onset is recorded.
    pub detach: bool,
    /// Frames since the last recorded onset, this frame included.
    pub frames_since_onset: usize,
    /// The decay time constant shrinks (it grows otherwise).
    pub shorten_decay: bool,
    /// The remembered threshold level is forgotten.
    pub forget_threshold: bool,
}

/// The decisions of one frame of a band: contact that begins attaches,
/// contact that ends detaches and restarts the count of frames since the
/// onset, which then counts this frame; past `TTARG` frames the decay time
/// shrinks, and out of contact past `DEADTIME` frames the threshold is
/// forgotten.
pub open spec fn contact_step_spec(contact: bool, last_contact: bool, frames_since_onset: usize) -> ContactStep {
    let detach = !contact && last_contact;
    let since = if detach { 1 } else { frames_since_onset + 1 };
    ContactStep {
        attach: contact && !last_contact,
        detach: detach,
        frames_since_onset: since as usize,
        shorten_decay: since > TTARG,
        forget_threshold: !contact && since > DEADTIME,
    }
}

/// One frame of a band's onset detector, see `contact_step_spec`.
pub fn contact_step(contact: bool, last_contact: bool, frames_since_onset: usize) -> (step: ContactStep)
    requires
        frames_since_onset < usize::MAX,
    ensures
        step == contact_step_spec(contact, last_contact, frames_since_onset),
        step.attach == (contact && !last_contact),
        step.detach == (!contact && last_contact),
        step.frames_since_onset == if !contact && last_contact {
            1
        } else {
            frames_since_onset + 1
        },
        step.shorten_decay == (step.frames_since_onset > TTARG),
        step.forget_threshold == (!contact && step.frames_since_onset > DEADTIME),
{
    let detach = !contact && last_contact;
    let mut since = frames_since_onset;
    if detach {
        since = 0;
    }
    since += 1;
    ContactStep {
        attach: contact && !last_contact,
        detach: detach,
        frames_since_onset: since,
        shorten_decay: since > TTARG,
        forget_threshold: !contact && since > DEADTIME,
    }
}

/// The frame of onset `i` of band `band` in the row-major onset matrix `m`
/// with `cols` columns.
pub open spec fn onset_at(m: Seq<i32>, cols: usize, band: int, i: int) -> int {
    m[band * cols + i] as int
}

/// The onsets `0..count` of band `band` lie in the matrix, and the frame
/// deltas between onsets at most three apart fit in an `i32`.
pub open spec fn band_onsets_defined(m: Seq<i32>, cols: usize, band: int, count: int) -> bool {
    &&& band * cols + count <= m.len()
    &&& forall|i: int, j: int|
        #![trigger onset_at(m, cols, band, i), onset_at(m, cols, band, j)]
        0 <= i < j < count && j - i <= 3 ==> i32::MIN <= onset_at(m, cols, band, j) - onset_at(
            m,
            cols,
            band,
            i,
        ) <= i32::MAX
}

/// The onset matrix and the per-band onset counts describe onsets that codes
/// can be formed from: a count for every band, and for each band with more
/// than two onsets, onsets that lie in the matrix with representable deltas.
pub open spec fn pairings_defined(m: Seq<i32>, cols: usize, counts: Seq<usize>) -> bool {
    &&& counts.len() >= SUBBANDS
    &&& forall|b: int|
        0 <= b < SUBBANDS && #[trigger] counts[b] > 2 ==> band_onsets_defined(
            m,
            cols,
            b,
            counts[b] as int,
        )
}

/// The onset frames `0..count` of band `band`.
pub open spec fn band_onsets(m: Seq<i32>, cols: usize, band: int, count: int) -> Seq<i32> {
    Seq::new(count as nat, |i: int| m[band * cols + i])
}

/// Onset frames are non-negative and any two of them lie at least
/// `DEADTIME` frames apart, later ones after earlier ones.
pub open spec fn onsets_spaced(onsets: Seq<i32>) -> bool {
    &&& forall|i: int| 0 <= i < onsets.len() ==> #[trigger] onsets[i] >= 0
    &&& forall|i: int, j: int|
        0 <= i < j < onsets.len() ==> #[trigger] onsets[j] - #[trigger] onsets[i] >= DEADTIME
}

/// An onset at `frame` replaces the last recorded onset of `band` when that
/// one lies less than `DEADTIME` frames before it.
pub open spec fn replaces_last(m: Seq<i32>, cols: usize, counts: Seq<usize>, band: int, frame: int) -> bool {
    counts[band] > 0 && m[band * cols + counts[band] - 1] > frame - DEADTIME
}

/// The slot of band `band` that an onset at `frame` is written to.
pub open spec fn onset_slot(m: Seq<i32>, cols: usize, counts: Seq<usize>, band: int, frame: int) -> int {
    if replaces_last(m, cols, counts, band, frame) {
        counts[band] - 1
    } else {
        counts[band] as int
    }
}

/// Records an onset of band `band` detected at `frame`: it overwrites the
/// band's last onset when that one lies less than `DEADTIME` frames earlier,
/// and is appended otherwise. The total count follows the band's count.
/// Onsets recorded in increasing order of frames stay `DEADTIME` apart.
pub fn record_onset(
    out_matrix: &mut Matrix<i32>,
    onset_counter_for_band: &mut [usize],
    onset_counter: &mut usize,
    band: usize,
    frame: usize,
)
    requires
        band < old(onset_counter_for_band)@.len(),
        frame <= i32::MAX,
        old(onset_counter_for_band)@[band as int] > 0 ==> band * old(out_matrix).num_cols()
            + old(onset_counter_for_band)@[band as int] - 1 < old(out_matrix)@.len(),
        band * old(out_matrix).num_cols() + onset_slot(
            old(out_matrix)@,
            old(out_matrix).num_cols(),
            old(onset_counter_for_band)@,
            band as int,
            frame as int,
        ) < old(out_matrix)@.len(),
        replaces_last(
            old(out_matrix)@,
            old(out_matrix).num_cols(),
            old(onset_counter_for_band)@,
            band as int,
            frame as int,
        ) ==> *old(onset_counter) > 0,
        !replaces_last(
            old(out_matrix)@,
            old(out_matrix).num_cols(),
            old(onset_counter_for_band)@,
            band as int,
            frame as int,
        ) ==> *old(onset_counter) < usize::MAX,
    ensures
        ({
            let m = old(out_matrix)@;
            let cols = old(out_matrix).num_cols();
            let count = old(onset_counter_for_band)@[band as int] as int;
            let last = m[band * cols + count - 1] as int;
            &&& count > 0 && frame - last < DEADTIME ==> {
                &&& final(onset_counter_for_band)@[band as int] == count
                &&& final(out_matrix)@[band * cols + count - 1] == frame
                &&& *final(onset_counter) == *old(onset_counter)
            }
            &&& (count == 0 || frame - last >= DEADTIME) ==> {
                &&& final(onset_counter_for_band)@[band as int] == count + 1
                &&& final(out_matrix)@[band * cols + count] == frame
                &&& *final(onset_counter) == *old(onset_counter) + 1
            }
        }),
        ({
            let m = old(out_matrix)@;
            let cols = old(out_matrix).num_cols();
            let counts = old(onset_counter_for_band)@;
            let slot = onset_slot(m, cols, counts, band as int, frame as int);
            &&& final(out_matrix)@ == m.update(band * cols + slot, frame as i32)
            &&& final(out_matrix).num_cols() == cols
            &&& final(out_matrix).num_rows() == old(out_matrix).num_rows()
            &&& final(onset_counter_for_band)@ == counts.update(band as int, (slot + 1) as usize)
            &&& *final(onset_counter) == if replaces_last(m, cols, counts, band as int, frame as int) {
                *old(onset_counter) as int
            } else {
                *old(onset_counter) + 1
            }
        }),
        ({
            let m = old(out_matrix)@;
            let cols = old(out_matrix).num_cols();
            let count = old(onset_counter_for_band)@[band as int] as int;
            let onsets = band_onsets(m, cols, band as int, count);
            onsets_spaced(onsets) && (forall|i: int| 0 <= i < count ==> #[trigger] onsets[i] < frame)
                ==> {
                let new_onsets = band_onsets(
                    final(out_matrix)@,
                    cols,
                    band as int,
                    final(onset_counter_for_band)@[band as int] as int,
                );
                &&& onsets_spaced(new_onsets)
                &&& new_onsets.len() > 0
                &&& new_onsets.last() == frame
            }
        }),
{
    let ghost m = out_matrix@;
    let ghost cols = out_matrix.num_cols();
    let ghost counts = onset_counter_for_band@;
    let ghost count = counts[band as int] as int;
    let ghost onsets = band_onsets(m, cols, band as int, count);
    let ghost slot = onset_slot(m, cols, counts, band as int, frame as int);
    proof {
        out_matrix.lemma_len_fits();
    }

    if onset_counter_for_band[band] > 0 && out_matrix[[band, onset_counter_for_band[band] - 1]] > (
    frame as i32 - DEADTIME as i32) {
        // overwrite last-written time
        onset_counter_for_band[band] -= 1;
        *onset_counter -= 1;
    }
    *out_matrix.get_mut([band, onset_counter_for_band[band]]) = frame as i32;
    onset_counter_for_band[band] += 1;
    *onset_counter += 1;

    proof {
        let new_onsets = band_onsets(out_matrix@, cols, band as int, slot + 1);
        assert(new_onsets =~= onsets.take(slot).push(frame as i32));
        if onsets_spaced(onsets) && (forall|i: int| 0 <= i < count ==> #[trigger] onsets[i] < frame) {
            assert forall|i: int, j: int| 0 <= i < j < new_onsets.len() implies #[trigger] new_onsets[j]
                - #[trigger] new_onsets[i] >= DEADTIME by {
                if j == slot {
                    if slot < count {
                        assert(onsets[slot] < frame);
                        assert(onsets[slot] - onsets[i] >= DEADTIME);
                    } else if i < slot {
                        assert(onsets[count - 1] - onsets[i] >= DEADTIME || i == count - 1);
                        assert(onsets[count - 1] <= frame - DEADTIME);
                    }
                } else {
                    assert(new_onsets[j] == onsets[j]);
                    assert(new_onsets[i] == onsets[i]);
                }
            }
        }
    }
}

/// How many of the six codes of an onset pair it with later onsets: fewer
/// near the end of the band, where later onsets run out.
pub open spec fn hashes_for_onset(count: int, onset: int) -> int {
    if onset == count - 3 {
        1
    } else if onset == count - 4 {
        3
    } else {
        6
    }
}

/// The two frame deltas of code `k` of onset `onset` in band `band` (with
/// `count` onsets); codes beyond `nhashes` get zero deltas.
pub open spec fn pair_deltas(
    m: Seq<i32>,
    cols: usize,
    band: int,
    count: int,
    onset: int,
    k: int,
) -> (int, int) {
    let t0 = onset_at(m, cols, band, onset);
    let t1 = onset_at(m, cols, band, onset + 1);
    let t2 = onset_at(m, cols, band, onset + 2);
    let t3 = onset_at(m, cols, band, onset + 3);
    let t4 = onset_at(m, cols, band, onset + 4);
    let nh = hashes_for_onset(count, onset);
    if k == 0 {
        (t1 - t0, t2 - t1)
    } else if k == 1 && nh > 1 {
        (t1 - t0, t3 - t1)
    } else if k == 2 && nh > 1 {
        (t2 - t0, t3 - t2)
    } else if k == 3 && nh > 3 {
        (t1 - t0, t4 - t1)
    } else if k == 4 && nh > 3 {
        (t2 - t0, t4 - t2)
    } else if k == 5 && nh > 3 {
        (t3 - t0, t4 - t3)
    } else {
        (0, 0)
    }
}

/// Code `k` of onset `onset` in band `band`.
pub open spec fn pairing_spec(
    m: Seq<i32>,
    cols: usize,
    band: int,
    count: int,
    onset: int,
    k: int,
) -> OnsetPairing {
    let d = pair_deltas(m, cols, band, count, onset, k);
    OnsetPairing {
        band: band as usize,
        onset_frame: onset_at(m, cols, band, onset) as i32,
        first_delta: d.0 as i32,
        second_delta: d.1 as i32,
    }
}

/// The six codes of onset `onset` in band `band`, in order of `k`.
pub open spec fn onset_codes_spec(m: Seq<i32>, cols: usize, band: int, count: int, onset: int) -> Seq<
    OnsetPairing,
> {
    Seq::new(6, |k: int| pairing_spec(m, cols, band, count, onset, k))
}

/// The codes of the first `n` onsets of band `band`.
pub open spec fn onsets_pairings(m: Seq<i32>, cols: usize, band: int, count: int, n: nat) -> Seq<
    OnsetPairing,
>
    decreases n,
{
    if n == 0 {
        Seq::empty()
    } else {
        onsets_pairings(m, cols, band, count, (n - 1) as nat) + onset_codes_spec(
            m,
            cols,
            band,
            count,
            n - 1,
        )
    }
}

/// The codes of band `band`: six for each onset but the last two, none when
/// the band has two onsets or fewer.
pub open spec fn band_pairings(m: Seq<i32>, cols: usize, band: int, count: int) -> Seq<OnsetPairing> {
    if count <= 2 {
        Seq::empty()
    } else {
        onsets_pairings(m, cols, band, count, (count - 2) as nat)
    }
}

/// The codes of the first `nb` bands, band after band.
pub open spec fn bands_pairings(m: Seq<i32>, cols: usize, counts: Seq<usize>, nb: nat) -> Seq<
    OnsetPairing,
>
    decreases nb,
{
    if nb == 0 {
        Seq::empty()
    } else {
        bands_pairings(m, cols, counts, (nb - 1) as nat) + band_pairings(
            m,
            cols,
            nb - 1,
            counts[nb - 1] as int,
        )
    }
}

/// Every code that an onset matrix gives, in emission order.
pub open spec fn fingerprint_pairings(m: Seq<i32>, cols: usize, counts: Seq<usize>) -> Seq<
    OnsetPairing,
> {
    bands_pairings(m, cols, counts, SUBBANDS as nat)
}

/// Number of codes that a band with `count` onsets gives.
pub open spec fn band_code_count(count: int) -> int {
    if count <= 2 {
        0
    } else {
        6 * (count - 2)
    }
}

/// Number of codes that the first `nb` bands give.
pub open spec fn bands_code_count(counts: Seq<usize>, nb: nat) -> int
    decreases nb,
{
    if nb == 0 {
        0
    } else {
        bands_code_count(counts, (nb - 1) as nat) + band_code_count(counts[nb - 1] as int)
    }
}

pub(crate) proof fn lemma_onsets_pairings_len(m: Seq<i32>, cols: usize, band: int, count: int, n: nat)
    ensures
        onsets_pairings(m, cols, band, count, n).len() == 6 * n,
    decreases n,
{
    if n > 0 {
        lemma_onsets_pairings_len(m, cols, band, count, (n - 1) as nat);
    }
}

pub(crate) proof fn lemma_bands_pairings_len(m: Seq<i32>, cols: usize, counts: Seq<usize>, nb: nat)
    ensures
        bands_pairings(m, cols, counts, nb).len() == bands_code_count(counts, nb),
    decreases nb,
{
    if nb > 0 {
        lemma_bands_pairings_len(m, cols, counts, (nb - 1) as nat);
        let count = counts[nb - 1] as int;
        if count > 2 {
            lemma_onsets_pairings_len(m, cols, nb - 1, count, (count - 2) as nat);
        }
    }
}

/// A fingerprint has six codes for every onset of a band but the last two of
/// that band.
pub proof fn lemma_code_count(m: Seq<i32>, cols: usize, counts: Seq<usize>)
    ensures
        fingerprint_pairings(m, cols, counts).len() == bands_code_count(counts, SUBBANDS as nat),
{
    lemma_bands_pairings_len(m, cols, counts, SUBBANDS as nat);
}

/// Onsets recorded `DEADTIME` apart in every band, within the matrix, can be
/// paired: their deltas are representable.
pub proof fn lemma_spaced_onsets_pairable(m: Seq<i32>, cols: usize, counts: Seq<usize>)
    requires
        counts.len() >= SUBBANDS,
        forall|b: int|
            0 <= b < SUBBANDS ==> b * cols + counts[b] <= m.len() && onsets_spaced(
                #[trigger] band_onsets(m, cols, b, counts[b] as int),
            ),
    ensures
        pairings_defined(m, cols, counts),
{
    assert forall|b: int| 0 <= b < SUBBANDS && #[trigger] counts[b] > 2 implies band_onsets_defined(
        m,
        cols,
        b,
        counts[b] as int,
    ) by {
        let onsets = band_onsets(m, cols, b, counts[b] as int);
        assert(onsets_spaced(onsets));
        assert forall|i: int, j: int|
            0 <= i < j < counts[b] && j - i <= 3 implies i32::MIN <= #[trigger] onset_at(
                m,
                cols,
                b,
                j,
            ) - #[trigger] onset_at(m, cols, b, i) <= i32::MAX by {
            assert(onsets[i] == m[b * cols + i]);
            assert(onsets[j] == m[b * cols + j]);
            assert(onsets[i] >= 0);
            assert(onsets[j] - onsets[i] >= DEADTIME);
        }
    }
}

/// The pairings of every onset of every band: for each band with more than
/// two onsets and each of its onsets but the last two, six pairings of the
/// onset with the onsets that follow it, band after band and onset after
/// onset.
pub fn onset_pairings(out_matrix: &Matrix<i32>, onset_counter_for_band: &[usize]) -> (pairings: Vec<
    OnsetPairing,
>)
    requires
        pairings_defined(out_matrix@, out_matrix.num_cols(), onset_counter_for_band@),
    ensures
        pairings@ == fingerprint_pairings(
            out_matrix@,
            out_matrix.num_cols(),
            onset_counter_for_band@,
        ),
        pairings@.len() == bands_code_count(onset_counter_for_band@, SUBBANDS as nat),
{
    proof {
        lemma_code_count(out_matrix@, out_matrix.num_cols(), onset_counter_for_band@);
    }
    let ghost m = out_matrix@;
    let ghost cols = out_matrix.num_cols();
    let ghost counts = onset_counter_for_band@;
    let mut pairings: Vec<OnsetPairing> = Vec::new();
    let mut p: Matrix<i32> = Matrix::new(2, 6);

    for band in 0..SUBBANDS
        invariant
            m == out_matrix@,
            cols == out_matrix.num_cols(),
            counts == onset_counter_for_band@,
            pairings_defined(m, cols, counts),
            p@.len() == 12,
            p.num_cols() == 6,
            pairings@ == bands_pairings(m, cols, counts, band as nat),
    {
        let count = onset_counter_for_band[band];
        let ghost before = pairings@;
        if count > 2 {
            assert(band_onsets_defined(m, cols, band as int, count as int));
            for onset in 0..count - 2
                invariant
                    m == out_matrix@,
                    cols == out_matrix.num_cols(),
                    counts == onset_counter_for_band@,
                    counts.len() >= SUBBANDS,
                    count == counts[band as int],
                    count > 2,
                    band < SUBBANDS,
                    band_onsets_defined(m, cols, band as int, count as int),
                    p@.len() == 12,
                    p.num_cols() == 6,
                    pairings@ == before + onsets_pairings(
                        m,
                        cols,
                        band as int,
                        count as int,
                        onset as nat,
                    ),
            {
                let ghost b = band as int;
                let ghost o = onset as int;
                let t0 = out_matrix[[band, onset]];
                let t1 = out_matrix[[band, onset + 1]];
                let t2 = out_matrix[[band, onset + 2]];
                assert(t0 == onset_at(m, cols, b, o));
                assert(t1 == onset_at(m, cols, b, o + 1));
                assert(t2 == onset_at(m, cols, b, o + 2));

                for i in 0..6
                    invariant
                        p@.len() == 12,
                        p.num_cols() == 6,
                        forall|j: int| 0 <= j < 12 && (j < i || 6 <= j < 6 + i) ==> #[trigger] p@[j] == 0,
                {
                    *p.get_mut([0, i]) = 0;
                    *p.get_mut([1, i]) = 0;
                }
                let mut nhashes: usize = 6;
                if count >= 4 && onset == count - 4 {
                    nhashes = 3;
                }
                if onset == count - 3 {
                    nhashes = 1;
                }
                assert(nhashes == hashes_for_onset(count as int, o));

                *p.get_mut([0, 0]) = t1 - t0;
                *p.get_mut([1, 0]) = t2 - t1;

                if nhashes > 1 {
                    let t3 = out_matrix[[band, onset + 3]];
                    assert(t3 == onset_at(m, cols, b, o + 3));
                    *p.get_mut([0, 1]) = t1 - t0;
                    *p.get_mut([1, 1]) = t3 - t1;
                    *p.get_mut([0, 2]) = t2 - t0;
                    *p.get_mut([1, 2]) = t3 - t2;

                    if nhashes > 3 {
                        let t4 = out_matrix[[band, onset + 4]];
                        assert(t4 == onset_at(m, cols, b, o + 4));
                        *p.get_mut([0, 3]) = t1 - t0;
                        *p.get_mut([1, 3]) = t4 - t1;
                        *p.get_mut([0, 4]) = t2 - t0;
                        *p.get_mut([1, 4]) = t4 - t2;
                        *p.get_mut([0, 5]) = t3 - t0;
                        *p.get_mut([1, 5]) = t4 - t3;
                    }
                }
                assert(forall|k: int|
                    #![trigger pair_deltas(m, cols, b, count as int, o, k)]
                    0 <= k < 6 ==> p@[k] == pair_deltas(m, cols, b, count as int, o, k).0 && p@[6
                        + k] == pair_deltas(m, cols, b, count as int, o, k).1);

                let ghost start = pairings@;
                for k in 0..6
                    invariant
                        p@.len() == 12,
                        p.num_cols() == 6,
                        forall|kk: int|
                            #![trigger pair_deltas(m, cols, b, count as int, o, kk)]
                            0 <= kk < 6 ==> p@[kk] == pair_deltas(m, cols, b, count as int, o, kk).0
                                && p@[6 + kk] == pair_deltas(m, cols, b, count as int, o, kk).1,
                        t0 == onset_at(m, cols, b, o),
                        b == band,
                        pairings@ == start + onset_codes_spec(m, cols, b, count as int, o).take(
                            k as int,
                        ),
                {
                    let first = p[[0, k]];
                    let second = p[[1, k]];
                    pairings.push(
                        OnsetPairing {
                            band: band,
                            onset_frame: t0,
                            first_delta: first,
                            second_delta: second,
                        },
                    );
                    assert(onset_codes_spec(m, cols, b, count as int, o).take(k + 1)
                        =~= onset_codes_spec(m, cols, b, count as int, o).take(k as int).push(
                        pairing_spec(m, cols, b, count as int, o, k as int),
                    ));
                }
                assert(onset_codes_spec(m, cols, b, count as int, o).take(6)
                    =~= onset_codes_spec(m, cols, b, count as int, o));
                assert(before + onsets_pairings(m, cols, b, count as int, (o + 1) as nat) =~= before
                    + onsets_pairings(m, cols, b, count as int, o as nat) + onset_codes_spec(
                    m,
                    cols,
                    b,
                    count as int,
                    o,
                ));
            }
        } else {
            assert(pairings@ =~= before + band_pairings(m, cols, band as int, count as int));
        }
        assert(bands_pairings(m, cols, counts, (band + 1) as nat) == bands_pairings(
            m,
            cols,
            counts,
            band as nat,
        ) + band_pairings(m, cols, band as int, counts[band as int] as int));
    }
    pairings
}

/// The two bytes of the little-endian encoding of `value`, low byte first.
pub open spec fn le_i16_bytes(value: i16) -> (u8, u8) {
    (((value as u16) % 0x100) as u8, ((value as u16) / 0x100) as u8)
}

/// `WriteBytesExt::write_i16::<LittleEndian>` of byteorder, writing into a
/// two-byte buffer: the buffer then holds the little-endian encoding of
/// `value`. The write cannot run out of room, so the error arm is never taken.
#[verifier::external_body]
fn write_i16_le(value: i16) -> (bytes: [u8; 2])
    ensures
        bytes[0] == le_i16_bytes(value).0,
        bytes[1] == le_i16_bytes(value).1,
{
    let mut bytes = [0u8; 2];
    bytes.as_mut().write_i16::<LittleEndian>(value).expect("Unable to convert i16 to [u8]");
    bytes
}

/// The six bytes hashed into a code: both quantized deltas little-endian,
/// then the band, then a zero byte.
pub open spec fn hash_material_spec(first_delta: i16, second_delta: i16, band: u8) -> Seq<u8> {
    seq![
        le_i16_bytes(first_delta).0,
        le_i16_bytes(first_delta).1,
        le_i16_bytes(second_delta).0,
        le_i16_bytes(second_delta).1,
        band,
        0u8,
    ]
}

/// The code for two quantized deltas in a band: the low 20 bits of the
/// MurmurHash2 of their hash material.
pub open spec fn code_spec(first_delta: i16, second_delta: i16, band: u8) -> i32 {
    (murmurhash2_spec(hash_material_spec(first_delta, second_delta, band)) & HASH_BITMASK) as i32
}

/// Every code lies in `0..=HASH_BITMASK`.
pub proof fn lemma_code_in_range(first_delta: i16, second_delta: i16, band: u8)
    ensures
        0 <= code_spec(first_delta, second_delta, band) <= HASH_BITMASK,
{
    let hash = murmurhash2_spec(hash_material_spec(first_delta, second_delta, band));
    assert((hash & 0x000fffffu32) <= 0x000fffffu32) by (bit_vector);
}

/// The code for two quantized deltas in a band; it always lies in
/// `0..=HASH_BITMASK`.
pub fn hashed_code(first_delta: i16, second_delta: i16, band: u8) -> (code: i32)
    ensures
        code == code_spec(first_delta, second_delta, band),
        0 <= code <= HASH_BITMASK,
{
    let first = write_i16_le(first_delta);
    let second = write_i16_le(second_delta);
    let hash_material: [u8; 6] = [first[0], first[1], second[0], second[1], band, 0];
    assert(hash_material@ =~= hash_material_spec(first_delta, second_delta, band));
    let hash = murmurhash2(&hash_material);
    proof {
        lemma_code_in_range(first_delta, second_delta, band);
    }
    (hash & HASH_BITMASK) as i32
}

/// The code segment of a pairing once its deltas and time are quantized.
pub open spec fn code_segment_spec(pairing: OnsetPairing, quantized: QuantizedPairing) -> CodeSegment {
    CodeSegment {
        code: code_spec(quantized.first_delta, quantized.second_delta, pairing.band as u8),
        time: quantized.time,
    }
}

/// The fingerprint whose `i`-th code is made from the `i`-th pairing and its
/// quantized values: the hash of the quantized deltas in the pairing's band,
/// at the quantized time.
pub fn fingerprint_from_quantized(pairings: &[OnsetPairing], quantized: &[QuantizedPairing]) -> (f:
    Fingerprint)
    requires
        pairings@.len() == quantized@.len(),
    ensures
        f.codes@.len() == pairings@.len(),
        forall|i: int|
            0 <= i < pairings@.len() ==> #[trigger] f.codes@[i] == code_segment_spec(
                pairings@[i],
                quantized@[i],
            ),
        forall|i: int|
            0 <= i < pairings@.len() ==> 0 <= #[trigger] f.codes@[i].code <= HASH_BITMASK,
        forall|i: int|
            0 <= i < pairings@.len() ==> #[trigger] f.codes@[i].code == code_spec(
                quantized@[i].first_delta,
                quantized@[i].second_delta,
                pairings@[i].band as u8,
            ) && f.codes@[i].time == quantized@[i].time,
{
    let mut codes: Vec<CodeSegment> = Vec::new();
    for i in 0..pairings.len()
        invariant
            pairings@.len() == quantized@.len(),
            codes@.len() == i,
            forall|j: int|
                0 <= j < i ==> #[trigger] codes@[j] == code_segment_spec(pairings@[j], quantized@[j]),
    {
        let pairing = pairings[i];
        let q = quantized[i];
        let code = hashed_code(q.first_delta, q.second_delta, pairing.band as u8);
        codes.push(CodeSegment { code: code, time: q.time });
    }
    assert forall|i: int| 0 <= i < pairings@.len() implies 0 <= #[trigger] codes@[i].code
        <= HASH_BITMASK by {
        lemma_code_in_range(
            quantized@[i].first_delta,
            quantized@[i].second_delta,
            pairings@[i].band as u8,
        );
    }
    Fingerprint::new(codes)
}

} // verus!
