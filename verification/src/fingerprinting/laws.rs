use vstd::prelude::*;

use crate::fingerprinting::murmurhash2::murmurhash2_spec;
use crate::fingerprinting::fingerprint_calculations::{
    code_segment_spec, code_spec, contact_step_spec, hash_material_spec, QuantizedPairing,
    DEADTIME, HASH_BITMASK, TTARG, lemma_bands_pairings_len, lemma_onsets_pairings_len, onset_codes_spec, band_code_count, band_pairings, bands_code_count, bands_pairings, fingerprint_pairings,
    onset_at, onsets_pairings, pairing_spec, pairings_defined, OnsetPairing, SUBBANDS,
};

verus! {

/// `shifted` is `m` with `c` added to every entry.
pub open spec fn shifted_by(m: Seq<i32>, shifted: Seq<i32>, c: int) -> bool {
    &&& shifted.len() == m.len()
    &&& forall|j: int| 0 <= j < m.len() ==> #[trigger] shifted[j] == m[j] + c
}

/// `q` holds the pairings of `p` with every onset `c` frames later: same
/// bands, same deltas.
pub open spec fn pairings_shifted(p: Seq<OnsetPairing>, q: Seq<OnsetPairing>, c: int) -> bool {
    &&& q.len() == p.len()
    &&& forall|i: int|
        0 <= i < p.len() ==> {
            &&& #[trigger] q[i].band == p[i].band
            &&& q[i].first_delta == p[i].first_delta
            &&& q[i].second_delta == p[i].second_delta
            &&& q[i].onset_frame == p[i].onset_frame + c
        }
}

proof fn lemma_onsets_shifted(
    m: Seq<i32>,
    m2: Seq<i32>,
    cols: usize,
    band: int,
    count: int,
    n: nat,
    c: int,
)
    requires
        shifted_by(m, m2, c),
        0 <= band,
        3 <= count,
        n <= count - 2,
        band * cols + count <= m.len(),
    ensures
        pairings_shifted(
            onsets_pairings(m, cols, band, count, n),
            onsets_pairings(m2, cols, band, count, n),
            c,
        ),
    decreases n,
{
    if n > 0 {
        lemma_onsets_shifted(m, m2, cols, band, count, (n - 1) as nat, c);
        let o = n - 1;
        assert forall|i: int| 0 <= i < count implies #[trigger] onset_at(m2, cols, band, i) == onset_at(
            m,
            cols,
            band,
            i,
        ) + c by {
            assert(0 <= band * cols + i < m.len()) by (nonlinear_arith)
                requires 0 <= band, 0 <= i < count, band * cols + count <= m.len(), cols >= 0;
        }
        assert forall|k: int| 0 <= k < 6 implies {
            let a = #[trigger] pairing_spec(m, cols, band, count, o, k);
            let b = pairing_spec(m2, cols, band, count, o, k);
            &&& b.band == a.band
            &&& b.first_delta == a.first_delta
            &&& b.second_delta == a.second_delta
            &&& b.onset_frame == a.onset_frame + c
        } by {
            assert(onset_at(m2, cols, band, o) == onset_at(m, cols, band, o) + c);
            assert(onset_at(m2, cols, band, o + 1) == onset_at(m, cols, band, o + 1) + c);
            assert(onset_at(m2, cols, band, o + 2) == onset_at(m, cols, band, o + 2) + c);
            if o + 3 < count {
                assert(onset_at(m2, cols, band, o + 3) == onset_at(m, cols, band, o + 3) + c);
            }
            if o + 4 < count {
                assert(onset_at(m2, cols, band, o + 4) == onset_at(m, cols, band, o + 4) + c);
            }
            assert(0 <= band * cols + o < m.len()) by (nonlinear_arith)
                requires 0 <= band, 0 <= o < count, band * cols + count <= m.len(), cols >= 0;
        }
        let p1 = onsets_pairings(m, cols, band, count, (n - 1) as nat);
        let q1 = onsets_pairings(m2, cols, band, count, (n - 1) as nat);
        let p2 = onset_codes_spec(m, cols, band, count, o);
        let q2 = onset_codes_spec(m2, cols, band, count, o);
        assert(onsets_pairings(m, cols, band, count, n) == p1 + p2);
        assert(onsets_pairings(m2, cols, band, count, n) == q1 + q2);
        assert forall|i: int| 0 <= i < p1.len() + p2.len() implies {
            &&& #[trigger] (q1 + q2)[i].band == (p1 + p2)[i].band
            &&& (q1 + q2)[i].first_delta == (p1 + p2)[i].first_delta
            &&& (q1 + q2)[i].second_delta == (p1 + p2)[i].second_delta
            &&& (q1 + q2)[i].onset_frame == (p1 + p2)[i].onset_frame + c
        } by {
            if i < p1.len() {
                assert(q1[i].band == p1[i].band);
            } else {
                let k = i - p1.len();
                assert(p2[k] == pairing_spec(m, cols, band, count, o, k));
                assert(q2[k] == pairing_spec(m2, cols, band, count, o, k));
            }
        }
    }
}

proof fn lemma_bands_shifted(
    m: Seq<i32>,
    m2: Seq<i32>,
    cols: usize,
    counts: Seq<usize>,
    nb: nat,
    c: int,
)
    requires
        shifted_by(m, m2, c),
        pairings_defined(m, cols, counts),
        nb <= SUBBANDS,
    ensures
        pairings_shifted(bands_pairings(m, cols, counts, nb), bands_pairings(m2, cols, counts, nb), c),
    decreases nb,
{
    if nb > 0 {
        lemma_bands_shifted(m, m2, cols, counts, (nb - 1) as nat, c);
        let b = nb - 1;
        let count = counts[b] as int;
        if count > 2 {
            lemma_onsets_shifted(m, m2, cols, b, count, (count - 2) as nat, c);
        }
        let p1 = bands_pairings(m, cols, counts, (nb - 1) as nat);
        let q1 = bands_pairings(m2, cols, counts, (nb - 1) as nat);
        let p2 = band_pairings(m, cols, b, count);
        let q2 = band_pairings(m2, cols, b, count);
        assert forall|i: int| 0 <= i < p1.len() + p2.len() implies {
            &&& #[trigger] (q1 + q2)[i].band == (p1 + p2)[i].band
            &&& (q1 + q2)[i].first_delta == (p1 + p2)[i].first_delta
            &&& (q1 + q2)[i].second_delta == (p1 + p2)[i].second_delta
            &&& (q1 + q2)[i].onset_frame == (p1 + p2)[i].onset_frame + c
        } by {
            if i < p1.len() {
                assert(q1[i].band == p1[i].band);
            } else {
                assert(q2[i - p1.len()].band == p2[i - p1.len()].band);
            }
        }
    }
}

/// Pairing deltas do not depend on where the onsets lie in time: when every
/// onset frame moves by `c`, every pairing keeps its band and both deltas,
/// and its onset frame moves by `c`.
pub proof fn lemma_pairings_translation_invariant(
    m: Seq<i32>,
    shifted: Seq<i32>,
    cols: usize,
    counts: Seq<usize>,
    c: int,
)
    requires
        pairings_defined(m, cols, counts),
        shifted_by(m, shifted, c),
    ensures
        pairings_shifted(fingerprint_pairings(m, cols, counts), fingerprint_pairings(shifted, cols, counts), c),
{
    lemma_bands_shifted(m, shifted, cols, counts, SUBBANDS as nat, c);
}

proof fn lemma_onsets_index(m: Seq<i32>, cols: usize, band: int, count: int, n: nat, o: int, k: int)
    requires
        0 <= o < n,
        0 <= k < 6,
    ensures
        onsets_pairings(m, cols, band, count, n)[6 * o + k] == pairing_spec(m, cols, band, count, o, k),
    decreases n,
{
    lemma_onsets_pairings_len(m, cols, band, count, (n - 1) as nat);
    if o < n - 1 {
        lemma_onsets_index(m, cols, band, count, (n - 1) as nat, o, k);
    } else {
        assert(onset_codes_spec(m, cols, band, count, o)[k] == pairing_spec(m, cols, band, count, o, k));
    }
}

proof fn lemma_code_count_monotone(counts: Seq<usize>, a: nat, b: nat)
    requires
        a <= b,
    ensures
        bands_code_count(counts, a) <= bands_code_count(counts, b),
    decreases b,
{
    if a < b {
        lemma_code_count_monotone(counts, a, (b - 1) as nat);
    }
}

proof fn lemma_bands_index(m: Seq<i32>, cols: usize, counts: Seq<usize>, nb: nat, band: int, j: int)
    requires
        0 <= band < nb,
        nb <= counts.len(),
        0 <= j < band_code_count(counts[band] as int),
    ensures
        bands_pairings(m, cols, counts, nb)[bands_code_count(counts, band as nat) + j] == band_pairings(
            m,
            cols,
            band,
            counts[band] as int,
        )[j],
    decreases nb,
{
    lemma_bands_pairings_len(m, cols, counts, (nb - 1) as nat);
    let count = counts[band] as int;
    lemma_onsets_pairings_len(m, cols, band, count, (count - 2) as nat);
    assert(band_pairings(m, cols, band, count).len() == band_code_count(count));
    let first = bands_pairings(m, cols, counts, (nb - 1) as nat);
    let second = band_pairings(m, cols, nb - 1, counts[nb - 1] as int);
    let idx = bands_code_count(counts, band as nat) + j;
    lemma_code_count_monotone(counts, 0, band as nat);
    assert(bands_pairings(m, cols, counts, nb) == first + second);
    if band < nb - 1 {
        lemma_bands_index(m, cols, counts, (nb - 1) as nat, band, j);
        assert(bands_code_count(counts, (band + 1) as nat) == bands_code_count(counts, band as nat)
            + band_code_count(count));
        lemma_code_count_monotone(counts, (band + 1) as nat, (nb - 1) as nat);
        assert((first + second)[idx] == first[idx]);
    } else {
        assert((first + second)[idx] == second[j]);
    }
}

/// Where the codes of an onset stand: the six pairings of onset `o` of band
/// `b` follow the pairings of the bands before `b` and of the onsets before
/// `o`.
pub proof fn lemma_pairing_position(m: Seq<i32>, cols: usize, counts: Seq<usize>, b: int, o: int, k: int)
    requires
        counts.len() >= SUBBANDS,
        0 <= b < SUBBANDS,
        counts[b] > 2,
        0 <= o < counts[b] - 2,
        0 <= k < 6,
    ensures
        fingerprint_pairings(m, cols, counts)[bands_code_count(counts, b as nat) + 6 * o + k]
            == pairing_spec(m, cols, b, counts[b] as int, o, k),
{
    let count = counts[b] as int;
    lemma_bands_index(m, cols, counts, SUBBANDS as nat, b, 6 * o + k);
    lemma_onsets_index(m, cols, b, count, (count - 2) as nat, o, k);
}

/// The six codes of onset `o` of band `b`, in terms of the onset frames
/// `t0..t4` of that onset and the ones after it: each code is anchored at
/// `t0` and carries the gaps from `t0` to a later onset and from that onset
/// to one further on. With five or more onsets left all six pairs are used;
/// with four left, the first three; with three left, only the first; unused
/// codes carry zero deltas.
pub proof fn lemma_onset_codes(m: Seq<i32>, cols: usize, counts: Seq<usize>, b: int, o: int)
    requires
        pairings_defined(m, cols, counts),
        0 <= b < SUBBANDS,
        counts[b] > 2,
        0 <= o < counts[b] - 2,
    ensures
        ({
            let p = fingerprint_pairings(m, cols, counts);
            let base = bands_code_count(counts, b as nat) + 6 * o;
            let count = counts[b] as int;
            let t0 = onset_at(m, cols, b, o);
            let t1 = onset_at(m, cols, b, o + 1);
            let t2 = onset_at(m, cols, b, o + 2);
            let t3 = onset_at(m, cols, b, o + 3);
            let t4 = onset_at(m, cols, b, o + 4);
            &&& forall|k: int|
                0 <= k < 6 ==> #[trigger] pairing_spec(m, cols, b, count, o, k) == p[base + k]
                    && p[base + k].band == b && p[base + k].onset_frame == t0
            &&& p[base].first_delta == t1 - t0 && p[base].second_delta == t2 - t1
            &&& o + 4 <= count ==> {
                &&& p[base + 1].first_delta == t1 - t0 && p[base + 1].second_delta == t3 - t1
                &&& p[base + 2].first_delta == t2 - t0 && p[base + 2].second_delta == t3 - t2
            }
            &&& o + 5 <= count ==> {
                &&& p[base + 3].first_delta == t1 - t0 && p[base + 3].second_delta == t4 - t1
                &&& p[base + 4].first_delta == t2 - t0 && p[base + 4].second_delta == t4 - t2
                &&& p[base + 5].first_delta == t3 - t0 && p[base + 5].second_delta == t4 - t3
            }
            &&& o + 4 == count ==> {
                &&& p[base + 3].first_delta == 0 && p[base + 3].second_delta == 0
                &&& p[base + 4].first_delta == 0 && p[base + 4].second_delta == 0
                &&& p[base + 5].first_delta == 0 && p[base + 5].second_delta == 0
            }
            &&& o + 3 == count ==> {
                &&& p[base + 1].first_delta == 0 && p[base + 1].second_delta == 0
                &&& p[base + 2].first_delta == 0 && p[base + 2].second_delta == 0
                &&& p[base + 3].first_delta == 0 && p[base + 3].second_delta == 0
                &&& p[base + 4].first_delta == 0 && p[base + 4].second_delta == 0
                &&& p[base + 5].first_delta == 0 && p[base + 5].second_delta == 0
            }
        }),
{
    let count = counts[b] as int;
    assert forall|k: int| 0 <= k < 6 implies fingerprint_pairings(m, cols, counts)[bands_code_count(
        counts,
        b as nat,
    ) + 6 * o + k] == pairing_spec(m, cols, b, count, o, k) by {
        lemma_pairing_position(m, cols, counts, b, o, k);
    }
    let p = fingerprint_pairings(m, cols, counts);
    let base = bands_code_count(counts, b as nat) + 6 * o;
    assert(p[base] == pairing_spec(m, cols, b, count, o, 0));
    assert(p[base + 1] == pairing_spec(m, cols, b, count, o, 1));
    assert(p[base + 2] == pairing_spec(m, cols, b, count, o, 2));
    assert(p[base + 3] == pairing_spec(m, cols, b, count, o, 3));
    assert(p[base + 4] == pairing_spec(m, cols, b, count, o, 4));
    assert(p[base + 5] == pairing_spec(m, cols, b, count, o, 5));
    assert(0 <= b * cols + o < m.len()) by (nonlinear_arith)
        requires 0 <= b, 0 <= o < count, b * cols + count <= m.len(), cols >= 0;
    // the deltas used are at most three onsets apart, so they fit in an i32
    let t = |i: int| onset_at(m, cols, b, o + i);
    assert(i32::MIN <= t(1) - t(0) <= i32::MAX);
    assert(i32::MIN <= t(2) - t(1) <= i32::MAX);
    assert(i32::MIN <= t(2) - t(0) <= i32::MAX);
    if o + 4 <= count {
        assert(i32::MIN <= t(3) - t(1) <= i32::MAX);
        assert(i32::MIN <= t(3) - t(2) <= i32::MAX);
        assert(i32::MIN <= t(3) - t(0) <= i32::MAX);
    }
    if o + 5 <= count {
        assert(i32::MIN <= t(4) - t(1) <= i32::MAX);
        assert(i32::MIN <= t(4) - t(2) <= i32::MAX);
        assert(i32::MIN <= t(4) - t(3) <= i32::MAX);
    }
}

/// The decisions of one detector frame: contact attaches only on the frame
/// where it begins and detaches only on the frame where it ends (never both),
/// a detach restarts the count of frames since the onset, the decay time
/// shrinks whenever that count passes `TTARG`, in or out of contact, and the
/// threshold is forgotten only out of contact past `DEADTIME` frames.
pub proof fn lemma_contact_step(contact: bool, last_contact: bool, frames_since_onset: usize)
    requires
        frames_since_onset < usize::MAX,
    ensures
        ({
            let step = contact_step_spec(contact, last_contact, frames_since_onset);
            &&& step.attach <==> (contact && !last_contact)
            &&& step.detach <==> (!contact && last_contact)
            &&& !(step.attach && step.detach)
            &&& step.detach ==> step.frames_since_onset == 1
            &&& !step.detach ==> step.frames_since_onset == frames_since_onset + 1
            &&& step.shorten_decay <==> step.frames_since_onset > TTARG
            &&& step.forget_threshold <==> (!contact && step.frames_since_onset > DEADTIME)
        }),
{
}

/// The decay-time decision depends on the frames since the last onset alone:
/// two frames that count the same number of frames since an onset shorten
/// or lengthen the decay alike, whatever their contact.
pub proof fn lemma_decay_ignores_contact(
    contact_a: bool,
    last_a: bool,
    since_a: usize,
    contact_b: bool,
    last_b: bool,
    since_b: usize,
)
    requires
        since_a < usize::MAX,
        since_b < usize::MAX,
        contact_step_spec(contact_a, last_a, since_a).frames_since_onset == contact_step_spec(
            contact_b,
            last_b,
            since_b,
        ).frames_since_onset,
    ensures
        contact_step_spec(contact_a, last_a, since_a).shorten_decay == contact_step_spec(
            contact_b,
            last_b,
            since_b,
        ).shorten_decay,
{
}

/// The key that a code is hashed from encodes its inputs whole: bytes 0-1
/// and 2-3 are the little-endian encodings of the two full `i16` deltas, byte
/// 4 is the band and byte 5 is zero.
pub proof fn lemma_hash_material_encodes(first_delta: i16, second_delta: i16, band: u8)
    ensures
        ({
            let key = hash_material_spec(first_delta, second_delta, band);
            &&& key.len() == 6
            &&& ((key[0] + 0x100 * key[1]) as u16) as i16 == first_delta
            &&& ((key[2] + 0x100 * key[3]) as u16) as i16 == second_delta
            &&& key[4] == band
            &&& key[5] == 0
        }),
{
    let key = hash_material_spec(first_delta, second_delta, band);
    let a = first_delta as u16;
    let b = second_delta as u16;
    assert(key[0] + 0x100 * key[1] == a);
    assert(key[2] + 0x100 * key[3] == b);
    assert((a as i16) == first_delta) by (bit_vector)
        requires a == first_delta as u16;
    assert((b as i16) == second_delta) by (bit_vector)
        requires b == second_delta as u16;
}

/// Distinct inputs give distinct keys: a code's key determines both
/// quantized deltas and the band.
pub proof fn lemma_hash_material_injective(a1: i16, b1: i16, band1: u8, a2: i16, b2: i16, band2: u8)
    requires
        hash_material_spec(a1, b1, band1) == hash_material_spec(a2, b2, band2),
    ensures
        a1 == a2,
        b1 == b2,
        band1 == band2,
{
    lemma_hash_material_encodes(a1, b1, band1);
    lemma_hash_material_encodes(a2, b2, band2);
}

/// Every code of a fingerprint is the hash code of its quantized deltas and
/// band, zero deltas included, at its quantized time: the low bits of the
/// MurmurHash2 of the key that encodes them.
pub proof fn lemma_code_segment_is_hashed(pairing: OnsetPairing, quantized: QuantizedPairing)
    ensures
        code_segment_spec(pairing, quantized).code == code_spec(
            quantized.first_delta,
            quantized.second_delta,
            pairing.band as u8,
        ),
        code_segment_spec(pairing, quantized).code == (murmurhash2_spec(
            hash_material_spec(quantized.first_delta, quantized.second_delta, pairing.band as u8),
        ) & HASH_BITMASK) as i32,
        code_segment_spec(pairing, quantized).time == quantized.time,
{
}

} // verus!
