//! Spectrum arithmetic: energy normalization, dominant-bin search, and
//! bin-index-to-frequency conversion.
//!
//! Bin magnitudes are carried as fixed-point values scaled by `MAG_ONE`
//! (so `MAG_ONE` stands for magnitude 1.0); frequencies are integer
//! milli-hertz.

use vstd::prelude::*;
use vstd::arithmetic::div_mod::lemma_div_is_ordered;
use vstd::arithmetic::div_mod::lemma_div_multiples_vanish;

verus! {

/// Number of samples in one capture window (and of bins in its spectrum).
pub const SAMPLE_SIZE: usize = 4096;

/// Only the first `SAMPLE_SIZE / RATIO_SHOWN` bins are inspected: the
/// low-frequency prefix that covers the musically relevant octaves.
pub const RATIO_SHOWN: usize = 32;

/// Number of display buckets the interesting prefix is aggregated into.
pub const DISP_NUM: usize = 64;

/// Bar-chart scale: a bucket of mean magnitude 1.0 draws this many glyphs.
pub const BAR_SCALE: u64 = 40;

/// Fixed-point unit for magnitudes: this value stands for magnitude 1.0.
pub const MAG_ONE: u64 = 1_000_000;

/// Largest magnitude in the sequence (zero for the empty sequence).
pub open spec fn max_mag(s: Seq<u64>) -> int
    decreases s.len(),
{
    if s.len() == 0 {
        0
    } else {
        let m = max_mag(s.drop_last());
        if s.last() as int > m {
            s.last() as int
        } else {
            m
        }
    }
}

/// `max_mag` is an upper bound and is attained.
pub proof fn lemma_max_mag_props(s: Seq<u64>)
    ensures
        max_mag(s) >= 0,
        forall|i: int| 0 <= i < s.len() ==> (#[trigger] s[i]) as int <= max_mag(s),
        s.len() > 0 ==> exists|i: int|
            0 <= i < s.len() && (#[trigger] s[i]) as int == max_mag(s),
    decreases s.len(),
{
    if s.len() > 0 {
        lemma_max_mag_props(s.drop_last());
        assert(forall|i: int|
            0 <= i < s.len() - 1 ==> s[i] == #[trigger] s.drop_last()[i]);
        assert(s.last() == s[s.len() - 1]);
        assert forall|i: int| 0 <= i < s.len() implies (#[trigger] s[i]) as int
            <= max_mag(s) by {
            if i < s.len() - 1 {
                assert(s.drop_last()[i] as int <= max_mag(s.drop_last()));
            }
        }
        if s.last() as int > max_mag(s.drop_last()) {
            assert(s[s.len() - 1] as int == max_mag(s));
        } else {
            if s.len() > 1 {
                let w = choose|i: int|
                    0 <= i < s.drop_last().len() && (#[trigger] s.drop_last()[i]) as int
                        == max_mag(s.drop_last());
                assert(s[w] as int == max_mag(s));
            } else {
                assert(s[0] as int == max_mag(s));
            }
        }
    }
}

/// Result of in-place energy normalization: when some bin is non-zero,
/// every magnitude is rescaled by the maximum so that the loudest bin
/// becomes exactly `MAG_ONE`; an all-zero slice is left unchanged (the
/// documented no-op for silent windows).
pub open spec fn normalize_spec(s: Seq<u64>) -> Seq<u64> {
    if max_mag(s) == 0 {
        s
    } else {
        s.map(|i: int, v: u64| ((v as int * MAG_ONE as int) / max_mag(s)) as u64)
    }
}

/// A magnitude no larger than the (positive) maximum rescales to at most
/// `MAG_ONE`.
proof fn lemma_scale_bounds(v: int, m: int)
    requires
        0 <= v <= m,
        0 < m,
    ensures
        0 <= (v * MAG_ONE as int) / m <= MAG_ONE as int,
        v == m ==> (v * MAG_ONE as int) / m == MAG_ONE as int,
{
    let u = MAG_ONE as int;
    assert(v * u <= m * u) by (nonlinear_arith)
        requires
            0 <= v <= m,
            u > 0,
    ;
    assert(0 <= v * u) by (nonlinear_arith)
        requires
            0 <= v,
            u > 0,
    ;
    lemma_div_is_ordered(0, v * u, m);
    lemma_div_is_ordered(v * u, m * u, m);
    lemma_div_multiples_vanish(u, m);
    assert(m * u == u * m) by (nonlinear_arith);
}

/// Rescale every bin magnitude so that the loudest bin reads exactly
/// `MAG_ONE`; a window with no energy at all is left untouched. Used only
/// for display scaling.
pub fn normalize_freqs(freqs: &mut Vec<u64>)
    requires
        old(freqs).len() > 0,
    ensures
        final(freqs)@ == normalize_spec(old(freqs)@),
        final(freqs)@.len() == old(freqs)@.len(),
        forall|i: int|
            0 <= i < final(freqs)@.len() ==> #[trigger] final(freqs)@[i]
                <= MAG_ONE,
{
    let ghost orig = freqs@;
    let n = freqs.len();
    let mut max: u64 = 0;
    let mut i: usize = 0;
    while i < n
        invariant
            i <= n,
            n == freqs.len(),
            freqs@ == orig,
            max as int == max_mag(orig.take(i as int)),
        decreases n - i,
    {
        let v = freqs[i];
        proof {
            assert(orig.take(i as int + 1).drop_last() =~= orig.take(i as int));
            assert(orig.take(i as int + 1).last() == orig[i as int]);
        }
        if v > max {
            max = v;
        }
        i += 1;
    }
    proof {
        assert(orig.take(n as int) =~= orig);
    }
    if max == 0 {
        proof {
            lemma_max_mag_props(orig);
            assert(freqs@ =~= normalize_spec(orig));
        }
        return ;
    }
    proof {
        lemma_max_mag_props(orig);
    }
    let mut j: usize = 0;
    while j < n
        invariant
            j <= n,
            n == freqs.len(),
            max as int == max_mag(orig),
            max > 0,
            forall|t: int| j <= t < n ==> #[trigger] freqs@[t] == orig[t],
            forall|t: int| 0 <= t < n ==> #[trigger] orig[t] <= max,
            forall|t: int|
                0 <= t < j ==> #[trigger] freqs@[t] as int == (orig[t] as int
                    * MAG_ONE as int) / max_mag(orig),
        decreases n - j,
    {
        let v = freqs[j];
        proof {
            lemma_scale_bounds(v as int, max as int);
        }
        let q128: u128 = (v as u128) * (MAG_ONE as u128) / (max as u128);
        freqs.set(j, q128 as u64);
        j += 1;
    }
    proof {
        assert forall|t: int| 0 <= t < n implies #[trigger] freqs@[t]
            <= MAG_ONE by {
            lemma_scale_bounds(orig[t] as int, max as int);
        }
        assert(freqs@ =~= normalize_spec(orig));
    }
}

/// Law: after normalization of a window with any energy, every bin that
/// held the original maximum magnitude reads exactly `MAG_ONE`, and such a
/// bin exists.
pub proof fn lemma_normalize_max_is_one(s: Seq<u64>)
    requires
        s.len() > 0,
        max_mag(s) > 0,
    ensures
        forall|i: int|
            0 <= i < s.len() && #[trigger] s[i] as int == max_mag(s)
                ==> normalize_spec(s)[i] == MAG_ONE,
        exists|i: int| 0 <= i < s.len() && #[trigger] s[i] as int == max_mag(s),
{
    lemma_max_mag_props(s);
    assert forall|i: int|
        0 <= i < s.len() && #[trigger] s[i] as int == max_mag(s) implies
        normalize_spec(s)[i] == MAG_ONE by {
        lemma_scale_bounds(s[i] as int, max_mag(s));
    }
}

/// Law: normalization is idempotent. The second application maps every
/// magnitude through `v * MAG_ONE / MAG_ONE`, a no-op, because the first
/// one already made `MAG_ONE` the maximum.
pub proof fn lemma_normalize_idempotent(s: Seq<u64>)
    ensures
        normalize_spec(normalize_spec(s)) == normalize_spec(s),
{
    if max_mag(s) > 0 {
        let t = normalize_spec(s);
        lemma_max_mag_props(s);
        assert forall|i: int| 0 <= i < t.len() implies #[trigger] t[i] as int
            <= MAG_ONE as int by {
            lemma_scale_bounds(s[i] as int, max_mag(s));
        }
        let w = choose|i: int|
            0 <= i < s.len() && #[trigger] s[i] as int == max_mag(s);
        lemma_scale_bounds(s[w] as int, max_mag(s));
        assert(t[w] as int == MAG_ONE as int);
        lemma_max_mag_props(t);
        assert(max_mag(t) >= t[w] as int);
        let u = choose|i: int|
            0 <= i < t.len() && #[trigger] t[i] as int == max_mag(t);
        assert(max_mag(t) == MAG_ONE as int);
        assert forall|i: int| 0 <= i < t.len() implies #[trigger] normalize_spec(
            t,
        )[i] == t[i] by {
            lemma_div_multiples_vanish(t[i] as int, MAG_ONE as int);
            assert(t[i] as int * MAG_ONE as int == MAG_ONE as int
                * t[i] as int) by (nonlinear_arith);
        }
        assert(normalize_spec(t) =~= t);
    }
}

/// Index of the first bin holding the largest value: ties in the scanning
/// maximum go to the earliest bin.
pub open spec fn first_max_idx(s: Seq<u64>) -> int
    decreases s.len(),
{
    if s.len() <= 1 {
        0
    } else {
        let r = first_max_idx(s.drop_last());
        if s.last() as int > s[r] as int {
            s.len() - 1
        } else {
            r
        }
    }
}

/// `first_max_idx` points at the maximum, and at its first occurrence.
pub proof fn lemma_first_max_props(s: Seq<u64>)
    requires
        s.len() > 0,
    ensures
        0 <= first_max_idx(s) < s.len(),
        forall|i: int| 0 <= i < s.len() ==> #[trigger] s[i] <= s[first_max_idx(s)],
        forall|i: int|
            0 <= i < first_max_idx(s) ==> #[trigger] s[i] < s[first_max_idx(s)],
    decreases s.len(),
{
    if s.len() > 1 {
        lemma_first_max_props(s.drop_last());
        assert(forall|i: int|
            0 <= i < s.len() - 1 ==> s[i] == #[trigger] s.drop_last()[i]);
        let r = first_max_idx(s.drop_last());
        if s.last() as int > s[r] as int {
            assert(first_max_idx(s) == s.len() - 1);
            assert forall|i: int| 0 <= i < s.len() - 1 implies #[trigger] s[i]
                < s[s.len() - 1] by {
                assert(s.drop_last()[i] <= s.drop_last()[r]);
            }
        } else {
            assert(first_max_idx(s) == r);
            assert forall|i: int| 0 <= i < s.len() implies #[trigger] s[i]
                <= s[r] by {
                if i < s.len() - 1 {
                    assert(s.drop_last()[i] <= s.drop_last()[r]);
                }
            }
            assert forall|i: int| 0 <= i < r implies #[trigger] s[i] < s[r] by {
                assert(s.drop_last()[i] < s.drop_last()[r]);
            }
        }
    }
}

/// Scan the first `prefix_len` bins for the loudest one; the first bin
/// wins a tie.
pub fn dominant_bin(energies: &Vec<u64>, prefix_len: usize) -> (r: usize)
    requires
        0 < prefix_len <= energies.len(),
    ensures
        r as int == first_max_idx(energies@.take(prefix_len as int)),
        r < prefix_len,
        forall|j: int|
            0 <= j < prefix_len ==> #[trigger] energies@[j] <= energies@[r as int],
        forall|j: int| 0 <= j < r ==> #[trigger] energies@[j] < energies@[r as int],
{
    let ghost whole = energies@;
    let mut best: usize = 0;
    let mut i: usize = 1;
    while i < prefix_len
        invariant
            1 <= i <= prefix_len <= energies.len(),
            whole == energies@,
            best < i,
            best as int == first_max_idx(whole.take(i as int)),
        decreases prefix_len - i,
    {
        proof {
            assert(whole.take(i as int + 1).drop_last() =~= whole.take(i as int));
            assert(whole.take(i as int + 1).last() == whole[i as int]);
        }
        if energies[i] > energies[best] {
            best = i;
        }
        i += 1;
    }
    proof {
        let t = whole.take(prefix_len as int);
        lemma_first_max_props(t);
        assert forall|j: int| 0 <= j < prefix_len implies #[trigger] whole[j]
            <= whole[best as int] by {
            assert(t[j] <= t[best as int]);
        }
        assert forall|j: int| 0 <= j < best implies #[trigger] whole[j] < whole[
            best as int
        ] by {
            assert(t[j] < t[best as int]);
        }
    }
    best
}

/// Frequency of a bin in milli-hertz: `bin * sampleRate * 1000 / windowSize`.
pub open spec fn bin_to_millihz(bin: int, sr: int, n: int) -> int {
    (bin * sr * 1000) / n
}

/// Convert a bin index to its frequency in milli-hertz given the sample
/// rate and the window size.
pub fn compute_frequency(bin_index: usize, samples_per_second: u32, sample_count: usize) -> (r:
    u64)
    requires
        sample_count > 0,
        bin_index <= sample_count,
    ensures
        r as int == bin_to_millihz(
            bin_index as int,
            samples_per_second as int,
            sample_count as int,
        ),
        r <= samples_per_second as u64 * 1000,
{
    proof {
        let b = bin_index as int;
        let s = samples_per_second as int;
        let n = sample_count as int;
        assert(b * s <= 0xFFFF_FFFF_FFFF_FFFF * 0x1_0000_0000) by (
        nonlinear_arith)
            requires
                0 <= b <= 0xFFFF_FFFF_FFFF_FFFF,
                0 <= s < 0x1_0000_0000,
        ;
        assert(0 <= b * s) by (nonlinear_arith)
            requires
                0 <= b,
                0 <= s,
        ;
        assert(b * s * 1000 <= n * (s * 1000)) by (nonlinear_arith)
            requires
                0 <= b <= n,
                s >= 0,
        ;
        assert(0 <= b * s * 1000) by (nonlinear_arith)
            requires
                0 <= b * s,
        ;
        lemma_div_is_ordered(0, b * s * 1000, n);
        lemma_div_is_ordered(b * s * 1000, n * (s * 1000), n);
        lemma_div_multiples_vanish(s * 1000, n);
    }
    let num: u128 = (bin_index as u128) * (samples_per_second as u128) * 1000;
    let den: u128 = sample_count as u128;
    (num / den) as u64
}

/// Law: bin zero always maps to frequency zero.
pub proof fn lemma_bin_to_hz_zero(sr: int, n: int)
    requires
        n > 0,
    ensures
        bin_to_millihz(0, sr, n) == 0,
{
}

/// Law: for an even window size, the middle bin maps exactly to the
/// Nyquist frequency, half the sample rate.
pub proof fn lemma_bin_to_hz_nyquist(sr: int, n: int)
    requires
        n > 0,
        n % 2 == 0,
    ensures
        bin_to_millihz(n / 2, sr, n) == 500 * sr,
        bin_to_millihz(n / 2, sr, n) == (sr * 1000) / 2,
{
    let m = n / 2;
    assert(m * sr * 1000 == n * (500 * sr)) by (nonlinear_arith)
        requires
            n == 2 * m,
    ;
    lemma_div_multiples_vanish(500 * sr, n);
    assert(sr * 1000 == 2 * (500 * sr)) by (nonlinear_arith);
    lemma_div_multiples_vanish(500 * sr, 2);
}

} // verus!
