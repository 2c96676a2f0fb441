//! Text rendering of a spectrum frame: the per-bucket bar chart and the
//! dominant-note line.
//!
//! Each bar-chart line shows the bucket's frequency (rounded to whole
//! hertz, right-aligned to width 5), the nearest note name (right-aligned
//! to width 4), and a run of glyphs proportional to the bucket's mean
//! normalized magnitude.

use vstd::prelude::*;
use vstd::string::StrSliceExecFns;
use vstd::string::StringExecFns;
use crate::note::Note;
use crate::note::resolved_name;
use crate::spectrum::BAR_SCALE;
use crate::spectrum::DISP_NUM;
use crate::spectrum::MAG_ONE;
use crate::spectrum::RATIO_SHOWN;
use crate::spectrum::SAMPLE_SIZE;
use crate::spectrum::bin_to_millihz;
use crate::spectrum::compute_frequency;
use crate::spectrum::dominant_bin;
use crate::spectrum::first_max_idx;
use crate::spectrum::normalize_freqs;
use crate::spectrum::normalize_spec;

verus! {

/// The decimal digit `d` as a character.
pub open spec fn digit_char(d: nat) -> char {
    if d == 0 {
        '0'
    } else if d == 1 {
        '1'
    } else if d == 2 {
        '2'
    } else if d == 3 {
        '3'
    } else if d == 4 {
        '4'
    } else if d == 5 {
        '5'
    } else if d == 6 {
        '6'
    } else if d == 7 {
        '7'
    } else if d == 8 {
        '8'
    } else {
        '9'
    }
}

/// Decimal rendering of `n`, most significant digit first, no sign and no
/// leading zeros (a single `'0'` for zero).
pub open spec fn dec_str(n: nat) -> Seq<char>
    decreases n,
{
    if n < 10 {
        seq![digit_char(n)]
    } else {
        dec_str(n / 10).push(digit_char(n % 10))
    }
}

/// `k` spaces (none for `k <= 0`).
pub open spec fn spaces(k: int) -> Seq<char> {
    Seq::new(
        if k <= 0 {
            0
        } else {
            k as nat
        },
        |i: int| ' ',
    )
}

/// `k` bar glyphs (none for `k <= 0`).
pub open spec fn bars(k: int) -> Seq<char> {
    Seq::new(
        if k <= 0 {
            0
        } else {
            k as nat
        },
        |i: int| '|',
    )
}

/// `s` right-aligned in a field of width `w`: space-padded on the left,
/// unchanged when already at least that wide.
pub open spec fn pad_left(s: Seq<char>, w: int) -> Seq<char> {
    if s.len() >= w {
        s
    } else {
        spaces(w - s.len()) + s
    }
}

/// Milli-hertz rounded to the nearest whole hertz, halves rounding up.
pub open spec fn rounded_hz(mhz: int) -> nat {
    ((mhz + 500) / 1000) as nat
}

/// Append one decimal digit.
fn push_digit(s: &mut String, d: u64)
    requires
        d < 10,
    ensures
        final(s)@ == old(s)@ + seq![digit_char(d as nat)],
{
    let ghost s0 = s@;
    if d == 0 {
        s.append("0");
        proof {
            reveal_strlit("0");
            assert(s@ =~= s0 + seq![digit_char(d as nat)]);
        }
    } else if d == 1 {
        s.append("1");
        proof {
            reveal_strlit("1");
            assert(s@ =~= s0 + seq![digit_char(d as nat)]);
        }
    } else if d == 2 {
        s.append("2");
        proof {
            reveal_strlit("2");
            assert(s@ =~= s0 + seq![digit_char(d as nat)]);
        }
    } else if d == 3 {
        s.append("3");
        proof {
            reveal_strlit("3");
            assert(s@ =~= s0 + seq![digit_char(d as nat)]);
        }
    } else if d == 4 {
        s.append("4");
        proof {
            reveal_strlit("4");
            assert(s@ =~= s0 + seq![digit_char(d as nat)]);
        }
    } else if d == 5 {
        s.append("5");
        proof {
            reveal_strlit("5");
            assert(s@ =~= s0 + seq![digit_char(d as nat)]);
        }
    } else if d == 6 {
        s.append("6");
        proof {
            reveal_strlit("6");
            assert(s@ =~= s0 + seq![digit_char(d as nat)]);
        }
    } else if d == 7 {
        s.append("7");
        proof {
            reveal_strlit("7");
            assert(s@ =~= s0 + seq![digit_char(d as nat)]);
        }
    } else if d == 8 {
        s.append("8");
        proof {
            reveal_strlit("8");
            assert(s@ =~= s0 + seq![digit_char(d as nat)]);
        }
    } else {
        s.append("9");
        proof {
            reveal_strlit("9");
            assert(s@ =~= s0 + seq![digit_char(d as nat)]);
        }
    }
}

/// Append the decimal rendering of `n`.
fn push_dec(s: &mut String, n: u64)
    ensures
        final(s)@ == old(s)@ + dec_str(n as nat),
    decreases n,
{
    let ghost s0 = s@;
    if n < 10 {
        push_digit(s, n);
    } else {
        push_dec(s, n / 10);
        push_digit(s, n % 10);
        proof {
            assert(s@ =~= s0 + dec_str(n as nat));
        }
    }
}

/// Append `k` spaces.
fn push_spaces(s: &mut String, k: usize)
    ensures
        final(s)@ == old(s)@ + spaces(k as int),
{
    let ghost s0 = s@;
    let mut i: usize = 0;
    proof {
        assert(s@ =~= s0 + spaces(0));
    }
    while i < k
        invariant
            i <= k,
            s@ == s0 + spaces(i as int),
        decreases k - i,
    {
        s.append(" ");
        proof {
            reveal_strlit(" ");
            assert(s@ =~= s0 + spaces(i as int + 1));
        }
        i += 1;
    }
}

/// Append `k` bar glyphs.
fn push_bars(s: &mut String, k: usize)
    ensures
        final(s)@ == old(s)@ + bars(k as int),
{
    let ghost s0 = s@;
    let mut i: usize = 0;
    proof {
        assert(s@ =~= s0 + bars(0));
    }
    while i < k
        invariant
            i <= k,
            s@ == s0 + bars(i as int),
        decreases k - i,
    {
        s.append("|");
        proof {
            reveal_strlit("|");
            assert(s@ =~= s0 + bars(i as int + 1));
        }
        i += 1;
    }
}

/// Append the decimal rendering of `n`, right-aligned to `width`.
fn push_aligned_dec(s: &mut String, n: u64, width: usize)
    ensures
        final(s)@ == old(s)@ + pad_left(dec_str(n as nat), width as int),
{
    let ghost s0 = s@;
    let mut d = String::new();
    push_dec(&mut d, n);
    let dl = d.as_str().unicode_len();
    if dl < width {
        push_spaces(s, width - dl);
    }
    s.append(d.as_str());
    proof {
        assert(s@ =~= s0 + pad_left(dec_str(n as nat), width as int));
    }
}

/// Append `t`, right-aligned to `width`.
fn push_aligned_str(s: &mut String, t: &str, width: usize)
    ensures
        final(s)@ == old(s)@ + pad_left(t@, width as int),
{
    let ghost s0 = s@;
    let tl = t.unicode_len();
    if tl < width {
        push_spaces(s, width - tl);
    }
    s.append(t);
    proof {
        assert(s@ =~= s0 + pad_left(t@, width as int));
    }
}

/// Sum of the magnitudes in `s[lo..hi]`.
pub open spec fn sum_range(s: Seq<u64>, lo: int, hi: int) -> int
    decreases hi - lo,
{
    if hi <= lo {
        0
    } else {
        sum_range(s, lo, hi - 1) + s[hi - 1]
    }
}

/// Mean magnitude of display bucket `b` (buckets are `chunk` consecutive
/// bins).
pub open spec fn bucket_mean(s: Seq<u64>, b: int, chunk: int) -> int {
    sum_range(s, b * chunk, (b + 1) * chunk) / chunk
}

/// Number of bar glyphs for a mean magnitude: `mean * BAR_SCALE` rounded
/// to the nearest integer (fixed point, halves rounding up).
pub open spec fn bar_count(mean: int) -> int {
    (mean * BAR_SCALE as int + MAG_ONE as int / 2) / MAG_ONE as int
}

/// One bar-chart line: frequency, note name, then the glyph run.
pub open spec fn spectrum_line(hz_mhz: int, name: Seq<char>, count: int) -> Seq<char> {
    pad_left(dec_str(rounded_hz(hz_mhz)), 5) + " "@ + pad_left(name, 4) + ": "@ + bars(count)
}

/// The bar-chart line of display bucket `b` for a frame of raw bin
/// magnitudes `mags` captured at `sr` samples per second: the bucket's
/// frequency is that of its first bin, its note is resolved from that
/// frequency, and its bar run reflects the mean of its normalized
/// magnitudes.
pub open spec fn bucket_line_spec(mags: Seq<u64>, sr: int, b: int) -> Seq<char> {
    let prefix_len = SAMPLE_SIZE as int / RATIO_SHOWN as int;
    let chunk = prefix_len / DISP_NUM as int;
    let hz = bin_to_millihz(b * chunk, sr, SAMPLE_SIZE as int);
    let norm = normalize_spec(mags.take(prefix_len));
    spectrum_line(hz, resolved_name(hz), bar_count(bucket_mean(norm, b, chunk)))
}

/// The dominant-note line for a frame of raw bin energies `energies`: the
/// first loudest bin of the interesting prefix, its frequency, and its
/// note name.
pub open spec fn dominant_line_spec(energies: Seq<u64>, sr: int) -> Seq<char> {
    let prefix_len = SAMPLE_SIZE as int / RATIO_SHOWN as int;
    let idx = first_max_idx(energies.take(prefix_len));
    let hz = bin_to_millihz(idx, sr, SAMPLE_SIZE as int);
    pad_left(dec_str(rounded_hz(hz)), 5) + " "@ + pad_left(resolved_name(hz), 4)
}

/// Render the spectrum bar chart of one frame: one line per display
/// bucket over the interesting low-frequency prefix, terminated by a blank
/// line. `freq_mags` holds the raw (non-normalized) bin magnitudes in
/// `MAG_ONE` fixed point.
pub fn soundboard(freq_mags: &Vec<u64>, samples_per_second: u32) -> (lines: Vec<String>)
    requires
        freq_mags.len() == SAMPLE_SIZE,
    ensures
        lines.len() == DISP_NUM + 1,
        forall|b: int|
            0 <= b < DISP_NUM ==> #[trigger] lines[b]@ == bucket_line_spec(
                freq_mags@,
                samples_per_second as int,
                b,
            ),
        lines[DISP_NUM as int]@ == Seq::<char>::empty(),
{
    let prefix_len: usize = SAMPLE_SIZE / RATIO_SHOWN;
    let chunk: usize = prefix_len / DISP_NUM;
    let mut prefix: Vec<u64> = Vec::new();
    let mut i: usize = 0;
    while i < prefix_len
        invariant
            i <= prefix_len,
            prefix_len == SAMPLE_SIZE / RATIO_SHOWN,
            freq_mags.len() == SAMPLE_SIZE,
            prefix@ == freq_mags@.take(i as int),
        decreases prefix_len - i,
    {
        let v = freq_mags[i];
        prefix.push(v);
        proof {
            assert(prefix@ =~= freq_mags@.take(i as int + 1));
        }
        i += 1;
    }
    normalize_freqs(&mut prefix);
    let ghost norm = prefix@;
    let mut lines: Vec<String> = Vec::new();
    let mut b: usize = 0;
    while b < DISP_NUM
        invariant
            b <= DISP_NUM,
            chunk == 2,
            prefix_len == SAMPLE_SIZE / RATIO_SHOWN,
            prefix.len() == prefix_len,
            prefix@ == norm,
            norm == normalize_spec(freq_mags@.take(prefix_len as int)),
            forall|t: int| 0 <= t < prefix_len ==> #[trigger] norm[t] <= MAG_ONE,
            freq_mags.len() == SAMPLE_SIZE,
            lines.len() == b,
            forall|t: int|
                0 <= t < b ==> #[trigger] lines[t]@ == bucket_line_spec(
                    freq_mags@,
                    samples_per_second as int,
                    t,
                ),
        decreases DISP_NUM - b,
    {
        let first_bin = b * chunk;
        let hz = compute_frequency(first_bin, samples_per_second, SAMPLE_SIZE);
        let name = Note::hz_to_str(hz as i64);
        let mut sum: u64 = 0;
        let mut c: usize = 0;
        while c < chunk
            invariant
                c <= chunk,
                chunk == 2,
                b < DISP_NUM,
                first_bin == b * chunk,
                prefix.len() == prefix_len,
                prefix_len == SAMPLE_SIZE / RATIO_SHOWN,
                prefix@ == norm,
                forall|t: int| 0 <= t < prefix_len ==> #[trigger] norm[t] <= MAG_ONE,
                sum as int == sum_range(
                    norm,
                    first_bin as int,
                    first_bin as int + c as int,
                ),
                sum <= c * MAG_ONE,
            decreases chunk - c,
        {
            let v = prefix[first_bin + c];
            sum = sum + v;
            c += 1;
        }
        let mean = sum / (chunk as u64);
        let count = (mean * BAR_SCALE + MAG_ONE / 2) / MAG_ONE;
        let rh = (hz + 500) / 1000;
        let mut line = String::new();
        push_aligned_dec(&mut line, rh, 5);
        line.append(" ");
        push_aligned_str(&mut line, name, 4);
        line.append(": ");
        push_bars(&mut line, count as usize);
        proof {
            assert(hz as i64 as int == hz as int);
            assert(line@ =~= bucket_line_spec(
                freq_mags@,
                samples_per_second as int,
                b as int,
            ));
        }
        lines.push(line);
        b += 1;
    }
    let blank = String::new();
    lines.push(blank);
    lines
}

/// Render the dominant-note line of one frame: the loudest bin of the
/// interesting prefix (first occurrence wins a tie), its frequency and its
/// note name. `energies` holds the raw bin energies in fixed point;
/// normalization plays no part here.
pub fn display_note(energies: &Vec<u64>, samples_per_second: u32) -> (line: String)
    requires
        energies.len() == SAMPLE_SIZE,
    ensures
        line@ == dominant_line_spec(energies@, samples_per_second as int),
{
    let idx = dominant_bin(energies, SAMPLE_SIZE / RATIO_SHOWN);
    let hz = compute_frequency(idx, samples_per_second, SAMPLE_SIZE);
    let name = Note::hz_to_str(hz as i64);
    let rh = (hz + 500) / 1000;
    let mut line = String::new();
    push_aligned_dec(&mut line, rh, 5);
    line.append(" ");
    push_aligned_str(&mut line, name, 4);
    proof {
        assert(hz as i64 as int == hz as int);
        assert(line@ =~= dominant_line_spec(energies@, samples_per_second as int));
    }
    line
}

} // verus!
