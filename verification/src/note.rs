//! The twelve-tone note table and nearest-note resolution with octave folding.
//!
//! Frequencies are carried as integer milli-hertz (1/1000 Hz), so that the
//! reference octave `[220 Hz, 440 Hz)` is `[220_000, 440_000)` and every
//! table entry is exact.

use vstd::prelude::*;

verus! {

/// Number of entries in the note table (one reference octave).
pub const NOTE_COUNT: usize = 12;

/// Reference frequency of the anchor A, in milli-hertz: the lower bound of
/// the reference octave.
pub const LOW_A_MILLIHZ: u64 = 220_000;

/// Frequency of the A one octave up, in milli-hertz: the exclusive upper
/// bound of the reference octave (exactly twice `LOW_A_MILLIHZ`).
pub const HIGH_A_MILLIHZ: u64 = 440_000;

/// Cap on octave-folding iterations; inputs that do not land in the
/// reference octave within this many halvings or doublings are unresolvable.
pub const MAX_FOLD_ITERS: u32 = 20;

/// One of the twelve pitch classes of the equal-tempered scale, anchored at
/// A = 220 Hz.
#[derive(Debug, Copy, Clone, PartialEq, Eq, Structural)]
pub enum Note {
    La,
    LaD,
    Si,
    Do,
    DoD,
    Re,
    ReD,
    Mi,
    Fa,
    FaD,
    Sol,
    SolD,
}

impl Note {
    /// Position of this note in the ascending table.
    pub open spec fn index(self) -> int {
        match self {
            Note::La => 0,
            Note::LaD => 1,
            Note::Si => 2,
            Note::Do => 3,
            Note::DoD => 4,
            Note::Re => 5,
            Note::ReD => 6,
            Note::Mi => 7,
            Note::Fa => 8,
            Note::FaD => 9,
            Note::Sol => 10,
            Note::SolD => 11,
        }
    }
}

/// The note at position `i` of the table (saturating at the ends).
pub open spec fn note_of_index(i: int) -> Note {
    if i <= 0 {
        Note::La
    } else if i == 1 {
        Note::LaD
    } else if i == 2 {
        Note::Si
    } else if i == 3 {
        Note::Do
    } else if i == 4 {
        Note::DoD
    } else if i == 5 {
        Note::Re
    } else if i == 6 {
        Note::ReD
    } else if i == 7 {
        Note::Mi
    } else if i == 8 {
        Note::Fa
    } else if i == 9 {
        Note::FaD
    } else if i == 10 {
        Note::Sol
    } else {
        Note::SolD
    }
}

/// Reference frequency, in milli-hertz, of the note at position `i` of the
/// table; entries are strictly increasing.
pub open spec fn ref_millihz(i: int) -> int {
    if i <= 0 {
        220_000
    } else if i == 1 {
        233_082
    } else if i == 2 {
        246_942
    } else if i == 3 {
        261_626
    } else if i == 4 {
        277_183
    } else if i == 5 {
        293_665
    } else if i == 6 {
        311_127
    } else if i == 7 {
        329_628
    } else if i == 8 {
        349_228
    } else if i == 9 {
        369_994
    } else if i == 10 {
        391_995
    } else {
        415_305
    }
}

impl Note {
    /// The note at table position `x`, or `None` when `x` is outside the
    /// table.
    pub fn from_int(x: i32) -> (r: Option<Note>)
        ensures
            0 <= x < NOTE_COUNT ==> r == Some(note_of_index(x as int)),
            !(0 <= x < NOTE_COUNT) ==> r is None,
    {
        if x == 0 {
            Some(Note::La)
        } else if x == 1 {
            Some(Note::LaD)
        } else if x == 2 {
            Some(Note::Si)
        } else if x == 3 {
            Some(Note::Do)
        } else if x == 4 {
            Some(Note::DoD)
        } else if x == 5 {
            Some(Note::Re)
        } else if x == 6 {
            Some(Note::ReD)
        } else if x == 7 {
            Some(Note::Mi)
        } else if x == 8 {
            Some(Note::Fa)
        } else if x == 9 {
            Some(Note::FaD)
        } else if x == 10 {
            Some(Note::Sol)
        } else if x == 11 {
            Some(Note::SolD)
        } else {
            None
        }
    }

    /// Reference frequency of this note in milli-hertz.
    pub fn as_hz(self) -> (r: u64)
        ensures
            r as int == ref_millihz(self.index()),
    {
        match self {
            Note::La => 220_000,
            Note::LaD => 233_082,
            Note::Si => 246_942,
            Note::Do => 261_626,
            Note::DoD => 277_183,
            Note::Re => 293_665,
            Note::ReD => 311_127,
            Note::Mi => 329_628,
            Note::Fa => 349_228,
            Note::FaD => 369_994,
            Note::Sol => 391_995,
            Note::SolD => 415_305,
        }
    }

    /// Display name of this note.
    pub fn as_str(self) -> (r: &'static str)
        ensures
            r@ == note_name(self),
    {
        match self {
            Note::La => "La",
            Note::LaD => "La#",
            Note::Si => "Si",
            Note::Do => "Do",
            Note::DoD => "Do#",
            Note::Re => "Ré",
            Note::ReD => "Ré#",
            Note::Mi => "Mi",
            Note::Fa => "Fa",
            Note::FaD => "Fa#",
            Note::Sol => "Sol",
            Note::SolD => "Sol#",
        }
    }
}

/// Display name of a note, as a sequence of characters.
pub open spec fn note_name(n: Note) -> Seq<char> {
    match n {
        Note::La => "La"@,
        Note::LaD => "La#"@,
        Note::Si => "Si"@,
        Note::Do => "Do"@,
        Note::DoD => "Do#"@,
        Note::Re => "Ré"@,
        Note::ReD => "Ré#"@,
        Note::Mi => "Mi"@,
        Note::Fa => "Fa"@,
        Note::FaD => "Fa#"@,
        Note::Sol => "Sol"@,
        Note::SolD => "Sol#"@,
    }
}

/// Octave folding with a fuel bound: halve while at or above the upper A,
/// double while below the anchor A, and give up when the fuel runs out.
/// Mirrors the executable folding loop exactly; `None` means the input
/// never lands in the reference octave within the iteration budget
/// (zero, negative, or out-of-range values).
pub open spec fn fold_step(hz: int, fuel: nat) -> Option<int>
    decreases fuel,
{
    if LOW_A_MILLIHZ <= hz < HIGH_A_MILLIHZ {
        Some(hz)
    } else if fuel == 0 {
        None
    } else if hz >= HIGH_A_MILLIHZ {
        fold_step(hz / 2, (fuel - 1) as nat)
    } else {
        fold_step(hz * 2, (fuel - 1) as nat)
    }
}

/// Octave folding with the full iteration budget.
pub open spec fn fold_millihz(hz: int) -> Option<int> {
    fold_step(hz, MAX_FOLD_ITERS as nat)
}

/// Number of table entries whose reference frequency is strictly below
/// `hz`, counted from position `i` on.
pub open spec fn partition_from(hz: int, i: int) -> int
    decreases NOTE_COUNT - i,
{
    if i < 0 || i >= NOTE_COUNT {
        NOTE_COUNT as int
    } else if ref_millihz(i) >= hz {
        i
    } else {
        partition_from(hz, i + 1)
    }
}

/// Insertion point of `hz` in the table: the index of the first entry with
/// reference frequency at or above `hz`, or the table length when all
/// entries lie below.
pub open spec fn partition_idx(hz: int) -> int {
    partition_from(hz, 0)
}

/// Distance between `hz` and the reference frequency of table entry `i`.
pub open spec fn dist_to(hz: int, i: int) -> int {
    if hz >= ref_millihz(i) {
        hz - ref_millihz(i)
    } else {
        ref_millihz(i) - hz
    }
}

/// Index of the table entry nearest to `hz` (which must already lie in the
/// reference octave): the insertion point's lower and upper neighbors are
/// compared, an out-of-range neighbor counts as infinitely distant, and a
/// tie goes to the lower neighbor.
pub open spec fn nearest_idx_in_octave(hz: int) -> int {
    let p = partition_idx(hz);
    if p == 0 {
        0
    } else if p == NOTE_COUNT {
        NOTE_COUNT - 1
    } else if dist_to(hz, p - 1) <= dist_to(hz, p) {
        p - 1
    } else {
        p
    }
}

/// Full note resolution: fold into the reference octave, then take the
/// nearest table entry; `None` when folding does not converge.
pub open spec fn resolve_spec(hz: int) -> Option<Note> {
    match fold_millihz(hz) {
        Some(f) => Some(note_of_index(nearest_idx_in_octave(f))),
        None => None,
    }
}

/// Name of the resolved note, or the placeholder when resolution fails.
pub open spec fn resolved_name(hz: int) -> Seq<char> {
    match resolve_spec(hz) {
        Some(n) => note_name(n),
        None => "?"@,
    }
}

/// The table entries are strictly increasing in frequency.
pub proof fn lemma_table_sorted()
    ensures
        forall|i: int, j: int|
            0 <= i < j < NOTE_COUNT ==> ref_millihz(i) < ref_millihz(j),
{
}

/// `partition_from` indeed splits the table: entries before the returned
/// index lie strictly below `hz`, entries from it on lie at or above.
pub proof fn lemma_partition_from_props(hz: int, i: int)
    requires
        0 <= i <= NOTE_COUNT,
    ensures
        i <= partition_from(hz, i) <= NOTE_COUNT,
        forall|j: int| i <= j < partition_from(hz, i) ==> ref_millihz(j) < hz,
        forall|j: int|
            partition_from(hz, i) <= j < NOTE_COUNT ==> ref_millihz(j) >= hz,
    decreases NOTE_COUNT - i,
{
    lemma_table_sorted();
    if i < NOTE_COUNT && ref_millihz(i) < hz {
        lemma_partition_from_props(hz, i + 1);
    }
}

/// Folding a non-positive frequency never converges: doubling keeps it
/// non-positive, below the anchor forever.
pub proof fn lemma_fold_nonpositive(hz: int, fuel: nat)
    requires
        hz <= 0,
    ensures
        fold_step(hz, fuel) is None,
    decreases fuel,
{
    if fuel > 0 {
        lemma_fold_nonpositive(hz * 2, (fuel - 1) as nat);
    }
}

/// Table lookup: reference frequency at position `i`.
fn ref_hz_at(i: usize) -> (r: u64)
    requires
        i < NOTE_COUNT,
    ensures
        r as int == ref_millihz(i as int),
{
    if i == 0 {
        220_000
    } else if i == 1 {
        233_082
    } else if i == 2 {
        246_942
    } else if i == 3 {
        261_626
    } else if i == 4 {
        277_183
    } else if i == 5 {
        293_665
    } else if i == 6 {
        311_127
    } else if i == 7 {
        329_628
    } else if i == 8 {
        349_228
    } else if i == 9 {
        369_994
    } else if i == 10 {
        391_995
    } else {
        415_305
    }
}

/// Table lookup: note at position `i`.
fn note_at(i: usize) -> (n: Note)
    requires
        i < NOTE_COUNT,
    ensures
        n == note_of_index(i as int),
{
    if i == 0 {
        Note::La
    } else if i == 1 {
        Note::LaD
    } else if i == 2 {
        Note::Si
    } else if i == 3 {
        Note::Do
    } else if i == 4 {
        Note::DoD
    } else if i == 5 {
        Note::Re
    } else if i == 6 {
        Note::ReD
    } else if i == 7 {
        Note::Mi
    } else if i == 8 {
        Note::Fa
    } else if i == 9 {
        Note::FaD
    } else if i == 10 {
        Note::Sol
    } else {
        Note::SolD
    }
}

/// Sorted (binary) search for the insertion point of `hz` in the table.
fn partition_point(hz: u64) -> (p: usize)
    ensures
        p as int == partition_idx(hz as int),
        p <= NOTE_COUNT,
{
    let mut lo: usize = 0;
    let mut hi: usize = NOTE_COUNT;
    proof {
        lemma_table_sorted();
    }
    while lo < hi
        invariant
            lo <= hi <= NOTE_COUNT,
            forall|j: int| 0 <= j < lo ==> ref_millihz(j) < hz as int,
            forall|j: int| hi <= j < NOTE_COUNT ==> ref_millihz(j) >= hz as int,
        decreases hi - lo,
    {
        let mid = lo + (hi - lo) / 2;
        if ref_hz_at(mid) < hz {
            proof {
                lemma_table_sorted();
                assert forall|j: int| 0 <= j < mid + 1 implies ref_millihz(j)
                    < hz as int by {
                    if j < mid {
                        assert(ref_millihz(j) < ref_millihz(mid as int));
                    }
                }
            }
            lo = mid + 1;
        } else {
            proof {
                lemma_table_sorted();
                assert forall|j: int| mid <= j < NOTE_COUNT implies ref_millihz(
                    j,
                ) >= hz as int by {
                    if j > mid {
                        assert(ref_millihz(j) > ref_millihz(mid as int));
                    }
                }
            }
            hi = mid;
        }
    }
    proof {
        lemma_partition_from_props(hz as int, 0);
        let p = partition_idx(hz as int);
        if p < lo as int {
            assert(ref_millihz(p) < hz as int);
            assert(ref_millihz(p) >= hz as int);
        }
        if p > lo as int {
            assert(ref_millihz(lo as int) < hz as int);
            assert(ref_millihz(lo as int) >= hz as int);
        }
    }
    lo
}

/// Nearest table entry to a frequency already inside the reference octave.
fn nearest_in_octave(hz: u64) -> (n: Note)
    requires
        LOW_A_MILLIHZ <= hz < HIGH_A_MILLIHZ,
    ensures
        n == note_of_index(nearest_idx_in_octave(hz as int)),
{
    let p = partition_point(hz);
    proof {
        lemma_partition_from_props(hz as int, 0);
    }
    if p == 0 {
        Note::La
    } else if p == NOTE_COUNT {
        Note::SolD
    } else {
        let lo_ref = ref_hz_at(p - 1);
        let hi_ref = ref_hz_at(p);
        if hz - lo_ref <= hi_ref - hz {
            note_at(p - 1)
        } else {
            note_at(p)
        }
    }
}

impl Note {
    /// Resolve a frequency in milli-hertz to the nearest note, folding it
    /// into the reference octave first. Returns `None` when folding does
    /// not converge within the iteration budget (zero, negative, or
    /// far-out-of-range input).
    pub fn from_hz(hz: i64) -> (r: Option<Note>)
        ensures
            r == resolve_spec(hz as int),
    {
        if hz <= 0 {
            proof {
                lemma_fold_nonpositive(hz as int, MAX_FOLD_ITERS as nat);
            }
            return None;
        }
        let mut v: i64 = hz;
        let mut iters: u32 = 0;
        while v >= 440_000 && iters < MAX_FOLD_ITERS
            invariant
                v >= 1,
                iters <= MAX_FOLD_ITERS,
                fold_millihz(hz as int) == fold_step(
                    v as int,
                    (MAX_FOLD_ITERS - iters) as nat,
                ),
            decreases MAX_FOLD_ITERS - iters,
        {
            v = v / 2;
            iters = iters + 1;
        }
        while v < 220_000 && iters < MAX_FOLD_ITERS
            invariant
                v >= 1,
                iters <= MAX_FOLD_ITERS,
                v >= HIGH_A_MILLIHZ ==> iters == MAX_FOLD_ITERS,
                fold_millihz(hz as int) == fold_step(
                    v as int,
                    (MAX_FOLD_ITERS - iters) as nat,
                ),
            decreases MAX_FOLD_ITERS - iters,
        {
            v = v * 2;
            iters = iters + 1;
        }
        if 220_000 <= v && v < 440_000 {
            Some(nearest_in_octave(v as u64))
        } else {
            None
        }
    }

    /// Resolve a frequency in milli-hertz to a display name, with the
    /// placeholder for frequencies that do not resolve.
    pub fn hz_to_str(hz: i64) -> (r: &'static str)
        ensures
            r@ == resolved_name(hz as int),
    {
        match Self::from_hz(hz) {
            Some(n) => n.as_str(),
            None => "?",
        }
    }
}

/// Two to the power `k`.
pub open spec fn two_pow(k: nat) -> int
    decreases k,
{
    if k == 0 {
        1
    } else {
        2 * two_pow((k - 1) as nat)
    }
}

/// Powers of two are positive.
pub proof fn lemma_two_pow_pos(k: nat)
    ensures
        two_pow(k) >= 1,
    decreases k,
{
    if k > 0 {
        lemma_two_pow_pos((k - 1) as nat);
    }
}

/// Law: within the reference octave, resolution picks the table entry whose
/// reference frequency is nearest, and a tie in distance goes to the lower
/// entry.
pub proof fn lemma_resolve_nearest(hz: int)
    requires
        LOW_A_MILLIHZ <= hz < HIGH_A_MILLIHZ,
    ensures
        resolve_spec(hz) == Some(note_of_index(nearest_idx_in_octave(hz))),
        forall|j: int|
            0 <= j < NOTE_COUNT ==> dist_to(hz, nearest_idx_in_octave(hz))
                <= #[trigger] dist_to(hz, j),
        forall|j: int|
            0 <= j < NOTE_COUNT && #[trigger] dist_to(hz, j) == dist_to(
                hz,
                nearest_idx_in_octave(hz),
            ) ==> nearest_idx_in_octave(hz) <= j,
{
    lemma_table_sorted();
    lemma_partition_from_props(hz, 0);
    let p = partition_idx(hz);
    let b = nearest_idx_in_octave(hz);
    assert forall|j: int| 0 <= j < NOTE_COUNT implies dist_to(hz, b) <= dist_to(
        hz,
        j,
    ) by {
        if j < p - 1 {
            assert(ref_millihz(j) < ref_millihz(p - 1));
        }
        if j > p {
            assert(ref_millihz(j) > ref_millihz(p));
        }
    }
    assert forall|j: int|
        0 <= j < NOTE_COUNT && dist_to(hz, j) == dist_to(hz, b) implies b
        <= j by {
        if j < p - 1 {
            assert(ref_millihz(j) < ref_millihz(p - 1));
        }
        if j > p {
            assert(ref_millihz(j) > ref_millihz(p));
        }
    }
}

/// Folding a frequency that already sits `k` exact octaves above the
/// reference octave lands on the in-octave value, as long as the budget
/// covers `k` halvings.
pub proof fn lemma_fold_pow2(hz: int, k: nat, fuel: nat)
    requires
        LOW_A_MILLIHZ <= hz < HIGH_A_MILLIHZ,
        k <= fuel,
    ensures
        fold_step(hz * two_pow(k), fuel) == Some(hz),
    decreases k,
{
    lemma_two_pow_pos(k);
    if k == 0 {
        assert(hz * 1 == hz);
    } else {
        let p = two_pow((k - 1) as nat);
        lemma_two_pow_pos((k - 1) as nat);
        let w = hz * two_pow(k);
        assert(w == 2 * (hz * p)) by (nonlinear_arith)
            requires
                two_pow(k) == 2 * p,
                w == hz * two_pow(k),
        ;
        assert(hz * p >= hz * 1) by (nonlinear_arith)
            requires
                p >= 1,
                hz >= 0,
        ;
        assert(w >= HIGH_A_MILLIHZ);
        assert(w / 2 == hz * p);
        lemma_fold_pow2(hz, (k - 1) as nat, (fuel - 1) as nat);
    }
}

/// Law (octave invariance): multiplying an in-octave frequency by any power
/// of two within the folding budget resolves to the same note.
pub proof fn lemma_octave_invariance(hz: int, k: nat)
    requires
        LOW_A_MILLIHZ <= hz < HIGH_A_MILLIHZ,
        k <= MAX_FOLD_ITERS,
    ensures
        resolve_spec(hz * two_pow(k)) == resolve_spec(hz),
{
    lemma_fold_pow2(hz, k, MAX_FOLD_ITERS as nat);
}

/// Folding a frequency that sits `k` exact octaves below the reference
/// octave lands on the in-octave value, as long as the budget covers `k`
/// doublings.
pub proof fn lemma_fold_up(w: int, k: nat, fuel: nat)
    requires
        1 <= w,
        k <= fuel,
        LOW_A_MILLIHZ <= w * two_pow(k) < HIGH_A_MILLIHZ,
    ensures
        fold_step(w, fuel) == Some(w * two_pow(k)),
    decreases k,
{
    lemma_two_pow_pos(k);
    if k == 0 {
        assert(w * 1 == w);
    } else {
        let p = two_pow((k - 1) as nat);
        lemma_two_pow_pos((k - 1) as nat);
        assert((2 * w) * p == w * two_pow(k)) by (nonlinear_arith)
            requires
                two_pow(k) == 2 * p,
        ;
        assert((2 * w) * p >= (2 * w) * 1) by (nonlinear_arith)
            requires
                p >= 1,
                w >= 1,
        ;
        assert(2 * w < HIGH_A_MILLIHZ);
        assert(w < LOW_A_MILLIHZ);
        lemma_fold_up(2 * w, (k - 1) as nat, (fuel - 1) as nat);
    }
}

/// Law (octave invariance, downward): a frequency that sits `k` exact
/// octaves below an in-octave value resolves to the same note as that
/// value, within the folding budget.
pub proof fn lemma_octave_invariance_down(w: int, k: nat)
    requires
        1 <= w,
        k <= MAX_FOLD_ITERS,
        LOW_A_MILLIHZ <= w * two_pow(k) < HIGH_A_MILLIHZ,
    ensures
        resolve_spec(w) == resolve_spec(w * two_pow(k)),
{
    lemma_fold_up(w, k, MAX_FOLD_ITERS as nat);
}

/// Law: zero and negative frequencies never resolve.
pub proof fn lemma_unresolvable_nonpositive(hz: int)
    requires
        hz <= 0,
    ensures
        resolve_spec(hz) is None,
{
    lemma_fold_nonpositive(hz, MAX_FOLD_ITERS as nat);
}

/// Folding cannot bring a frequency down into the octave when it starts at
/// or above `HIGH_A_MILLIHZ * 2^fuel`.
pub proof fn lemma_fold_too_high(hz: int, fuel: nat)
    requires
        hz >= HIGH_A_MILLIHZ * two_pow(fuel),
    ensures
        fold_step(hz, fuel) is None,
    decreases fuel,
{
    lemma_two_pow_pos(fuel);
    assert(HIGH_A_MILLIHZ * two_pow(fuel) >= HIGH_A_MILLIHZ * 1) by (
    nonlinear_arith)
        requires
            two_pow(fuel) >= 1,
    ;
    if fuel > 0 {
        let p = two_pow((fuel - 1) as nat);
        lemma_two_pow_pos((fuel - 1) as nat);
        assert(HIGH_A_MILLIHZ * two_pow(fuel) == 2 * (HIGH_A_MILLIHZ * p)) by (
        nonlinear_arith)
            requires
                two_pow(fuel) == 2 * p,
        ;
        assert(hz / 2 >= HIGH_A_MILLIHZ * p);
        lemma_fold_too_high(hz / 2, (fuel - 1) as nat);
    }
}

/// Law: frequencies too large to fold down within the budget (the stand-in
/// for infinite input) never resolve.
pub proof fn lemma_unresolvable_huge(hz: int)
    requires
        hz >= HIGH_A_MILLIHZ * two_pow(MAX_FOLD_ITERS as nat),
    ensures
        resolve_spec(hz) is None,
{
    lemma_fold_too_high(hz, MAX_FOLD_ITERS as nat);
}

} // verus!
