//! The mathematical model of the PBWT construction.
//!
//! One site transition is modelled as a small state machine walked over the
//! positions of the current prefix array: [`core_advance`] is the
//! prefix/divergence builder part, [`step_advance`] adds the long-match
//! bookkeeping.  The executable functions promise to return exactly what
//! these spec functions compute.

use vstd::prelude::*;

use crate::types::Match;
use crate::types::SpecMatch;

verus! {

/// Builder state of one site transition after processing a prefix of the
/// positions: the allele-0 and allele-1 output lists for the next prefix
/// and divergence arrays, and the two divergence trackers.
#[verifier::ext_equal]
pub struct CoreState {
    pub a0: Seq<usize>,
    pub d0: Seq<usize>,
    pub a1: Seq<usize>,
    pub d1: Seq<usize>,
    pub t0: usize,
    pub t1: usize,
}

/// A match record that additionally remembers, for every member, the
/// divergence value the member carried when it joined the group.
#[verifier::ext_equal]
pub struct RichMatch {
    /// Members carrying allele 0 at `end`, as (haplotype, carried divergence).
    pub members_a: Seq<(usize, usize)>,
    /// Members carrying allele 1 at `end`, as (haplotype, carried divergence).
    pub members_b: Seq<(usize, usize)>,
    /// The site index at which the group was emitted.
    pub end: usize,
}

/// Finder state of one site transition: the builder state plus the two
/// in-progress match accumulators and the matches emitted so far.
#[verifier::ext_equal]
pub struct StepState {
    pub core: CoreState,
    pub acc0: Seq<(usize, usize)>,
    pub acc1: Seq<(usize, usize)>,
    pub matches: Seq<RichMatch>,
}

/// State of the full left-to-right sweep after some number of site
/// transitions.
#[verifier::ext_equal]
pub struct SweepState {
    pub matches: Seq<RichMatch>,
    pub prefix: Seq<usize>,
    pub div: Seq<usize>,
}

/// Both trackers start at the sentinel `k + 1`, which is larger than any
/// legitimate divergence start at site `k` and so never reads as a run.
pub open spec fn core_init(k: usize) -> CoreState {
    CoreState {
        a0: Seq::empty(),
        d0: Seq::empty(),
        a1: Seq::empty(),
        d1: Seq::empty(),
        t0: (k + 1) as usize,
        t1: (k + 1) as usize,
    }
}

/// Builder transition for one position holding haplotype `h` with incoming
/// divergence `start`, whose allele at the current site is `v`: both
/// trackers are raised to `start` if it exceeds them, then `h` and the
/// raised tracker are appended to the lists of `h`'s allele group, whose
/// tracker restarts at 0.
pub open spec fn core_advance(st: CoreState, h: usize, start: usize, v: u8) -> CoreState {
    let t0 = if start > st.t0 {
        start
    } else {
        st.t0
    };
    let t1 = if start > st.t1 {
        start
    } else {
        st.t1
    };
    if v == 0 {
        CoreState { a0: st.a0.push(h), d0: st.d0.push(t0), a1: st.a1, d1: st.d1, t0: 0, t1 }
    } else {
        CoreState { a0: st.a0, d0: st.d0, a1: st.a1.push(h), d1: st.d1.push(t1), t0, t1: 0 }
    }
}

/// Builder state after the first `i` positions of the prefix array `a` with
/// divergence array `d` and allele column `col` at site `k`.
pub open spec fn core_state_at(
    a: Seq<usize>,
    d: Seq<usize>,
    col: Seq<u8>,
    k: usize,
    i: int,
) -> CoreState
    decreases i,
{
    if i <= 0 {
        core_init(k)
    } else {
        let prev = core_state_at(a, d, col, k, i - 1);
        core_advance(prev, a[i - 1], d[i - 1], col[a[i - 1] as int])
    }
}

/// The prefix array produced by one site transition: the allele-0 output
/// list followed by the allele-1 output list (a stable two-way partition).
pub open spec fn step_prefix(a: Seq<usize>, d: Seq<usize>, col: Seq<u8>, k: usize) -> Seq<usize> {
    let st = core_state_at(a, d, col, k, a.len() as int);
    st.a0 + st.a1
}

/// The divergence array produced by one site transition, concatenated the
/// same way as [`step_prefix`].
pub open spec fn step_div(a: Seq<usize>, d: Seq<usize>, col: Seq<u8>, k: usize) -> Seq<usize> {
    let st = core_state_at(a, d, col, k, a.len() as int);
    st.d0 + st.d1
}

pub open spec fn step_init(k: usize) -> StepState {
    StepState { core: core_init(k), acc0: Seq::empty(), acc1: Seq::empty(), matches: Seq::empty() }
}

/// Emit the accumulators as one match ending at site `k` if either is
/// non-empty, then clear both.
pub open spec fn flush(st: StepState, k: usize) -> StepState {
    if st.acc0.len() + st.acc1.len() > 0 {
        StepState {
            core: st.core,
            acc0: Seq::empty(),
            acc1: Seq::empty(),
            matches: st.matches.push(
                RichMatch { members_a: st.acc0, members_b: st.acc1, end: k },
            ),
        }
    } else {
        st
    }
}

/// Finder transition for one position: if the incoming run is too short to
/// ever reach `min_size` by site `k`, the current group breaks and is
/// flushed; then the builder transition runs and `h` joins the accumulator
/// of its allele group.
pub open spec fn step_advance(
    st: StepState,
    h: usize,
    start: usize,
    v: u8,
    k: usize,
    min_size: usize,
) -> StepState {
    let st1 = if start + min_size > k {
        flush(st, k)
    } else {
        st
    };
    if v == 0 {
        StepState {
            core: core_advance(st1.core, h, start, v),
            acc0: st1.acc0.push((h, start)),
            acc1: st1.acc1,
            matches: st1.matches,
        }
    } else {
        StepState {
            core: core_advance(st1.core, h, start, v),
            acc0: st1.acc0,
            acc1: st1.acc1.push((h, start)),
            matches: st1.matches,
        }
    }
}

/// Finder state after the first `i` positions.
pub open spec fn step_state_at(
    a: Seq<usize>,
    d: Seq<usize>,
    col: Seq<u8>,
    k: usize,
    min_size: usize,
    i: int,
) -> StepState
    decreases i,
{
    if i <= 0 {
        step_init(k)
    } else {
        let prev = step_state_at(a, d, col, k, min_size, i - 1);
        step_advance(prev, a[i - 1], d[i - 1], col[a[i - 1] as int], k, min_size)
    }
}

/// All matches emitted by one site transition, a run still open after the
/// last position being flushed as complete for this site.
pub open spec fn step_matches(
    a: Seq<usize>,
    d: Seq<usize>,
    col: Seq<u8>,
    k: usize,
    min_size: usize,
) -> Seq<RichMatch> {
    let st = step_state_at(a, d, col, k, min_size, a.len() as int);
    flush(st, k).matches
}

/// The haplotype members of one side of a rich match, without the carried
/// divergence values.
pub open spec fn members_of(ms: Seq<(usize, usize)>) -> Seq<usize> {
    ms.map_values(|p: (usize, usize)| p.0)
}

pub open spec fn match_of(r: RichMatch) -> SpecMatch {
    SpecMatch { haplo_a: members_of(r.members_a), haplo_b: members_of(r.members_b), end: r.end }
}

pub open spec fn matches_of(rs: Seq<RichMatch>) -> Seq<SpecMatch> {
    rs.map_values(|r: RichMatch| match_of(r))
}

pub open spec fn seq_matches_view(ms: Seq<Match>) -> Seq<SpecMatch> {
    ms.map_values(|m: Match| m@)
}

/// The finder's transition leaves the builder part of the state exactly as
/// the builder's own transition does: match bookkeeping never touches the
/// output lists or the trackers.
pub proof fn lemma_step_state_core(
    a: Seq<usize>,
    d: Seq<usize>,
    col: Seq<u8>,
    k: usize,
    min_size: usize,
    i: int,
)
    ensures
        step_state_at(a, d, col, k, min_size, i).core == core_state_at(a, d, col, k, i),
    decreases i,
{
    if i > 0 {
        lemma_step_state_core(a, d, col, k, min_size, i - 1);
    }
}

/// Appending a pair appends its haplotype to the member projection.
pub proof fn lemma_members_of_push(s: Seq<(usize, usize)>, p: (usize, usize))
    ensures
        members_of(s.push(p)) == members_of(s).push(p.0),
{
    assert(members_of(s.push(p)) =~= members_of(s).push(p.0));
}

/// Appending one executable match whose view agrees with a rich match
/// keeps the two projected match sequences equal.
pub proof fn lemma_matches_view_push(ms: Seq<Match>, m: Match, rs: Seq<RichMatch>, r: RichMatch)
    requires
        seq_matches_view(ms) == matches_of(rs),
        m@.haplo_a == members_of(r.members_a),
        m@.haplo_b == members_of(r.members_b),
        m@.end == r.end,
    ensures
        seq_matches_view(ms.push(m)) == matches_of(rs.push(r)),
{
    assert(m@ =~= match_of(r));
    assert(seq_matches_view(ms).len() == ms.len());
    assert(matches_of(rs).len() == rs.len());
    assert(ms.len() == rs.len());
    assert forall|i: int| 0 <= i < ms.len() implies seq_matches_view(ms.push(m))[i] == matches_of(
        rs.push(r),
    )[i] by {
        assert(seq_matches_view(ms)[i] == matches_of(rs)[i]);
        assert(seq_matches_view(ms.push(m))[i] == (ms.push(m))[i]@);
        assert(matches_of(rs.push(r))[i] == match_of((rs.push(r))[i]));
    }
    assert(seq_matches_view(ms.push(m))[ms.len() as int] == m@);
    assert(matches_of(rs.push(r))[rs.len() as int] == match_of(r));
    assert(seq_matches_view(ms.push(m)) =~= matches_of(rs.push(r)));
}

/// Concatenating match sequences with pairwise equal projections keeps the
/// projections equal.
pub proof fn lemma_matches_view_concat(
    ms1: Seq<Match>,
    rs1: Seq<RichMatch>,
    ms2: Seq<Match>,
    rs2: Seq<RichMatch>,
)
    requires
        seq_matches_view(ms1) == matches_of(rs1),
        seq_matches_view(ms2) == matches_of(rs2),
    ensures
        seq_matches_view(ms1 + ms2) == matches_of(rs1 + rs2),
{
    assert(seq_matches_view(ms1).len() == ms1.len());
    assert(matches_of(rs1).len() == rs1.len());
    assert(seq_matches_view(ms2).len() == ms2.len());
    assert(matches_of(rs2).len() == rs2.len());
    assert forall|i: int| 0 <= i < ms1.len() + ms2.len() implies seq_matches_view(ms1 + ms2)[i]
        == matches_of(rs1 + rs2)[i] by {
        if i < ms1.len() {
            assert(seq_matches_view(ms1)[i] == matches_of(rs1)[i]);
        } else {
            assert(seq_matches_view(ms2)[i - ms1.len()] == matches_of(rs2)[i - ms1.len()]);
        }
    }
    assert(seq_matches_view(ms1 + ms2) =~= matches_of(rs1 + rs2));
}

/// The two output lists together hold exactly one entry per position seen
/// so far, and each divergence list matches its output list in length.
pub proof fn lemma_core_sizes(a: Seq<usize>, d: Seq<usize>, col: Seq<u8>, k: usize, i: int)
    requires
        0 <= i,
    ensures
        ({
            let st = core_state_at(a, d, col, k, i);
            &&& st.a0.len() + st.a1.len() == i
            &&& st.d0.len() == st.a0.len()
            &&& st.d1.len() == st.a1.len()
        }),
    decreases i,
{
    if i > 0 {
        lemma_core_sizes(a, d, col, k, i - 1);
    }
}

/// The builder state is well formed over any prefix of the positions: the
/// two output lists partition the positions seen so far, each divergence
/// list matches its output list in length, and every emitted haplotype is
/// one of the prefix-array entries, so it stays below any bound they obey.
pub proof fn lemma_core_wf(a: Seq<usize>, d: Seq<usize>, col: Seq<u8>, k: usize, i: int, n: usize)
    requires
        0 <= i <= a.len(),
        forall|j: int| 0 <= j < a.len() ==> (a[j] as int) < n,
    ensures
        ({
            let st = core_state_at(a, d, col, k, i);
            &&& st.a0.len() + st.a1.len() == i
            &&& st.d0.len() == st.a0.len()
            &&& st.d1.len() == st.a1.len()
            &&& forall|j: int| 0 <= j < st.a0.len() ==> (st.a0[j] as int) < n
            &&& forall|j: int| 0 <= j < st.a1.len() ==> (st.a1[j] as int) < n
        }),
    decreases i,
{
    if i > 0 {
        lemma_core_wf(a, d, col, k, i - 1, n);
    }
}

/// The well-formedness of [`lemma_core_wf`], stated of the finished arrays.
pub proof fn lemma_step_wf(a: Seq<usize>, d: Seq<usize>, col: Seq<u8>, k: usize, n: usize)
    requires
        forall|j: int| 0 <= j < a.len() ==> (a[j] as int) < n,
    ensures
        step_prefix(a, d, col, k).len() == a.len(),
        step_div(a, d, col, k).len() == a.len(),
        forall|j: int|
            0 <= j < a.len() ==> (#[trigger] step_prefix(a, d, col, k)[j] as int) < n,
{
    lemma_core_wf(a, d, col, k, a.len() as int, n);
}

/// What the builder's transition accepts: arrays of one common length, a
/// column of binary alleles, and prefix entries that index into the column.
pub open spec fn valid_builder_input(a: Seq<usize>, d: Seq<usize>, col: Seq<u8>) -> bool {
    &&& d.len() == a.len()
    &&& col.len() == a.len()
    &&& forall|j: int| 0 <= j < col.len() ==> col[j] <= 1
    &&& forall|i: int| 0 <= i < a.len() ==> (a[i] as int) < col.len()
}

/// What the finder's transition accepts: the builder's inputs together with
/// a positive minimum match length.
pub open spec fn valid_step_input(
    a: Seq<usize>,
    d: Seq<usize>,
    col: Seq<u8>,
    min_size: usize,
) -> bool {
    &&& valid_builder_input(a, d, col)
    &&& min_size >= 1
}

/// The identity permutation of `[0, n)`: the initial prefix array.
pub open spec fn ident_seq(n: nat) -> Seq<usize> {
    Seq::new(n, |i: int| i as usize)
}

/// The all-zero sequence of length `n`: the initial divergence array.
pub open spec fn zero_seq(n: nat) -> Seq<usize> {
    Seq::new(n, |i: int| 0usize)
}

/// The allele column of site `k` inside the flat site-major matrix.
pub open spec fn column_at(h: Seq<u8>, n_haplo: usize, k: int) -> Seq<u8> {
    h.subrange(k * n_haplo, (k + 1) * n_haplo)
}

/// State of the full sweep after `steps` site transitions: transition `k`
/// consumes the column of site `k` and the arrays produced by transition
/// `k - 1`, starting from the identity prefix array and all-zero divergence
/// array.
pub open spec fn sweep_state_at(
    h: Seq<u8>,
    n_haplo: usize,
    min_size: usize,
    steps: int,
) -> SweepState
    decreases steps,
{
    if steps <= 0 {
        SweepState {
            matches: Seq::empty(),
            prefix: ident_seq(n_haplo as nat),
            div: zero_seq(n_haplo as nat),
        }
    } else {
        let prev = sweep_state_at(h, n_haplo, min_size, steps - 1);
        let k = steps - 1;
        let col = column_at(h, n_haplo, k);
        SweepState {
            matches: prev.matches + step_matches(prev.prefix, prev.div, col, k as usize, min_size),
            prefix: step_prefix(prev.prefix, prev.div, col, k as usize),
            div: step_div(prev.prefix, prev.div, col, k as usize),
        }
    }
}

/// What the full sweep accepts: positive haplotype count, minimum match
/// length and target site, a flat matrix holding whole columns of binary
/// alleles, and a target site within the matrix.
pub open spec fn valid_sweep_input(
    h: Seq<u8>,
    n_haplo: usize,
    k_site: usize,
    min_size: usize,
) -> bool {
    &&& n_haplo >= 1
    &&& k_site >= 1
    &&& min_size >= 1
    &&& h.len() % (n_haplo as nat) == 0
    &&& k_site as nat <= h.len() / (n_haplo as nat)
    &&& forall|i: int| 0 <= i < h.len() ==> h[i] <= 1
}

} // verus!
