//! The laws of the construction, proved once and for all over the model:
//! the prefix array stays a permutation, each transition is a stable
//! two-way partition, the sweep is deterministic, the divergence array
//! genuinely marks how far back adjacent haplotypes agree, every emitted
//! match groups only haplotypes identical over the closing window, and a
//! minimum length beyond the processed sites never groups two haplotypes.

use vstd::multiset::Multiset;
use vstd::prelude::*;

use crate::model::column_at;
use crate::model::core_state_at;
use crate::model::flush;
use crate::model::ident_seq;
use crate::model::lemma_core_sizes;
use crate::model::step_div;
use crate::model::step_matches;
use crate::model::step_prefix;
use crate::model::step_state_at;
use crate::model::sweep_state_at;
use crate::model::RichMatch;
use crate::model::SweepState;

verus! {

/// `s` holds every index below `n` exactly once (and, having length `n`,
/// nothing else): it is a permutation of `[0, n)`.
pub open spec fn is_permutation(s: Seq<usize>, n: nat) -> bool {
    &&& s.len() == n
    &&& forall|v: usize| (v as nat) < n ==> s.to_multiset().count(v) == 1
}

/// The identity sequence holds each index below `n` exactly once and
/// nothing else.
proof fn lemma_ident_seq_counts(n: nat)
    requires
        n <= usize::MAX,
    ensures
        forall|v: usize|
            #[trigger] ident_seq(n).to_multiset().count(v) == if (v as nat) < n {
                1nat
            } else {
                0nat
            },
    decreases n,
{
    broadcast use vstd::seq_lib::group_to_multiset_ensures;
    broadcast use vstd::multiset::group_multiset_axioms;

    if n == 0 {
        assert(ident_seq(0) =~= Seq::<usize>::empty());
        assert forall|v: usize| ident_seq(0).to_multiset().count(v) == 0nat by {
            assert(ident_seq(0).to_multiset() =~= Multiset::<usize>::empty());
        }
    } else {
        lemma_ident_seq_counts((n - 1) as nat);
        assert(ident_seq(n) =~= ident_seq((n - 1) as nat).push((n - 1) as usize));
    }
}

/// The initial prefix array is a permutation of `[0, n)`.
pub proof fn lemma_ident_seq_is_permutation(n: nat)
    requires
        n <= usize::MAX,
    ensures
        is_permutation(ident_seq(n), n),
{
    lemma_ident_seq_counts(n);
}

/// After any number of positions, the two output lists of one transition
/// together hold exactly the positions walked so far: a two-way partition.
proof fn lemma_core_multiset(a: Seq<usize>, d: Seq<usize>, col: Seq<u8>, k: usize, i: int)
    requires
        0 <= i <= a.len(),
    ensures
        ({
            let st = core_state_at(a, d, col, k, i);
            (st.a0 + st.a1).to_multiset() == a.take(i).to_multiset()
        }),
    decreases i,
{
    broadcast use vstd::seq_lib::group_to_multiset_ensures;
    broadcast use vstd::multiset::group_multiset_axioms;

    let st = core_state_at(a, d, col, k, i);
    if i == 0 {
        assert(st.a0 + st.a1 =~= a.take(0));
    } else {
        lemma_core_multiset(a, d, col, k, i - 1);
        let prev = core_state_at(a, d, col, k, i - 1);
        let h = a[i - 1];
        vstd::seq_lib::lemma_multiset_commutative(prev.a0, prev.a1);
        assert(a.take(i) =~= a.take(i - 1).push(h));
        if col[a[i - 1] as int] == 0 {
            vstd::seq_lib::lemma_multiset_commutative(prev.a0.push(h), prev.a1);
            assert((st.a0 + st.a1).to_multiset() =~= a.take(i).to_multiset());
        } else {
            vstd::seq_lib::lemma_multiset_commutative(prev.a0, prev.a1.push(h));
            assert((st.a0 + st.a1).to_multiset() =~= a.take(i).to_multiset());
        }
    }
}

/// One site transition permutes the prefix array: its output holds exactly
/// the entries of its input, so a permutation of `[0, n)` stays one.
pub proof fn lemma_step_preserves_permutation(
    a: Seq<usize>,
    d: Seq<usize>,
    col: Seq<u8>,
    k: usize,
    n: nat,
)
    requires
        is_permutation(a, n),
    ensures
        is_permutation(step_prefix(a, d, col, k), n),
{
    broadcast use vstd::seq_lib::group_to_multiset_ensures;

    lemma_core_multiset(a, d, col, k, a.len() as int);
    assert(a.take(a.len() as int) =~= a);
    let next = step_prefix(a, d, col, k);
    assert(next.to_multiset() == a.to_multiset());
    assert(next.to_multiset().len() == next.len());
    assert(a.to_multiset().len() == a.len());
}

/// At every stage of the sweep, the produced prefix array is a permutation
/// of `[0, n_haplo)` — every haplotype index appears exactly once.
pub proof fn lemma_sweep_prefix_is_permutation(
    h: Seq<u8>,
    n_haplo: usize,
    min_size: usize,
    steps: int,
)
    requires
        0 <= steps,
    ensures
        is_permutation(sweep_state_at(h, n_haplo, min_size, steps).prefix, n_haplo as nat),
    decreases steps,
{
    if steps == 0 {
        lemma_ident_seq_is_permutation(n_haplo as nat);
    } else {
        lemma_sweep_prefix_is_permutation(h, n_haplo, min_size, steps - 1);
        let prev = sweep_state_at(h, n_haplo, min_size, steps - 1);
        lemma_step_preserves_permutation(
            prev.prefix,
            prev.div,
            column_at(h, n_haplo, steps - 1),
            (steps - 1) as usize,
            n_haplo as nat,
        );
    }
}

/// The haplotypes whose allele at the current site is `v`.
pub open spec fn has_allele(col: Seq<u8>, v: u8) -> spec_fn(usize) -> bool {
    |h: usize| col[h as int] == v
}

proof fn lemma_core_filter(a: Seq<usize>, d: Seq<usize>, col: Seq<u8>, k: usize, i: int)
    requires
        0 <= i <= a.len(),
        crate::model::valid_builder_input(a, d, col),
    ensures
        ({
            let st = core_state_at(a, d, col, k, i);
            &&& st.a0 == a.take(i).filter(has_allele(col, 0))
            &&& st.a1 == a.take(i).filter(has_allele(col, 1))
        }),
    decreases i,
{
    reveal(Seq::filter);
    let st = core_state_at(a, d, col, k, i);
    if i == 0 {
        assert(a.take(0) =~= Seq::<usize>::empty());
        assert(st.a0 =~= a.take(0).filter(has_allele(col, 0)));
        assert(st.a1 =~= a.take(0).filter(has_allele(col, 1)));
    } else {
        lemma_core_filter(a, d, col, k, i - 1);
        let h = a[i - 1];
        assert(a.take(i).drop_last() =~= a.take(i - 1));
        assert(a.take(i).last() == h);
    }
}

/// The stable-partition law: one transition's output prefix array is the
/// allele-0 entries of its input, in their old relative order, followed by
/// the allele-1 entries, in their old relative order.
pub proof fn lemma_step_is_stable_partition(a: Seq<usize>, d: Seq<usize>, col: Seq<u8>, k: usize)
    requires
        crate::model::valid_builder_input(a, d, col),
    ensures
        step_prefix(a, d, col, k) == a.filter(has_allele(col, 0)) + a.filter(has_allele(col, 1)),
{
    lemma_core_filter(a, d, col, k, a.len() as int);
    assert(a.take(a.len() as int) =~= a);
}

/// At every site transition, the allele-0 and allele-1 output lists
/// together hold exactly one entry per haplotype: their lengths sum to the
/// haplotype count.
pub proof fn lemma_allele_groups_partition(a: Seq<usize>, d: Seq<usize>, col: Seq<u8>, k: usize)
    ensures
        ({
            let st = core_state_at(a, d, col, k, a.len() as int);
            st.a0.len() + st.a1.len() == a.len()
        }),
{
    lemma_core_sizes(a, d, col, k, a.len() as int);
}

/// Determinism: the sweep is a pure function of its input.  Any two results
/// obtained from the same matrix, haplotype count, minimum length and
/// number of transitions are identical — and the executable sweep's
/// contract pins its result to this very model, so two invocations on
/// identical input return byte-identical matches and arrays.
pub proof fn lemma_sweep_deterministic(
    h: Seq<u8>,
    n_haplo: usize,
    min_size: usize,
    steps: int,
    r1: SweepState,
    r2: SweepState,
)
    requires
        r1 == sweep_state_at(h, n_haplo, min_size, steps),
        r2 == sweep_state_at(h, n_haplo, min_size, steps),
    ensures
        r1 == r2,
{
}

/// Every member of one side of a rich match except the first carried a
/// divergence value `start` with `end - start >= min_size`: it had been
/// identical to its predecessor in prefix order for at least `min_size`
/// sites when the match was emitted.
pub open spec fn side_members_long(members: Seq<(usize, usize)>, end: usize, min_size: usize) -> bool {
    forall|j: int| 1 <= j < members.len() ==> (#[trigger] members[j]).1 + min_size <= end
}

pub open spec fn match_members_long(m: RichMatch, min_size: usize) -> bool {
    &&& side_members_long(m.members_a, m.end, min_size)
    &&& side_members_long(m.members_b, m.end, min_size)
}

proof fn lemma_step_matches_long_at(
    a: Seq<usize>,
    d: Seq<usize>,
    col: Seq<u8>,
    k: usize,
    min_size: usize,
    i: int,
)
    requires
        0 <= i,
    ensures
        ({
            let st = step_state_at(a, d, col, k, min_size, i);
            &&& forall|mi: int|
                0 <= mi < st.matches.len() ==> match_members_long(#[trigger] st.matches[mi], min_size)
            &&& side_members_long(st.acc0, k, min_size)
            &&& side_members_long(st.acc1, k, min_size)
        }),
    decreases i,
{
    if i > 0 {
        lemma_step_matches_long_at(a, d, col, k, min_size, i - 1);
    }
}

/// In every match emitted by one site transition, every member except the
/// first of each side satisfies `end - start >= min_size` for the divergence value
/// `start` it carried at emission time.  (The first member of a side may
/// carry a larger value: its divergence relates it to a predecessor outside
/// the group.)
pub proof fn lemma_step_matches_long(
    a: Seq<usize>,
    d: Seq<usize>,
    col: Seq<u8>,
    k: usize,
    min_size: usize,
)
    ensures
        forall|mi: int|
            0 <= mi < step_matches(a, d, col, k, min_size).len() ==> match_members_long(
                #[trigger] step_matches(a, d, col, k, min_size)[mi],
                min_size,
            ),
{
    lemma_step_matches_long_at(a, d, col, k, min_size, a.len() as int);
    let st = step_state_at(a, d, col, k, min_size, a.len() as int);
    assert(step_matches(a, d, col, k, min_size) == flush(st, k).matches);
}

/// Every match the whole sweep emits satisfies [`match_members_long`]:
/// each member but the first of a side carried a divergence at least
/// `min_size` sites before the end site.
pub proof fn lemma_sweep_matches_long(h: Seq<u8>, n_haplo: usize, min_size: usize, steps: int)
    requires
        0 <= steps,
    ensures
        ({
            let sw = sweep_state_at(h, n_haplo, min_size, steps);
            forall|mi: int|
                0 <= mi < sw.matches.len() ==> match_members_long(
                    #[trigger] sw.matches[mi],
                    min_size,
                )
        }),
    decreases steps,
{
    if steps > 0 {
        lemma_sweep_matches_long(h, n_haplo, min_size, steps - 1);
        let prev = sweep_state_at(h, n_haplo, min_size, steps - 1);
        let col = column_at(h, n_haplo, steps - 1);
        lemma_step_matches_long(prev.prefix, prev.div, col, (steps - 1) as usize, min_size);
    }
}

proof fn lemma_short_window_at(
    a: Seq<usize>,
    d: Seq<usize>,
    col: Seq<u8>,
    k: usize,
    min_size: usize,
    i: int,
)
    requires
        0 <= i,
        k < min_size,
    ensures
        ({
            let st = step_state_at(a, d, col, k, min_size, i);
            &&& st.acc0.len() + st.acc1.len() == if i == 0 {
                0int
            } else {
                1int
            }
            &&& forall|mi: int|
                0 <= mi < st.matches.len() ==> (#[trigger] st.matches[mi]).members_a.len()
                    + st.matches[mi].members_b.len() == 1
        }),
    decreases i,
{
    if i > 0 {
        lemma_short_window_at(a, d, col, k, min_size, i - 1);
    }
}

/// One site transition whose site index is below the minimum length emits
/// only single-member matches.
pub proof fn lemma_step_short_window(
    a: Seq<usize>,
    d: Seq<usize>,
    col: Seq<u8>,
    k: usize,
    min_size: usize,
)
    requires
        k < min_size,
    ensures
        forall|mi: int|
            0 <= mi < step_matches(a, d, col, k, min_size).len() ==> (#[trigger] step_matches(
                a,
                d,
                col,
                k,
                min_size,
            )[mi]).members_a.len() + step_matches(a, d, col, k, min_size)[mi].members_b.len() == 1,
{
    lemma_short_window_at(a, d, col, k, min_size, a.len() as int);
}

/// When the minimum match length is at least the number of transitions run
/// — in particular when it exceeds the number of sites — every match the
/// sweep emits holds exactly one haplotype, so no two haplotypes are ever
/// reported as matching.
pub proof fn lemma_sweep_short_min_size(h: Seq<u8>, n_haplo: usize, min_size: usize, steps: int)
    requires
        0 <= steps <= min_size,
    ensures
        ({
            let sw = sweep_state_at(h, n_haplo, min_size, steps);
            forall|mi: int|
                0 <= mi < sw.matches.len() ==> (#[trigger] sw.matches[mi]).members_a.len()
                    + sw.matches[mi].members_b.len() == 1
        }),
    decreases steps,
{
    if steps > 0 {
        lemma_sweep_short_min_size(h, n_haplo, min_size, steps - 1);
        let prev = sweep_state_at(h, n_haplo, min_size, steps - 1);
        let col = column_at(h, n_haplo, steps - 1);
        lemma_step_short_window(prev.prefix, prev.div, col, (steps - 1) as usize, min_size);
    }
}

/// Haplotypes `x` and `y` hold the same allele at every site in
/// `[from, to)` of the flat site-major matrix `hm`.
pub open spec fn agrees(hm: Seq<u8>, n_haplo: usize, x: usize, y: usize, from: int, to: int) -> bool {
    forall|s: int| from <= s < to ==> (#[trigger] hm[s * n_haplo + x]) == hm[s * n_haplo + y]
}

/// Agreement is transitive over the shared part of two windows.
proof fn lemma_agrees_trans(
    hm: Seq<u8>,
    n_haplo: usize,
    x: usize,
    y: usize,
    z: usize,
    m1: int,
    m2: int,
    to: int,
)
    requires
        agrees(hm, n_haplo, x, y, m1, to),
        agrees(hm, n_haplo, y, z, m2, to),
    ensures
        agrees(
            hm,
            n_haplo,
            x,
            z,
            if m1 > m2 {
                m1
            } else {
                m2
            },
            to,
        ),
{
    let m = if m1 > m2 {
        m1
    } else {
        m2
    };
    assert forall|s: int| m <= s < to implies (#[trigger] hm[s * n_haplo + x]) == hm[s * n_haplo
        + z] by {
        assert(hm[s * n_haplo + x] == hm[s * n_haplo + y]);
        assert(hm[s * n_haplo + y] == hm[s * n_haplo + z]);
    }
}

/// Walking the transition at site `k`, the builder's state witnesses how
/// far back its members agree: finished adjacent pairs of each output list
/// agree from their recorded divergence through site `k` itself, the first
/// entry of each list carries a value beyond `k` (no predecessor), an empty
/// group's tracker still holds its sentinel, and each group's tracker spans
/// the gap from the group's last member to the position at hand.
proof fn lemma_core_agreement(
    hm: Seq<u8>,
    n_haplo: usize,
    k: usize,
    a: Seq<usize>,
    d: Seq<usize>,
    col: Seq<u8>,
    i: int,
)
    requires
        0 <= i <= a.len(),
        k < usize::MAX,
        crate::model::valid_builder_input(a, d, col),
        a.len() == n_haplo,
        col == column_at(hm, n_haplo, k as int),
        (k as int + 1) * (n_haplo as int) <= hm.len(),
        forall|j: int|
            1 <= j < a.len() ==> agrees(hm, n_haplo, a[j - 1], a[j], d[j] as int, k as int),
    ensures
        ({
            let st = core_state_at(a, d, col, k, i);
            &&& forall|j: int| 0 <= j < st.a0.len() ==> col[#[trigger] st.a0[j] as int] == 0
            &&& forall|j: int| 0 <= j < st.a1.len() ==> col[#[trigger] st.a1[j] as int] != 0
            &&& forall|j: int|
                1 <= j < st.a0.len() ==> agrees(
                    hm,
                    n_haplo,
                    st.a0[j - 1],
                    st.a0[j],
                    #[trigger] st.d0[j] as int,
                    k as int + 1,
                )
            &&& forall|j: int|
                1 <= j < st.a1.len() ==> agrees(
                    hm,
                    n_haplo,
                    st.a1[j - 1],
                    st.a1[j],
                    #[trigger] st.d1[j] as int,
                    k as int + 1,
                )
            &&& st.a0.len() > 0 ==> st.d0[0] as int >= k as int + 1
            &&& st.a1.len() > 0 ==> st.d1[0] as int >= k as int + 1
            &&& st.a0.len() == 0 ==> st.t0 as int >= k as int + 1
            &&& st.a1.len() == 0 ==> st.t1 as int >= k as int + 1
            &&& (i > 0 && st.a0.len() > 0) ==> agrees(
                hm,
                n_haplo,
                st.a0.last(),
                a[i - 1],
                st.t0 as int,
                k as int,
            )
            &&& (i > 0 && st.a1.len() > 0) ==> agrees(
                hm,
                n_haplo,
                st.a1.last(),
                a[i - 1],
                st.t1 as int,
                k as int,
            )
        }),
    decreases i,
{
    vstd::arithmetic::mul::lemma_mul_is_distributive_add_other_way(
        n_haplo as int,
        k as int,
        1int,
    );
    crate::model::lemma_core_wf(a, d, col, k, i, n_haplo);
    if i > 0 {
        lemma_core_agreement(hm, n_haplo, k, a, d, col, i - 1);
        crate::model::lemma_core_wf(a, d, col, k, i - 1, n_haplo);
        lemma_core_sizes(a, d, col, k, i - 1);
        let p = core_state_at(a, d, col, k, i - 1);
        let st = core_state_at(a, d, col, k, i);
        let h = a[i - 1];
        let start = d[i - 1];
        let t0r: usize = if start > p.t0 {
            start
        } else {
            p.t0
        };
        let t1r: usize = if start > p.t1 {
            start
        } else {
            p.t1
        };
        // The raised trackers span the gap up to the position at hand.
        if p.a0.len() > 0 {
            assert(i - 1 > 0);
            lemma_agrees_trans(
                hm,
                n_haplo,
                p.a0.last(),
                a[i - 2],
                h,
                p.t0 as int,
                start as int,
                k as int,
            );
            assert(agrees(hm, n_haplo, p.a0.last(), h, t0r as int, k as int));
        }
        if p.a1.len() > 0 {
            assert(i - 1 > 0);
            lemma_agrees_trans(
                hm,
                n_haplo,
                p.a1.last(),
                a[i - 2],
                h,
                p.t1 as int,
                start as int,
                k as int,
            );
            assert(agrees(hm, n_haplo, p.a1.last(), h, t1r as int, k as int));
        }
        if col[h as int] == 0 {
            if p.a0.len() > 0 {
                // The pair just completed agrees through site k as well:
                // both its members carry allele 0 there.
                let x = p.a0.last();
                assert(col[x as int] == 0);
                assert(col[x as int] == hm[k as int * n_haplo + x]);
                assert(col[h as int] == hm[k as int * n_haplo + h]);
                assert forall|s: int| t0r as int <= s < k as int + 1 implies (#[trigger] hm[s
                    * n_haplo + x]) == hm[s * n_haplo + h] by {
                    if s < k as int {
                        assert(agrees(hm, n_haplo, x, h, t0r as int, k as int));
                        assert(hm[s * n_haplo + x] == hm[s * n_haplo + h]);
                    } else {
                        assert(s == k as int);
                    }
                }
                assert(agrees(hm, n_haplo, x, h, t0r as int, k as int + 1));
            }
        } else {
            if p.a1.len() > 0 {
                let x = p.a1.last();
                assert(col[x as int] != 0);
                assert(col[x as int] == hm[k as int * n_haplo + x]);
                assert(col[h as int] == hm[k as int * n_haplo + h]);
                assert forall|s: int| t1r as int <= s < k as int + 1 implies (#[trigger] hm[s
                    * n_haplo + x]) == hm[s * n_haplo + h] by {
                    if s < k as int {
                        assert(agrees(hm, n_haplo, x, h, t1r as int, k as int));
                        assert(hm[s * n_haplo + x] == hm[s * n_haplo + h]);
                    } else {
                        assert(s == k as int);
                        assert(col[x as int] <= 1 && col[h as int] <= 1);
                        assert(col[x as int] == col[h as int]);
                    }
                }
                assert(agrees(hm, n_haplo, x, h, t1r as int, k as int + 1));
            }
        }
    }
}

/// The divergence array witnesses agreement: after the transition at site
/// `k`, any two adjacent entries of the new prefix array hold identical
/// alleles at every site from the new divergence value through `k`
/// inclusive.  The first entry of each allele group instead carries a value
/// beyond `k` — it has no predecessor in a shared run — and the claim is
/// empty there.
pub proof fn lemma_step_divergence_agreement(
    hm: Seq<u8>,
    n_haplo: usize,
    k: usize,
    a: Seq<usize>,
    d: Seq<usize>,
    col: Seq<u8>,
)
    requires
        k < usize::MAX,
        crate::model::valid_builder_input(a, d, col),
        a.len() == n_haplo,
        col == column_at(hm, n_haplo, k as int),
        (k as int + 1) * (n_haplo as int) <= hm.len(),
        forall|j: int|
            1 <= j < a.len() ==> agrees(hm, n_haplo, a[j - 1], a[j], d[j] as int, k as int),
    ensures
        forall|j: int|
            1 <= j < step_prefix(a, d, col, k).len() ==> agrees(
                hm,
                n_haplo,
                step_prefix(a, d, col, k)[j - 1],
                #[trigger] step_prefix(a, d, col, k)[j],
                step_div(a, d, col, k)[j] as int,
                k as int + 1,
            ),
{
    lemma_core_agreement(hm, n_haplo, k, a, d, col, a.len() as int);
    lemma_core_sizes(a, d, col, k, a.len() as int);
    let st = core_state_at(a, d, col, k, a.len() as int);
    let next = st.a0 + st.a1;
    let nextd = st.d0 + st.d1;
    assert forall|j: int| 1 <= j < next.len() implies agrees(
        hm,
        n_haplo,
        next[j - 1],
        next[j],
        nextd[j] as int,
        k as int + 1,
    ) by {
        if j < st.a0.len() {
            assert(next[j - 1] == st.a0[j - 1]);
            assert(next[j] == st.a0[j]);
            assert(nextd[j] == st.d0[j]);
        } else if j == st.a0.len() {
            assert(nextd[j] == st.d1[0]);
            assert(st.d1[0] as int >= k as int + 1);
        } else {
            assert(next[j - 1] == st.a1[j - 1 - st.a0.len()]);
            assert(next[j] == st.a1[j - st.a0.len()]);
            assert(nextd[j] == st.d1[j - st.a0.len()]);
        }
    }
}

/// Over the whole sweep, the divergence array means what it says: after any
/// number of transitions, each adjacent pair of the prefix array holds
/// identical alleles at every site from the pair's divergence value up to
/// the current site — the value really marks the start of the pair's shared
/// run.
pub proof fn lemma_sweep_divergence_agreement(
    hm: Seq<u8>,
    n_haplo: usize,
    min_size: usize,
    steps: int,
)
    requires
        0 <= steps < usize::MAX,
        n_haplo >= 1,
        steps * (n_haplo as int) <= hm.len(),
        forall|i: int| 0 <= i < hm.len() ==> hm[i] <= 1,
    ensures
        ({
            let sw = sweep_state_at(hm, n_haplo, min_size, steps);
            &&& sw.prefix.len() == n_haplo
            &&& sw.div.len() == n_haplo
            &&& forall|j: int| 0 <= j < n_haplo ==> (#[trigger] sw.prefix[j] as int) < n_haplo
            &&& forall|j: int|
                1 <= j < n_haplo ==> agrees(
                    hm,
                    n_haplo,
                    sw.prefix[j - 1],
                    #[trigger] sw.prefix[j],
                    sw.div[j] as int,
                    steps,
                )
        }),
    decreases steps,
{
    if steps > 0 {
        vstd::arithmetic::mul::lemma_mul_inequality(steps - 1, steps, n_haplo as int);
        lemma_sweep_divergence_agreement(hm, n_haplo, min_size, steps - 1);
        vstd::arithmetic::mul::lemma_mul_nonnegative(steps - 1, n_haplo as int);
        vstd::arithmetic::mul::lemma_mul_is_distributive_add_other_way(
            n_haplo as int,
            steps - 1,
            1int,
        );
        let prev = sweep_state_at(hm, n_haplo, min_size, steps - 1);
        let k = (steps - 1) as usize;
        let col = column_at(hm, n_haplo, steps - 1);
        assert(col.len() == n_haplo);
        assert forall|x: int| 0 <= x < n_haplo implies col[x] <= 1 by {
            assert(col[x] == hm[(steps - 1) * (n_haplo as int) + x]);
        }
        assert(crate::model::valid_builder_input(prev.prefix, prev.div, col));
        lemma_step_divergence_agreement(hm, n_haplo, k, prev.prefix, prev.div, col);
        crate::model::lemma_step_wf(prev.prefix, prev.div, col, k, n_haplo);
    }
}

/// All members of a match, across both sides, hold identical alleles at
/// every site in the window of `min_size` sites ending at the match's end
/// site (exclusive).
pub open spec fn members_pairwise_agree(
    hm: Seq<u8>,
    n_haplo: usize,
    m: RichMatch,
    min_size: usize,
) -> bool {
    let mem = m.members_a + m.members_b;
    forall|u: int, w: int|
        0 <= u < mem.len() && 0 <= w < mem.len() ==> agrees(
            hm,
            n_haplo,
            (#[trigger] mem[u]).0,
            (#[trigger] mem[w]).0,
            m.end - min_size,
            m.end as int,
        )
}

/// Walking the transition at site `k`, every match emitted so far satisfies
/// [`members_pairwise_agree`], and every haplotype still in an accumulator
/// agrees with the position at hand over the closing window: the
/// accumulators only ever group haplotypes whose shared run reaches back at
/// least `min_size` sites.
proof fn lemma_step_members_agree_at(
    hm: Seq<u8>,
    n_haplo: usize,
    k: usize,
    a: Seq<usize>,
    d: Seq<usize>,
    col: Seq<u8>,
    min_size: usize,
    i: int,
)
    requires
        0 <= i <= a.len(),
        d.len() == a.len(),
        forall|j: int|
            1 <= j < a.len() ==> agrees(hm, n_haplo, a[j - 1], a[j], d[j] as int, k as int),
    ensures
        ({
            let st = step_state_at(a, d, col, k, min_size, i);
            let acc = st.acc0 + st.acc1;
            &&& forall|mi: int|
                0 <= mi < st.matches.len() ==> members_pairwise_agree(
                    hm,
                    n_haplo,
                    #[trigger] st.matches[mi],
                    min_size,
                )
            &&& i > 0 ==> forall|u: int|
                0 <= u < acc.len() ==> agrees(
                    hm,
                    n_haplo,
                    (#[trigger] acc[u]).0,
                    a[i - 1],
                    k - min_size,
                    k as int,
                )
        }),
    decreases i,
{
    if i > 0 {
        lemma_step_members_agree_at(hm, n_haplo, k, a, d, col, min_size, i - 1);
        let p = step_state_at(a, d, col, k, min_size, i - 1);
        let st = step_state_at(a, d, col, k, min_size, i);
        let h = a[i - 1];
        let start = d[i - 1];
        let pacc = p.acc0 + p.acc1;
        let breaking = start + min_size > k;
        if breaking {
            // The group breaks: whatever was accumulated is emitted, and its
            // members agree pairwise through the frontier haplotype.
            if i - 1 > 0 {
                assert forall|u: int, w: int|
                    0 <= u < pacc.len() && 0 <= w < pacc.len() implies agrees(
                    hm,
                    n_haplo,
                    (#[trigger] pacc[u]).0,
                    (#[trigger] pacc[w]).0,
                    k - min_size,
                    k as int,
                ) by {
                    lemma_agrees_trans(
                        hm,
                        n_haplo,
                        pacc[u].0,
                        a[i - 2],
                        pacc[w].0,
                        k - min_size,
                        k - min_size,
                        k as int,
                    );
                }
            }
            let emitted = RichMatch { members_a: p.acc0, members_b: p.acc1, end: k };
            assert(emitted.members_a + emitted.members_b == pacc);
            // After the break the accumulator holds the frontier alone.
            let acc = st.acc0 + st.acc1;
            assert forall|u: int| 0 <= u < acc.len() implies agrees(
                hm,
                n_haplo,
                (#[trigger] acc[u]).0,
                a[i - 1],
                k - min_size,
                k as int,
            ) by {
                assert(acc.len() == 1);
                assert(acc[u].0 == h);
            }
        } else {
            // No break: every accumulated haplotype reaches the new frontier
            // through the adjacent pair, whose divergence is early enough.
            assert(start + min_size <= k);
            let acc = st.acc0 + st.acc1;
            let v = col[a[i - 1] as int];
            assert forall|u: int| 0 <= u < acc.len() implies agrees(
                hm,
                n_haplo,
                (#[trigger] acc[u]).0,
                a[i - 1],
                k - min_size,
                k as int,
            ) by {
                // The new pair lands at the end of its own side, so an old
                // entry keeps its index or moves up by one.
                let old_at: int = if v == 0 {
                    if u < p.acc0.len() {
                        u
                    } else if u == p.acc0.len() {
                        -1
                    } else {
                        u - 1
                    }
                } else {
                    if u < pacc.len() {
                        u
                    } else {
                        -1
                    }
                };
                if old_at >= 0 {
                    assert(acc[u] == pacc[old_at]);
                    assert(pacc.len() > 0);
                    assert(i - 1 > 0) by {
                        if i - 1 == 0 {
                            assert(pacc.len() == 0);
                        }
                    }
                    lemma_agrees_trans(
                        hm,
                        n_haplo,
                        pacc[old_at].0,
                        a[i - 2],
                        h,
                        k - min_size,
                        start as int,
                        k as int,
                    );
                } else {
                    assert(acc[u] == (h, start));
                }
            }
        }
    }
}

/// Every match emitted by the transition at site `k` groups only haplotypes
/// that hold identical alleles at every site in `[k - min_size, k)`: the
/// match really marks a shared run of at least `min_size` sites, across
/// both of its sides.  The hypothesis is what the divergence array of site
/// `k` promises: adjacent haplotypes agree from their divergence value on.
pub proof fn lemma_step_matches_members_agree(
    hm: Seq<u8>,
    n_haplo: usize,
    k: usize,
    a: Seq<usize>,
    d: Seq<usize>,
    col: Seq<u8>,
    min_size: usize,
)
    requires
        d.len() == a.len(),
        forall|j: int|
            1 <= j < a.len() ==> agrees(hm, n_haplo, a[j - 1], a[j], d[j] as int, k as int),
    ensures
        forall|mi: int|
            0 <= mi < step_matches(a, d, col, k, min_size).len() ==> members_pairwise_agree(
                hm,
                n_haplo,
                #[trigger] step_matches(a, d, col, k, min_size)[mi],
                min_size,
            ),
{
    lemma_step_members_agree_at(hm, n_haplo, k, a, d, col, min_size, a.len() as int);
    let st = step_state_at(a, d, col, k, min_size, a.len() as int);
    let pacc = st.acc0 + st.acc1;
    if pacc.len() > 0 {
        // A run still open after the last position is flushed: its members
        // agree pairwise through the last haplotype walked.
        assert(a.len() > 0);
        assert forall|u: int, w: int|
            0 <= u < pacc.len() && 0 <= w < pacc.len() implies agrees(
            hm,
            n_haplo,
            (#[trigger] pacc[u]).0,
            (#[trigger] pacc[w]).0,
            k - min_size,
            k as int,
        ) by {
            lemma_agrees_trans(
                hm,
                n_haplo,
                pacc[u].0,
                a[a.len() - 1],
                pacc[w].0,
                k - min_size,
                k - min_size,
                k as int,
            );
        }
        let emitted = RichMatch { members_a: st.acc0, members_b: st.acc1, end: k };
        assert(emitted.members_a + emitted.members_b == pacc);
    }
}

/// Soundness of long-match reporting over the whole sweep: every emitted
/// match groups only haplotypes that are identical over the window of
/// `min_size` sites ending at the match's end site.
pub proof fn lemma_sweep_matches_members_agree(
    hm: Seq<u8>,
    n_haplo: usize,
    min_size: usize,
    steps: int,
)
    requires
        0 <= steps < usize::MAX,
        n_haplo >= 1,
        steps * (n_haplo as int) <= hm.len(),
        forall|i: int| 0 <= i < hm.len() ==> hm[i] <= 1,
    ensures
        ({
            let sw = sweep_state_at(hm, n_haplo, min_size, steps);
            forall|mi: int|
                0 <= mi < sw.matches.len() ==> members_pairwise_agree(
                    hm,
                    n_haplo,
                    #[trigger] sw.matches[mi],
                    min_size,
                )
        }),
    decreases steps,
{
    if steps > 0 {
        vstd::arithmetic::mul::lemma_mul_inequality(steps - 1, steps, n_haplo as int);
        lemma_sweep_matches_members_agree(hm, n_haplo, min_size, steps - 1);
        lemma_sweep_divergence_agreement(hm, n_haplo, min_size, steps - 1);
        let prev = sweep_state_at(hm, n_haplo, min_size, steps - 1);
        let k = (steps - 1) as usize;
        let col = column_at(hm, n_haplo, steps - 1);
        lemma_step_matches_members_agree(hm, n_haplo, k, prev.prefix, prev.div, col, min_size);
        let sw = sweep_state_at(hm, n_haplo, min_size, steps);
        let stepms = step_matches(prev.prefix, prev.div, col, k, min_size);
        assert forall|mi: int| 0 <= mi < sw.matches.len() implies members_pairwise_agree(
            hm,
            n_haplo,
            #[trigger] sw.matches[mi],
            min_size,
        ) by {
            if mi < prev.matches.len() {
                assert(sw.matches[mi] == prev.matches[mi]);
            } else {
                assert(sw.matches[mi] == stepms[mi - prev.matches.len()]);
            }
        }
    }
}

} // verus!
