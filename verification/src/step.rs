//! One site transition of the PBWT: advance the positional prefix array and
//! divergence array by one site and emit the long matches that complete
//! there.

use vstd::prelude::*;

use crate::model::core_state_at;
use crate::model::matches_of;
use crate::model::seq_matches_view;
use crate::model::step_div;
use crate::model::step_matches;
use crate::model::step_prefix;
use crate::model::step_state_at;
use crate::model::valid_builder_input;
use crate::model::valid_step_input;
use crate::model::RichMatch;
use crate::types::Match;
use crate::types::PbwtError;

verus! {

/// The builder's operation alone: advance the pair (prefix array,
/// divergence array) from site `k` to site `k + 1` given the allele column
/// at site `k`, without match detection.  The output prefix array is the
/// stable two-way partition of the input by allele value; the output
/// divergence array records, per entry, the start of its shared run with
/// its new predecessor.
///
/// Returns `Ok` exactly on the inputs [`valid_builder_input`] admits, and
/// then returns exactly the arrays of the model; every other input is
/// rejected with [`PbwtError::InvalidInput`] before any output is produced.
pub fn step(
    pos_prefix_array: &Vec<usize>,
    div_array: &Vec<usize>,
    haplotypes: &Vec<u8>,
    k: usize,
) -> (r: Result<(Vec<usize>, Vec<usize>), PbwtError>)
    requires
        k < usize::MAX,
    ensures
        match r {
            Ok(out) => {
                &&& valid_builder_input(pos_prefix_array@, div_array@, haplotypes@)
                &&& out.0@ == step_prefix(pos_prefix_array@, div_array@, haplotypes@, k)
                &&& out.1@ == step_div(pos_prefix_array@, div_array@, haplotypes@, k)
            },
            Err(e) => {
                &&& e == PbwtError::InvalidInput
                &&& !valid_builder_input(pos_prefix_array@, div_array@, haplotypes@)
            },
        },
{
    let n = pos_prefix_array.len();
    if div_array.len() != n || haplotypes.len() != n {
        return Err(PbwtError::InvalidInput);
    }
    let mut i: usize = 0;
    while i < n
        invariant
            i <= n,
            n == pos_prefix_array@.len(),
            n == haplotypes@.len(),
            forall|j: int| 0 <= j < i ==> haplotypes@[j] <= 1,
            forall|j: int| 0 <= j < i ==> (pos_prefix_array@[j] as int) < n,
        decreases n - i,
    {
        if haplotypes[i] > 1 || pos_prefix_array[i] >= n {
            return Err(PbwtError::InvalidInput);
        }
        i += 1;
    }

    let ghost a: Seq<usize> = pos_prefix_array@;
    let ghost d: Seq<usize> = div_array@;
    let ghost col: Seq<u8> = haplotypes@;

    let mut allele_0_pos: Vec<usize> = Vec::new();
    let mut allele_0_div: Vec<usize> = Vec::new();
    let mut allele_1_pos: Vec<usize> = Vec::new();
    let mut allele_1_div: Vec<usize> = Vec::new();

    // If a tracker stays at k + 1, its group has no run yet.
    let mut match_0_start: usize = k + 1;
    let mut match_1_start: usize = k + 1;

    let mut i: usize = 0;
    while i < n
        invariant
            i <= n,
            k < usize::MAX,
            n == a.len(),
            a == pos_prefix_array@,
            d == div_array@,
            col == haplotypes@,
            valid_builder_input(a, d, col),
            ({
                let st = core_state_at(a, d, col, k, i as int);
                &&& allele_0_pos@ == st.a0
                &&& allele_0_div@ == st.d0
                &&& allele_1_pos@ == st.a1
                &&& allele_1_div@ == st.d1
                &&& match_0_start == st.t0
                &&& match_1_start == st.t1
            }),
        decreases n - i,
    {
        let haplo_index = pos_prefix_array[i];
        let start_of_match = div_array[i];
        if start_of_match > match_0_start {
            match_0_start = start_of_match;
        }
        if start_of_match > match_1_start {
            match_1_start = start_of_match;
        }
        if haplotypes[haplo_index] == 0 {
            allele_0_pos.push(haplo_index);
            allele_0_div.push(match_0_start);
            match_0_start = 0;
        } else {
            allele_1_pos.push(haplo_index);
            allele_1_div.push(match_1_start);
            match_1_start = 0;
        }
        i += 1;
    }

    let mut next_pp_array = allele_0_pos;
    next_pp_array.append(&mut allele_1_pos);
    let mut next_div_array = allele_0_div;
    next_div_array.append(&mut allele_1_div);
    Ok((next_pp_array, next_div_array))
}

/// Advance the pair (prefix array, divergence array) from site `k` to site
/// `k + 1` given the allele column at site `k`, and return the long matches
/// completed at site `k`: the maximal groups of haplotypes, contiguous in
/// prefix order, identical over at least `min_size` sites ending at `k` and
/// about to diverge, split by their allele value at `k`.
///
/// Returns `Ok` exactly on the inputs [`valid_step_input`] admits, and then
/// returns exactly the matches, prefix array and divergence array of the
/// model; every other input is rejected with [`PbwtError::InvalidInput`]
/// before any output is produced.
pub fn find_long_matches(
    pos_prefix_array: &Vec<usize>,
    div_array: &Vec<usize>,
    haplotypes: &Vec<u8>,
    k: usize,
    min_size: usize,
) -> (r: Result<(Vec<Match>, Vec<usize>, Vec<usize>), PbwtError>)
    requires
        k < usize::MAX,
    ensures
        match r {
            Ok(out) => {
                &&& valid_step_input(pos_prefix_array@, div_array@, haplotypes@, min_size)
                &&& seq_matches_view(out.0@) == matches_of(
                    step_matches(pos_prefix_array@, div_array@, haplotypes@, k, min_size),
                )
                &&& out.1@ == step_prefix(pos_prefix_array@, div_array@, haplotypes@, k)
                &&& out.2@ == step_div(pos_prefix_array@, div_array@, haplotypes@, k)
            },
            Err(e) => {
                &&& e == PbwtError::InvalidInput
                &&& !valid_step_input(pos_prefix_array@, div_array@, haplotypes@, min_size)
            },
        },
{
    let n = pos_prefix_array.len();
    if div_array.len() != n || haplotypes.len() != n || min_size == 0 {
        return Err(PbwtError::InvalidInput);
    }
    let mut i: usize = 0;
    while i < n
        invariant
            i <= n,
            n == pos_prefix_array@.len(),
            n == haplotypes@.len(),
            forall|j: int| 0 <= j < i ==> haplotypes@[j] <= 1,
            forall|j: int| 0 <= j < i ==> (pos_prefix_array@[j] as int) < n,
        decreases n - i,
    {
        if haplotypes[i] > 1 || pos_prefix_array[i] >= n {
            return Err(PbwtError::InvalidInput);
        }
        i += 1;
    }

    let ghost a: Seq<usize> = pos_prefix_array@;
    let ghost d: Seq<usize> = div_array@;
    let ghost col: Seq<u8> = haplotypes@;

    let mut allele_0_pos: Vec<usize> = Vec::new();
    let mut allele_0_div: Vec<usize> = Vec::new();
    let mut allele_0_match: Vec<usize> = Vec::new();
    let mut allele_1_pos: Vec<usize> = Vec::new();
    let mut allele_1_div: Vec<usize> = Vec::new();
    let mut allele_1_match: Vec<usize> = Vec::new();

    // If a tracker stays at k + 1, its group has no run yet.
    let mut match_0_start: usize = k + 1;
    let mut match_1_start: usize = k + 1;

    let mut matches: Vec<Match> = Vec::new();

    let mut i: usize = 0;
    while i < n
        invariant
            i <= n,
            k < usize::MAX,
            n == a.len(),
            a == pos_prefix_array@,
            d == div_array@,
            col == haplotypes@,
            valid_step_input(a, d, col, min_size),
            ({
                let st = step_state_at(a, d, col, k, min_size, i as int);
                &&& allele_0_pos@ == st.core.a0
                &&& allele_0_div@ == st.core.d0
                &&& allele_1_pos@ == st.core.a1
                &&& allele_1_div@ == st.core.d1
                &&& match_0_start == st.core.t0
                &&& match_1_start == st.core.t1
                &&& allele_0_match@ == crate::model::members_of(st.acc0)
                &&& allele_1_match@ == crate::model::members_of(st.acc1)
                &&& seq_matches_view(matches@) == matches_of(st.matches)
            }),
        decreases n - i,
    {
        let ghost st = step_state_at(a, d, col, k, min_size, i as int);
        let haplo_index = pos_prefix_array[i];
        let start_of_match = div_array[i];

        // start_of_match + min_size > k, phrased without usize overflow.
        let breaking = start_of_match > k || min_size > k - start_of_match;
        proof {
            assert(breaking == (start_of_match + min_size > k));
        }
        if breaking {
            if allele_0_match.len() > 0 || allele_1_match.len() > 0 {
                let haplo_a = allele_0_match.clone();
                let haplo_b = allele_1_match.clone();
                proof {
                    assert(haplo_a@ =~= allele_0_match@);
                    assert(haplo_b@ =~= allele_1_match@);
                }
                let m = Match { haplo_a, haplo_b, end: k };
                proof {
                    crate::model::lemma_matches_view_push(
                        matches@,
                        m,
                        st.matches,
                        RichMatch { members_a: st.acc0, members_b: st.acc1, end: k },
                    );
                }
                matches.push(m);
            }
            allele_0_match = Vec::new();
            allele_1_match = Vec::new();
        }
        proof {
            let st1 = crate::model::flush(st, k);
            if breaking {
                assert(allele_0_match@ == crate::model::members_of(st1.acc0));
                assert(allele_1_match@ == crate::model::members_of(st1.acc1));
                assert(seq_matches_view(matches@) == matches_of(st1.matches));
            }
        }

        if start_of_match > match_0_start {
            match_0_start = start_of_match;
        }
        if start_of_match > match_1_start {
            match_1_start = start_of_match;
        }
        let allele = haplotypes[haplo_index];
        if allele == 0 {
            allele_0_pos.push(haplo_index);
            allele_0_div.push(match_0_start);
            allele_0_match.push(haplo_index);
            match_0_start = 0;
        } else {
            allele_1_pos.push(haplo_index);
            allele_1_div.push(match_1_start);
            allele_1_match.push(haplo_index);
            match_1_start = 0;
        }
        proof {
            let st1 = if breaking {
                crate::model::flush(st, k)
            } else {
                st
            };
            let st_next = step_state_at(a, d, col, k, min_size, i + 1 as int);
            assert(st_next == crate::model::step_advance(
                st,
                a[i as int],
                d[i as int],
                col[a[i as int] as int],
                k,
                min_size,
            ));
            crate::model::lemma_members_of_push(st1.acc0, (haplo_index, start_of_match));
            crate::model::lemma_members_of_push(st1.acc1, (haplo_index, start_of_match));
            assert(allele_0_match@ =~= crate::model::members_of(st_next.acc0));
            assert(allele_1_match@ =~= crate::model::members_of(st_next.acc1));
            assert(seq_matches_view(matches@) == matches_of(st_next.matches));
        }
        i += 1;
    }

    let ghost st = step_state_at(a, d, col, k, min_size, n as int);
    if allele_0_match.len() > 0 || allele_1_match.len() > 0 {
        let haplo_a = allele_0_match;
        let haplo_b = allele_1_match;
        let m = Match { haplo_a, haplo_b, end: k };
        proof {
            crate::model::lemma_matches_view_push(
                matches@,
                m,
                st.matches,
                RichMatch { members_a: st.acc0, members_b: st.acc1, end: k },
            );
        }
        matches.push(m);
    }
    proof {
        assert(seq_matches_view(matches@) == matches_of(crate::model::flush(st, k).matches));
        crate::model::lemma_step_state_core(a, d, col, k, min_size, n as int);
    }

    let mut next_pp_array = allele_0_pos;
    next_pp_array.append(&mut allele_1_pos);
    let mut next_div_array = allele_0_div;
    next_div_array.append(&mut allele_1_div);
    Ok((matches, next_pp_array, next_div_array))
}

} // verus!
