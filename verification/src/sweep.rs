//! The full left-to-right sweep: initialize the positional prefix array and
//! divergence array, advance them once per site, and collect every emitted
//! long match.

use vstd::prelude::*;

use crate::model::column_at;
use crate::model::ident_seq;
use crate::model::matches_of;
use crate::model::seq_matches_view;
use crate::model::sweep_state_at;
use crate::model::valid_step_input;
use crate::model::valid_sweep_input;
use crate::model::zero_seq;
use crate::step::find_long_matches;
use crate::types::Match;
use crate::types::PbwtError;

verus! {

/// The initial pair of arrays: the identity permutation as the prefix array
/// and all-zero divergence (every pair shares the whole, still empty,
/// history).  A haplotype count of zero is rejected.
pub fn initialize(n_haplo: usize) -> (r: Result<(Vec<usize>, Vec<usize>), PbwtError>)
    ensures
        match r {
            Ok(out) => {
                &&& n_haplo >= 1
                &&& out.0@ == ident_seq(n_haplo as nat)
                &&& out.1@ == zero_seq(n_haplo as nat)
            },
            Err(e) => {
                &&& e == PbwtError::InvalidInput
                &&& n_haplo == 0
            },
        },
{
    if n_haplo == 0 {
        return Err(PbwtError::InvalidInput);
    }
    let mut pos_prefix_array: Vec<usize> = Vec::new();
    let mut div_array: Vec<usize> = Vec::new();
    let mut i: usize = 0;
    while i < n_haplo
        invariant
            i <= n_haplo,
            pos_prefix_array@ == ident_seq(i as nat),
            div_array@ == zero_seq(i as nat),
        decreases n_haplo - i,
    {
        pos_prefix_array.push(i);
        div_array.push(0);
        proof {
            assert(pos_prefix_array@ =~= ident_seq((i + 1) as nat));
            assert(div_array@ =~= zero_seq((i + 1) as nat));
        }
        i += 1;
    }
    Ok((pos_prefix_array, div_array))
}

/// Run the sweep over the first `k_site` sites of the flat site-major
/// matrix `haplotypes` (`k_site - 1` transitions), returning all matches of
/// length at least `min_size` in emission order together with the final
/// prefix array and divergence array.
///
/// Returns `Ok` exactly on the inputs [`valid_sweep_input`] admits, and
/// then returns exactly the matches and arrays of the model; every other
/// input is rejected with [`PbwtError::InvalidInput`] before any output is
/// produced.
pub fn find_all_long_matches(
    haplotypes: &Vec<u8>,
    n_haplo: usize,
    k_site: usize,
    min_size: usize,
) -> (r: Result<(Vec<Match>, Vec<usize>, Vec<usize>), PbwtError>)
    ensures
        match r {
            Ok(out) => {
                &&& valid_sweep_input(haplotypes@, n_haplo, k_site, min_size)
                &&& seq_matches_view(out.0@) == matches_of(
                    sweep_state_at(haplotypes@, n_haplo, min_size, k_site - 1).matches,
                )
                &&& out.1@ == sweep_state_at(haplotypes@, n_haplo, min_size, k_site - 1).prefix
                &&& out.2@ == sweep_state_at(haplotypes@, n_haplo, min_size, k_site - 1).div
                &&& crate::laws::is_permutation(out.1@, n_haplo as nat)
            },
            Err(e) => {
                &&& e == PbwtError::InvalidInput
                &&& !valid_sweep_input(haplotypes@, n_haplo, k_site, min_size)
            },
        },
{
    let len = haplotypes.len();
    if n_haplo == 0 || k_site == 0 || min_size == 0 {
        return Err(PbwtError::InvalidInput);
    }
    if len % n_haplo != 0 || k_site > len / n_haplo {
        return Err(PbwtError::InvalidInput);
    }
    let mut i: usize = 0;
    while i < len
        invariant
            i <= len,
            len == haplotypes@.len(),
            forall|j: int| 0 <= j < i ==> haplotypes@[j] <= 1,
        decreases len - i,
    {
        if haplotypes[i] > 1 {
            return Err(PbwtError::InvalidInput);
        }
        i += 1;
    }

    let ghost h: Seq<u8> = haplotypes@;
    let (init_pp, init_div) = match initialize(n_haplo) {
        Ok(out) => out,
        Err(e) => {
            assert(false);
            return Err(e);
        },
    };
    let mut pos_prefix_array = init_pp;
    let mut div_array = init_div;
    let mut all_matches: Vec<Match> = Vec::new();
    proof {
        assert(forall|j: int|
            0 <= j < n_haplo ==> (#[trigger] pos_prefix_array@[j] as int) < n_haplo);
    }

    let steps = k_site - 1;
    let mut k: usize = 0;
    while k < steps
        invariant
            k <= steps,
            steps == k_site - 1,
            h == haplotypes@,
            len == h.len(),
            valid_sweep_input(h, n_haplo, k_site, min_size),
            ({
                let sw = sweep_state_at(h, n_haplo, min_size, k as int);
                &&& pos_prefix_array@ == sw.prefix
                &&& div_array@ == sw.div
                &&& seq_matches_view(all_matches@) == matches_of(sw.matches)
            }),
            pos_prefix_array@.len() == n_haplo,
            div_array@.len() == n_haplo,
            forall|j: int|
                0 <= j < n_haplo ==> (#[trigger] pos_prefix_array@[j] as int) < n_haplo,
        decreases steps - k,
    {
        proof {
            vstd::arithmetic::div_mod::lemma_fundamental_div_mod(len as int, n_haplo as int);
            vstd::arithmetic::mul::lemma_mul_inequality(
                k as int + 1,
                len as int / n_haplo as int,
                n_haplo as int,
            );
            vstd::arithmetic::mul::lemma_mul_is_distributive_add(n_haplo as int, k as int, 1);
            assert((k as int + 1) * n_haplo == k as int * n_haplo + n_haplo);
        }
        let base = k * n_haplo;
        let mut column: Vec<u8> = Vec::new();
        let mut j: usize = 0;
        while j < n_haplo
            invariant
                j <= n_haplo,
                len == h.len(),
                h == haplotypes@,
                base + n_haplo <= len,
                column@ == h.subrange(base as int, base + j as int),
            decreases n_haplo - j,
        {
            column.push(haplotypes[base + j]);
            proof {
                assert(column@ =~= h.subrange(base as int, base + j + 1 as int));
            }
            j += 1;
        }
        proof {
            assert(column@ =~= column_at(h, n_haplo, k as int));
            assert forall|x: int| 0 <= x < column@.len() implies column@[x] <= 1 by {
                assert(column@[x] == h[base + x]);
            }
            assert(valid_step_input(pos_prefix_array@, div_array@, column@, min_size));
        }
        let ghost sw = sweep_state_at(h, n_haplo, min_size, k as int);
        let step_result = find_long_matches(&pos_prefix_array, &div_array, &column, k, min_size);
        let (mut step_ms, next_pp, next_div) = match step_result {
            Ok(out) => out,
            Err(e) => {
                assert(false);
                return Err(e);
            },
        };
        proof {
            crate::model::lemma_matches_view_concat(
                all_matches@,
                sw.matches,
                step_ms@,
                crate::model::step_matches(sw.prefix, sw.div, column@, k, min_size),
            );
            crate::model::lemma_step_wf(sw.prefix, sw.div, column@, k, n_haplo);
        }
        all_matches.append(&mut step_ms);
        pos_prefix_array = next_pp;
        div_array = next_div;
        k += 1;
        proof {
            let sw_next = sweep_state_at(h, n_haplo, min_size, k as int);
            assert(pos_prefix_array@ == sw_next.prefix);
            assert(div_array@ == sw_next.div);
            assert(seq_matches_view(all_matches@) == matches_of(sw_next.matches));
        }
    }
    proof {
        crate::laws::lemma_sweep_prefix_is_permutation(h, n_haplo, min_size, steps as int);
    }
    Ok((all_matches, pos_prefix_array, div_array))
}

} // verus!
