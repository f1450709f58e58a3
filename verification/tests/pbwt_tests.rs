use pbwt::find_all_long_matches;
use pbwt::find_long_matches;
use pbwt::initialize;
use pbwt::step;
use pbwt::Match;
use pbwt::PbwtError;

#[test]
fn test_pp_and_div_arrays() {
    let n_haplo: usize = 8;
    let n_sites: usize = 6;
    let haplotypes: Vec<u8> = vec![
        0, 1, 1, 0, 0, 1, 1, 0, 1, 1, 1, 1, 0, 0, 1, 1, 0, 0, 1, 1, 0, 0, 0, 0, 1, 0, 1, 1, 0, 0,
        0, 1, 0, 0, 1, 1, 0, 1, 0, 1, 1, 1, 1, 0, 0, 0, 1, 0,
    ];
    let expected_pp_1: Vec<usize> = (0..8).collect();
    let expected_div_1: Vec<usize> = vec![0; 8];
    let (_matches_1, pp_1, div_1) = find_all_long_matches(&haplotypes, n_haplo, 1, 3).unwrap();
    assert_eq!(&expected_pp_1, &pp_1);
    assert_eq!(&expected_div_1, &div_1);
    let expected_pp_6: Vec<usize> = vec![4, 1, 6, 0, 5, 7, 3, 2];
    let expected_div_6: Vec<usize> = vec![5, 2, 0, 4, 5, 4, 3, 1];
    let (_matches_6, pp_6, div_6) = find_all_long_matches(&haplotypes, n_haplo, n_sites, 3).unwrap();
    assert_eq!(&expected_pp_6, &pp_6);
    assert_eq!(&expected_div_6, &div_6);
}

#[test]
fn initialize_returns_identity_and_zeros() {
    let (pp, div) = initialize(5).unwrap();
    assert_eq!(pp, vec![0, 1, 2, 3, 4]);
    assert_eq!(div, vec![0, 0, 0, 0, 0]);
}

#[test]
fn initialize_rejects_zero_haplotypes() {
    assert_eq!(initialize(0), Err(PbwtError::InvalidInput));
}

#[test]
fn builder_step_partitions_stably() {
    // Alleles at the current site, indexed by haplotype: 1, 0, 1, 0.
    let pp: Vec<usize> = vec![0, 1, 2, 3];
    let div: Vec<usize> = vec![0, 0, 0, 0];
    let column: Vec<u8> = vec![1, 0, 1, 0];
    let (next_pp, next_div) = step(&pp, &div, &column, 0).unwrap();
    // Allele-0 haplotypes first, in their old relative order, then allele-1.
    assert_eq!(next_pp, vec![1, 3, 0, 2]);
    // First of each group carries the sentinel k + 1 = 1; later ones 0.
    assert_eq!(next_div, vec![1, 0, 1, 0]);
}

#[test]
fn builder_step_rejects_bad_inputs() {
    let pp: Vec<usize> = vec![0, 1];
    let div: Vec<usize> = vec![0, 0];
    // Length mismatch.
    assert_eq!(step(&pp, &div, &vec![0], 0), Err(PbwtError::InvalidInput));
    // Non-binary allele value.
    assert_eq!(step(&pp, &div, &vec![0, 2], 0), Err(PbwtError::InvalidInput));
    // Prefix entry out of range.
    let bad_pp: Vec<usize> = vec![0, 7];
    assert_eq!(step(&bad_pp, &div, &vec![0, 1], 0), Err(PbwtError::InvalidInput));
}

#[test]
fn single_homozygous_run_is_emitted() {
    // All three haplotypes identical: one final flush holds the whole group.
    let pp: Vec<usize> = vec![0, 1, 2];
    let div: Vec<usize> = vec![0, 0, 0];
    let column: Vec<u8> = vec![0, 0, 0];
    let (matches, next_pp, next_div) = find_long_matches(&pp, &div, &column, 2, 2).unwrap();
    assert_eq!(matches.len(), 1);
    assert_eq!(matches[0].haplo_a, vec![0, 1, 2]);
    assert_eq!(matches[0].haplo_b, Vec::<usize>::new());
    assert_eq!(matches[0].end, 2);
    assert_eq!(next_pp, vec![0, 1, 2]);
    assert_eq!(next_div, vec![3, 0, 0]);
}

#[test]
fn biallelic_split_is_emitted_on_both_sides() {
    // Two haplotypes agree on sites 0..2 and split on allele at site 2.
    let pp: Vec<usize> = vec![0, 1];
    let div: Vec<usize> = vec![0, 0];
    let column: Vec<u8> = vec![0, 1];
    let (matches, next_pp, next_div) = find_long_matches(&pp, &div, &column, 2, 2).unwrap();
    assert_eq!(matches.len(), 1);
    assert_eq!(matches[0].haplo_a, vec![0]);
    assert_eq!(matches[0].haplo_b, vec![1]);
    assert_eq!(matches[0].end, 2);
    assert_eq!(next_pp, vec![0, 1]);
    assert_eq!(next_div, vec![3, 3]);
}

#[test]
fn finder_rejects_bad_inputs() {
    let pp: Vec<usize> = vec![0, 1];
    let div: Vec<usize> = vec![0, 0];
    let column: Vec<u8> = vec![0, 1];
    // Zero minimum match length.
    assert_eq!(find_long_matches(&pp, &div, &column, 0, 0), Err(PbwtError::InvalidInput));
    // Divergence array of the wrong length.
    let short_div: Vec<usize> = vec![0];
    assert_eq!(find_long_matches(&pp, &short_div, &column, 0, 1), Err(PbwtError::InvalidInput));
    // Non-binary allele value.
    let bad_column: Vec<u8> = vec![0, 3];
    assert_eq!(find_long_matches(&pp, &div, &bad_column, 0, 1), Err(PbwtError::InvalidInput));
}

#[test]
fn sweep_rejects_bad_inputs() {
    let haplotypes: Vec<u8> = vec![0, 1, 1, 0];
    // Zero haplotype count.
    assert_eq!(find_all_long_matches(&haplotypes, 0, 1, 1), Err(PbwtError::InvalidInput));
    // Zero target site.
    assert_eq!(find_all_long_matches(&haplotypes, 2, 0, 1), Err(PbwtError::InvalidInput));
    // Zero minimum match length.
    assert_eq!(find_all_long_matches(&haplotypes, 2, 1, 0), Err(PbwtError::InvalidInput));
    // Matrix length not a multiple of the haplotype count.
    assert_eq!(find_all_long_matches(&haplotypes, 3, 1, 1), Err(PbwtError::InvalidInput));
    // Target site beyond the matrix.
    assert_eq!(find_all_long_matches(&haplotypes, 2, 3, 1), Err(PbwtError::InvalidInput));
    // Non-binary allele value.
    let bad: Vec<u8> = vec![0, 1, 2, 0];
    assert_eq!(find_all_long_matches(&bad, 2, 2, 1), Err(PbwtError::InvalidInput));
}

#[test]
fn sweep_accepts_prefix_of_sites() {
    // A target site below the number of sites runs only that many columns.
    let haplotypes: Vec<u8> = vec![0, 1, 1, 0, 0, 1];
    let (matches, pp, div) = find_all_long_matches(&haplotypes, 2, 2, 1).unwrap();
    assert_eq!(pp.len(), 2);
    assert_eq!(div.len(), 2);
    // One transition at site 0: the two haplotypes differ there.
    assert_eq!(pp, vec![0, 1]);
    assert_eq!(div, vec![1, 1]);
    assert!(matches.iter().all(|m| m.end == 0));
}

#[test]
fn builder_steps_compose_to_the_sweep() {
    // Running the builder's transition site by site from the initial arrays
    // produces the same final arrays as the full sweep.
    let n_haplo: usize = 4;
    let haplotypes: Vec<u8> = vec![
        1, 1, 0, 1, 0, 1, 1, 1, 1, 1, 1, 1, 0, 1, 1, 0, 1, 1, 0, 0, 1, 0, 1, 0, 0, 1, 1, 1,
    ];
    let (mut pp, mut div) = initialize(n_haplo).unwrap();
    for k in 0..6usize {
        let column: Vec<u8> = haplotypes[k * n_haplo..(k + 1) * n_haplo].to_vec();
        let (next_pp, next_div) = step(&pp, &div, &column, k).unwrap();
        pp = next_pp;
        div = next_div;
    }
    let (_matches, sweep_pp, sweep_div) = find_all_long_matches(&haplotypes, n_haplo, 7, 2).unwrap();
    assert_eq!(pp, sweep_pp);
    assert_eq!(div, sweep_div);
}

#[test]
fn match_clone_and_eq_behave_structurally() {
    let m = Match { haplo_a: vec![1, 2], haplo_b: vec![3], end: 4 };
    let c = m.clone();
    assert_eq!(m, c);
    assert_eq!(c.haplo_a, vec![1, 2]);
    assert_eq!(c.haplo_b, vec![3]);
    assert_eq!(c.end, 4);
}
