use pbwt::find_all_long_matches;
use pbwt::Match;

/// The 8-haplotype, 6-site matrix used across the scenarios, site-major.
fn example_matrix() -> Vec<u8> {
    vec![
        0, 1, 1, 0, 0, 1, 1, 0, 1, 1, 1, 1, 0, 0, 1, 1, 0, 0, 1, 1, 0, 0, 0, 0, 1, 0, 1, 1, 0, 0,
        0, 1, 0, 0, 1, 1, 0, 1, 0, 1, 1, 1, 1, 0, 0, 0, 1, 0,
    ]
}

/// A second matrix: 4 haplotypes over 7 sites, site-major.
fn small_matrix() -> Vec<u8> {
    vec![
        1, 1, 0, 1, 0, 1, 1, 1, 1, 1, 1, 1, 0, 1, 1, 0, 1, 1, 0, 0, 1, 0, 1, 0, 0, 1, 1, 1,
    ]
}

/// All unordered haplotype pairs that appear together in some emitted match.
fn implied_pairs(matches: &[Match]) -> Vec<(usize, usize)> {
    let mut pairs: Vec<(usize, usize)> = Vec::new();
    for m in matches {
        let mut members: Vec<usize> = Vec::new();
        members.extend_from_slice(&m.haplo_a);
        members.extend_from_slice(&m.haplo_b);
        for i in 0..members.len() {
            for j in (i + 1)..members.len() {
                let x = members[i].min(members[j]);
                let y = members[i].max(members[j]);
                pairs.push((x, y));
            }
        }
    }
    pairs.sort();
    pairs.dedup();
    pairs
}

/// All unordered pairs that agree on some window of `min_size` sites ending
/// at a processed site, found by brute-force pairwise comparison.
fn brute_force_pairs(
    haplotypes: &[u8],
    n_haplo: usize,
    k_site: usize,
    min_size: usize,
) -> Vec<(usize, usize)> {
    let mut pairs: Vec<(usize, usize)> = Vec::new();
    for x in 0..n_haplo {
        for y in (x + 1)..n_haplo {
            let mut found = false;
            for k in min_size..k_site.saturating_sub(1) {
                let mut agree = true;
                for s in (k - min_size)..k {
                    if haplotypes[s * n_haplo + x] != haplotypes[s * n_haplo + y] {
                        agree = false;
                        break;
                    }
                }
                if agree {
                    found = true;
                    break;
                }
            }
            if found {
                pairs.push((x, y));
            }
        }
    }
    pairs
}

#[test]
fn prefix_array_is_a_permutation() {
    let haplotypes = example_matrix();
    for k_site in 1..=6usize {
        let (_m, pp, _d) = find_all_long_matches(&haplotypes, 8, k_site, 3).unwrap();
        let mut seen: Vec<bool> = vec![false; 8];
        assert_eq!(pp.len(), 8);
        for &v in &pp {
            assert!(v < 8);
            assert!(!seen[v]);
            seen[v] = true;
        }
    }
}

#[test]
fn allele_groups_cover_all_haplotypes() {
    // Every emitted match groups at most n_haplo members, and the arrays
    // keep their length through every transition.
    let haplotypes = small_matrix();
    for min_size in 1..=7usize {
        let (matches, pp, div) = find_all_long_matches(&haplotypes, 4, 7, min_size).unwrap();
        assert_eq!(pp.len(), 4);
        assert_eq!(div.len(), 4);
        for m in &matches {
            assert!(m.haplo_a.len() + m.haplo_b.len() <= 4);
            assert!(m.haplo_a.len() + m.haplo_b.len() >= 1);
        }
    }
}

#[test]
fn sweep_is_deterministic() {
    let haplotypes = example_matrix();
    let first = find_all_long_matches(&haplotypes, 8, 6, 3).unwrap();
    let second = find_all_long_matches(&haplotypes, 8, 6, 3).unwrap();
    assert_eq!(first.0, second.0);
    assert_eq!(first.1, second.1);
    assert_eq!(first.2, second.2);
}

#[test]
fn emitted_members_carry_long_runs() {
    // Spot-check of the emission rule: every member of a match, except
    // possibly the first of each side, shares at least min_size sites with
    // its predecessor in prefix order; all pairs within one match therefore
    // agree on the closing window.  Checked here through the implied pairs.
    let haplotypes = example_matrix();
    let min_size: usize = 3;
    let (matches, _pp, _d) = find_all_long_matches(&haplotypes, 8, 6, min_size).unwrap();
    for (x, y) in implied_pairs(&matches) {
        let mut agree_somewhere = false;
        for k in min_size..=4usize {
            let agree = ((k - min_size)..k)
                .all(|s| haplotypes[s * 8 + x] == haplotypes[s * 8 + y]);
            if agree {
                agree_somewhere = true;
            }
        }
        assert!(agree_somewhere, "pair ({x}, {y}) never agrees on a window");
    }
}

#[test]
fn min_size_beyond_sites_groups_nobody() {
    // A minimum length larger than the number of sites can never be met:
    // every emitted record holds a single haplotype, so no pair is implied.
    let haplotypes = example_matrix();
    let (matches, _pp, _d) = find_all_long_matches(&haplotypes, 8, 6, 7).unwrap();
    for m in &matches {
        assert_eq!(m.haplo_a.len() + m.haplo_b.len(), 1);
    }
    assert_eq!(implied_pairs(&matches), Vec::<(usize, usize)>::new());
}

#[test]
fn min_size_one_matches_every_shared_site() {
    // With min_size == 1 every maximal identical run of length >= 1 is
    // reported: the implied pairs are exactly the pairs agreeing on some
    // single processed site.
    let haplotypes = example_matrix();
    let (matches, _pp, _d) = find_all_long_matches(&haplotypes, 8, 6, 1).unwrap();
    assert_eq!(
        implied_pairs(&matches),
        brute_force_pairs(&haplotypes, 8, 6, 1),
    );
}

#[test]
fn cross_check_pairs_against_brute_force() {
    let eight = example_matrix();
    let four = small_matrix();
    for min_size in 1..=6usize {
        let (matches, _pp, _d) = find_all_long_matches(&eight, 8, 6, min_size).unwrap();
        assert_eq!(
            implied_pairs(&matches),
            brute_force_pairs(&eight, 8, 6, min_size),
            "eight-haplotype matrix, min_size {min_size}"
        );
    }
    for min_size in 1..=7usize {
        let (matches, _pp, _d) = find_all_long_matches(&four, 4, 7, min_size).unwrap();
        assert_eq!(
            implied_pairs(&matches),
            brute_force_pairs(&four, 4, 7, min_size),
            "four-haplotype matrix, min_size {min_size}"
        );
    }
}
