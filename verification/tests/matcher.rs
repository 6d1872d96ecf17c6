use witch::matcher::{apply_cliff, rank, rank_scores, sort_ranked, Ranked, MAX_RESULTS, PERFECT_SCORE, SCORE_FLOOR};
use witch::path_scan::Candidate;

fn cands(names: &[&str]) -> Vec<Candidate> {
    names
        .iter()
        .map(|n| Candidate { name: n.to_string(), path: format!("/bin/{n}") })
        .collect()
}

/// Synthetic Ranked list with the given scores, names c0, c1, ...
fn synthetic(scores: &[f64]) -> Vec<Ranked> {
    scores
        .iter()
        .enumerate()
        .map(|(i, s)| Ranked {
            candidate: Candidate { name: format!("c{i}"), path: format!("/bin/c{i}") },
            score: s.to_bits(),
        })
        .collect()
}

fn names(r: &[Ranked]) -> Vec<&str> {
    r.iter().map(|x| x.candidate.name.as_str()).collect()
}

#[test]
fn exact_match_returns_only_that_candidate() {
    let c = cands(&["grep", "grepx", "rg"]);
    let got = rank("grep", &c);
    assert_eq!(got.len(), 1);
    assert_eq!(got[0].candidate.name, "grep");
    assert_eq!(f64::from_bits(got[0].score), 1.0);
}

#[test]
fn transposed_typo_ranks_intended_command_first() {
    let c = cands(&["grep", "cat", "ls", "git"]);
    let got = rank("grpe", &c);
    assert!(!got.is_empty());
    assert_eq!(got[0].candidate.name, "grep");
}

#[test]
fn unrelated_names_fall_below_floor() {
    let c = cands(&["ls", "cat"]);
    let got = rank("kubernetes", &c);
    assert!(got.is_empty());
}

#[test]
fn matching_is_case_insensitive() {
    let c = cands(&["grep"]);
    let got = rank("GERP", &c);
    assert_eq!(got.len(), 1);
    assert_eq!(got[0].candidate.name, "grep");
}

#[test]
fn equal_scores_tie_break_alphabetically() {
    let c = cands(&["grip", "grep"]);
    let got = rank("grap", &c);
    assert_eq!(got.len(), 2);
    assert_eq!(got[0].candidate.name, "grep");
    assert_eq!(got[1].candidate.name, "grip");
}

#[test]
fn cliff_stops_at_sharp_drop_between_neighbors() {
    // 0.86 is within 0.10 of the top (0.95) but drops 0.07 from 0.93 — cut.
    let got = apply_cliff(synthetic(&[0.95, 0.93, 0.86]));
    assert_eq!(got.len(), 2);
}

#[test]
fn band_excludes_results_far_from_top_score() {
    // 0.84 is 0.11 below the top score — outside TOP_BAND — even though
    // each neighbor drop is <= 0.05.
    let got = apply_cliff(synthetic(&[0.95, 0.91, 0.87, 0.84]));
    assert_eq!(got.len(), 3);
}

#[test]
fn hard_cap_limits_results() {
    let scores = vec![0.9; 15];
    let got = apply_cliff(synthetic(&scores));
    assert_eq!(got.len(), MAX_RESULTS);
}

#[test]
fn constants_are_the_bit_patterns_of_their_values() {
    assert_eq!(f64::from_bits(SCORE_FLOOR), 0.8);
    assert_eq!(f64::from_bits(PERFECT_SCORE), 1.0);
}

#[test]
fn cliff_matches_float_arithmetic_at_the_edges() {
    // 0.95 - 0.85 is just under 0.10 in f64: kept; 0.90 - 0.85 is just
    // over 0.05 in f64: cut. The float comparisons give the same answers.
    assert!(!(0.95f64 - 0.85f64 > 0.10));
    assert!(0.90f64 - 0.85f64 > 0.05);
    let got = apply_cliff(synthetic(&[0.95, 0.90, 0.85]));
    assert_eq!(got.len(), 2);
    let got = apply_cliff(synthetic(&[0.95, 0.91, 0.87, 0.85]));
    assert_eq!(got.len(), 4);
    assert!(!(0.95f64 - 0.85f64 > 0.10));
}

#[test]
fn cliff_keeps_everything_close() {
    let got = apply_cliff(synthetic(&[0.9, 0.88, 0.86]));
    assert_eq!(names(&got), vec!["c0", "c1", "c2"]);
    let got = apply_cliff(Vec::new());
    assert!(got.is_empty());
}

#[test]
fn rank_scores_filters_sorts_and_cuts() {
    let c = cands(&["b", "a", "low", "c"]);
    let s: Vec<u64> = [0.85f64, 0.85, 0.79, 0.87].iter().map(|x| x.to_bits()).collect();
    let got = rank_scores(&c, &s);
    assert_eq!(names(&got), vec!["c", "a", "b"]);
    assert_eq!(f64::from_bits(got[0].score), 0.87);
}

#[test]
fn floor_score_itself_is_kept() {
    let c = cands(&["x"]);
    let got = rank_scores(&c, &[0.8f64.to_bits()]);
    assert_eq!(got.len(), 1);
    let got = rank_scores(&c, &[0.7999999f64.to_bits()]);
    assert!(got.is_empty());
}

#[test]
fn exact_match_picks_the_first_of_equal_names() {
    let c = vec![
        Candidate { name: "ls".to_string(), path: "/a/ls".to_string() },
        Candidate { name: "ls".to_string(), path: "/b/ls".to_string() },
    ];
    let got = rank("ls", &c);
    assert_eq!(got.len(), 1);
    assert_eq!(got[0].candidate.path, "/a/ls");
}

#[test]
fn upper_case_query_does_not_match_exactly() {
    // "LS" is not an exact name match; it is fuzzy-matched case-insensitively.
    let c = cands(&["ls"]);
    let got = rank("LS", &c);
    assert_eq!(got.len(), 1);
    assert_eq!(got[0].candidate.name, "ls");
    assert_eq!(f64::from_bits(got[0].score), 1.0);
}

#[test]
fn sort_is_stable_for_equal_keys() {
    let mut v = synthetic(&[0.8, 0.9, 0.8]);
    v[2].candidate.name = "c0".to_string();
    v[2].candidate.path = "/other/c0".to_string();
    let got = sort_ranked(v);
    assert_eq!(got[0].candidate.name, "c1");
    assert_eq!(got[1].candidate.path, "/bin/c0");
    assert_eq!(got[2].candidate.path, "/other/c0");
}

/// The cut as plain `f64` arithmetic computes it.
fn float_cut(scores: &[f64]) -> usize {
    let mut n = 0;
    for (k, s) in scores.iter().enumerate() {
        if n >= 10 {
            break;
        }
        if k > 0 && (scores[0] - s > 0.10 || scores[k - 1] - s > 0.05) {
            break;
        }
        n += 1;
    }
    n
}

#[test]
fn cliff_agrees_with_float_arithmetic_on_a_grid() {
    let mut checked = 0;
    let tops = [1.0f64, 0.99, 0.95, 0.9, 0.85, 0.8, 0.75];
    let gaps = [0.0f64, 0.01, 0.02, 0.03, 0.04, 0.049, 0.05, 0.051, 0.06, 0.07, 0.1];
    for &top in &tops {
        for &g1 in &gaps {
            for &g2 in &gaps {
                for &g3 in &gaps {
                    let a = top;
                    let b = a - g1;
                    let c = b - g2;
                    let d = c - g3;
                    let scores: Vec<f64> = vec![a, b, c, d].into_iter().filter(|x| *x >= 0.5).collect();
                    let got = apply_cliff(synthetic(&scores));
                    assert_eq!(got.len(), float_cut(&scores), "{scores:?}");
                    checked += 1;
                }
            }
        }
    }
    assert!(checked > 1000);
}

#[test]
fn queries_differing_in_case_rank_alike() {
    let c = cands(&["python3", "python", "pydoc", "perl"]);
    let a = rank("PYHTON", &c);
    let b = rank("pyhton", &c);
    assert!(!a.is_empty());
    assert_eq!(a, b);
    assert_eq!(a[0].candidate.name, "python");
}

#[test]
fn ranking_is_sorted_within_band_and_capped() {
    let names: Vec<String> = (0..14).map(|i| format!("grep{i:02}")).collect();
    let refs: Vec<&str> = names.iter().map(|s| s.as_str()).collect();
    let c = cands(&refs);
    let got = rank("grep0", &c);
    assert!(got.len() <= MAX_RESULTS);
    for w in got.windows(2) {
        let (a, b) = (f64::from_bits(w[0].score), f64::from_bits(w[1].score));
        assert!(a > b || (a == b && w[0].candidate.name < w[1].candidate.name));
        assert!(a - b <= 0.05);
    }
    let top = f64::from_bits(got[0].score);
    for r in &got {
        assert!(top - f64::from_bits(r.score) <= 0.10);
        assert!(f64::from_bits(r.score) >= 0.8);
    }
    assert_eq!(rank("grep0", &c), got);
}
