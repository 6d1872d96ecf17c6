use witch::matcher::Ranked;
use witch::path_scan::Candidate;
use witch::picker::{labels, take_choice};

fn sample() -> Vec<Ranked> {
    vec![
        Ranked {
            candidate: Candidate { name: "grep".into(), path: "/usr/bin/grep".into() },
            score: 0.93f64.to_bits(),
        },
        Ranked {
            candidate: Candidate { name: "grip".into(), path: "/usr/local/bin/grip".into() },
            score: 0.87f64.to_bits(),
        },
    ]
}

#[test]
fn labels_are_the_candidate_paths() {
    assert_eq!(labels(&sample()), vec!["/usr/bin/grep", "/usr/local/bin/grip"]);
}

#[test]
fn choice_selects_the_entry() {
    let r = take_choice(sample(), Some(1)).unwrap();
    assert_eq!(r.candidate.name, "grip");
    assert!(take_choice(sample(), Some(2)).is_none());
    assert!(take_choice(sample(), None).is_none());
}
