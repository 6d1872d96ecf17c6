use witch::cli::{
    after_exact, after_fuzzy, after_pick, display_home, exit_status, invoked_as_which, settings, Flags,
    Report, Settings,
};
use witch::exact::Match;
use witch::matcher::Ranked;
use witch::path_scan::Candidate;

fn flags() -> Flags {
    Flags {
        first: false,
        all: false,
        pick: false,
        quiet: false,
        silent: false,
        strict: false,
        skip_dot: false,
        skip_tilde: false,
        show_dot: false,
        show_tilde: false,
        tty_only: false,
    }
}

fn ranked(names: &[&str]) -> Vec<Ranked> {
    names
        .iter()
        .map(|n| Ranked {
            candidate: Candidate { name: n.to_string(), path: format!("/bin/{n}") },
            score: 0.9f64.to_bits(),
        })
        .collect()
}

fn lines(r: &Report) -> Vec<String> {
    match r {
        Report::Print(v) => v.clone(),
        _ => panic!("no lines"),
    }
}

fn on(f: Flags, tty: bool) -> Settings {
    settings(&f, tty, false)
}

#[test]
fn piped_output_is_single_unless_all() {
    assert!(on(flags(), false).single);
    assert!(!on(flags(), true).single);
    assert!(!on(Flags { all: true, ..flags() }, false).single);
    assert!(on(Flags { first: true, ..flags() }, true).single);
}

#[test]
fn tty_only_drops_display_switches_off_a_terminal() {
    let f = Flags { tty_only: true, show_dot: true, show_tilde: true, pick: true, ..flags() };
    let s = on(f, false);
    assert!(!s.show_dot && !s.show_tilde && !s.pick);
    let f = Flags { tty_only: true, show_dot: true, show_tilde: true, pick: true, ..flags() };
    let s = on(f, true);
    assert!(s.show_dot && s.show_tilde && s.pick);
}

#[test]
fn silent_is_quiet_and_which_name_is_strict() {
    assert!(on(Flags { silent: true, ..flags() }, true).quiet);
    assert!(settings(&flags(), true, true).strict);
    assert!(invoked_as_which("/usr/local/bin/which"));
    assert!(invoked_as_which("which"));
    assert!(!invoked_as_which("/usr/bin/witch"));
    assert!(!invoked_as_which("which/.."));
}

#[test]
fn exact_match_prints_single_path() {
    let m = vec![
        Match { path: "/a/grep".into(), dir: "/a".into() },
        Match { path: "/b/grep".into(), dir: "/b".into() },
    ];
    let o = after_exact(&m, &on(flags(), true), None, None).unwrap();
    assert!(o.found);
    assert_eq!(lines(&o.report), vec!["/a/grep"]);
    let o = after_exact(&m, &on(Flags { all: true, ..flags() }, false), None, None).unwrap();
    assert_eq!(lines(&o.report), vec!["/a/grep", "/b/grep"]);
}

#[test]
fn exact_miss_goes_fuzzy_unless_strict() {
    assert!(after_exact(&[], &on(flags(), true), None, None).is_none());
    let o = after_exact(&[], &on(Flags { strict: true, ..flags() }, true), None, None).unwrap();
    assert!(!o.found);
    assert!(matches!(o.report, Report::Silent));
}

#[test]
fn fuzzy_outcomes() {
    let r = ranked(&["grep", "grip"]);
    let o = after_fuzzy(&r, &on(flags(), false));
    assert_eq!(lines(&o.report), vec!["/bin/grep"]);
    let o = after_fuzzy(&r, &on(Flags { all: true, ..flags() }, false));
    assert_eq!(lines(&o.report), vec!["/bin/grep", "/bin/grip"]);
    let o = after_fuzzy(&r, &on(Flags { pick: true, ..flags() }, true));
    assert!(matches!(o.report, Report::Pick));
    let o = after_fuzzy(&ranked(&["grep"]), &on(Flags { pick: true, ..flags() }, true));
    assert_eq!(lines(&o.report), vec!["/bin/grep"]);
    let o = after_fuzzy(&r, &on(Flags { quiet: true, ..flags() }, true));
    assert!(o.found && matches!(o.report, Report::Silent));
}

#[test]
fn no_match_reports_and_fails() {
    let o = after_fuzzy(&[], &on(flags(), true));
    assert!(!o.found && matches!(o.report, Report::NoMatch));
    let o = after_fuzzy(&[], &on(Flags { quiet: true, ..flags() }, true));
    assert!(!o.found && matches!(o.report, Report::Silent));
    assert_eq!(exit_status(false), 1);
    assert_eq!(exit_status(true), 0);
}

#[test]
fn pick_outcomes() {
    let o = after_pick(ranked(&["grep"]).pop());
    assert!(o.found);
    assert_eq!(lines(&o.report), vec!["/bin/grep"]);
    let o = after_pick(None);
    assert!(!o.found && matches!(o.report, Report::Silent));
}

#[test]
fn root_gets_no_tilde_home() {
    assert_eq!(display_home(Some("/root"), true), None);
    assert_eq!(display_home(Some("/home/u"), false), Some("/home/u"));
}
