//! The decisions of the command: which switches are in force, and what each
//! query's outcome prints. Parsing the arguments, probing files, reading
//! directories, showing the picker and printing are the caller's work.
use vstd::prelude::*;
use crate::exact::{Match, MatchView, display_path, display_text, opt_view};
use crate::matcher::Ranked;
use crate::path::{file_name, file_name_is};

verus! {

/// The command-line switches as given.
pub struct Flags {
    /// `-1`: print only the best match.
    pub first: bool,
    /// `-a`: print all candidates even when stdout is not a terminal.
    pub all: bool,
    /// `-i`: pick interactively among the candidates.
    pub pick: bool,
    /// `-q`: no output, exit status only.
    pub quiet: bool,
    /// `-s`: the same as `-q`.
    pub silent: bool,
    /// `--strict`: no fuzzy matching.
    pub strict: bool,
    /// `--skip-dot`: skip `PATH` entries that start with `.`.
    pub skip_dot: bool,
    /// `--skip-tilde`: skip `PATH` entries that start with `~` or lie under `HOME`.
    pub skip_tilde: bool,
    /// `--show-dot`: print `./prog` for dot-relative `PATH` entries.
    pub show_dot: bool,
    /// `--show-tilde`: print `~/...` for matches under `HOME`.
    pub show_tilde: bool,
    /// `--tty-only`: honour the display switches only on a terminal.
    pub tty_only: bool,
}

/// The switches in force for every query.
pub struct Settings {
    pub all: bool,
    pub quiet: bool,
    /// Print only the best fuzzy match.
    pub single: bool,
    pub pick: bool,
    pub strict: bool,
    pub skip_dot: bool,
    pub skip_tilde: bool,
    pub show_dot: bool,
    pub show_tilde: bool,
}

/// Whether the display switches apply: always, unless `--tty-only` is
/// given and stdout is not a terminal.
pub open spec fn display_active(flags: Flags, stdout_is_tty: bool) -> bool {
    !(flags.tty_only && !stdout_is_tty)
}

/// The settings that the switches give, for a stdout that is or is not a
/// terminal, and a program that was or was not invoked as `which`.
pub open spec fn settings_spec(flags: Flags, stdout_is_tty: bool, as_which: bool) -> Settings {
    Settings {
        all: flags.all,
        quiet: flags.quiet || flags.silent,
        single: flags.first || (!flags.all && !stdout_is_tty),
        pick: flags.pick && display_active(flags, stdout_is_tty),
        strict: flags.strict || as_which,
        skip_dot: flags.skip_dot,
        skip_tilde: flags.skip_tilde,
        show_dot: flags.show_dot && display_active(flags, stdout_is_tty),
        show_tilde: flags.show_tilde && display_active(flags, stdout_is_tty),
    }
}

/// The settings in force. Strict, `which`-like behaviour is on with
/// `--strict` or when the program runs under the name `which`.
pub fn settings(flags: &Flags, stdout_is_tty: bool, as_which: bool) -> (s: Settings)
    ensures
        s == settings_spec(*flags, stdout_is_tty, as_which),
{
    let active = !(flags.tty_only && !stdout_is_tty);
    Settings {
        all: flags.all,
        quiet: flags.quiet || flags.silent,
        single: flags.first || (!flags.all && !stdout_is_tty),
        pick: flags.pick && active,
        strict: flags.strict || as_which,
        skip_dot: flags.skip_dot,
        skip_tilde: flags.skip_tilde,
        show_dot: flags.show_dot && active,
        show_tilde: flags.show_tilde && active,
    }
}

/// True when the file name of `argv0` is exactly `which` (e.g. via a
/// symlink), so that a `which`-named program behaves like `which`.
pub fn invoked_as_which(argv0: &str) -> (r: bool)
    ensures
        r == (file_name(argv0@) == Some(seq!['w', 'h', 'i', 'c', 'h'])),
{
    let which = "which";
    proof {
        reveal_strlit("which");
        assert(which@ =~= seq!['w', 'h', 'i', 'c', 'h']);
    }
    file_name_is(argv0, which)
}

/// The home directory used for `~` in output: none when running as root,
/// where `--show-tilde` is ignored.
pub fn display_home(home: Option<&str>, is_root: bool) -> (r: Option<&str>)
    ensures
        r == (if is_root { None } else { home }),
{
    if is_root {
        None
    } else {
        home
    }
}

/// What a query's outcome prints.
pub enum Report {
    /// These lines, on stdout.
    Print(Vec<String>),
    /// A "no match" message, on stderr.
    NoMatch,
    /// Nothing.
    Silent,
    /// Show the picker over the ranked candidates.
    Pick,
}

/// A query's outcome: what it prints, and whether it found something.
pub struct Outcome {
    pub report: Report,
    pub found: bool,
}

/// The report prints exactly the lines `lines`.
pub open spec fn prints(report: Report, lines: Seq<Seq<char>>) -> bool {
    report matches Report::Print(v) && v@.len() == lines.len() && forall|i: int|
        0 <= i < lines.len() ==> (#[trigger] v@[i])@ == lines[i]
}

/// The lines printed for exact matches: each match as displayed, all of
/// them with `all`, else the first.
pub open spec fn exact_lines(
    matches: Seq<MatchView>,
    s: Settings,
    home: Option<Seq<char>>,
    cwd: Option<Seq<char>>,
) -> Seq<Seq<char>> {
    let shown = if s.all || matches.len() <= 1 { matches } else { matches.take(1) };
    shown.map_values(|m: MatchView| display_text(m, s.show_dot, s.show_tilde, home, cwd))
}

/// The outcome of the exact lookup, or `None` when the query goes on to
/// fuzzy matching: there was no exact match and strict mode is off. An
/// exact match is printed (unless quiet) and counts as found; with no
/// match in strict mode the query fails silently.
pub fn after_exact(matches: &[Match], s: &Settings, home: Option<&str>, cwd: Option<&str>) -> (r: Option<Outcome>)
    ensures
        matches@.len() > 0 ==> r is Some && r.unwrap().found && if s.quiet {
            r.unwrap().report is Silent
        } else {
            prints(
                r.unwrap().report,
                exact_lines(matches@.map_values(|m: Match| m@), *s, opt_view(home), opt_view(cwd)),
            )
        },
        matches@.len() == 0 && s.strict ==> r is Some && !r.unwrap().found && r.unwrap().report is Silent,
        matches@.len() == 0 && !s.strict ==> r is None,
{
    if matches.len() == 0 {
        if s.strict {
            return Some(Outcome { report: Report::Silent, found: false });
        }
        return None;
    }
    if s.quiet {
        return Some(Outcome { report: Report::Silent, found: true });
    }
    let count = if s.all { matches.len() } else { 1 };
    let ghost mv = matches@.map_values(|m: Match| m@);
    let ghost want = exact_lines(mv, *s, opt_view(home), opt_view(cwd));
    proof {
        assert(want.len() == count);
    }
    let mut lines: Vec<String> = Vec::new();
    let mut i: usize = 0;
    while i < count
        invariant
            count <= matches@.len(),
            i <= count,
            want.len() == count,
            mv == matches@.map_values(|m: Match| m@),
            want == exact_lines(mv, *s, opt_view(home), opt_view(cwd)),
            lines@.len() == i,
            forall|a: int| 0 <= a < i ==> (#[trigger] lines@[a])@ == want[a],
        decreases count - i,
    {
        let line = display_path(&matches[i], s.show_dot, s.show_tilde, home, cwd);
        proof {
            assert(mv[i as int] == matches@[i as int]@);
        }
        lines.push(line);
        i = i + 1;
    }
    Some(Outcome { report: Report::Print(lines), found: true })
}

/// The outcome of fuzzy matching. No candidate: a "no match" report
/// (nothing when quiet), not found. Otherwise found, and: nothing when
/// quiet; the picker with `pick` and two or more candidates; the best path
/// alone in single mode; else every path, best first.
pub fn after_fuzzy(ranked: &[Ranked], s: &Settings) -> (r: Outcome)
    ensures
        r.found == (ranked@.len() > 0),
        ranked@.len() == 0 ==> if s.quiet { r.report is Silent } else { r.report is NoMatch },
        ranked@.len() > 0 && s.quiet ==> r.report is Silent,
        ranked@.len() > 0 && !s.quiet && s.pick && ranked@.len() > 1 ==> r.report is Pick,
        ranked@.len() > 0 && !s.quiet && !(s.pick && ranked@.len() > 1) && s.single ==> prints(
            r.report,
            seq![ranked@[0].candidate.path@],
        ),
        ranked@.len() > 0 && !s.quiet && !(s.pick && ranked@.len() > 1) && !s.single ==> prints(
            r.report,
            ranked@.map_values(|x: Ranked| x.candidate.path@),
        ),
{
    if ranked.len() == 0 {
        let report = if s.quiet { Report::Silent } else { Report::NoMatch };
        return Outcome { report, found: false };
    }
    if s.quiet {
        return Outcome { report: Report::Silent, found: true };
    }
    if s.pick && ranked.len() > 1 {
        return Outcome { report: Report::Pick, found: true };
    }
    let count = if s.single { 1 } else { ranked.len() };
    let mut lines: Vec<String> = Vec::new();
    let mut i: usize = 0;
    while i < count
        invariant
            count <= ranked@.len(),
            i <= count,
            lines@.len() == i,
            forall|a: int| 0 <= a < i ==> (#[trigger] lines@[a])@ == ranked@[a].candidate.path@,
        decreases count - i,
    {
        lines.push(ranked[i].candidate.path.clone());
        i = i + 1;
    }
    Outcome { report: Report::Print(lines), found: true }
}

/// The outcome of the picker: the chosen path, found; or, when it was
/// cancelled or could not be shown, nothing and not found.
pub fn after_pick(choice: Option<Ranked>) -> (r: Outcome)
    ensures
        match choice {
            Some(c) => r.found && prints(r.report, seq![c.candidate.path@]),
            None => !r.found && r.report is Silent,
        },
{
    match choice {
        Some(c) => {
            let mut lines: Vec<String> = Vec::new();
            lines.push(c.candidate.path);
            Outcome { report: Report::Print(lines), found: true }
        }
        None => Outcome { report: Report::Silent, found: false },
    }
}

/// The exit status: 0 when every query found something, else 1.
pub fn exit_status(all_found: bool) -> (code: u8)
    ensures
        code == (if all_found { 0u8 } else { 1u8 }),
{
    if all_found { 0 } else { 1 }
}


/// When stdout is not a terminal (a pipe, command substitution) and `-a`
/// is not given, only the best fuzzy match is printed.
pub proof fn lemma_piped_output_is_single(flags: Flags, as_which: bool)
    requires
        !flags.all,
    ensures
        settings_spec(flags, false, as_which).single,
{
}

/// Without `-a`, an exact lookup prints at most one line.
pub proof fn lemma_exact_prints_at_most_one(
    matches: Seq<MatchView>,
    s: Settings,
    home: Option<Seq<char>>,
    cwd: Option<Seq<char>>,
)
    requires
        !s.all,
    ensures
        exact_lines(matches, s, home, cwd).len() <= 1,
        matches.len() > 0 ==> exact_lines(matches, s, home, cwd).len() == 1,
{
}


/// What each setting is, in terms of the switches: `-a`, the skip switches
/// and strictness are as given (strictness also under the name `which`),
/// whatever the terminal; `-s` is `-q`; only the best match is printed with
/// `-1`, or off a terminal without `-a`; the display switches and the picker
/// are as given on a terminal or without `--tty-only`, and off otherwise.
pub proof fn lemma_settings_from_switches(flags: Flags, stdout_is_tty: bool, as_which: bool)
    ensures
        ({
            let s = settings_spec(flags, stdout_is_tty, as_which);
            &&& s.all == flags.all
            &&& s.skip_dot == flags.skip_dot
            &&& s.skip_tilde == flags.skip_tilde
            &&& s.strict == (flags.strict || as_which)
            &&& s.quiet == (flags.quiet || flags.silent)
            &&& flags.first ==> s.single
            &&& !flags.first && flags.all ==> !s.single
            &&& !flags.first && stdout_is_tty ==> !s.single
            &&& !flags.all && !stdout_is_tty ==> s.single
            &&& (stdout_is_tty || !flags.tty_only) ==> s.show_dot == flags.show_dot && s.show_tilde
                == flags.show_tilde && s.pick == flags.pick
            &&& (!stdout_is_tty && flags.tty_only) ==> !s.show_dot && !s.show_tilde && !s.pick
        }),
{
}

/// Without `-a`, an exact lookup prints at most one line, on a terminal or
/// not.
pub proof fn lemma_exact_one_line_without_all(
    flags: Flags,
    stdout_is_tty: bool,
    as_which: bool,
    matches: Seq<MatchView>,
    home: Option<Seq<char>>,
    cwd: Option<Seq<char>>,
)
    requires
        !flags.all,
    ensures
        exact_lines(matches, settings_spec(flags, stdout_is_tty, as_which), home, cwd).len() <= 1,
{
}

/// The lines printed for exact hits are the hits in order, all of them with
/// `-a` and else the first, each displayed with the settings' `show_dot` and
/// `show_tilde` and the given home and working directories.
pub proof fn lemma_exact_lines_are_displayed_hits(
    matches: Seq<MatchView>,
    s: Settings,
    home: Option<Seq<char>>,
    cwd: Option<Seq<char>>,
)
    ensures
        exact_lines(matches, s, home, cwd).len() == if s.all || matches.len() <= 1 {
            matches.len()
        } else {
            1
        },
        forall|k: int|
            0 <= k < exact_lines(matches, s, home, cwd).len() ==> #[trigger] exact_lines(matches, s, home, cwd)[k]
                == display_text(matches[k], s.show_dot, s.show_tilde, home, cwd),
{
}

} // verus!
