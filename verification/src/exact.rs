//! Exact lookup of a command name along `PATH`, the way `which` does it.
//!
//! Probing a file for its execute bits is the caller's work: a search is a
//! small state machine that says which path to probe next and takes the
//! answer back ([`ExactSearch`]); [`find_exact`] runs it over answers that
//! are already known.
use vstd::prelude::*;
use vstd::string::StringExecFns;
use crate::path::{joined, path_starts_with, starts_with, join_path, file_name, absolutized, join_all,
    path_components, components, absolute, join_components, lemma_chars_deep_view};
use crate::text::string_from_chars;
use vstd::string::StrSliceExecFns;

verus! {

/// An executable found by exact name.
#[derive(Debug, PartialEq, Eq)]
pub struct Match {
    /// The executable path as found: the `PATH` entry joined with the name.
    pub path: String,
    /// The `PATH` entry the match came from.
    pub dir: String,
}

/// A match seen as text.
pub struct MatchView {
    pub path: Seq<char>,
    pub dir: Seq<char>,
}

impl View for Match {
    type V = MatchView;

    open spec fn view(&self) -> MatchView {
        MatchView { path: self.path@, dir: self.dir@ }
    }
}

impl Clone for Match {
    fn clone(&self) -> (m: Self)
        ensures
            m@ == self@,
    {
        Match { path: self.path.clone(), dir: self.dir.clone() }
    }
}

/// An optional string seen as text.
pub open spec fn opt_view(o: Option<&str>) -> Option<Seq<char>> {
    match o {
        Some(s) => Some(s@),
        None => None,
    }
}

/// Whether the `PATH` entry `dir` is left out of a search. `skip_dot` drops
/// entries whose text starts with `.`; `skip_tilde` drops entries that start
/// with `~` and entries equal to or under `home`, component by component.
pub open spec fn skipped(
    dir: Seq<char>,
    skip_dot: bool,
    skip_tilde: bool,
    home: Option<Seq<char>>,
) -> bool {
    ||| skip_dot && dir.len() > 0 && dir[0] == '.'
    ||| skip_tilde && dir.len() > 0 && dir[0] == '~'
    ||| skip_tilde && (home matches Some(h) && path_starts_with(dir, h))
}

/// Should this `PATH` entry be skipped given the skip flags?
pub fn skip_dir(dir: &str, skip_dot: bool, skip_tilde: bool, home: Option<&str>) -> (r: bool)
    ensures
        r == skipped(dir@, skip_dot, skip_tilde, opt_view(home)),
{
    let first = if dir.unicode_len() > 0 {
        Some(dir.get_char(0))
    } else {
        None
    };
    if skip_dot && first == Some('.') {
        return true;
    }
    if skip_tilde {
        if first == Some('~') {
            return true;
        }
        if let Some(h) = home {
            if starts_with(dir, h) {
                return true;
            }
        }
    }
    false
}

/// The matches among the first `n` entries of `dirs`, given for each entry
/// whether the joined path is an executable file: every entry that is not
/// skipped and whose joined path is executable, in `PATH` order, repeats
/// included.
pub open spec fn exact_hits(
    dirs: Seq<Seq<char>>,
    name: Seq<char>,
    skip_dot: bool,
    skip_tilde: bool,
    home: Option<Seq<char>>,
    executable: Seq<bool>,
    n: int,
) -> Seq<MatchView>
    decreases n,
{
    if n <= 0 {
        Seq::empty()
    } else {
        let prev = exact_hits(dirs, name, skip_dot, skip_tilde, home, executable, n - 1);
        let d = dirs[n - 1];
        if !skipped(d, skip_dot, skip_tilde, home) && executable[n - 1] {
            prev.push(MatchView { path: joined(d, name), dir: d })
        } else {
            prev
        }
    }
}

/// The result of an exact search: all hits with `all`, else the first hit
/// only, if there is one.
pub open spec fn exact_matches(
    dirs: Seq<Seq<char>>,
    name: Seq<char>,
    all: bool,
    skip_dot: bool,
    skip_tilde: bool,
    home: Option<Seq<char>>,
    executable: Seq<bool>,
) -> Seq<MatchView> {
    let hits = exact_hits(dirs, name, skip_dot, skip_tilde, home, executable, dirs.len() as int);
    if all || hits.len() == 0 {
        hits
    } else {
        hits.take(1)
    }
}

/// Hits found among fewer entries open the hits found among more.
pub proof fn lemma_exact_hits_prefix(
    dirs: Seq<Seq<char>>,
    name: Seq<char>,
    skip_dot: bool,
    skip_tilde: bool,
    home: Option<Seq<char>>,
    executable: Seq<bool>,
    m: int,
    n: int,
)
    requires
        0 <= m <= n,
    ensures
        ({
            let a = exact_hits(dirs, name, skip_dot, skip_tilde, home, executable, m);
            let b = exact_hits(dirs, name, skip_dot, skip_tilde, home, executable, n);
            a.len() <= b.len() && b.take(a.len() as int) == a
        }),
    decreases n - m,
{
    let b = exact_hits(dirs, name, skip_dot, skip_tilde, home, executable, n);
    if m < n {
        lemma_exact_hits_prefix(dirs, name, skip_dot, skip_tilde, home, executable, m, n - 1);
        let a = exact_hits(dirs, name, skip_dot, skip_tilde, home, executable, m);
        let c = exact_hits(dirs, name, skip_dot, skip_tilde, home, executable, n - 1);
        assert(b.take(c.len() as int) =~= c);
        assert(b.take(a.len() as int) =~= c.take(a.len() as int));
    } else {
        assert(b.take(b.len() as int) =~= b);
    }
}

/// A search for an exact name along `PATH`, one entry at a time.
pub struct ExactSearch {
    /// The index of the `PATH` entry under consideration.
    pub next: usize,
    /// The matches so far.
    pub found: Vec<Match>,
    /// Whether the search has ended early, on its first match.
    pub finished: bool,
}

impl ExactSearch {
    /// A search that has looked at nothing yet.
    pub fn new() -> (s: ExactSearch)
        ensures
            s.next == 0,
            s.found@.len() == 0,
            !s.finished,
    {
        ExactSearch { next: 0, found: Vec::new(), finished: false }
    }

    /// Moves past the entries that are skipped, and returns the path to
    /// probe for the entry it stops at, or `None` when the search is over:
    /// it has finished, or no entry is left.
    pub fn advance(
        &mut self,
        dirs: &[String],
        name: &str,
        skip_dot: bool,
        skip_tilde: bool,
        home: Option<&str>,
    ) -> (probe: Option<String>)
        requires
            old(self).next <= dirs@.len(),
        ensures
            final(self).found == old(self).found,
            final(self).finished == old(self).finished,
            old(self).finished ==> final(self).next == old(self).next && probe is None,
            !old(self).finished ==> {
                &&& old(self).next <= final(self).next <= dirs@.len()
                &&& forall|i: int|
                    old(self).next <= i < final(self).next ==> #[trigger] skipped(
                        dirs@[i]@,
                        skip_dot,
                        skip_tilde,
                        opt_view(home),
                    )
                &&& match probe {
                    Some(p) => final(self).next < dirs@.len() && !skipped(
                        dirs@[final(self).next as int]@,
                        skip_dot,
                        skip_tilde,
                        opt_view(home),
                    ) && p@ == joined(dirs@[final(self).next as int]@, name@),
                    None => final(self).next == dirs@.len(),
                }
            },
    {
        if self.finished {
            return None;
        }
        while self.next < dirs.len()
            invariant
                !old(self).finished,
                old(self).next <= self.next <= dirs@.len(),
                self.found == old(self).found,
                self.finished == old(self).finished,
                forall|i: int|
                    old(self).next <= i < self.next ==> #[trigger] skipped(
                        dirs@[i]@,
                        skip_dot,
                        skip_tilde,
                        opt_view(home),
                    ),
            decreases dirs@.len() - self.next,
        {
            let dir = dirs[self.next].as_str();
            if !skip_dir(dir, skip_dot, skip_tilde, home) {
                return Some(join_path(dir, name));
            }
            self.next = self.next + 1;
        }
        None
    }

    /// Takes the answer for the entry the search stopped at: whether its
    /// joined path is an executable file. A match is recorded, and ends the
    /// search unless `all` is set; the search then moves to the next entry.
    pub fn answer(&mut self, dirs: &[String], name: &str, all: bool, executable: bool)
        requires
            old(self).next < dirs@.len(),
            !old(self).finished,
        ensures
            final(self).next == old(self).next + 1,
            executable ==> final(self).found@.map_values(|m: Match| m@)
                == old(self).found@.map_values(|m: Match| m@).push(
                MatchView {
                    path: joined(dirs@[old(self).next as int]@, name@),
                    dir: dirs@[old(self).next as int]@,
                },
            ),
            !executable ==> final(self).found == old(self).found,
            final(self).finished == (executable && !all),
    {
        let dir = dirs[self.next].as_str();
        if executable {
            let path = join_path(dir, name);
            let ghost before = self.found@.map_values(|m: Match| m@);
            self.found.push(Match { path, dir: String::from_str(dir) });
            assert(self.found@.map_values(|m: Match| m@) =~= before.push(
                MatchView { path: joined(dir@, name@), dir: dir@ },
            ));
            if !all {
                self.finished = true;
            }
        }
        self.next = self.next + 1;
    }
}

/// Walks `dirs` in `PATH` order looking for an executable named `name`,
/// where `executable[i]` says whether `name` joined onto `dirs[i]` is an
/// executable file. A directory repeated in `PATH` yields a repeated
/// match; without `all`, at most the first match is returned.
pub fn find_exact(
    dirs: &[String],
    name: &str,
    all: bool,
    skip_dot: bool,
    skip_tilde: bool,
    home: Option<&str>,
    executable: &[bool],
) -> (out: Vec<Match>)
    requires
        executable@.len() == dirs@.len(),
    ensures
        out@.map_values(|m: Match| m@) == exact_matches(
            dirs@.map_values(|d: String| d@),
            name@,
            all,
            skip_dot,
            skip_tilde,
            opt_view(home),
            executable@,
        ),
{
    let ghost ds = dirs@.map_values(|d: String| d@);
    let ghost h = opt_view(home);
    let mut search = ExactSearch::new();
    loop
        invariant
            executable@.len() == dirs@.len(),
            ds == dirs@.map_values(|d: String| d@),
            h == opt_view(home),
            search.next <= dirs@.len(),
            !search.finished ==> search.found@.map_values(|m: Match| m@) == exact_hits(
                ds, name@, skip_dot, skip_tilde, h, executable@, search.next as int),
            !search.finished && !all ==> search.found@.len() == 0,
            search.finished ==> !all && search.found@.len() == 1
                && search.found@.map_values(|m: Match| m@) == exact_hits(
                ds, name@, skip_dot, skip_tilde, h, executable@, search.next as int),
        ensures
            search.next <= dirs@.len(),
            !search.finished ==> search.next == dirs@.len(),
            !search.finished ==> search.found@.map_values(|m: Match| m@) == exact_hits(
                ds, name@, skip_dot, skip_tilde, h, executable@, search.next as int),
            !search.finished && !all ==> search.found@.len() == 0,
            search.finished ==> !all && search.found@.len() == 1
                && search.found@.map_values(|m: Match| m@) == exact_hits(
                ds, name@, skip_dot, skip_tilde, h, executable@, search.next as int),
        decreases dirs@.len() - search.next, if search.finished { 0int } else { 1int },
    {
        let ghost before = search.next;
        let probe = search.advance(dirs, name, skip_dot, skip_tilde, home);
        proof {
            if !search.finished {
                assert forall|k: int| before <= k < search.next implies
                    #[trigger] skipped(ds[k], skip_dot, skip_tilde, h) by {
                    assert(skipped(dirs@[k]@, skip_dot, skip_tilde, h));
                }
                lemma_hits_unchanged(ds, name@, skip_dot, skip_tilde, h, executable@, before as int, search.next as int);
            }
        }
        match probe {
            None => {
                break;
            }
            Some(_path) => {
                let e = executable[search.next];
                let ghost n0 = search.next as int;
                proof {
                    assert(ds[n0] == dirs@[n0]@);
                }
                search.answer(dirs, name, all, e);
                proof {
                    assert(exact_hits(ds, name@, skip_dot, skip_tilde, h, executable@, n0 + 1)
                        == if e {
                        exact_hits(ds, name@, skip_dot, skip_tilde, h, executable@, n0).push(
                            MatchView { path: joined(ds[n0], name@), dir: ds[n0] },
                        )
                    } else {
                        exact_hits(ds, name@, skip_dot, skip_tilde, h, executable@, n0)
                    });
                }
            }
        }
    }
    proof {
        if search.finished {
            lemma_exact_hits_prefix(ds, name@, skip_dot, skip_tilde, h, executable@, search.next as int, dirs@.len() as int);
        }
    }
    search.found
}

proof fn lemma_hits_unchanged(
    dirs: Seq<Seq<char>>,
    name: Seq<char>,
    skip_dot: bool,
    skip_tilde: bool,
    home: Option<Seq<char>>,
    executable: Seq<bool>,
    m: int,
    n: int,
)
    requires
        m <= n,
        0 <= m,
        forall|k: int| m <= k < n ==> #[trigger] skipped(dirs[k], skip_dot, skip_tilde, home),
    ensures
        exact_hits(dirs, name, skip_dot, skip_tilde, home, executable, n)
            == exact_hits(dirs, name, skip_dot, skip_tilde, home, executable, m),
    decreases n - m,
{
    if m < n {
        lemma_hits_unchanged(dirs, name, skip_dot, skip_tilde, home, executable, m, n - 1);
    }
}

} // verus!

verus! {

/// How a match is printed. A match from a `PATH` entry that starts with `.`
/// prints as `./` and its file name with `show_dot`, else as an absolute
/// path against the working directory, when it is known. With
/// `show_tilde`, a path equal to or under `home` prints with `~` in place
/// of `home`. Any other match prints as found.
pub open spec fn display_text(
    m: MatchView,
    show_dot: bool,
    show_tilde: bool,
    home: Option<Seq<char>>,
    cwd: Option<Seq<char>>,
) -> Seq<char> {
    with_tilde(dot_display(m, show_dot, cwd), show_tilde, home)
}

/// A match as printed before `~` is put in: see [`display_text`].
pub open spec fn dot_display(m: MatchView, show_dot: bool, cwd: Option<Seq<char>>) -> Seq<char> {
    if m.dir.len() > 0 && m.dir[0] == '.' {
        if show_dot && file_name(m.path) is Some {
            seq!['.', '/'] + file_name(m.path).unwrap()
        } else if cwd is Some {
            absolutized(m.path, cwd.unwrap())
        } else {
            m.path
        }
    } else {
        m.path
    }
}

/// `shown` with `~` in place of `home`, where that applies: see
/// [`display_text`].
pub open spec fn with_tilde(shown: Seq<char>, show_tilde: bool, home: Option<Seq<char>>) -> Seq<char> {
    if show_tilde && home is Some && path_starts_with(shown, home.unwrap()) {
        join_all(seq!['~'], path_components(shown).skip(path_components(home.unwrap()).len() as int))
    } else {
        shown
    }
}

/// The text to print for a match.
pub fn display_path(
    m: &Match,
    show_dot: bool,
    show_tilde: bool,
    home: Option<&str>,
    cwd: Option<&str>,
) -> (r: String)
    ensures
        r@ == display_text(m@, show_dot, show_tilde, opt_view(home), opt_view(cwd)),
{
    let dot_relative = m.dir.as_str().unicode_len() > 0 && m.dir.as_str().get_char(0) == '.';
    let shown: String = if dot_relative {
        let name = file_name_of(m.path.as_str());
        if show_dot && name.is_some() {
            let prefix = "./";
            proof {
                reveal_strlit("./");
            }
            String::from_str(prefix).concat(name.unwrap().as_str())
        } else if let Some(dir) = cwd {
            absolute(m.path.as_str(), dir)
        } else {
            m.path.clone()
        }
    } else {
        m.path.clone()
    };
    assert(shown@ == dot_display(m@, show_dot, opt_view(cwd)));
    if show_tilde {
        if let Some(h) = home {
            if starts_with(shown.as_str(), h) {
                let comps = components(shown.as_str());
                let hc = components(h);
                let skip = hc.len();
                assert(hc.deep_view().len() == hc@.len());
                let tilde = "~";
                proof {
                    reveal_strlit("~");
                    assert(tilde@ =~= seq!['~']);
                    assert(comps.deep_view().len() == comps@.len());
                }
                let r = join_components(tilde, &comps, skip);
                assert(skip == path_components(h@).len());
                return r;
            }
        }
    }
    shown
}

/// The file name of a path, as `Path::file_name` gives it.
pub fn file_name_of(path: &str) -> (r: Option<String>)
    ensures
        match r {
            Some(s) => file_name(path@) == Some(s@),
            None => file_name(path@) is None,
        },
{
    let c = components(path);
    let n = c.len();
    if n == 0 {
        return None;
    }
    let last = &c[n - 1];
    proof {
        lemma_chars_deep_view(c@[n - 1]);
        assert(c.deep_view().last() == last@);
    }
    let is_root = last.len() == 1 && last[0] == '/';
    let is_cur = last.len() == 1 && last[0] == '.';
    let is_parent = last.len() == 2 && last[0] == '.' && last[1] == '.';
    proof {
        if is_root {
            assert(last@ =~= seq!['/']);
        }
        if is_cur {
            assert(last@ =~= seq!['.']);
        }
        if is_parent {
            assert(last@ =~= seq!['.', '.']);
        }
    }
    if is_root || is_cur || is_parent {
        return None;
    }
    Some(string_from_chars(last))
}


/// The match that the `i`-th entry yields.
pub open spec fn entry_match(dirs: Seq<Seq<char>>, name: Seq<char>, i: int) -> MatchView {
    MatchView { path: joined(dirs[i], name), dir: dirs[i] }
}

/// The `i`-th entry yields a match: it is not skipped and its joined path
/// is executable.
pub open spec fn entry_hits(
    dirs: Seq<Seq<char>>,
    skip_dot: bool,
    skip_tilde: bool,
    home: Option<Seq<char>>,
    executable: Seq<bool>,
    i: int,
) -> bool {
    !skipped(dirs[i], skip_dot, skip_tilde, home) && executable[i]
}

/// Every match comes from an entry that is not skipped and whose joined
/// path is executable, and is that entry joined with the name.
pub proof fn lemma_exact_match_origin(
    dirs: Seq<Seq<char>>,
    name: Seq<char>,
    all: bool,
    skip_dot: bool,
    skip_tilde: bool,
    home: Option<Seq<char>>,
    executable: Seq<bool>,
    k: int,
)
    requires
        0 <= k < exact_matches(dirs, name, all, skip_dot, skip_tilde, home, executable).len(),
    ensures
        exists|i: int|
            0 <= i < dirs.len() && entry_hits(dirs, skip_dot, skip_tilde, home, executable, i)
                && exact_matches(dirs, name, all, skip_dot, skip_tilde, home, executable)[k]
                == #[trigger] entry_match(dirs, name, i),
{
    let hits = exact_hits(dirs, name, skip_dot, skip_tilde, home, executable, dirs.len() as int);
    lemma_hits_origin(dirs, name, skip_dot, skip_tilde, home, executable, dirs.len() as int, k);
    let out = exact_matches(dirs, name, all, skip_dot, skip_tilde, home, executable);
    assert(out[k] == hits[k]);
}

proof fn lemma_hits_origin(
    dirs: Seq<Seq<char>>,
    name: Seq<char>,
    skip_dot: bool,
    skip_tilde: bool,
    home: Option<Seq<char>>,
    executable: Seq<bool>,
    n: int,
    k: int,
)
    requires
        n <= dirs.len(),
        0 <= k < exact_hits(dirs, name, skip_dot, skip_tilde, home, executable, n).len(),
    ensures
        exists|i: int|
            0 <= i < n && entry_hits(dirs, skip_dot, skip_tilde, home, executable, i)
                && exact_hits(dirs, name, skip_dot, skip_tilde, home, executable, n)[k]
                == #[trigger] entry_match(dirs, name, i),
    decreases n,
{
    let prev = exact_hits(dirs, name, skip_dot, skip_tilde, home, executable, n - 1);
    let cur = exact_hits(dirs, name, skip_dot, skip_tilde, home, executable, n);
    if k < prev.len() {
        lemma_hits_origin(dirs, name, skip_dot, skip_tilde, home, executable, n - 1, k);
        assert(cur[k] == prev[k]);
        let i = choose|i: int|
            0 <= i < n - 1 && entry_hits(dirs, skip_dot, skip_tilde, home, executable, i)
                && prev[k] == #[trigger] entry_match(dirs, name, i);
        assert(cur[k] == entry_match(dirs, name, i));
    } else {
        assert(entry_hits(dirs, skip_dot, skip_tilde, home, executable, n - 1));
        assert(cur[k] == entry_match(dirs, name, n - 1));
    }
}

/// Without `all`, the search returns the first entry in `PATH` order that
/// yields a match, and only that one; with no such entry it returns
/// nothing.
pub proof fn lemma_first_match_wins(
    dirs: Seq<Seq<char>>,
    name: Seq<char>,
    skip_dot: bool,
    skip_tilde: bool,
    home: Option<Seq<char>>,
    executable: Seq<bool>,
    i: int,
)
    requires
        0 <= i < dirs.len(),
        entry_hits(dirs, skip_dot, skip_tilde, home, executable, i),
        forall|j: int| 0 <= j < i ==> !#[trigger] entry_hits(dirs, skip_dot, skip_tilde, home, executable, j),
    ensures
        exact_matches(dirs, name, false, skip_dot, skip_tilde, home, executable) == seq![
            entry_match(dirs, name, i),
        ],
{
    lemma_hits_none_before(dirs, name, skip_dot, skip_tilde, home, executable, i);
    let first = exact_hits(dirs, name, skip_dot, skip_tilde, home, executable, i + 1);
    assert(first =~= seq![entry_match(dirs, name, i)]);
    lemma_exact_hits_prefix(dirs, name, skip_dot, skip_tilde, home, executable, i + 1, dirs.len() as int);
}

proof fn lemma_hits_none_before(
    dirs: Seq<Seq<char>>,
    name: Seq<char>,
    skip_dot: bool,
    skip_tilde: bool,
    home: Option<Seq<char>>,
    executable: Seq<bool>,
    n: int,
)
    requires
        n <= dirs.len(),
        forall|j: int| 0 <= j < n ==> !#[trigger] entry_hits(dirs, skip_dot, skip_tilde, home, executable, j),
    ensures
        exact_hits(dirs, name, skip_dot, skip_tilde, home, executable, n).len() == 0,
    decreases n,
{
    if n > 0 {
        assert(!entry_hits(dirs, skip_dot, skip_tilde, home, executable, n - 1));
        lemma_hits_none_before(dirs, name, skip_dot, skip_tilde, home, executable, n - 1);
    }
}

/// Without `all` the result is the first of the results with `all`.
pub proof fn lemma_first_of_all(
    dirs: Seq<Seq<char>>,
    name: Seq<char>,
    skip_dot: bool,
    skip_tilde: bool,
    home: Option<Seq<char>>,
    executable: Seq<bool>,
)
    ensures
        ({
            let every = exact_matches(dirs, name, true, skip_dot, skip_tilde, home, executable);
            let first = exact_matches(dirs, name, false, skip_dot, skip_tilde, home, executable);
            &&& first.len() <= 1
            &&& (every.len() == 0 <==> first.len() == 0)
            &&& every.len() > 0 ==> first == every.take(1)
        }),
{
}

/// A path is equal to or under itself, so with `skip_tilde` the home
/// directory itself is skipped.
pub proof fn lemma_home_itself_skipped(home: Seq<char>, skip_dot: bool)
    ensures
        skipped(home, skip_dot, true, Some(home)),
{
    assert(path_components(home).take(path_components(home).len() as int) =~= path_components(home));
}


/// With `skip_tilde` off, an entry is skipped exactly when `skip_dot` is on
/// and its text starts with `.`, whatever the home directory.
pub proof fn lemma_skip_without_tilde(dir: Seq<char>, skip_dot: bool, home: Option<Seq<char>>)
    ensures
        skipped(dir, skip_dot, false, home) == (skip_dot && dir.len() > 0 && dir[0] == '.'),
{
}

/// With `skip_dot` off and no home directory, an entry is skipped exactly
/// when `skip_tilde` is on and its text starts with `~`; with both
/// switches off nothing is skipped.
pub proof fn lemma_skip_without_dot(dir: Seq<char>, skip_tilde: bool, home: Option<Seq<char>>)
    ensures
        skipped(dir, false, skip_tilde, None) == (skip_tilde && dir.len() > 0 && dir[0] == '~'),
        !skipped(dir, false, false, home),
{
}

/// `show_dot` and the working directory change only matches from `PATH`
/// entries that start with `.`: any other match is displayed the same
/// whatever they are, and as its path when `show_tilde` is off.
pub proof fn lemma_show_dot_only_dot_relative(
    m: MatchView,
    show_dot: bool,
    show_tilde: bool,
    home: Option<Seq<char>>,
    cwd: Option<Seq<char>>,
    other_cwd: Option<Seq<char>>,
)
    requires
        !(m.dir.len() > 0 && m.dir[0] == '.'),
    ensures
        display_text(m, show_dot, show_tilde, home, cwd) == display_text(m, !show_dot, show_tilde, home, other_cwd),
        display_text(m, show_dot, false, home, cwd) == m.path,
{
}

/// `~` is put in only with `show_tilde`, a home directory, and a displayed
/// path equal to or under it: with `show_tilde` off the home directory does
/// not matter, nor does `show_tilde` without a home directory.
pub proof fn lemma_tilde_needs_home(
    m: MatchView,
    show_dot: bool,
    home: Option<Seq<char>>,
    other_home: Option<Seq<char>>,
    cwd: Option<Seq<char>>,
)
    ensures
        display_text(m, show_dot, false, home, cwd) == display_text(m, show_dot, false, other_home, cwd),
        display_text(m, show_dot, true, None, cwd) == display_text(m, show_dot, false, home, cwd),
        home matches Some(h) && !path_starts_with(display_text(m, show_dot, false, home, cwd), h)
            ==> display_text(m, show_dot, true, home, cwd) == display_text(m, show_dot, false, home, cwd),
{
}

/// A dot-relative match shown with `show_dot` is `./` followed by its file
/// name, when it has one and `show_tilde` is off.
pub proof fn lemma_show_dot_prints_dot_slash_name(m: MatchView, home: Option<Seq<char>>, cwd: Option<Seq<char>>)
    requires
        m.dir.len() > 0 && m.dir[0] == '.',
        file_name(m.path) is Some,
    ensures
        display_text(m, true, false, home, cwd) == seq!['.', '/'] + file_name(m.path).unwrap(),
{
}

} // verus!
