//! The executables on `PATH`, deduplicated by name: the first occurrence in
//! `PATH` order wins, the shadowing rule `which` uses.
//!
//! Reading the directories is the caller's work; [`scan`] takes what each
//! directory holds and orders and deduplicates it.
use vstd::prelude::*;
use crate::text::{str_lt, str_eq, seq_lt, lemma_seq_lt_irreflexive, lemma_seq_lt_transitive,
    lemma_seq_lt_total};
use crate::order::{is_strict_weak, is_stable_sort, sorts_by, lemma_insert_sorted};

verus! {

/// An executable on `PATH`.
#[derive(Debug, PartialEq, Eq)]
pub struct Candidate {
    /// The file name.
    pub name: String,
    /// The full path of the file.
    pub path: String,
}

/// A candidate seen as text.
pub struct CandidateView {
    pub name: Seq<char>,
    pub path: Seq<char>,
}

impl View for Candidate {
    type V = CandidateView;

    open spec fn view(&self) -> CandidateView {
        CandidateView { name: self.name@, path: self.path@ }
    }
}

impl Clone for Candidate {
    fn clone(&self) -> (c: Self)
        ensures
            c@ == self@,
    {
        Candidate { name: self.name.clone(), path: self.path.clone() }
    }
}

/// A sequence of candidates seen as text.
pub open spec fn candidates_view(s: Seq<Candidate>) -> Seq<CandidateView> {
    s.map_values(|c: Candidate| c@)
}

/// Candidates ordered by name, in code-point order.
pub open spec fn by_name() -> spec_fn(CandidateView, CandidateView) -> bool {
    |a: CandidateView, b: CandidateView| seq_lt(a.name, b.name)
}

/// Ordering by name is a strict weak order.
pub proof fn lemma_by_name_strict_weak()
    ensures
        is_strict_weak(by_name()),
{
    let f = by_name();
    assert forall|x: CandidateView, y: CandidateView| #[trigger] f(x, y) implies !f(y, x) by {
        if f(y, x) {
            lemma_seq_lt_transitive(x.name, y.name, x.name);
            lemma_seq_lt_irreflexive(x.name);
        }
    }
    assert forall|x: CandidateView, y: CandidateView, z: CandidateView| #[trigger] f(x, z) implies f(x, y)
        || #[trigger] f(y, z) by {
        lemma_seq_lt_total(x.name, y.name);
        if seq_lt(y.name, x.name) {
            lemma_seq_lt_transitive(y.name, x.name, z.name);
        }
    }
}

/// `v` sorted by name, stably.
pub fn sort_by_name(v: Vec<Candidate>) -> (out: Vec<Candidate>)
    ensures
        is_stable_sort(candidates_view(v@), candidates_view(out@), by_name()),
{
    let ghost src = candidates_view(v@);
    let mut rest = v;
    let mut out: Vec<Candidate> = Vec::new();
    let ghost mut p: Seq<int> = Seq::empty();
    let ghost mut j: int = 0;
    proof {
        lemma_by_name_strict_weak();
        assert(candidates_view(out@) =~= Seq::<CandidateView>::empty());
        assert(src.take(0) =~= Seq::<CandidateView>::empty());
        assert(rest@.len() == src.len());
        assert(candidates_view(rest@) =~= src.skip(0));
    }
    while rest.len() > 0
        invariant
            is_strict_weak(by_name()),
            0 <= j <= src.len(),
            candidates_view(rest@) == src.skip(j),
            sorts_by(src.take(j), candidates_view(out@), by_name(), p),
        decreases rest.len(),
    {
        let ghost before_rest = rest@;
        let x = rest.remove(0);
        proof {
            assert(candidates_view(before_rest).len() == before_rest.len());
            assert(j < src.len());
            assert(x == before_rest[0]);
            assert(candidates_view(before_rest)[0] == before_rest[0]@);
            assert(candidates_view(before_rest)[0] == src.skip(j)[0]);
            assert(x@ == src[j]);
            assert forall|i: int| 0 <= i < rest@.len() implies #[trigger] candidates_view(rest@)[i]
                == src.skip(j + 1)[i] by {
                assert(rest@[i] == before_rest[i + 1]);
                assert(candidates_view(before_rest)[i + 1] == src.skip(j)[i + 1]);
            }
            assert(candidates_view(rest@) =~= src.skip(j + 1));
        }
        let mut k: usize = 0;
        while k < out.len() && !str_lt(x.name.as_str(), out[k].name.as_str())
            invariant
                k <= out.len(),
                forall|a: int| 0 <= a < k ==> !by_name()(x@, #[trigger] candidates_view(out@)[a]),
            decreases out.len() - k,
        {
            k = k + 1;
        }
        proof {
            let ov = candidates_view(out@);
            assert(src[j] == x@);
            lemma_insert_sorted(src, ov, by_name(), p, j, k as int);
            assert(src.take(j + 1).take(j) =~= src.take(j));
        }
        let ghost ov = candidates_view(out@);
        let ghost xv = x@;
        out.insert(k, x);
        proof {
            assert(candidates_view(out@) =~= ov.insert(k as int, xv));
            p = p.insert(k as int, j);
            j = j + 1;
        }
    }
    proof {
        assert(src.take(j) =~= src);
    }
    out
}

} // verus!

verus! {

/// Some candidate in `s` has the name `name`.
pub open spec fn has_name(s: Seq<CandidateView>, name: Seq<char>) -> bool {
    exists|i: int| 0 <= i < s.len() && (#[trigger] s[i]).name == name
}

/// The candidates of `s` in order, each dropped when an earlier one had
/// the same name: the first occurrence of a name wins.
pub open spec fn first_by_name(s: Seq<CandidateView>) -> Seq<CandidateView>
    decreases s.len(),
{
    if s.len() == 0 {
        s
    } else {
        let prev = first_by_name(s.drop_last());
        if has_name(prev, s.last().name) {
            prev
        } else {
            prev.push(s.last())
        }
    }
}

/// Whether some candidate in `v` has the name `name`.
pub fn contains_name(v: &Vec<Candidate>, name: &str) -> (r: bool)
    ensures
        r == has_name(candidates_view(v@), name@),
{
    let mut i: usize = 0;
    while i < v.len()
        invariant
            i <= v.len(),
            forall|a: int| 0 <= a < i ==> (#[trigger] candidates_view(v@)[a]).name != name@,
        decreases v.len() - i,
    {
        if str_eq(v[i].name.as_str(), name) {
            assert(candidates_view(v@)[i as int].name == name@);
            return true;
        }
        i = i + 1;
    }
    false
}

/// The executables of all `PATH` directories, deduplicated by name, where
/// `listings[d]` holds the executables found in the `d`-th directory (none
/// for a directory that cannot be read). Each directory's executables are
/// taken in name order; across directories `PATH` order holds, and of
/// several with one name the first is kept.
pub fn scan(listings: Vec<Vec<Candidate>>) -> (out: Vec<Candidate>)
    ensures
        exists|sorted: Seq<Seq<CandidateView>>|
            {
                &&& sorted.len() == listings@.len()
                &&& forall|d: int|
                    0 <= d < sorted.len() ==> is_stable_sort(
                        candidates_view(#[trigger] listings@[d]@),
                        sorted[d],
                        by_name(),
                    )
                &&& candidates_view(out@) == first_by_name(sorted.flatten())
            },
{
    let ghost all = listings@;
    let mut rest = listings;
    let mut out: Vec<Candidate> = Vec::new();
    let ghost mut sorted: Seq<Seq<CandidateView>> = Seq::empty();
    proof {
        assert(candidates_view(out@) =~= Seq::<CandidateView>::empty());
        assert(rest@ =~= all.skip(0));
        assert(sorted.flatten() =~= Seq::<CandidateView>::empty());
    }
    while rest.len() > 0
        invariant
            sorted.len() <= all.len(),
            rest@ == all.skip(sorted.len() as int),
            forall|d: int|
                0 <= d < sorted.len() ==> is_stable_sort(candidates_view(#[trigger] all[d]@), sorted[d], by_name()),
            candidates_view(out@) == first_by_name(sorted.flatten()),
        decreases rest.len(),
    {
        let ghost before_rest = rest@;
        let listing = rest.remove(0);
        proof {
            assert(listing == all[sorted.len() as int]);
            assert(rest@ =~= all.skip(sorted.len() as int + 1));
        }
        let dir = sort_by_name(listing);
        let ghost dv = candidates_view(dir@);
        let ghost flat = sorted.flatten();
        let mut m: usize = 0;
        proof {
            assert(dv.take(0) =~= Seq::<CandidateView>::empty());
            assert(flat + dv.take(0) =~= flat);
        }
        while m < dir.len()
            invariant
                m <= dir.len(),
                dv == candidates_view(dir@),
                candidates_view(out@) == first_by_name(flat + dv.take(m as int)),
            decreases dir.len() - m,
        {
            let c = &dir[m];
            let ghost s = flat + dv.take(m as int);
            proof {
                assert((flat + dv.take(m + 1)).drop_last() =~= s);
                assert((flat + dv.take(m + 1)).last() == c@);
            }
            if !contains_name(&out, c.name.as_str()) {
                let ghost before = candidates_view(out@);
                out.push(c.clone());
                proof {
                    assert(candidates_view(out@) =~= before.push(c@));
                }
            }
            m = m + 1;
        }
        proof {
            assert(dv.take(dir.len() as int) =~= dv);
            sorted.lemma_flatten_push(dv);
            sorted = sorted.push(dv);
        }
    }
    proof {
        assert(sorted.len() == all.len());
    }
    out
}


/// `s[i]` is the first candidate in `s` with its name.
pub open spec fn first_of_its_name(s: Seq<CandidateView>, i: int) -> bool {
    &&& 0 <= i < s.len()
    &&& forall|j: int| 0 <= j < i ==> (#[trigger] s[j]).name != s[i].name
}

/// Shadowing: after deduplication no two candidates share a name, each
/// one is the first in the input with its name, and every name of the
/// input is still there.
pub proof fn lemma_first_by_name_shadowing(s: Seq<CandidateView>)
    ensures
        forall|a: int, b: int|
            0 <= a < b < first_by_name(s).len() ==> (#[trigger] first_by_name(s)[a]).name
                != (#[trigger] first_by_name(s)[b]).name,
        forall|k: int|
            0 <= k < first_by_name(s).len() ==> exists|i: int|
                first_of_its_name(s, i) && #[trigger] first_by_name(s)[k] == s[i],
        forall|i: int| 0 <= i < s.len() ==> has_name(first_by_name(s), (#[trigger] s[i]).name),
    decreases s.len(),
{
    if s.len() > 0 {
        let t = s.drop_last();
        let prev = first_by_name(t);
        let last = s.last();
        let f = first_by_name(s);
        lemma_first_by_name_shadowing(t);
        assert forall|k: int| 0 <= k < f.len() implies exists|i: int|
            first_of_its_name(s, i) && #[trigger] f[k] == s[i] by {
            if k < prev.len() {
                assert(f[k] == prev[k]);
                let i = choose|i: int| first_of_its_name(t, i) && prev[k] == t[i];
                assert(s[i] == t[i]);
                assert forall|j: int| 0 <= j < i implies (#[trigger] s[j]).name != s[i].name by {
                    assert(s[j] == t[j]);
                }
                assert(first_of_its_name(s, i));
            } else {
                // the last candidate was kept: its name was new
                assert(!has_name(prev, last.name));
                assert forall|j: int| 0 <= j < s.len() - 1 implies (#[trigger] s[j]).name != last.name by {
                    assert(s[j] == t[j]);
                    assert(has_name(prev, t[j].name));
                }
                assert(first_of_its_name(s, s.len() - 1));
            }
        }
        assert forall|i: int| 0 <= i < s.len() implies has_name(f, (#[trigger] s[i]).name) by {
            if i < s.len() - 1 {
                assert(s[i] == t[i]);
                assert(has_name(prev, t[i].name));
                let j = choose|j: int| 0 <= j < prev.len() && (#[trigger] prev[j]).name == t[i].name;
                assert(f[j] == prev[j]);
            } else if !has_name(prev, last.name) {
                assert(f[f.len() - 1] == last);
            }
        }
    }
}

} // verus!
