//! Unix paths as text: how a path splits into components, when one path
//! lies under another, and how a name is joined onto a directory.
//!
//! These follow `std::path` on Unix: components are separated by `/`,
//! empty and `.` segments are dropped except for a leading `.`, and a
//! leading `/` is the root.
use vstd::prelude::*;
use vstd::string::StrSliceExecFns;
use vstd::string::StringExecFns;
use crate::text::{to_chars, chars_eq};

verus! {

/// The segments of `s` between the `/` separators, in order: `n` separators
/// give `n + 1` segments, some of which may be empty.
pub open spec fn split_on_slash(s: Seq<char>) -> Seq<Seq<char>>
    decreases s.len(),
{
    if s.len() == 0 {
        seq![Seq::<char>::empty()]
    } else {
        let prev = split_on_slash(s.drop_last());
        if s.last() == '/' {
            prev.push(Seq::<char>::empty())
        } else {
            prev.update(prev.len() - 1, prev.last().push(s.last()))
        }
    }
}

/// A segment that names a component: neither empty nor `.`.
pub open spec fn is_named(seg: Seq<char>) -> bool {
    seg.len() > 0 && seg != seq!['.']
}

/// The component that opens a path: the root for a path that starts with
/// `/`, the current directory for `.` or a path that starts with `./`,
/// none otherwise. They are written `/` and `.`, which no named component
/// can be.
pub open spec fn leading_component(s: Seq<char>) -> Seq<Seq<char>> {
    if s.len() > 0 && s[0] == '/' {
        seq![seq!['/']]
    } else if s.len() > 0 && s[0] == '.' && (s.len() == 1 || s[1] == '/') {
        seq![seq!['.']]
    } else {
        Seq::empty()
    }
}

/// The components of the path `s`, as `Path::components` yields them.
pub open spec fn path_components(s: Seq<char>) -> Seq<Seq<char>> {
    leading_component(s) + split_on_slash(s).filter(|seg: Seq<char>| is_named(seg))
}

/// `base` is a leading part of `path`, component by component, as
/// `Path::starts_with` decides it. A path starts with itself.
pub open spec fn path_starts_with(path: Seq<char>, base: Seq<char>) -> bool {
    let p = path_components(path);
    let b = path_components(base);
    b.len() <= p.len() && p.take(b.len() as int) == b
}

/// `name` joined onto `dir`, as `Path::join` does it on Unix: an absolute
/// name replaces the directory, and a `/` is put between the two unless
/// the directory is empty or already ends with one.
pub open spec fn joined(dir: Seq<char>, name: Seq<char>) -> Seq<char> {
    if name.len() > 0 && name[0] == '/' {
        name
    } else if dir.len() > 0 && dir.last() != '/' {
        dir + seq!['/'] + name
    } else {
        dir + name
    }
}

proof fn lemma_filter_push(parts: Seq<Seq<char>>, seg: Seq<char>)
    ensures
        parts.push(seg).filter(|x: Seq<char>| is_named(x)) == if is_named(seg) {
            parts.filter(|x: Seq<char>| is_named(x)).push(seg)
        } else {
            parts.filter(|x: Seq<char>| is_named(x))
        },
{
    reveal(Seq::filter);
    assert(parts.push(seg).drop_last() == parts);
}

/// The components of the path `s`.
pub fn components(s: &str) -> (out: Vec<Vec<char>>)
    ensures
        out.deep_view() == path_components(s@),
{
    let chars = to_chars(s);
    let n = chars.len();
    let mut named: Vec<Vec<char>> = Vec::new();
    let mut cur: Vec<char> = Vec::new();
    let ghost mut parts: Seq<Seq<char>> = Seq::empty();
    let mut i: usize = 0;
    proof {
        assert(chars@.take(0) == Seq::<char>::empty());
        reveal(Seq::filter);
    }
    while i < n
        invariant
            n == chars.len(),
            chars@ == s@,
            i <= n,
            split_on_slash(chars@.take(i as int)) == parts.push(cur@),
            named.deep_view() == parts.filter(|x: Seq<char>| is_named(x)),
        decreases n - i,
    {
        let c = chars[i];
        proof {
            assert(chars@.take(i + 1).drop_last() == chars@.take(i as int));
            assert(chars@.take(i + 1).last() == c);
        }
        if c == '/' {
            proof {
                lemma_filter_push(parts, cur@);
                parts = parts.push(cur@);
            }
            if cur.len() > 0 && !(cur.len() == 1 && cur[0] == '.') {
                let ghost before = named.deep_view();
                let ghost seg = cur@;
                named.push(cur);
                proof {
                    assert(named.deep_view() =~~= before.push(seg));
                }
            } else {
                assert(!is_named(cur@)) by {
                    if cur@.len() == 1 && cur@[0] == '.' {
                        assert(cur@ == seq!['.']);
                    }
                }
            }
            cur = Vec::new();
        } else {
            cur.push(c);
        }
        i = i + 1;
    }
    proof {
        assert(chars@.take(n as int) == s@);
        lemma_filter_push(parts, cur@);
    }
    if cur.len() > 0 && !(cur.len() == 1 && cur[0] == '.') {
        let ghost before = named.deep_view();
        let ghost seg = cur@;
        named.push(cur);
        proof {
            assert(named.deep_view() =~~= before.push(seg));
        }
    } else {
        assert(!is_named(cur@)) by {
            if cur@.len() == 1 && cur@[0] == '.' {
                assert(cur@ == seq!['.']);
            }
        }
    }
    let ghost tail = named.deep_view();
    let mut out: Vec<Vec<char>> = Vec::new();
    if n > 0 && chars[0] == '/' {
        let mut root: Vec<char> = Vec::new();
        root.push('/');
        out.push(root);
        assert(out.deep_view() =~~= seq![seq!['/']]);
    } else if n > 0 && chars[0] == '.' && (n == 1 || chars[1] == '/') {
        let mut cur_dir: Vec<char> = Vec::new();
        cur_dir.push('.');
        out.push(cur_dir);
        assert(out.deep_view() =~~= seq![seq!['.']]);
    } else {
        assert(out.deep_view() =~= Seq::<Seq<char>>::empty());
    }
    let ghost head = out.deep_view();
    assert(head == leading_component(s@));
    out.append(&mut named);
    proof {
        assert(out.deep_view() =~= head + tail);
    }
    out
}

} // verus!

verus! {

/// A vector of characters is seen the same way deeply and shallowly.
pub proof fn lemma_chars_deep_view(v: Vec<char>)
    ensures
        v.deep_view() == v@,
{
    assert(v.deep_view() =~= v@);
}

/// Whether `base` is a leading part of `path`, component by component.
pub fn starts_with(path: &str, base: &str) -> (r: bool)
    ensures
        r == path_starts_with(path@, base@),
{
    let p = components(path);
    let b = components(base);
    if b.len() > p.len() {
        return false;
    }
    let mut i: usize = 0;
    while i < b.len()
        invariant
            b.len() <= p.len(),
            i <= b.len(),
            p.deep_view() == path_components(path@),
            b.deep_view() == path_components(base@),
            p.deep_view().take(i as int) == b.deep_view().take(i as int),
        decreases b.len() - i,
    {
        proof {
            lemma_chars_deep_view(p@[i as int]);
            lemma_chars_deep_view(b@[i as int]);
        }
        if !chars_eq(&p[i], &b[i]) {
            assert(p.deep_view().take(b.len() as int)[i as int] != b.deep_view()[i as int]);
            return false;
        }
        assert(p.deep_view().take(i + 1) =~= p.deep_view().take(i as int).push(p.deep_view()[i as int]));
        assert(b.deep_view().take(i + 1) =~= b.deep_view().take(i as int).push(b.deep_view()[i as int]));
        i = i + 1;
    }
    assert(b.deep_view().take(b.len() as int) =~= b.deep_view());
    true
}

/// `name` joined onto `dir`, as `Path::join` does it on Unix.
pub fn join_path(dir: &str, name: &str) -> (r: String)
    ensures
        r@ == joined(dir@, name@),
{
    let name_len = name.unicode_len();
    let dir_len = dir.unicode_len();
    if name_len > 0 && name.get_char(0) == '/' {
        return String::from_str(name);
    }
    if dir_len > 0 && dir.get_char(dir_len - 1) != '/' {
        let sep = "/";
        proof {
            reveal_strlit("/");
        }
        String::from_str(dir).concat(sep).concat(name)
    } else {
        String::from_str(dir).concat(name)
    }
}

/// The last component of a path when it names something, as
/// `Path::file_name` gives it: none for a path that ends in the root, in
/// `.` or in `..`.
pub open spec fn file_name(s: Seq<char>) -> Option<Seq<char>> {
    let c = path_components(s);
    if c.len() > 0 && c.last() != seq!['/'] && c.last() != seq!['.'] && c.last() != seq!['.', '.'] {
        Some(c.last())
    } else {
        None
    }
}

/// Whether the last component of `path` is the name `expected`.
pub fn file_name_is(path: &str, expected: &str) -> (r: bool)
    ensures
        r == (file_name(path@) == Some(expected@)),
{
    let c = components(path);
    let n = c.len();
    if n == 0 {
        return false;
    }
    let last = &c[n - 1];
    proof {
        lemma_chars_deep_view(c@[n - 1]);
        assert(c.deep_view().last() == last@);
    }
    let is_root = last.len() == 1 && last[0] == '/';
    let is_cur = last.len() == 1 && last[0] == '.';
    let is_parent = last.len() == 2 && last[0] == '.' && last[1] == '.';
    proof {
        if is_root {
            assert(last@ =~= seq!['/']);
        }
        if is_cur {
            assert(last@ =~= seq!['.']);
        }
        if is_parent {
            assert(last@ =~= seq!['.', '.']);
        }
    }
    if is_root || is_cur || is_parent {
        return false;
    }
    let want = crate::text::to_chars(expected);
    chars_eq(last, &want)
}

} // verus!

verus! {

/// `comps` joined one after another onto `base`, as `PathBuf::push` does.
pub open spec fn join_all(base: Seq<char>, comps: Seq<Seq<char>>) -> Seq<char>
    decreases comps.len(),
{
    if comps.len() == 0 {
        base
    } else {
        joined(join_all(base, comps.drop_last()), comps.last())
    }
}

/// The components `comps[from..]` joined onto `base`.
pub fn join_components(base: &str, comps: &Vec<Vec<char>>, from: usize) -> (r: String)
    requires
        from <= comps@.len(),
    ensures
        r@ == join_all(base@, comps.deep_view().skip(from as int)),
{
    let ghost cs = comps.deep_view().skip(from as int);
    let mut acc = String::from_str(base);
    let mut i: usize = from;
    proof {
        assert(cs.take(0) =~= Seq::<Seq<char>>::empty());
    }
    while i < comps.len()
        invariant
            from <= i <= comps@.len(),
            cs == comps.deep_view().skip(from as int),
            acc@ == join_all(base@, cs.take(i - from)),
        decreases comps@.len() - i,
    {
        let part = crate::text::string_from_chars(&comps[i]);
        proof {
            lemma_chars_deep_view(comps@[i as int]);
            assert(cs.take(i - from + 1).drop_last() =~= cs.take(i - from));
            assert(cs.take(i - from + 1).last() == part@);
        }
        acc = join_path(acc.as_str(), part.as_str());
        i = i + 1;
    }
    assert(cs.take(comps@.len() - from) =~= cs);
    acc
}

/// A relative path made absolute against the working directory `cwd`, as
/// `std::path::absolute` does on Unix: its components, without a leading
/// `.`, joined onto `cwd`, and a trailing `/` kept. An absolute path is
/// returned as it is.
pub open spec fn absolutized(path: Seq<char>, cwd: Seq<char>) -> Seq<char> {
    let c = path_components(path);
    let rel = if c.len() > 0 && c[0] == seq!['.'] { c.drop_first() } else { c };
    let base = join_all(cwd, rel);
    if path.len() > 0 && path[0] == '/' {
        path
    } else if path.len() > 0 && path.last() == '/' {
        joined(base, Seq::empty())
    } else {
        base
    }
}

/// `path` made absolute against the working directory `cwd`.
pub fn absolute(path: &str, cwd: &str) -> (r: String)
    ensures
        r@ == absolutized(path@, cwd@),
{
    let n = path.unicode_len();
    if n > 0 && path.get_char(0) == '/' {
        return String::from_str(path);
    }
    let c = components(path);
    let from: usize = if c.len() > 0 && c[0].len() == 1 && c[0][0] == '.' { 1 } else { 0 };
    proof {
        lemma_chars_deep_view(c@[0]);
        if c.len() > 0 && c@[0]@.len() == 1 && c@[0]@[0] == '.' {
            assert(c@[0]@ =~= seq!['.']);
        }
        assert(c.deep_view().skip(0) =~= c.deep_view());
        if c.len() > 0 {
            assert(c.deep_view().skip(1) =~= c.deep_view().drop_first());
        }
    }
    let base = join_components(cwd, &c, from);
    if n > 0 && path.get_char(n - 1) == '/' {
        let empty = "";
        proof {
            reveal_strlit("");
        }
        join_path(base.as_str(), empty)
    } else {
        base
    }
}


/// Joining keeps both parts: an absolute name replaces the directory;
/// otherwise the result is the directory, a `/` only where the directory
/// does not already end with one (and is not empty), then the name.
pub proof fn lemma_joined_parts(dir: Seq<char>, name: Seq<char>)
    ensures
        name.len() > 0 && name[0] == '/' ==> joined(dir, name) == name,
        !(name.len() > 0 && name[0] == '/') ==> {
            let j = joined(dir, name);
            &&& j.take(dir.len() as int) == dir
            &&& j.skip(j.len() - name.len()) == name
            &&& j.len() == dir.len() + name.len() + if dir.len() > 0 && dir.last() != '/' { 1int } else { 0int }
        },
{
    if !(name.len() > 0 && name[0] == '/') {
        let j = joined(dir, name);
        assert(j.take(dir.len() as int) =~= dir);
        assert(j.skip(j.len() - name.len()) =~= name);
    }
}

/// A path starts with itself, and starting with is transitive.
pub proof fn lemma_path_starts_with_order(a: Seq<char>, b: Seq<char>, c: Seq<char>)
    ensures
        path_starts_with(a, a),
        path_starts_with(a, b) && path_starts_with(b, c) ==> path_starts_with(a, c),
{
    assert(path_components(a).take(path_components(a).len() as int) =~= path_components(a));
    if path_starts_with(a, b) && path_starts_with(b, c) {
        let pa = path_components(a);
        let pb = path_components(b);
        let pc = path_components(c);
        assert(pa.take(pc.len() as int) =~= pb.take(pc.len() as int));
    }
}


/// A trailing `/` does not change a path's components, so a path is under
/// `base` exactly when it is under `base` with a `/` appended.
pub proof fn lemma_trailing_slash(s: Seq<char>, path: Seq<char>)
    requires
        s.len() > 0,
    ensures
        path_components(s.push('/')) == path_components(s),
        path_starts_with(path, s.push('/')) == path_starts_with(path, s),
{
    let t = s.push('/');
    assert(t.drop_last() =~= s);
    lemma_filter_push(split_on_slash(s), Seq::empty());
    assert(!is_named(Seq::<char>::empty()));
    assert(leading_component(t) == leading_component(s));
}

} // verus!
