//! Paths as sequences of characters, separated by `/`.
use vstd::prelude::*;

verus! {

/// The paths held by a list of strings.
pub open spec fn names_of(v: Seq<String>) -> Seq<Seq<char>> {
    v.map_values(|s: String| s@)
}

/// Whether `entry` lies at or under the directory `base`.
pub open spec fn lies_under(entry: Seq<char>, base: Seq<char>) -> bool {
    strip_base(entry, base) is Some
}

/// Index of the last `/` in `s` before `end`, or -1 where there is none.
pub open spec fn rfind_sep(s: Seq<char>, end: int) -> int
    decreases end,
{
    if end <= 0 {
        -1
    } else if s[end - 1] == '/' {
        end - 1
    } else {
        rfind_sep(s, end - 1)
    }
}

/// The directory part of a path: empty for a bare name, `/` for a name
/// directly under the root.
pub open spec fn parent_of(s: Seq<char>) -> Seq<char> {
    let r = rfind_sep(s, s.len() as int);
    if r < 0 {
        Seq::empty()
    } else if r == 0 {
        s.subrange(0, 1)
    } else {
        s.subrange(0, r)
    }
}

/// The last component of a path: what follows its last `/`.
pub open spec fn base_name_of(s: Seq<char>) -> Seq<char> {
    s.subrange(rfind_sep(s, s.len() as int) + 1, s.len() as int)
}

/// `entry` with the leading directory `base` taken off, component-wise.
pub open spec fn strip_base(entry: Seq<char>, base: Seq<char>) -> Option<Seq<char>> {
    let n = base.len() as int;
    if n == 0 {
        Some(entry)
    } else if entry == base {
        Some(Seq::empty())
    } else if entry.len() > n && entry.subrange(0, n) == base {
        if entry[n] == '/' {
            Some(entry.subrange(n + 1, entry.len() as int))
        } else if base[n - 1] == '/' {
            Some(entry.subrange(n, entry.len() as int))
        } else {
            None
        }
    } else {
        None
    }
}

/// `name` placed inside the directory `dir`.
pub open spec fn join_of(dir: Seq<char>, name: Seq<char>) -> Seq<char> {
    if dir.len() == 0 {
        name
    } else if dir.last() == '/' {
        dir + name
    } else {
        dir + seq!['/'] + name
    }
}

proof fn lemma_rfind_sep_bounds(s: Seq<char>, end: int)
    requires
        0 <= end <= s.len(),
    ensures
        -1 <= rfind_sep(s, end) < end,
        rfind_sep(s, end) >= 0 ==> s[rfind_sep(s, end)] == '/',
        forall|j: int| rfind_sep(s, end) < j < end ==> s[j] != '/',
    decreases end,
{
    if end > 0 && s[end - 1] != '/' {
        lemma_rfind_sep_bounds(s, end - 1);
    }
}

/// Position of the last `/` in `s`, if there is one.
fn last_sep(s: &str) -> (r: Option<usize>)
    ensures
        match r {
            Some(i) => i as int == rfind_sep(s@, s@.len() as int),
            None => rfind_sep(s@, s@.len() as int) == -1,
        },
{
    let len = s.unicode_len();
    let mut i: usize = len;
    while i > 0
        invariant
            i <= len == s@.len(),
            rfind_sep(s@, len as int) == rfind_sep(s@, i as int),
        decreases i,
    {
        if s.get_char(i - 1) == '/' {
            return Some(i - 1);
        }
        i = i - 1;
    }
    None
}

/// A new `String` holding `s`.
fn owned(s: &str) -> (r: String)
    ensures
        r@ == s@,
{
    String::from_str(s)
}

/// The directory part of `path` (see [`parent_of`]).
pub fn parent_dir(path: &String) -> (r: String)
    ensures
        r@ == parent_of(path@),
{
    let s = path.as_str();
    match last_sep(s) {
        None => String::new(),
        Some(0) => owned(s.substring_char(0, 1)),
        Some(i) => {
            proof {
                lemma_rfind_sep_bounds(s@, s@.len() as int);
            }
            owned(s.substring_char(0, i))
        },
    }
}

/// The last component of `path` (see [`base_name_of`]).
pub fn base_name(path: &String) -> (r: String)
    ensures
        r@ == base_name_of(path@),
{
    let s = path.as_str();
    let len = s.unicode_len();
    proof {
        lemma_rfind_sep_bounds(s@, s@.len() as int);
    }
    match last_sep(s) {
        None => owned(s.substring_char(0, len)),
        Some(i) => owned(s.substring_char(i + 1, len)),
    }
}

/// The directory that archive entry names are taken relative to: the parent
/// of the input when the input is a single file, else the input itself.
pub fn get_inp_path_only(path: &String, is_file: bool) -> (r: String)
    ensures
        r@ == (if is_file { parent_of(path@) } else { path@ }),
{
    if is_file {
        parent_dir(path)
    } else {
        path.clone()
    }
}

/// Whether `a` and `b` hold the same characters in `[0, n)`.
fn same_prefix(a: &str, b: &str, n: usize) -> (r: bool)
    requires
        n <= a@.len(),
        n <= b@.len(),
    ensures
        r == (a@.subrange(0, n as int) == b@.subrange(0, n as int)),
{
    let mut i: usize = 0;
    while i < n
        invariant
            i <= n <= a@.len(),
            n <= b@.len(),
            a@.subrange(0, i as int) == b@.subrange(0, i as int),
        decreases n - i,
    {
        if a.get_char(i) != b.get_char(i) {
            assert(a@.subrange(0, n as int)[i as int] != b@.subrange(0, n as int)[i as int]);
            return false;
        }
        assert(a@.subrange(0, i + 1) =~= a@.subrange(0, i as int).push(a@[i as int]));
        assert(b@.subrange(0, i + 1) =~= b@.subrange(0, i as int).push(b@[i as int]));
        i = i + 1;
    }
    true
}

/// The name of `entry` inside an archive whose entries are taken relative to
/// `base`; `None` where `entry` does not lie under `base`.
pub fn relative_path(entry: &String, base: &String) -> (r: Option<String>)
    ensures
        r matches Some(s) ==> strip_base(entry@, base@) == Some(s@),
        r is None ==> strip_base(entry@, base@) is None,
{
    let e = entry.as_str();
    let b = base.as_str();
    let elen = e.unicode_len();
    let n = b.unicode_len();
    if n == 0 {
        return Some(entry.clone());
    }
    if elen == n && same_prefix(e, b, n) {
        assert(e@ =~= e@.subrange(0, n as int));
        assert(b@ =~= b@.subrange(0, n as int));
        return Some(String::new());
    }
    if elen > n && same_prefix(e, b, n) {
        proof {
            assert(b@ =~= b@.subrange(0, n as int));
            assert(e@ != b@);
        }
        if e.get_char(n) == '/' {
            Some(owned(e.substring_char(n + 1, elen)))
        } else if b.get_char(n - 1) == '/' {
            Some(owned(e.substring_char(n, elen)))
        } else {
            None
        }
    } else {
        proof {
            if e@ == b@ {
                assert(e@.subrange(0, n as int) == b@.subrange(0, n as int));
            }
            if elen > n {
                assert(b@ =~= b@.subrange(0, n as int));
            }
        }
        None
    }
}

/// `name` placed inside the directory `dir` (see [`join_of`]).
pub fn join(dir: &String, name: &String) -> (r: String)
    ensures
        r@ == join_of(dir@, name@),
{
    let d = dir.as_str();
    let n = d.unicode_len();
    if n == 0 {
        return name.clone();
    }
    let mut r = owned(d);
    if d.get_char(n - 1) != '/' {
        r.append("/");
        proof {
            reveal_strlit("/");
        }
    }
    r.append(name.as_str());
    r
}

/// What lies under a directory still lies under it one level down.
pub proof fn lemma_join_stays_under(dir: Seq<char>, name: Seq<char>, base: Seq<char>)
    requires
        lies_under(dir, base),
    ensures
        lies_under(join_of(dir, name), base),
{
    let n = base.len() as int;
    let j = join_of(dir, name);
    if n > 0 {
        assert(dir.len() >= n) by {
            if dir != base {
                assert(dir.len() > n);
            }
        }
        assert(j.subrange(0, dir.len() as int) =~= dir);
        assert(j.len() >= dir.len());
        assert(j.subrange(0, n) =~= dir.subrange(0, n));
        assert(j.subrange(0, n) =~= base) by {
            if dir == base {
                assert(dir.subrange(0, n) =~= base);
            }
        }
        if j != base {
            assert(j.len() > n) by {
                if j.len() == n {
                    assert(j =~= j.subrange(0, n));
                }
            }
            if dir == base {
                if base.last() != '/' {
                    assert(j[n] == '/');
                }
            } else {
                assert(j[n] == dir[n]);
            }
        }
    }
}

/// A single file archived relative to its parent directory is named by its
/// base name.
pub proof fn lemma_single_file_name(path: Seq<char>)
    ensures
        strip_base(path, parent_of(path)) == Some(base_name_of(path)),
{
    let r = rfind_sep(path, path.len() as int);
    lemma_rfind_sep_bounds(path, path.len() as int);
    let b = parent_of(path);
    if r < 0 {
        assert(path.subrange(0, path.len() as int) =~= path);
    } else {
        let n = b.len() as int;
        assert(path.subrange(0, n) =~= b);
        if path == b {
            assert(r == 0 && path.len() == 1);
            assert(base_name_of(path) =~= Seq::<char>::empty());
        } else if r == 0 {
            assert(b[0] == '/');
        } else {
            assert(path[n] == '/');
        }
    }
}

/// Placing the name of an entry back under the directory it was taken
/// relative to gives the entry's path again.
pub proof fn lemma_name_round_trip(entry: Seq<char>, base: Seq<char>)
    requires
        lies_under(entry, base),
        entry != base,
        base.len() > 0,
        base.last() != '/',
    ensures
        join_of(base, strip_base(entry, base)->0) == entry,
{
    let n = base.len() as int;
    assert(entry[n] == '/');
    let rest = entry.subrange(n + 1, entry.len() as int);
    assert(base + seq!['/'] + rest =~= entry) by {
        assert(entry.subrange(0, n) == base);
    }
}

} // verus!
