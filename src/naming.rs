//! The archive's file name: a stem, an extension, and the first free
//! `_n` suffix where the plain name is taken.
use vstd::prelude::*;
use vstd::relations::injective_on;
use vstd::set_lib::{lemma_int_range, lemma_len_subset, lemma_map_size, set_int_range};
use crate::paths::{base_name, base_name_of, names_of};

verus! {

/// The decimal digit for `d` (below ten).
pub open spec fn digit_of(d: nat) -> char {
    if d == 0 {
        '0'
    } else if d == 1 {
        '1'
    } else if d == 2 {
        '2'
    } else if d == 3 {
        '3'
    } else if d == 4 {
        '4'
    } else if d == 5 {
        '5'
    } else if d == 6 {
        '6'
    } else if d == 7 {
        '7'
    } else if d == 8 {
        '8'
    } else {
        '9'
    }
}

/// `n` written in decimal, without leading zeros.
pub open spec fn decimal_of(n: nat) -> Seq<char>
    decreases n,
{
    if n < 10 {
        seq![digit_of(n)]
    } else {
        decimal_of(n / 10).push(digit_of(n % 10))
    }
}

/// The extension of an archive: `tgz` when compressed, else `tar`.
pub open spec fn extension_of(compression: bool) -> Seq<char> {
    if compression {
        seq!['t', 'g', 'z']
    } else {
        seq!['t', 'a', 'r']
    }
}

/// The `n`-th name tried for an archive: `stem.ext`, then `stem_1.ext`,
/// `stem_2.ext`, ...
pub open spec fn candidate_of(stem: Seq<char>, ext: Seq<char>, n: nat) -> Seq<char> {
    if n == 0 {
        stem + seq!['.'] + ext
    } else {
        stem + seq!['_'] + decimal_of(n) + seq!['.'] + ext
    }
}

/// The stem of a name made up for an archive: a time stamp, `-`, and the
/// base name of the input.
pub open spec fn stamped_stem_of(stamp: Seq<char>, input: Seq<char>) -> Seq<char> {
    stamp + seq!['-'] + base_name_of(input)
}

proof fn lemma_digit_injective(a: nat, b: nat)
    requires
        a < 10,
        b < 10,
        digit_of(a) == digit_of(b),
    ensures
        a == b,
{
}

proof fn lemma_decimal_len(n: nat)
    ensures
        decimal_of(n).len() >= 1,
    decreases n,
{
    if n >= 10 {
        lemma_decimal_len(n / 10);
    }
}

proof fn lemma_decimal_injective(a: nat, b: nat)
    requires
        decimal_of(a) == decimal_of(b),
    ensures
        a == b,
    decreases a,
{
    if a < 10 && b < 10 {
        assert(decimal_of(a)[0] == digit_of(a));
        assert(decimal_of(b)[0] == digit_of(b));
        lemma_digit_injective(a, b);
    } else if a < 10 {
        lemma_decimal_len(b / 10);
        assert(decimal_of(b).len() >= 2);
    } else if b < 10 {
        lemma_decimal_len(a / 10);
        assert(decimal_of(a).len() >= 2);
    } else {
        let da = decimal_of(a / 10);
        let db = decimal_of(b / 10);
        assert(decimal_of(a) == da.push(digit_of(a % 10)));
        assert(decimal_of(b) == db.push(digit_of(b % 10)));
        assert(decimal_of(a).last() == digit_of(a % 10));
        assert(decimal_of(b).last() == digit_of(b % 10));
        lemma_digit_injective(a % 10, b % 10);
        assert(da =~= decimal_of(a).drop_last());
        assert(db =~= decimal_of(b).drop_last());
        lemma_decimal_injective(a / 10, b / 10);
    }
}

/// Distinct suffix numbers give distinct names.
pub proof fn lemma_candidate_injective(stem: Seq<char>, ext: Seq<char>, a: nat, b: nat)
    requires
        candidate_of(stem, ext, a) == candidate_of(stem, ext, b),
    ensures
        a == b,
{
    let ca = candidate_of(stem, ext, a);
    let cb = candidate_of(stem, ext, b);
    lemma_decimal_len(a);
    lemma_decimal_len(b);
    if a != 0 && b != 0 {
        let lo = stem.len() + 1int;
        let da = decimal_of(a);
        let db = decimal_of(b);
        assert(da.len() == db.len()) by {
            assert(ca.len() == cb.len());
        }
        assert(ca.subrange(lo, lo + da.len() as int) =~= da);
        assert(cb.subrange(lo, lo + db.len() as int) =~= db);
        lemma_decimal_injective(a, b);
    } else if a == 0 && b != 0 {
        assert(ca.len() != cb.len());
    } else if a != 0 && b == 0 {
        assert(ca.len() != cb.len());
    }
}

/// The digit `d` (below ten) as a one-character string.
fn digit_str(d: u64) -> (r: &'static str)
    requires
        d < 10,
    ensures
        r@ == seq![digit_of(d as nat)],
{
    proof {
        reveal_strlit("0");
        reveal_strlit("1");
        reveal_strlit("2");
        reveal_strlit("3");
        reveal_strlit("4");
        reveal_strlit("5");
        reveal_strlit("6");
        reveal_strlit("7");
        reveal_strlit("8");
        reveal_strlit("9");
    }
    if d == 0 {
        "0"
    } else if d == 1 {
        "1"
    } else if d == 2 {
        "2"
    } else if d == 3 {
        "3"
    } else if d == 4 {
        "4"
    } else if d == 5 {
        "5"
    } else if d == 6 {
        "6"
    } else if d == 7 {
        "7"
    } else if d == 8 {
        "8"
    } else {
        "9"
    }
}

/// `n` written in decimal.
pub fn decimal_string(n: u64) -> (r: String)
    ensures
        r@ == decimal_of(n as nat),
{
    if n == 0 {
        proof {
            assert(decimal_of(0) =~= seq![digit_of(0)]);
        }
        return String::from_str(digit_str(0));
    }
    let mut r = String::new();
    let mut m: u64 = n;
    while m > 0
        invariant
            m > 0 ==> decimal_of(n as nat) == decimal_of(m as nat) + r@,
            m == 0 ==> decimal_of(n as nat) == r@,
        decreases m,
    {
        let d = m % 10;
        let mut t = String::from_str(digit_str(d));
        t.append(r.as_str());
        proof {
            if m < 10 {
                assert(decimal_of(m as nat) =~= seq![digit_of(d as nat)]);
                assert(decimal_of(n as nat) =~= t@);
            } else {
                assert(decimal_of(m as nat) == decimal_of((m / 10) as nat).push(digit_of(d as nat)));
                assert(decimal_of((m / 10) as nat) + t@ =~= decimal_of(m as nat) + r@);
            }
        }
        r = t;
        m = m / 10;
    }
    r
}

/// `r` is the first of the names `stem.ext`, `stem_1.ext`, ... that `taken`
/// does not hold.
pub open spec fn is_first_free(r: Seq<char>, stem: Seq<char>, ext: Seq<char>, taken: Seq<Seq<char>>) -> bool {
    exists|k: nat|
        r == candidate_of(stem, ext, k) && !taken.contains(r) && forall|j: nat|
            j < k ==> taken.contains(#[trigger] candidate_of(stem, ext, j))
}

/// The extension of an archive (see [`extension_of`]).
pub fn extension(compression: bool) -> (r: &'static str)
    ensures
        r@ == extension_of(compression),
{
    proof {
        reveal_strlit("tgz");
        reveal_strlit("tar");
    }
    if compression {
        "tgz"
    } else {
        "tar"
    }
}

/// The `n`-th name tried for an archive (see [`candidate_of`]).
pub fn candidate_name(stem: &String, ext: &str, n: u64) -> (r: String)
    ensures
        r@ == candidate_of(stem@, ext@, n as nat),
{
    proof {
        reveal_strlit(".");
        reveal_strlit("_");
    }
    let mut r = stem.clone();
    if n > 0 {
        r.append("_");
        let d = decimal_string(n);
        r.append(d.as_str());
    }
    r.append(".");
    r.append(ext);
    r
}

/// The stem of a name made up for an archive (see [`stamped_stem_of`]).
pub fn stamped_stem(stamp: &String, input: &String) -> (r: String)
    ensures
        r@ == stamped_stem_of(stamp@, input@),
{
    proof {
        reveal_strlit("-");
    }
    let mut r = stamp.clone();
    r.append("-");
    let b = base_name(input);
    r.append(b.as_str());
    r
}

/// Relies on chrono's `Local::now` and `DelayedFormat`: the local time, as
/// year, month, day, hour and minute. Nothing is promised of its value.
#[verifier::external_body]
fn local_stamp() -> (r: String) {
    chrono::Local::now().format("%Y%m%d%H%M").to_string()
}

/// The stem of a name made up for an archive of `input` now.
pub fn default_stem(input: &String) -> (r: String)
    ensures
        exists|stamp: Seq<char>| r@ == stamped_stem_of(stamp, input@),
{
    let stamp = local_stamp();
    let r = stamped_stem(&stamp, input);
    assert(r@ == stamped_stem_of(stamp@, input@));
    r
}

/// Whether `taken` holds `name`.
fn name_taken(taken: &Vec<String>, name: &String) -> (r: bool)
    ensures
        r == names_of(taken@).contains(name@),
{
    let mut i: usize = 0;
    while i < taken.len()
        invariant
            i <= taken@.len(),
            forall|j: int| 0 <= j < i ==> taken@[j]@ != name@,
        decreases taken@.len() - i,
    {
        if taken[i] == *name {
            assert(names_of(taken@)[i as int] == name@);
            return true;
        }
        i = i + 1;
    }
    proof {
        if names_of(taken@).contains(name@) {
            let j = choose|j: int| 0 <= j < names_of(taken@).len() && names_of(taken@)[j] == name@;
            assert(taken@[j]@ == name@);
        }
    }
    false
}

/// No `len + 1` distinct names fit in a list of `len` names.
proof fn lemma_some_candidate_free(stem: Seq<char>, ext: Seq<char>, taken: Seq<Seq<char>>)
    ensures
        exists|j: nat| j <= taken.len() && !taken.contains(#[trigger] candidate_of(stem, ext, j)),
{
    if forall|j: nat| j <= taken.len() ==> taken.contains(#[trigger] candidate_of(stem, ext, j)) {
        lemma_all_candidates_fit_bound(stem, ext, taken);
    }
}

proof fn lemma_all_candidates_fit_bound(stem: Seq<char>, ext: Seq<char>, taken: Seq<Seq<char>>)
    requires
        forall|j: nat| j <= taken.len() ==> taken.contains(#[trigger] candidate_of(stem, ext, j)),
    ensures
        taken.len() + 1 <= taken.len(),
{
    let n = taken.len() as int;
    let xs = set_int_range(0, n + 1);
    let f = |k: int| candidate_of(stem, ext, k as nat);
    lemma_int_range(0, n + 1);
    assert(injective_on(f, xs)) by {
        assert forall|a: int, b: int| xs.contains(a) && xs.contains(b) && #[trigger] f(a) == #[trigger] f(b) implies a == b by {
            lemma_candidate_injective(stem, ext, a as nat, b as nat);
        }
    }
    lemma_map_size(xs, xs.map(f), f);
    assert(xs.map(f).subset_of(taken.to_set())) by {
        assert forall|c: Seq<char>| xs.map(f).contains(c) implies taken.to_set().contains(c) by {
            let k = choose|k: int| xs.contains(k) && f(k) == c;
            assert(taken.contains(candidate_of(stem, ext, k as nat)));
        }
    }
    lemma_len_subset(xs.map(f), taken.to_set());
    taken.lemma_cardinality_of_set();
}

/// The name for a new archive in a directory that already holds `taken`:
/// `stem.ext`, or where that is taken the first free `stem_n.ext`.
pub fn archive_name(stem: &String, compression: bool, taken: &Vec<String>) -> (r: String)
    ensures
        is_first_free(r@, stem@, extension_of(compression), names_of(taken@)),
{
    let ext = extension(compression);
    let ghost names = names_of(taken@);
    let mut k: usize = 0;
    loop
        invariant
            k <= taken@.len(),
            names.len() == taken@.len(),
            names == names_of(taken@),
            ext@ == extension_of(compression),
            forall|j: nat| j < k ==> names.contains(#[trigger] candidate_of(stem@, ext@, j)),
        decreases taken@.len() - k,
    {
        let c = candidate_name(stem, ext, k as u64);
        if !name_taken(taken, &c) {
            proof {
                let kk: nat = k as nat;
                assert(forall|j: nat| j < kk ==> names.contains(#[trigger] candidate_of(stem@, ext@, j)));
                assert(c@ == candidate_of(stem@, ext@, kk));
                assert(is_first_free(c@, stem@, ext@, names));
            }
            return c;
        }
        if k == taken.len() {
            proof {
                lemma_some_candidate_free(stem@, ext@, names);
                let j = choose|j: nat| j <= names.len() && !names.contains(#[trigger] candidate_of(stem@, ext@, j));
                if j < k {
                    assert(names.contains(candidate_of(stem@, ext@, j)));
                }
            }
            return c;
        }
        k = k + 1;
    }
}

/// Two names that are each the first free one for the same stem, extension
/// and taken names are the same name.
pub proof fn lemma_first_free_unique(r1: Seq<char>, r2: Seq<char>, stem: Seq<char>, ext: Seq<char>, taken: Seq<Seq<char>>)
    requires
        is_first_free(r1, stem, ext, taken),
        is_first_free(r2, stem, ext, taken),
    ensures
        r1 == r2,
{
    let k1 = choose|k: nat|
        r1 == candidate_of(stem, ext, k) && !taken.contains(r1) && forall|j: nat|
            j < k ==> taken.contains(#[trigger] candidate_of(stem, ext, j));
    let k2 = choose|k: nat|
        r2 == candidate_of(stem, ext, k) && !taken.contains(r2) && forall|j: nat|
            j < k ==> taken.contains(#[trigger] candidate_of(stem, ext, j));
    if k1 < k2 {
        assert(taken.contains(candidate_of(stem, ext, k1)));
    } else if k2 < k1 {
        assert(taken.contains(candidate_of(stem, ext, k2)));
    }
}

/// Where `stem.ext` is taken and `stem_1.ext` is not, a new archive is named
/// `stem_1.ext`: nothing is overwritten.
pub proof fn lemma_taken_name_gets_suffix(r: Seq<char>, stem: Seq<char>, ext: Seq<char>, taken: Seq<Seq<char>>)
    requires
        is_first_free(r, stem, ext, taken),
        taken.contains(stem + seq!['.'] + ext),
        !taken.contains(stem + seq!['_', '1', '.'] + ext),
    ensures
        r == stem + seq!['_', '1', '.'] + ext,
        !taken.contains(r),
{
    assert(decimal_of(1) =~= seq!['1']);
    assert(candidate_of(stem, ext, 1) =~= stem + seq!['_', '1', '.'] + ext);
    assert(candidate_of(stem, ext, 0) =~= stem + seq!['.'] + ext);
    let k = choose|k: nat|
        r == candidate_of(stem, ext, k) && !taken.contains(r) && forall|j: nat|
            j < k ==> taken.contains(#[trigger] candidate_of(stem, ext, j));
    if k > 1 {
        assert(taken.contains(candidate_of(stem, ext, 1)));
    }
}

} // verus!
