use vstd::prelude::*;
use vstd::string::StringExecFns;

use crate::options::string_views;

verus! {

broadcast use vstd::string::group_string_axioms;

/// A package that a document imports: `@namespace/name:major.minor.patch`.
#[derive(Clone, Debug, PartialEq)]
pub struct PackageSpec {
    pub namespace: String,
    pub name: String,
    pub major: u32,
    pub minor: u32,
    pub patch: u32,
}

/// The decimal digit for a value below ten.
pub open spec fn digit_char(d: nat) -> char
    recommends
        d < 10,
{
    ('0' as u32 + d) as char
}

/// The decimal notation of a natural number, without leading zeros.
pub open spec fn decimal(n: nat) -> Seq<char>
    decreases n,
{
    if n < 10 {
        seq![digit_char(n)]
    } else {
        decimal(n / 10).push(digit_char(n % 10))
    }
}

/// The number that a string of decimal digits denotes.
pub open spec fn digits_value(s: Seq<char>) -> int
    decreases s.len(),
{
    if s.len() == 0 {
        0
    } else {
        digits_value(s.drop_last()) * 10 + (s.last() as int - '0' as int)
    }
}

/// The decimal notation of `n` is a non-empty string of the digits `0` to
/// `9` that denotes `n`, and starts with `0` only when `n` is zero.
pub proof fn lemma_decimal_denotes(n: nat)
    ensures
        decimal(n).len() >= 1,
        forall|i: int| 0 <= i < decimal(n).len() ==> '0' <= #[trigger] decimal(n)[i] <= '9',
        digits_value(decimal(n)) == n,
        n > 0 ==> decimal(n)[0] != '0',
    decreases n,
{
    if n < 10 {
        assert(digit_char(n) as int == '0' as int + n);
        assert(decimal(n).drop_last() =~= Seq::<char>::empty());
        assert(digits_value(Seq::<char>::empty()) == 0);
    } else {
        lemma_decimal_denotes(n / 10);
        let d = decimal(n);
        assert(digit_char(n % 10) as int == '0' as int + n % 10);
        assert(d.drop_last() =~= decimal(n / 10));
        assert forall|i: int| 0 <= i < d.len() implies '0' <= #[trigger] d[i] <= '9' by {
            if i < d.len() - 1 {
                assert(d[i] == decimal(n / 10)[i]);
            }
        }
        assert(d[0] == decimal(n / 10)[0]);
        assert(digits_value(d) == digits_value(decimal(n / 10)) * 10 + (n % 10));
        assert((n / 10) * 10 + n % 10 == n) by (nonlinear_arith);
    }
}

/// The notation of a package version: `major.minor.patch`.
pub open spec fn version_text(major: u32, minor: u32, patch: u32) -> Seq<char> {
    decimal(major as nat) + seq!['.'] + decimal(minor as nat) + seq!['.'] + decimal(
        patch as nat,
    )
}

/// Where a package lives below a base directory:
/// `base/packages/namespace/name/version`.
pub open spec fn package_dir_in(base: Seq<Seq<char>>, spec: PackageSpec) -> Seq<Seq<char>> {
    base + seq![
        "packages"@,
        spec.namespace@,
        spec.name@,
        version_text(spec.major, spec.minor, spec.patch),
    ]
}

fn digit_str(d: u32) -> (s: &'static str)
    requires
        d < 10,
    ensures
        s@ == seq![digit_char(d as nat)],
{
    proof {
        reveal_strlit("0");
        reveal_strlit("1");
        reveal_strlit("2");
        reveal_strlit("3");
        reveal_strlit("4");
        reveal_strlit("5");
        reveal_strlit("6");
        reveal_strlit("7");
        reveal_strlit("8");
        reveal_strlit("9");
    }
    if d == 0 {
        "0"
    } else if d == 1 {
        "1"
    } else if d == 2 {
        "2"
    } else if d == 3 {
        "3"
    } else if d == 4 {
        "4"
    } else if d == 5 {
        "5"
    } else if d == 6 {
        "6"
    } else if d == 7 {
        "7"
    } else if d == 8 {
        "8"
    } else {
        "9"
    }
}

/// Appends the decimal notation of `n`.
fn push_decimal(s: &mut String, n: u32)
    ensures
        final(s)@ == old(s)@ + decimal(n as nat),
    decreases n,
{
    if n >= 10 {
        push_decimal(s, n / 10);
    }
    s.append(digit_str(n % 10));
    assert(s@ =~= old(s)@ + decimal(n as nat));
}

/// The notation of a package version: `major.minor.patch`.
pub fn version_string(major: u32, minor: u32, patch: u32) -> (s: String)
    ensures
        s@ == version_text(major, minor, patch),
        s@ == decimal(major as nat) + seq!['.'] + decimal(minor as nat) + seq!['.'] + decimal(
            patch as nat,
        ),
{
    let mut s = String::new();
    push_decimal(&mut s, major);
    s.append(".");
    push_decimal(&mut s, minor);
    s.append(".");
    push_decimal(&mut s, patch);
    proof {
        reveal_strlit(".");
    }
    assert(s@ =~= version_text(major, minor, patch));
    s
}

fn clone_components(base: &Vec<String>) -> (out: Vec<String>)
    ensures
        string_views(out@) == string_views(base@),
{
    let mut out: Vec<String> = Vec::new();
    let mut i: usize = 0;
    while i < base.len()
        invariant
            i <= base@.len(),
            string_views(out@) =~= string_views(base@.subrange(0, i as int)),
        decreases base@.len() - i,
    {
        out.push(base[i].clone());
        i = i + 1;
        assert(string_views(base@.subrange(0, i as int)) =~= string_views(
            base@.subrange(0, i - 1),
        ).push(base@[i - 1]@));
    }
    assert(base@.subrange(0, base@.len() as int) =~= base@);
    out
}

/// The directory in which a package is looked up below `base`.
pub fn package_dir_under(base: &Vec<String>, spec: &PackageSpec) -> (dir: Vec<String>)
    ensures
        string_views(dir@) == package_dir_in(string_views(base@), *spec),
        string_views(dir@) == string_views(base@) + seq![
            "packages"@,
            spec.namespace@,
            spec.name@,
            version_text(spec.major, spec.minor, spec.patch),
        ],
{
    let mut dir = clone_components(base);
    let packages = "packages".to_string();
    dir.push(packages);
    dir.push(spec.namespace.clone());
    dir.push(spec.name.clone());
    dir.push(version_string(spec.major, spec.minor, spec.patch));
    assert(string_views(dir@) =~= package_dir_in(string_views(base@), *spec));
    dir
}

/// The directories in which a package is looked up, in order: below the data
/// directory first, then below the cache directory.
pub fn package_dir_candidates(spec: &PackageSpec, data_dir: &Vec<String>, cache_dir: &Vec<String>) -> (dirs: Vec<Vec<String>>)
    ensures
        dirs@.len() == 2,
        string_views(dirs@[0]@) == package_dir_in(string_views(data_dir@), *spec),
        string_views(dirs@[1]@) == package_dir_in(string_views(cache_dir@), *spec),
{
    let mut dirs: Vec<Vec<String>> = Vec::new();
    dirs.push(package_dir_under(data_dir, spec));
    dirs.push(package_dir_under(cache_dir, spec));
    dirs
}

/// The index of the first `true` in `flags` at or after `from`.
pub open spec fn first_true_from(flags: Seq<bool>, from: int) -> Option<int>
    decreases flags.len() + 1 - from,
{
    if from < 0 || from >= flags.len() {
        None
    } else if flags[from] {
        Some(from)
    } else {
        first_true_from(flags, from + 1)
    }
}

/// `first_true_from` finds the first `true` at or after `from`: a found index
/// holds `true` and every index before it from `from` on holds `false`; none
/// is found only when every flag from `from` on is `false`.
pub proof fn lemma_first_true_from(flags: Seq<bool>, from: int)
    requires
        0 <= from,
    ensures
        match first_true_from(flags, from) {
            Some(i) => from <= i < flags.len() && flags[i] && (forall|k: int|
                from <= k < i ==> !flags[k]),
            None => forall|k: int| from <= k < flags.len() ==> !flags[k],
        },
    decreases flags.len() + 1 - from,
{
    if from < flags.len() && !flags[from] {
        lemma_first_true_from(flags, from + 1);
    }
}

/// Resolves a package to the first of its candidate directories that exists
/// as a directory, `exists[i]` telling whether `candidates[i]` does.
pub fn package_dir_for(candidates: Vec<Vec<String>>, exists: &Vec<bool>) -> (dir: Option<Vec<String>>)
    requires
        candidates@.len() == exists@.len(),
    ensures
        match first_true_from(exists@, 0) {
            Some(i) => dir == Some(candidates@[i]),
            None => dir is None,
        },
        dir is Some ==> (exists|i: int|
            0 <= i < exists@.len() && exists@[i] && (forall|k: int| 0 <= k < i ==> !exists@[k])
                && dir == Some(candidates@[i])),
        dir is None <==> (forall|k: int| 0 <= k < exists@.len() ==> !exists@[k]),
        exists@.len() > 0 && exists@[0] ==> dir == Some(candidates@[0]),
{
    proof {
        lemma_first_true_from(exists@, 0);
    }
    let mut rest = candidates;
    let ghost given = rest@;
    let mut i: usize = 0;
    while i < exists.len()
        invariant
            i <= exists@.len(),
            given.len() == exists@.len(),
            given == candidates@,
            rest@.len() == exists@.len() - i,
            forall|k: int| 0 <= k < rest@.len() ==> rest@[k] == given[k + i],
            first_true_from(exists@, 0) == first_true_from(exists@, i as int),
        decreases exists@.len() - i,
    {
        let d = rest.remove(0);
        if exists[i] {
            assert(d == given[i as int]);
            assert(first_true_from(exists@, i as int) == Some(i as int));
            proof {
                lemma_first_true_from(exists@, 0);
            }
            assert(exists@[i as int] && Some(d) == Some(candidates@[i as int]));
            return Some(d);
        }
        i = i + 1;
    }
    None
}

} // verus!
