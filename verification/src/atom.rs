//! Splitting a package atom into the package's name and its version.

use vstd::prelude::*;
use crate::text::to_chars;

verus! {

/// The characters that may form the relational operator before an atom.
pub open spec fn is_operator_char(c: char) -> bool {
    c == '<' || c == '>' || c == '='
}

/// An ASCII decimal digit.
pub open spec fn is_digit(c: char) -> bool {
    '0' <= c && c <= '9'
}

/// The index at which the run of operator characters that starts at `from`
/// ends.
pub open spec fn operator_run_end(s: Seq<char>, from: int) -> int
    decreases s.len() - from,
{
    if 0 <= from < s.len() && is_operator_char(s[from]) {
        operator_run_end(s, from + 1)
    } else {
        from
    }
}

/// `s` without its leading operator characters.
pub open spec fn strip_operators(s: Seq<char>) -> Seq<char> {
    s.subrange(operator_run_end(s, 0), s.len() as int)
}

/// A digit at index `i` that directly follows a dash.
pub open spec fn is_boundary(s: Seq<char>, i: int) -> bool {
    1 <= i < s.len() && s[i - 1] == '-' && is_digit(s[i])
}

/// The least index at or after `from` that is a boundary, or the length of
/// `s` where there is none.
pub open spec fn first_boundary(s: Seq<char>, from: int) -> int
    decreases s.len() - from,
{
    if from >= s.len() {
        s.len() as int
    } else if is_boundary(s, from) {
        from
    } else {
        first_boundary(s, from + 1)
    }
}

/// The name in an atom: what stands before the dash of the first boundary,
/// or all that is left of the atom once its operator is taken off.
pub open spec fn atom_name(s: Seq<char>) -> Seq<char> {
    let rest = strip_operators(s);
    let b = first_boundary(rest, 0);
    if b < rest.len() {
        rest.subrange(0, b - 1)
    } else {
        rest
    }
}

/// The version in an atom: what starts at the digit of the first boundary.
pub open spec fn atom_version(s: Seq<char>) -> Option<Seq<char>> {
    let rest = strip_operators(s);
    let b = first_boundary(rest, 0);
    if b < rest.len() {
        Some(rest.subrange(b, rest.len() as int))
    } else {
        None
    }
}

/// The view of an optional string slice.
pub open spec fn opt_view(o: Option<&str>) -> Option<Seq<char>> {
    match o {
        Some(v) => Some(v@),
        None => None,
    }
}

/// `operator_run_end` ends a run made of operator characters only, and
/// stops at the first character that is none.
pub proof fn lemma_operator_run_end(s: Seq<char>, from: int)
    requires
        0 <= from <= s.len(),
    ensures
        from <= operator_run_end(s, from) <= s.len(),
        forall|j: int| from <= j < operator_run_end(s, from) ==> is_operator_char(#[trigger] s[j]),
        operator_run_end(s, from) < s.len() ==> !is_operator_char(s[operator_run_end(s, from)]),
    decreases s.len() - from,
{
    if from < s.len() && is_operator_char(s[from]) {
        lemma_operator_run_end(s, from + 1);
    }
}

/// `first_boundary` is a boundary unless it is the length, and no index
/// between `from` and it is one.
pub proof fn lemma_first_boundary(s: Seq<char>, from: int)
    requires
        0 <= from <= s.len(),
    ensures
        from <= first_boundary(s, from) <= s.len(),
        first_boundary(s, from) < s.len() ==> is_boundary(s, first_boundary(s, from)),
        forall|j: int| from <= j < first_boundary(s, from) ==> !is_boundary(s, j),
    decreases s.len() - from,
{
    if from < s.len() && !is_boundary(s, from) {
        lemma_first_boundary(s, from + 1);
    }
}

pub fn is_operator(c: char) -> (b: bool)
    ensures
        b == is_operator_char(c),
{
    c == '<' || c == '>' || c == '='
}

pub fn is_ascii_digit(c: char) -> (b: bool)
    ensures
        b == is_digit(c),
{
    '0' <= c && c <= '9'
}

/// Splits an atom into name and version. Leading operator characters are
/// dropped; the split is made at the first dash that a digit directly
/// follows. Every string is accepted.
pub fn get_package_name<'a>(s: &'a str) -> (r: Result<(&'a str, Option<&'a str>), i32>)
    ensures
        r is Ok,
        r->Ok_0.0@ == atom_name(s@),
        opt_view(r->Ok_0.1) == atom_version(s@),
{
    let chars = to_chars(s);
    let n: usize = chars.len();
    let mut k: usize = 0;
    while k < n && is_operator(chars[k])
        invariant
            chars@ == s@,
            n == chars@.len(),
            k <= n,
            operator_run_end(s@, 0) == operator_run_end(s@, k as int),
        decreases n - k,
    {
        k = k + 1;
    }
    let ghost rest = strip_operators(s@);
    let mut i: usize = k;
    while i < n
        invariant
            chars@ == s@,
            n == chars@.len(),
            k <= i <= n,
            rest == strip_operators(s@),
            rest == s@.subrange(k as int, n as int),
            first_boundary(rest, 0) == first_boundary(rest, i - k),
        decreases n - i,
    {
        if i > k && chars[i - 1] == '-' && is_ascii_digit(chars[i]) {
            let name = s.substring_char(k, i - 1);
            let version = s.substring_char(i, n);
            return Ok((name, Some(version)));
        }
        i = i + 1;
    }
    let name = s.substring_char(k, n);
    Ok((name, None))
}

/// An atom made of a name, a dash and a version that begins with a digit
/// is split at that dash, provided that the name itself holds no dash
/// with a digit right after it: the version is found whole, and the name
/// is found without the operator characters at its start. A name that
/// begins with no operator character is found as it is.
pub proof fn lemma_split_at_version(name: Seq<char>, version: Seq<char>)
    requires
        forall|i: int| !is_boundary(name, i),
        version.len() > 0,
        is_digit(version[0]),
    ensures
        atom_version(name + seq!['-'] + version) == Some(version),
        atom_name(name + seq!['-'] + version) == strip_operators(name),
        name.len() == 0 || !is_operator_char(name[0]) ==> atom_name(name + seq!['-'] + version)
            == name,
{
    let atom = name + seq!['-'] + version;
    let k = operator_run_end(name, 0);
    lemma_operator_run_end(name, 0);
    lemma_operator_run_end(atom, 0);
    // The run of operator characters ends in the atom where it ends in the
    // name: the dash after the name is no operator character.
    assert(operator_run_end(atom, 0) == k) by {
        if operator_run_end(atom, 0) > k {
            assert(is_operator_char(atom[k]));
        }
    }
    let rest = strip_operators(atom);
    let stripped = strip_operators(name);
    assert(rest =~= stripped + seq!['-'] + version);
    let d = stripped.len() as int;
    assert(is_boundary(rest, d + 1));
    lemma_first_boundary(rest, 0);
    let b = first_boundary(rest, 0);
    assert(b == d + 1) by {
        if b < d {
            assert(is_boundary(name, k + b));
        }
    }
    assert(rest.subrange(0, b - 1) =~= stripped);
    assert(rest.subrange(b, rest.len() as int) =~= version);
}

/// An atom that holds no dash with a digit right after it has no version:
/// all of it, but the operator characters at its start, is the name. One
/// that begins with no operator character is its own name.
pub proof fn lemma_no_version(atom: Seq<char>)
    requires
        forall|i: int| !is_boundary(atom, i),
    ensures
        atom_version(atom) is None,
        atom_name(atom) == strip_operators(atom),
        atom.len() == 0 || !is_operator_char(atom[0]) ==> atom_name(atom) == atom,
{
    let k = operator_run_end(atom, 0);
    lemma_operator_run_end(atom, 0);
    let rest = strip_operators(atom);
    lemma_first_boundary(rest, 0);
    let b = first_boundary(rest, 0);
    if b < rest.len() {
        assert(is_boundary(atom, k + b));
    }
}

} // verus!
