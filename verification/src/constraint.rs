//! The relational operator that may stand in front of a package atom.

use vstd::prelude::*;

verus! {

/// How the version named in an atom relates to the versions it selects.
#[derive(Clone, Copy, Debug, PartialEq, Eq, Structural)]
pub enum VersionConstraint {
    NoConstraint,
    LessThan,
    LessEqual,
    EqualTo,
    GreaterThan,
    GreaterEqual,
}

/// Whether `s` begins with the characters of `prefix`.
pub open spec fn has_prefix(s: Seq<char>, prefix: Seq<char>) -> bool {
    prefix.len() <= s.len() && s.subrange(0, prefix.len() as int) == prefix
}

/// The operator that a token begins with, if any. The two-character
/// operators are looked for before their one-character beginnings.
pub open spec fn constraint_of(s: Seq<char>) -> Option<VersionConstraint> {
    if s.len() >= 2 && s[0] == '<' && s[1] == '=' {
        Some(VersionConstraint::LessEqual)
    } else if s.len() >= 1 && s[0] == '<' {
        Some(VersionConstraint::LessThan)
    } else if s.len() >= 2 && s[0] == '>' && s[1] == '=' {
        Some(VersionConstraint::GreaterEqual)
    } else if s.len() >= 1 && s[0] == '>' {
        Some(VersionConstraint::GreaterThan)
    } else if s.len() >= 1 && s[0] == '=' {
        Some(VersionConstraint::EqualTo)
    } else {
        None
    }
}

/// Detects the relational operator at the very start of `s`. Nothing is
/// skipped before it and the token is left as it is.
pub fn get_version_constraint(s: &str) -> (r: Option<VersionConstraint>)
    ensures
        r == constraint_of(s@),
{
    let n: usize = s.unicode_len();
    if n == 0 {
        return None;
    }
    let c0: char = s.get_char(0);
    if c0 == '<' {
        if n >= 2 && s.get_char(1) == '=' {
            Some(VersionConstraint::LessEqual)
        } else {
            Some(VersionConstraint::LessThan)
        }
    } else if c0 == '>' {
        if n >= 2 && s.get_char(1) == '=' {
            Some(VersionConstraint::GreaterEqual)
        } else {
            Some(VersionConstraint::GreaterThan)
        }
    } else if c0 == '=' {
        Some(VersionConstraint::EqualTo)
    } else {
        None
    }
}

/// A token is given the operator that it begins with, and nothing else
/// about the token matters. `<=` and `>=` are read whole: a token that
/// begins with one of them is never given `<` or `>`.
pub proof fn lemma_constraint_by_prefix(t: Seq<char>)
    ensures
        has_prefix(t, seq!['<', '=']) <==> constraint_of(t) == Some(VersionConstraint::LessEqual),
        has_prefix(t, seq!['<']) && !has_prefix(t, seq!['<', '=']) <==> constraint_of(t) == Some(
            VersionConstraint::LessThan,
        ),
        has_prefix(t, seq!['>', '=']) <==> constraint_of(t) == Some(
            VersionConstraint::GreaterEqual,
        ),
        has_prefix(t, seq!['>']) && !has_prefix(t, seq!['>', '=']) <==> constraint_of(t) == Some(
            VersionConstraint::GreaterThan,
        ),
        has_prefix(t, seq!['=']) <==> constraint_of(t) == Some(VersionConstraint::EqualTo),
        !has_prefix(t, seq!['<']) && !has_prefix(t, seq!['>']) && !has_prefix(t, seq!['='])
            <==> constraint_of(t) is None,
{
    lemma_prefix_one(t, '<');
    lemma_prefix_one(t, '>');
    lemma_prefix_one(t, '=');
    lemma_prefix_two(t, '<', '=');
    lemma_prefix_two(t, '>', '=');
}

/// To begin with the one character `a` is to hold it at index 0.
proof fn lemma_prefix_one(t: Seq<char>, a: char)
    ensures
        has_prefix(t, seq![a]) <==> t.len() >= 1 && t[0] == a,
{
    if t.len() >= 1 {
        if t[0] == a {
            assert(t.subrange(0, 1) =~= seq![a]);
        } else {
            assert(t.subrange(0, 1)[0] == t[0]);
        }
    }
}

/// To begin with the two characters `a`, `b` is to hold them at indices 0
/// and 1.
proof fn lemma_prefix_two(t: Seq<char>, a: char, b: char)
    ensures
        has_prefix(t, seq![a, b]) <==> t.len() >= 2 && t[0] == a && t[1] == b,
{
    if t.len() >= 2 {
        if t[0] == a && t[1] == b {
            assert(t.subrange(0, 2) =~= seq![a, b]);
        } else {
            assert(t.subrange(0, 2)[0] == t[0]);
            assert(t.subrange(0, 2)[1] == t[1]);
        }
    }
}

} // verus!
