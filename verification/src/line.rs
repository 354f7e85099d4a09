//! One line of a `package.use` file: trimming, comments, tokens, and the
//! directive that the line holds.

use vstd::prelude::*;
use crate::constraint::{constraint_of, get_version_constraint};
use crate::flags::{collect_use_flags, flags_of, token_views};
use crate::package::{package_of, ConstraintView, PackageConstraint, PortagePackage};
use crate::text::to_chars;

verus! {

/// Whether `c` has the Unicode property `White_Space`, as
/// `char::is_whitespace` of the standard library reports it.
pub uninterp spec fn is_white_space(c: char) -> bool;

/// Calls `char::is_whitespace`. The contract only gives the answer its
/// name: which characters count as whitespace is left to the standard
/// library and is not proved here.
#[verifier::external_body]
fn is_whitespace(c: char) -> (b: bool)
    ensures
        b == is_white_space(c),
{
    c.is_whitespace()
}

/// The index at which the run of whitespace that starts at `from` ends.
pub open spec fn leading_space_end(s: Seq<char>, from: int) -> int
    decreases s.len() - from,
{
    if 0 <= from < s.len() && is_white_space(s[from]) {
        leading_space_end(s, from + 1)
    } else {
        from
    }
}

/// The index at which the run of whitespace that ends before `to` starts.
pub open spec fn trailing_space_start(s: Seq<char>, to: int) -> int
    decreases to,
{
    if 0 < to <= s.len() && is_white_space(s[to - 1]) {
        trailing_space_start(s, to - 1)
    } else {
        to
    }
}

/// `s` without the whitespace at its two ends.
pub open spec fn trimmed(s: Seq<char>) -> Seq<char> {
    let a = leading_space_end(s, 0);
    let b = trailing_space_start(s, s.len() as int);
    if a < b {
        s.subrange(a, b)
    } else {
        Seq::empty()
    }
}

/// The least index at or after `from` at which `s` holds `c`, or the
/// length of `s` where it holds none.
pub open spec fn find_char(s: Seq<char>, c: char, from: int) -> int
    decreases s.len() - from,
{
    if from < 0 || from >= s.len() {
        s.len() as int
    } else if s[from] == c {
        from
    } else {
        find_char(s, c, from + 1)
    }
}

/// `find_char` gives an index that holds `c` unless it gives the length,
/// and no index between `from` and it holds `c`.
pub proof fn lemma_find_char(s: Seq<char>, c: char, from: int)
    requires
        0 <= from <= s.len(),
    ensures
        from <= find_char(s, c, from) <= s.len(),
        find_char(s, c, from) < s.len() ==> s[find_char(s, c, from)] == c,
        forall|j: int| from <= j < find_char(s, c, from) ==> #[trigger] s[j] != c,
    decreases s.len() - from,
{
    if from < s.len() && s[from] != c {
        lemma_find_char(s, c, from + 1);
    }
}

/// What stands before the first `#` of `s`: the line without its comment.
pub open spec fn strip_comment(s: Seq<char>) -> Seq<char> {
    s.subrange(0, find_char(s, '#', 0))
}

/// The pieces of `s` between single spaces, the empty ones left out.
pub open spec fn tokens(s: Seq<char>) -> Seq<Seq<char>>
    decreases s.len(),
{
    if s.len() == 0 {
        Seq::empty()
    } else if s[0] == ' ' {
        tokens(s.drop_first())
    } else {
        let end = find_char(s, ' ', 0);
        proof {
            lemma_find_char(s, ' ', 0);
        }
        seq![s.subrange(0, end)] + tokens(s.subrange(end, s.len() as int))
    }
}

/// What a line declares, once the whitespace at its ends is gone: nothing
/// where fewer than two tokens stand before the comment, else the package
/// and operator of the first token and the flags of the others.
pub open spec fn directive_of(s: Seq<char>) -> Option<ConstraintView> {
    let ts = tokens(strip_comment(s));
    if ts.len() < 2 {
        None
    } else {
        Some(
            ConstraintView {
                package: package_of(ts[0]),
                version_constraint: constraint_of(ts[0]),
                use_flags: flags_of(ts.subrange(1, ts.len() as int)),
            },
        )
    }
}

/// What a line of the file declares.
pub open spec fn line_entry(line: Seq<char>) -> Option<ConstraintView> {
    directive_of(trimmed(line))
}

/// Removes the whitespace at both ends of `s`.
pub fn trim<'a>(s: &'a str) -> (r: &'a str)
    ensures
        r@ == trimmed(s@),
{
    let chars = to_chars(s);
    let n: usize = chars.len();
    let mut a: usize = 0;
    while a < n && is_whitespace(chars[a])
        invariant
            chars@ == s@,
            n == chars@.len(),
            a <= n,
            leading_space_end(s@, 0) == leading_space_end(s@, a as int),
        decreases n - a,
    {
        a = a + 1;
    }
    let mut b: usize = n;
    while b > 0 && is_whitespace(chars[b - 1])
        invariant
            chars@ == s@,
            n == chars@.len(),
            b <= n,
            trailing_space_start(s@, n as int) == trailing_space_start(s@, b as int),
        decreases b,
    {
        b = b - 1;
    }
    if a < b {
        s.substring_char(a, b)
    } else {
        s.substring_char(0, 0)
    }
}

/// Cuts `s` off at its first `#`.
pub fn remove_comment<'a>(s: &'a str) -> (r: &'a str)
    ensures
        r@ == strip_comment(s@),
{
    let chars = to_chars(s);
    let n: usize = chars.len();
    let mut i: usize = 0;
    while i < n && chars[i] != '#'
        invariant
            chars@ == s@,
            n == chars@.len(),
            i <= n,
            find_char(s@, '#', 0) == find_char(s@, '#', i as int),
        decreases n - i,
    {
        i = i + 1;
    }
    s.substring_char(0, i)
}

/// Splits `s` at single spaces and drops the empty pieces.
pub fn tokenize<'a>(s: &'a str) -> (ts: Vec<&'a str>)
    ensures
        token_views(ts@) == tokens(s@),
{
    let chars = to_chars(s);
    let n: usize = chars.len();
    let mut ts: Vec<&'a str> = Vec::new();
    let mut i: usize = 0;
    assert(s@.subrange(0, n as int) == s@);
    while i < n
        invariant
            chars@ == s@,
            n == chars@.len(),
            i <= n,
            token_views(ts@) + tokens(s@.subrange(i as int, n as int)) == tokens(s@),
        decreases n - i,
    {
        let ghost rest = s@.subrange(i as int, n as int);
        if chars[i] == ' ' {
            assert(rest.drop_first() == s@.subrange(i + 1, n as int));
            i = i + 1;
        } else {
            let start: usize = i;
            while i < n && chars[i] != ' '
                invariant
                    chars@ == s@,
                    n == chars@.len(),
                    start <= i <= n,
                    rest == s@.subrange(start as int, n as int),
                    find_char(rest, ' ', 0) == find_char(rest, ' ', i - start),
                decreases n - i,
            {
                i = i + 1;
            }
            let token = s.substring_char(start, i);
            proof {
                let end = find_char(rest, ' ', 0);
                assert(token@ == rest.subrange(0, end));
                assert(rest.subrange(end, rest.len() as int) == s@.subrange(i as int, n as int));
            }
            ts.push(token);
        }
    }
    ts
}

/// Reads the directive on a line as it stands, whitespace at its ends
/// included. A line with fewer than two tokens before its comment
/// declares nothing.
pub fn parse_directive(line: &str) -> (r: Option<PackageConstraint>)
    ensures
        r is Some == directive_of(line@) is Some,
        r is Some ==> Some(r->Some_0@) == directive_of(line@),
{
    let body = remove_comment(line);
    let ts = tokenize(body);
    if ts.len() <= 1 {
        return None;
    }
    let version_constraint = get_version_constraint(ts[0]);
    let package = PortagePackage::from(ts[0]).unwrap();
    let use_flags = collect_use_flags(&ts, 1);
    Some(PackageConstraint { package, version_constraint, use_flags })
}

/// Reads the directive on a line of the file.
pub fn parse_line(line: &str) -> (r: Option<PackageConstraint>)
    ensures
        r is Some == line_entry(line@) is Some,
        r is Some ==> Some(r->Some_0@) == line_entry(line@),
{
    parse_directive(trim(line))
}

} // verus!
