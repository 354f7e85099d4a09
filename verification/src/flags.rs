//! Use-flag directives: a flag's name, with a dash before it where the
//! flag is switched off.

use vstd::prelude::*;
use crate::name_map::NameMap;

verus! {

/// Whether a use flag is switched on or off for a package.
#[derive(Clone, Copy, Debug, PartialEq, Eq, Structural)]
pub enum UseFlagState {
    Enabled,
    Disabled,
}

/// Whether a flag token switches its flag off.
pub open spec fn is_disabling(token: Seq<char>) -> bool {
    token.len() > 0 && token[0] == '-'
}

/// The flag that a token names: the token without its leading dash.
pub open spec fn flag_name(token: Seq<char>) -> Seq<char> {
    if is_disabling(token) {
        token.subrange(1, token.len() as int)
    } else {
        token
    }
}

/// The state that a token gives to its flag.
pub open spec fn flag_state(token: Seq<char>) -> UseFlagState {
    if is_disabling(token) {
        UseFlagState::Disabled
    } else {
        UseFlagState::Enabled
    }
}

/// The flags that a run of tokens sets, taken from left to right, so that
/// a later token for a flag replaces an earlier one.
pub open spec fn flags_of(tokens: Seq<Seq<char>>) -> Map<Seq<char>, UseFlagState>
    decreases tokens.len(),
{
    if tokens.len() == 0 {
        Map::empty()
    } else {
        flags_of(tokens.drop_last()).insert(flag_name(tokens.last()), flag_state(tokens.last()))
    }
}

/// Reads one flag token: its flag's name and the state it asks for.
pub fn parse_use_flag<'a>(token: &'a str) -> (r: (&'a str, UseFlagState))
    ensures
        r.0@ == flag_name(token@),
        r.1 == flag_state(token@),
{
    let n: usize = token.unicode_len();
    if n > 0 && token.get_char(0) == '-' {
        (token.substring_char(1, n), UseFlagState::Disabled)
    } else {
        (token, UseFlagState::Enabled)
    }
}

/// The views of the string slices in `tokens`.
pub open spec fn token_views(tokens: Seq<&str>) -> Seq<Seq<char>> {
    tokens.map_values(|t: &str| t@)
}

/// Collects the flags that the tokens from index `from` on set.
pub fn collect_use_flags(tokens: &Vec<&str>, from: usize) -> (flags: NameMap<UseFlagState>)
    requires
        from <= tokens.len(),
    ensures
        flags@ == flags_of(token_views(tokens@).subrange(from as int, tokens.len() as int)),
{
    let ghost views = token_views(tokens@);
    let mut flags: NameMap<UseFlagState> = NameMap::new();
    let mut i: usize = from;
    while i < tokens.len()
        invariant
            from <= i <= tokens.len(),
            views == token_views(tokens@),
            flags@ == flags_of(views.subrange(from as int, i as int)),
        decreases tokens.len() - i,
    {
        let (name, state) = parse_use_flag(tokens[i]);
        flags.insert(name.to_owned(), state);
        proof {
            let next = views.subrange(from as int, i + 1);
            assert(next.drop_last() == views.subrange(from as int, i as int));
        }
        i = i + 1;
    }
    flags
}

/// A token that begins with a dash switches off the flag named by the
/// rest of the token; any other token switches on the flag that it names
/// in full.
pub proof fn lemma_flag_token(token: Seq<char>)
    ensures
        is_disabling(token) ==> flag_state(token) == UseFlagState::Disabled && seq!['-']
            + flag_name(token) == token,
        !is_disabling(token) ==> flag_state(token) == UseFlagState::Enabled && flag_name(token)
            == token,
{
    if is_disabling(token) {
        assert(seq!['-'] + flag_name(token) =~= token);
    }
}

/// The state of a flag is the one that the last token for it asks for.
pub proof fn lemma_last_flag_token_wins(tokens: Seq<Seq<char>>, i: int)
    requires
        0 <= i < tokens.len(),
        forall|j: int| i < j < tokens.len() ==> flag_name(#[trigger] tokens[j]) != flag_name(tokens[i]),
    ensures
        flags_of(tokens).contains_key(flag_name(tokens[i])),
        flags_of(tokens)[flag_name(tokens[i])] == flag_state(tokens[i]),
    decreases tokens.len(),
{
    if i < tokens.len() - 1 {
        let front = tokens.drop_last();
        assert forall|j: int| i < j < front.len() implies flag_name(#[trigger] front[j])
            != flag_name(front[i]) by {
            assert(front[j] == tokens[j]);
        }
        lemma_last_flag_token_wins(front, i);
    }
}

} // verus!
