use portage_use::flags::{collect_use_flags, parse_use_flag, UseFlagState};
use portage_use::name_map::NameMap;

#[test]
fn dash_disables_and_is_stripped() {
    assert_eq!(parse_use_flag("-minimal"), ("minimal", UseFlagState::Disabled));
}

#[test]
fn plain_token_enables() {
    assert_eq!(parse_use_flag("sqlite"), ("sqlite", UseFlagState::Enabled));
}

#[test]
fn only_one_dash_is_stripped() {
    assert_eq!(parse_use_flag("--x"), ("-x", UseFlagState::Disabled));
    assert_eq!(parse_use_flag("-"), ("", UseFlagState::Disabled));
}

#[test]
fn dash_inside_a_flag_is_kept() {
    assert_eq!(parse_use_flag("a-b"), ("a-b", UseFlagState::Enabled));
    assert_eq!(parse_use_flag("+x"), ("+x", UseFlagState::Enabled));
}

#[test]
fn non_ascii_flag() {
    assert_eq!(parse_use_flag("-é"), ("é", UseFlagState::Disabled));
    assert_eq!(parse_use_flag("é-"), ("é-", UseFlagState::Enabled));
}

#[test]
fn collects_flags_after_the_atom() {
    let tokens = vec!["atom", "a", "-b", "c"];
    let flags = collect_use_flags(&tokens, 1);
    assert_eq!(flags.len(), 3);
    assert_eq!(flags.get("a"), Some(&UseFlagState::Enabled));
    assert_eq!(flags.get("b"), Some(&UseFlagState::Disabled));
    assert_eq!(flags.get("c"), Some(&UseFlagState::Enabled));
    assert_eq!(flags.get("atom"), None);
    assert_eq!(flags.get("-b"), None);
}

#[test]
fn later_token_for_a_flag_replaces_the_earlier() {
    let tokens = vec!["x", "-x", "y", "x"];
    let flags = collect_use_flags(&tokens, 0);
    assert_eq!(flags.len(), 2);
    assert_eq!(flags.get("x"), Some(&UseFlagState::Enabled));
    assert_eq!(flags.get("y"), Some(&UseFlagState::Enabled));
    let tokens = vec!["x", "-x"];
    let flags = collect_use_flags(&tokens, 0);
    assert_eq!(flags.len(), 1);
    assert_eq!(flags.get("x"), Some(&UseFlagState::Disabled));
}

#[test]
fn collecting_from_the_end_gives_no_flags() {
    let tokens = vec!["a", "b"];
    let flags = collect_use_flags(&tokens, 2);
    assert_eq!(flags.len(), 0);
    assert!(!flags.contains_key("a"));
}

#[test]
fn name_map_insert_get_len() {
    let mut m: NameMap<u32> = NameMap::new();
    assert_eq!(m.len(), 0);
    assert_eq!(m.get("a"), None);
    m.insert(String::from("a"), 1);
    m.insert(String::from("b"), 2);
    assert_eq!(m.len(), 2);
    assert_eq!(m.get("a"), Some(&1));
    assert_eq!(m.get("b"), Some(&2));
    assert!(m.contains_key("a"));
    assert!(!m.contains_key("c"));
    m.insert(String::from("a"), 3);
    assert_eq!(m.len(), 2);
    assert_eq!(m.get("a"), Some(&3));
    assert_eq!(m.get("b"), Some(&2));
}

#[test]
fn name_map_keys_are_whole_strings() {
    let mut m: NameMap<u32> = NameMap::new();
    m.insert(String::from(""), 0);
    m.insert(String::from("ab"), 1);
    assert_eq!(m.get(""), Some(&0));
    assert_eq!(m.get("a"), None);
    assert_eq!(m.get("abc"), None);
    assert_eq!(m.get("ab"), Some(&1));
}

#[test]
fn name_map_keys_lists_each_name_once() {
    let mut m: NameMap<u32> = NameMap::new();
    assert_eq!(m.keys(), Vec::<&str>::new());
    m.insert(String::from("b"), 1);
    m.insert(String::from("a"), 2);
    m.insert(String::from("b"), 3);
    let mut keys = m.keys();
    keys.sort();
    assert_eq!(keys, vec!["a", "b"]);
}
