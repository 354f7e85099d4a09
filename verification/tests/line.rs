use portage_use::constraint::VersionConstraint;
use portage_use::flags::UseFlagState;
use portage_use::line::{parse_directive, parse_line, remove_comment, tokenize, trim};

#[test]
fn trim_removes_whitespace_at_both_ends() {
    assert_eq!(trim("  foo bar \t\r\n"), "foo bar");
    assert_eq!(trim("foo"), "foo");
    assert_eq!(trim("\tfoo"), "foo");
    assert_eq!(trim("foo\n"), "foo");
}

#[test]
fn trim_of_blank_text_is_empty() {
    assert_eq!(trim(""), "");
    assert_eq!(trim("   "), "");
    assert_eq!(trim(" \t \n"), "");
}

#[test]
fn trim_keeps_inner_whitespace() {
    assert_eq!(trim(" a \t b "), "a \t b");
}

#[test]
fn trim_knows_unicode_whitespace() {
    assert_eq!(trim("\u{3000}foo\u{a0}"), "foo");
    assert_eq!(trim("\u{2003}é x\u{2028}"), "é x");
    assert_eq!(trim("\u{200b}foo"), "\u{200b}foo");
}

#[test]
fn trim_agrees_with_the_standard_library() {
    for s in ["", " ", "a", " a", "a ", " a b ", "\t\u{a0}a\u{3000}\n", "é ", "\u{200b}"] {
        assert_eq!(trim(s), s.trim());
    }
}

#[test]
fn comment_is_cut_at_the_first_hash() {
    assert_eq!(remove_comment("foo bar # baz"), "foo bar ");
    assert_eq!(remove_comment("foo#bar#baz"), "foo");
    assert_eq!(remove_comment("# only"), "");
    assert_eq!(remove_comment("#"), "");
    assert_eq!(remove_comment("no comment"), "no comment");
    assert_eq!(remove_comment(""), "");
    assert_eq!(remove_comment("é#é"), "é");
}

#[test]
fn tokens_are_split_at_single_spaces() {
    assert_eq!(tokenize("a b c"), vec!["a", "b", "c"]);
    assert_eq!(tokenize("abc"), vec!["abc"]);
}

#[test]
fn empty_tokens_are_dropped() {
    assert_eq!(tokenize("a  b"), vec!["a", "b"]);
    assert_eq!(tokenize("  a   b  "), vec!["a", "b"]);
    assert_eq!(tokenize(""), Vec::<&str>::new());
    assert_eq!(tokenize("   "), Vec::<&str>::new());
}

#[test]
fn only_the_space_character_separates() {
    assert_eq!(tokenize("a\tb c"), vec!["a\tb", "c"]);
    assert_eq!(tokenize("a\u{a0}b"), vec!["a\u{a0}b"]);
    assert_eq!(tokenize("é ü"), vec!["é", "ü"]);
}

#[test]
fn directive_with_disabled_flag() {
    let c = parse_line("app-editors/vim -minimal").unwrap();
    assert_eq!(c.package.name, "app-editors/vim");
    assert_eq!(c.package.version, None);
    assert_eq!(c.version_constraint, None);
    assert_eq!(c.use_flags.len(), 1);
    assert_eq!(c.use_flags.get("minimal"), Some(&UseFlagState::Disabled));
}

#[test]
fn directive_with_operator_and_version() {
    let c = parse_line(">=dev-lang/python-3.10 sqlite ssl").unwrap();
    assert_eq!(c.package.name, "dev-lang/python");
    assert_eq!(c.package.version, Some(String::from("3.10")));
    assert_eq!(c.version_constraint, Some(VersionConstraint::GreaterEqual));
    assert_eq!(c.use_flags.len(), 2);
    assert_eq!(c.use_flags.get("sqlite"), Some(&UseFlagState::Enabled));
    assert_eq!(c.use_flags.get("ssl"), Some(&UseFlagState::Enabled));
}

#[test]
fn comment_only_line_declares_nothing() {
    assert!(parse_line("# comment only").is_none());
    assert!(parse_line("#").is_none());
    assert!(parse_line("   # indented").is_none());
    assert!(parse_line("#foo bar").is_none());
}

#[test]
fn blank_line_declares_nothing() {
    assert!(parse_line("").is_none());
    assert!(parse_line("   ").is_none());
    assert!(parse_line("\t\r\n").is_none());
}

#[test]
fn single_token_declares_nothing() {
    assert!(parse_line("pkg-name").is_none());
    assert!(parse_line("  pkg-name  ").is_none());
    assert!(parse_line("pkg-name # flag1").is_none());
    assert!(parse_line("pkg-name#flag1 flag2").is_none());
}

#[test]
fn trailing_comment_is_excluded() {
    let c = parse_line("pkg-name flag1 # trailing comment").unwrap();
    assert_eq!(c.package.name, "pkg-name");
    assert_eq!(c.package.version, None);
    assert_eq!(c.version_constraint, None);
    assert_eq!(c.use_flags.len(), 1);
    assert_eq!(c.use_flags.get("flag1"), Some(&UseFlagState::Enabled));
    assert_eq!(c.use_flags.get("trailing"), None);
    assert_eq!(c.use_flags.get("comment"), None);
    assert_eq!(c.use_flags.get("#"), None);
}

#[test]
fn comment_may_start_inside_a_token() {
    let c = parse_line("foo bar#baz qux").unwrap();
    assert_eq!(c.use_flags.len(), 1);
    assert_eq!(c.use_flags.get("bar"), Some(&UseFlagState::Enabled));
}

#[test]
fn surrounding_whitespace_is_ignored() {
    let c = parse_line("\t  <=foo-1  a   -b \r\n").unwrap();
    assert_eq!(c.package.name, "foo");
    assert_eq!(c.package.version, Some(String::from("1")));
    assert_eq!(c.version_constraint, Some(VersionConstraint::LessEqual));
    assert_eq!(c.use_flags.len(), 2);
    assert_eq!(c.use_flags.get("a"), Some(&UseFlagState::Enabled));
    assert_eq!(c.use_flags.get("b"), Some(&UseFlagState::Disabled));
}

#[test]
fn unicode_whitespace_around_a_line_is_trimmed() {
    let c = parse_line("\u{3000}foo bar\u{a0}").unwrap();
    assert_eq!(c.package.name, "foo");
    assert_eq!(c.use_flags.len(), 1);
    assert_eq!(c.use_flags.get("bar"), Some(&UseFlagState::Enabled));
}

#[test]
fn tab_does_not_separate_tokens() {
    let c = parse_line("foo\tbar baz").unwrap();
    assert_eq!(c.package.name, "foo\tbar");
    assert_eq!(c.use_flags.len(), 1);
    assert_eq!(c.use_flags.get("baz"), Some(&UseFlagState::Enabled));
    assert!(parse_line("foo\tbar").is_none());
}

#[test]
fn whitespace_before_a_comment_is_not_trimmed_again() {
    let c = parse_line("foo bar\t# note").unwrap();
    assert_eq!(c.use_flags.len(), 1);
    assert_eq!(c.use_flags.get("bar\t"), Some(&UseFlagState::Enabled));
    assert_eq!(c.use_flags.get("bar"), None);
}

#[test]
fn each_operator_is_recorded() {
    let cases = [
        ("<foo-1 x", Some(VersionConstraint::LessThan)),
        ("<=foo-1 x", Some(VersionConstraint::LessEqual)),
        ("=foo-1 x", Some(VersionConstraint::EqualTo)),
        (">foo-1 x", Some(VersionConstraint::GreaterThan)),
        (">=foo-1 x", Some(VersionConstraint::GreaterEqual)),
        ("foo-1 x", None),
    ];
    for (line, expected) in cases {
        let c = parse_line(line).unwrap();
        assert_eq!(c.version_constraint, expected);
        assert_eq!(c.package.name, "foo");
        assert_eq!(c.package.version, Some(String::from("1")));
    }
}

#[test]
fn last_flag_on_a_line_wins() {
    let c = parse_line("foo bar -bar").unwrap();
    assert_eq!(c.use_flags.len(), 1);
    assert_eq!(c.use_flags.get("bar"), Some(&UseFlagState::Disabled));
    let c = parse_line("foo -bar bar").unwrap();
    assert_eq!(c.use_flags.len(), 1);
    assert_eq!(c.use_flags.get("bar"), Some(&UseFlagState::Enabled));
}

#[test]
fn lone_dash_is_a_flag_with_an_empty_name() {
    let c = parse_line("foo -").unwrap();
    assert_eq!(c.use_flags.len(), 1);
    assert_eq!(c.use_flags.get(""), Some(&UseFlagState::Disabled));
}

#[test]
fn directive_does_not_trim() {
    let c = parse_directive("foo bar").unwrap();
    assert_eq!(c.package.name, "foo");
    assert_eq!(c.use_flags.get("bar"), Some(&UseFlagState::Enabled));
    let c = parse_directive("\tfoo bar").unwrap();
    assert_eq!(c.package.name, "\tfoo");
    assert!(parse_directive("foo").is_none());
    assert!(parse_directive("").is_none());
    assert!(parse_directive("foo # bar").is_none());
}

#[test]
fn parsing_a_line_twice_gives_the_same() {
    let a = parse_line(">=foo-1.2 a -b").unwrap();
    let b = parse_line(">=foo-1.2 a -b").unwrap();
    assert_eq!(a.package.name, b.package.name);
    assert_eq!(a.package.version, b.package.version);
    assert_eq!(a.version_constraint, b.version_constraint);
    assert_eq!(a.use_flags.len(), b.use_flags.len());
    assert_eq!(a.use_flags.get("a"), b.use_flags.get("a"));
    assert_eq!(a.use_flags.get("b"), b.use_flags.get("b"));
}
