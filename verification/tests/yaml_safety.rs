use praxis::yaml_safety::{
    MAX_YAML_BYTES, check_file_len, check_yaml_safety, check_yaml_size, first_line_with_alias,
    line_contains_alias, metadata_error, reject_yaml_aliases,
};

#[test]
fn reject_oversized_yaml() {
    let huge = "x".repeat(5 * 1024 * 1024);
    let err = check_yaml_size(&huge).unwrap_err();
    assert!(err.to_string().contains("too large"), "should reject oversized YAML");
}

#[test]
fn accept_small_yaml() {
    check_yaml_size("a: 1\n").expect("small YAML should pass size check");
}

#[test]
fn reject_yaml_alias_bomb() {
    let err = reject_yaml_aliases("a: &a x\nb: &b [*a,*a,*a]\nlisteners: []\n");
    assert!(err.is_err(), "should reject alias nodes before parsing");
    assert!(
        err.unwrap_err().to_string().contains("alias nodes"),
        "error message should mention alias nodes"
    );
}

#[test]
fn reject_single_alias() {
    let err = reject_yaml_aliases("a: &a x\nb: *a\nlisteners: []\n");
    assert!(err.is_err(), "any alias node should be rejected");
}

#[test]
fn accept_anchor_without_alias() {
    // An anchor with no matching alias expands nothing and is allowed.
    reject_yaml_aliases("a: &a x\nlisteners: []\n").expect("unused anchor should pass");
}

#[test]
fn accept_asterisk_in_string_and_comment() {
    reject_yaml_aliases("pattern: \"a*b\"\nglob: '*.txt'\nnote: ok # *not an alias\n")
        .expect("asterisks in strings/comments are not alias nodes");
}

#[test]
fn accept_bare_asterisk_value() {
    // `*` not followed by an anchor-name char is not an alias node.
    reject_yaml_aliases("wildcard: /*\n").expect("glob-like value should pass");
}

#[test]
fn safety_check_rejects_oversized() {
    let huge = "x".repeat(5 * 1024 * 1024);
    let err = check_yaml_safety(&huge).unwrap_err();
    assert!(err.to_string().contains("too large"), "should reject oversized YAML");
}

#[test]
fn accept_yaml_at_exact_max_size() {
    let exact = "x".repeat(MAX_YAML_BYTES);
    check_yaml_size(&exact).expect("YAML at exactly MAX_YAML_BYTES should pass");
}

#[test]
fn reject_yaml_one_byte_over_max() {
    let over = "x".repeat(MAX_YAML_BYTES + 1);
    let err = check_yaml_size(&over).unwrap_err();
    assert!(err.to_string().contains("too large"), "got: {}", err.to_string());
}

#[test]
fn safety_check_passes_valid_yaml() {
    check_yaml_safety("a: 1\n").expect("valid small YAML should pass all safety checks");
}

#[test]
fn alias_check_ignores_unparseable_non_alias_yaml() {
    // No alias node present; the real parse error is reported later.
    reject_yaml_aliases("{{{{invalid yaml").expect("non-alias garbage passes the alias check");
}

#[test]
fn alias_line_number_reported() {
    let err = reject_yaml_aliases("listeners: []\nfoo: bar\nbomb: *a\n").unwrap_err();
    assert!(err.to_string().contains("line 3"), "got: {}", err.to_string());
}

#[test]
fn alias_boundaries() {
    assert!(line_contains_alias("*a"), "at the start of the line");
    assert!(line_contains_alias("[*a]"), "in a flow sequence");
    assert!(line_contains_alias("{*a"), "in a flow mapping");
    assert!(line_contains_alias("x,*1"), "after a comma, with a digit");
    assert!(line_contains_alias("k:*a"), "after a colon");
    assert!(line_contains_alias("-*a"), "after a dash");
    assert!(line_contains_alias("\t*a"), "after a tab");
    assert!(!line_contains_alias("x*a"), "inside a word");
    assert!(!line_contains_alias("* a"), "without a name");
    assert!(!line_contains_alias("*"), "at the end of the line");
    assert!(!line_contains_alias("**a"), "after another asterisk");
    assert!(!line_contains_alias(""), "on an empty line");
}

#[test]
fn quotes_and_comments_hide_asterisks() {
    assert!(!line_contains_alias("' *a'"), "in single quotes");
    assert!(!line_contains_alias("\" *a\""), "in double quotes");
    assert!(!line_contains_alias("\"' *a\""), "a quote of the other kind does not close");
    assert!(!line_contains_alias("k: 'it''s *a'"), "two single quotes stand for one");
    assert!(!line_contains_alias("k: \"x\\\" *a\""), "an escaped quote does not close");
    assert!(!line_contains_alias("{\"k\":\"v *a\"}"), "a value directly behind its key");
    assert!(!line_contains_alias("k: !t 'x *a'"), "behind a tag");
    assert!(!line_contains_alias("- - [\"*a\", '*b']"), "in nested sequences");
    assert!(!line_contains_alias("# *a"), "in a comment");
    assert!(!line_contains_alias("k: v\t# *a"), "in a comment after a tab");
    assert!(line_contains_alias("'x' *a"), "after the quotes");
    assert!(line_contains_alias("*a # b"), "before a comment");
    assert!(line_contains_alias("'#' *a"), "a quoted hash starts no comment");
}

#[test]
fn hashes_inside_scalars_start_no_comment() {
    assert!(line_contains_alias("k#1: *a"));
    assert!(line_contains_alias("[x#, *a]"));
}

#[test]
fn anchor_names_take_underscores_and_dashes() {
    assert!(line_contains_alias("b: *_a"));
    assert!(line_contains_alias("b: *-a"));
    let err = reject_yaml_aliases("a: &_a x\nb: *_a\n").unwrap_err();
    assert!(err.to_string().contains("line 2"), "got: {}", err.to_string());
}

#[test]
fn quotes_inside_plain_scalars_hide_nothing() {
    assert!(line_contains_alias("it's: *a"));
    assert!(line_contains_alias("rock 'n roll: *a # it's' "));
    assert!(line_contains_alias("{rock 'n roll: *a, b: ' x'}"));
    assert!(line_contains_alias("k: \"x\\\\\" *a \"y\""), "an escaped backslash escapes no quote");
}

#[test]
fn strings_that_the_line_does_not_close_hide_asterisks() {
    assert!(!line_contains_alias("k: \"a *b"));
    assert!(!line_contains_alias("k: 'a *b"));
    assert!(!line_contains_alias("k: \"a *b\\\""), "an escaped quote at the end");
    assert!(!line_contains_alias("k: 'x\r *a'"), "a line break inside");
    assert!(!line_contains_alias("k: \"x\u{2028}*a\""));
    reject_yaml_aliases("description: \"see *foo\n  bar\"\n").expect("a string of two lines");
}

#[test]
fn strings_are_not_followed_into_the_next_line() {
    assert!(line_contains_alias("y\", *a]"), "a quote inside a plain scalar opens nothing");
    assert!(!line_contains_alias("\", *a]"), "a quote at the start opens a string");
    assert!(!line_contains_alias("\", *a, \"y\"]"));
}

#[test]
fn plain_scalars_with_quotes_or_hashes_keep_their_asterisks() {
    assert!(!line_contains_alias("note: say 'x *y'"));
    assert!(!line_contains_alias("it's *a"));
    assert!(!line_contains_alias("b#c *d"));
    assert!(line_contains_alias("[it's, *a]"), "the scalar ends at the comma");
    assert!(line_contains_alias("[it's [*a]]"));
    assert!(line_contains_alias("foo *a"));
}

#[test]
fn quoted_values_hold_no_aliases() {
    for quote in ["'", "\""] {
        for text in ["*a", " *a", "# *a", "[*a]", ", *a \\", "x\r *a", "-*a: *b"] {
            let mut line = "key: ".to_owned();
            line.push_str(quote);
            line.push_str(text);
            line.push_str(quote);
            assert!(!line_contains_alias(&line), "{line}");
        }
    }
    assert!(!line_contains_alias("k: \"it's *a\""));
    assert!(!line_contains_alias("{[a]:\"x, *b\"}"), "directly behind a bracketed key");
    assert!(!line_contains_alias("--- \"x, *a\""), "behind a document start");
    assert!(!line_contains_alias("- ? \"x, *a\""), "behind a key mark");
}

#[test]
fn appended_text_hides_no_alias() {
    for line in ["*a", "k: *a", "[it's, *a", "'x' *a", "k:*a"] {
        assert!(line_contains_alias(line));
        for more in ["\"", "'", " # x", "]", "b", " \"", "\r", ": 'y'"] {
            let mut longer = line.to_owned();
            longer.push_str(more);
            assert!(line_contains_alias(&longer), "{longer}");
        }
    }
}

#[test]
fn every_line_break_of_yaml_is_a_boundary() {
    assert!(line_contains_alias("[&a x,\r*a]"));
    assert!(line_contains_alias("[&a x,\u{85}*a]"));
    assert!(line_contains_alias("[&a x,\u{2028}*a]"));
    assert!(line_contains_alias("[&a x, # c\u{2029}*a]"), "a comment ends at it");
    assert!(!line_contains_alias("x\u{2027}*a"), "another character is none");
    assert_eq!(first_line_with_alias("a\n[b,\r*c]\n"), Some(2));
}

#[test]
fn key_marks_are_boundaries() {
    assert!(line_contains_alias("{?*a : x}"));
    assert!(!line_contains_alias("path: /x?*a"), "inside a plain scalar");
}

#[test]
fn comments_change_nothing_behind_them() {
    for line in ["a: 1", "b: *x", "'q' [\t", "it's", "a:", ""] {
        let mut with_comment = line.to_owned();
        with_comment.push_str(" # [*y] '\"");
        assert_eq!(line_contains_alias(line), line_contains_alias(&with_comment), "{line}");
    }
}

#[test]
fn first_alias_line_is_counted_from_one() {
    assert_eq!(first_line_with_alias("*a"), Some(1));
    assert_eq!(first_line_with_alias("a\r\nb\n\n*c\n*d"), Some(4));
    assert_eq!(first_line_with_alias("a\nb\n"), None);
    assert_eq!(first_line_with_alias(""), None);
}

#[test]
fn messages_are_exact() {
    let over = "x".repeat(MAX_YAML_BYTES + 1);
    assert_eq!(
        check_yaml_size(&over).unwrap_err().to_string(),
        "YAML input too large (4194305 bytes, max 4194304)"
    );
    assert_eq!(
        check_file_len(5_000_000).unwrap_err().to_string(),
        "config file too large (5000000 bytes, max 4194304)"
    );
    assert_eq!(
        metadata_error("/etc/praxis.yaml", "not found").to_string(),
        "failed to read metadata for /etc/praxis.yaml: not found"
    );
}

#[test]
fn file_length_limit_is_inclusive() {
    assert!(check_file_len(4_194_304).is_ok());
    assert!(check_file_len(4_194_305).is_err());
    assert!(check_file_len(0).is_ok());
}

#[test]
fn size_is_measured_in_bytes() {
    // Each of these letters takes two bytes.
    let half = "\u{e9}".repeat(MAX_YAML_BYTES / 2);
    assert!(check_yaml_size(&half).is_ok());
    let over = "\u{e9}".repeat(MAX_YAML_BYTES / 2 + 1);
    assert!(check_yaml_size(&over).is_err());
}

#[test]
fn oversized_yaml_with_aliases_is_refused_for_its_size() {
    let mut huge = "*a\n".to_owned();
    huge.push_str(&"x".repeat(MAX_YAML_BYTES));
    let err = check_yaml_safety(&huge).unwrap_err();
    assert!(err.to_string().contains("too large"));
    let err = check_yaml_safety("k: *a").unwrap_err();
    assert!(err.to_string().contains("alias nodes"));
}
