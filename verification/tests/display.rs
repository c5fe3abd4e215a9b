use deploy_utils::display::{
    display_command_arg, display_command_args, get_max_width, indent, is_whitespace, join_strings,
    pad, table, Piece, Style,
};

fn strings(v: &[&str]) -> Vec<String> {
    v.iter().map(|s| s.to_string()).collect()
}

fn plain(pieces: &[Piece]) -> String {
    pieces.iter().map(|p| p.text.as_str()).collect()
}

#[test]
fn indent_every_line() {
    assert_eq!(indent(2, "a\nb"), "  a\n  b");
    assert_eq!(indent(4, "one\r\ntwo\n"), "    one\n    two");
    assert_eq!(indent(1, ""), "");
    assert_eq!(indent(3, "\n"), "   ");
    assert_eq!(indent(2, "x\ry"), "  x\ry");
    assert_eq!(indent(0, "a\n\nb"), "a\n\nb");
}

#[test]
fn command_args_are_quoted_when_needed() {
    assert_eq!(display_command_arg("nix"), "nix");
    assert_eq!(display_command_arg("--json"), "--json");
    assert_eq!(display_command_arg("--flake=.#x"), "--flake=.#x");
    assert_eq!(display_command_arg(""), "\"\"");
    assert_eq!(display_command_arg("a b"), "\"a b\"");
    assert_eq!(display_command_arg("it's"), "\"it's\"");
    assert_eq!(display_command_arg("tab\there"), "\"tab\\there\"");
    assert_eq!(display_command_arg("héllo"), "héllo");
    assert_eq!(
        display_command_args(&strings(&["nix", "eval", "a b", ""])),
        "nix eval \"a b\" \"\""
    );
    assert_eq!(display_command_args(&Vec::new()), "");
}

#[test]
fn max_width_counts_columns() {
    assert_eq!(get_max_width(&Vec::new()), 0);
    assert_eq!(get_max_width(&strings(&["ab", "abcd", "a"])), 4);
    assert_eq!(get_max_width(&strings(&["日本", "abc"])), 4);
}

#[test]
fn padding_and_joining() {
    assert_eq!(pad("ab", 4), "ab  ");
    assert_eq!(pad("abcdef", 4), "abcdef");
    assert_eq!(join_strings(&strings(&["a", "b", "c"]), ", "), "a, b, c");
    assert_eq!(join_strings(&Vec::new(), ", "), "");
}

#[test]
fn whitespace_characters() {
    for c in [' ', '\t', '\n', '\r', '\u{b}', '\u{c}', '\u{85}', '\u{a0}', '\u{2003}', '\u{3000}'] {
        assert!(is_whitespace(c), "{c:?}");
        assert_eq!(is_whitespace(c), c.is_whitespace());
    }
    for c in ['a', '0', '_', '\u{200b}', '\u{180e}'] {
        assert!(!is_whitespace(c), "{c:?}");
        assert_eq!(is_whitespace(c), c.is_whitespace());
    }
}

#[test]
fn table_layout() {
    let row = |t: &str| vec![Piece { style: Style::Plain, text: t.to_string() }];
    let groups = vec![
        ("web".to_string(), vec![row("one"), row("two")]),
        ("db".to_string(), vec![]),
        ("a".to_string(), vec![row("three")]),
    ];
    let out = table("Header:".to_string(), &groups, 4);
    assert_eq!(out[0].style, Style::Header);
    assert_eq!(
        plain(&out),
        "Header:\n  web  one\n       two\n  a    three\n"
    );
}
