use std::str::FromStr;

use deploy_utils::target::{ParseError, Target};

#[test]
fn parse_cli_arg() {
    let cases: [(&str, (&str, Option<&str>)); _] = [
        // simple
        ("a", ("a", None)),
        ("foo.bar", ("foo", Some("bar"))),
        // quoting
        (r#""foo""#, ("foo", None)),
        (r#"f"o"o"#, ("foo", None)),
        (r#""foo.bar""#, ("foo.bar", None)),
        (r#"foo."bar.baz""#, ("foo", Some("bar.baz"))),
        (r#"foo.bar"."baz"#, ("foo", Some("bar.baz"))),
        (r#"".foo"."bar.""#, (".foo", Some("bar."))),
        // empty
        (r#""""#, ("", None)),
        (r#"""."""#, ("", Some(""))),
    ];

    for (input, expected) in cases {
        let parsed = Target::from_str(input);
        let expected = Target {
            node: expected.0.to_owned(),
            profile: expected.1.map(str::to_owned),
        };
        assert_eq!(
            Ok(expected),
            parsed,
            "{input:?}: unexpected result of Target::from_str"
        );
    }
}

#[test]
fn parse_cli_arg_errors() {
    let cases: [(&str, ParseError); _] = [
        (".", ParseError::LeadingDot),
        (".foo", ParseError::LeadingDot),
        ("..", ParseError::LeadingDot),
        ("foo.", ParseError::TrailingDot),
        ("foo.bar.", ParseError::TrailingDot),
        ("foo..", ParseError::ConsecutiveDots),
        ("foo..bar", ParseError::ConsecutiveDots),
        ("foo.bar..", ParseError::ConsecutiveDots),
        (r#"""#, ParseError::NoClosingQuote),
        (r#"foo."bar"#, ParseError::NoClosingQuote),
        (r#""foo".bar""#, ParseError::NoClosingQuote),
        ("", ParseError::EmptyPath),
        ("foo.bar.baz", ParseError::TooManyComponents),
        ("foo.bar.baz.quux", ParseError::TooManyComponents),
    ];

    for (input, expected) in cases {
        let result = Target::from_str(input);
        assert_eq!(
            Err(expected),
            result,
            "{input:?}: unexpected result of Target::from_str"
        );
    }
}

#[test]
fn target_getters() {
    let t = Target::parse("web.system").unwrap();
    assert_eq!(t.node(), "web");
    assert_eq!(t.profile(), Some("system"));
    let t = Target::parse("web").unwrap();
    assert_eq!(t.profile(), None);
}

#[test]
fn parse_error_messages() {
    assert_eq!(
        ParseError::TooManyComponents.message(),
        "attribute paths can contain at most 2 components \
        (attribute names containing dots must be quoted)"
    );
    assert_eq!(
        ParseError::NoClosingQuote.message(),
        "missing closing quote in attribute path"
    );
    assert_eq!(
        ParseError::LeadingDot.message(),
        "leading dots are not allowed in attribute paths \
        (empty attribute names must be quoted)"
    );
}
