use std::cmp::Ordering::{Equal, Greater, Less};

use deploy_utils::natural_sort::{split, Component, NaturalString};

#[test]
fn ord() {
    for (l, r, exp) in [
        // equal values
        ("", "", Equal),
        ("a", "a", Equal),
        ("abc", "abc", Equal),
        ("0", "0", Equal),
        ("1", "1", Equal),
        ("123", "123", Equal),
        ("ab12", "ab12", Equal),
        ("1a2b3c", "1a2b3c", Equal),
        ("abc1234def", "abc1234def", Equal),
        ("0042", "0042", Equal),
        // empty string
        ("", "a", Less),
        ("", "1", Less),
        ("", "abc123", Less),
        ("", "123abc", Less),
        // text
        ("a", "b", Less),
        ("abc", "abd", Less),
        ("abd", "acd", Less),
        ("aa", "a", Greater),
        // numbers
        ("0", "1", Less),
        ("10", "9", Greater),
        ("6", "7", Less),
        ("123", "531", Less),
        ("534", "1234", Less),
        // text and numbers mixed
        ("a 1 b 2 c 3", "a 1 b 2 c 4", Less),
        ("a 1 b 3 c 4", "a 1 b 2 c 4", Greater),
        ("a 1 b 2 c 3", "a 1 b 2 d 3", Less),
        ("a 1 c 2 d 3", "a 1 b 2 d 3", Greater),
        // text vs numbers
        ("a", "1", Greater),
        ("a 1 b 2 c 3", "a 1 b 2 cd", Less),
        ("a 1 b 2 c 3", "a 1 b 22 c 3", Less),
        // leading zeros
        ("7", "07", Less),
        ("0042", "000042", Less),
        ("abc0042", "abc000042", Less),
    ] {
        let l = NaturalString::borrowed(l);
        let r = NaturalString::borrowed(r);

        assert_eq!(l.cmp(&r), exp, "{l:?}.cmp(&{r:?}) != {exp:?}");

        assert_eq!(
            r.cmp(&l),
            exp.reverse(),
            "Ord::cmp is not symmetric: {r:?}.cmp(&{l:?}) != {:?}",
            exp.reverse(),
        );

        if exp == Equal {
            assert_eq!(l, r, "Ord::cmp result does not match Eq::eq");
        } else {
            assert_ne!(l, r, "Ord::cmp result does not match Eq::eq");
        }
    }
}

#[test]
fn natural_order_is_transitive_on_examples() {
    let names = ["node1", "node2", "node10", "node010", "nodeA", "node"];
    for a in names {
        for b in names {
            for c in names {
                let (x, y, z) = (
                    NaturalString::borrowed(a),
                    NaturalString::borrowed(b),
                    NaturalString::borrowed(c),
                );
                if x.cmp(&y).is_lt() && y.cmp(&z).is_lt() {
                    assert!(x.cmp(&z).is_lt(), "{a} < {b} < {c}");
                }
            }
        }
    }
}

#[test]
fn owned_and_borrowed_agree() {
    let a = NaturalString::owned("host10".to_string());
    let b = NaturalString::borrowed("host10");
    assert_eq!(a.as_str(), "host10");
    assert_eq!(a.cmp(&b), std::cmp::Ordering::Equal);
    assert_eq!(a.clone().as_str(), b.as_str());
}

#[test]
fn split_into_runs() {
    let parts = split("ab12c007");
    assert_eq!(
        parts,
        vec![
            Component::Text(vec!['a', 'b']),
            Component::Number(vec!['1', '2']),
            Component::Text(vec!['c']),
            Component::Number(vec!['0', '0', '7']),
        ]
    );
    assert!(split("").is_empty());
}

#[test]
fn numbers_compare_by_value() {
    for m in [0u64, 1, 7, 9, 10, 42, 99, 100, 1000, 123456789, u64::MAX] {
        for n in [0u64, 1, 7, 9, 10, 42, 99, 100, 1000, 123456789, u64::MAX] {
            let l = NaturalString::owned(m.to_string());
            let r = NaturalString::owned(n.to_string());
            assert_eq!(l.cmp(&r), m.cmp(&n), "{m} vs {n}");
        }
    }
    let seven = NaturalString::borrowed("7");
    let padded = NaturalString::borrowed("007");
    assert_eq!(seven.cmp(&padded), Less);
    assert_eq!(padded.cmp(&seven), Greater);
}

#[test]
fn text_without_digits_in_string_order() {
    for (l, r) in [("abc", "abd"), ("B", "a"), ("", "x"), ("ab", "abc"), ("z-y", "z_y"), ("é", "e")] {
        let ln = NaturalString::borrowed(l);
        let rn = NaturalString::borrowed(r);
        assert_eq!(ln.cmp(&rn), l.cmp(r), "{l} vs {r}");
    }
}
