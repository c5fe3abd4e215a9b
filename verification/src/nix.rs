//! Utilities for working with Nix.

use vstd::prelude::*;

use crate::text::chars_of;

verus! {

/// How one character of the input is written in the body of a string literal;
/// `next` is the character after it, if any.
pub open spec fn escape_char(c: char, next: Option<char>) -> Seq<char> {
    if c == '"' {
        seq!['\\', '"']
    } else if c == '\\' {
        seq!['\\', '\\']
    } else if c == '$' && next == Some('{') {
        seq!['\\', '$']
    } else if c == '\n' {
        seq!['\\', 'n']
    } else if c == '\r' {
        seq!['\\', 'r']
    } else if c == '\t' {
        seq!['\\', 't']
    } else {
        seq![c]
    }
}

pub open spec fn first_char(s: Seq<char>) -> Option<char> {
    if s.len() > 0 {
        Some(s[0])
    } else {
        None
    }
}

/// The body of the string literal for `s`.
pub open spec fn escape_body(s: Seq<char>) -> Seq<char>
    decreases s.len(),
{
    if s.len() == 0 {
        Seq::empty()
    } else {
        escape_char(s[0], first_char(s.drop_first())) + escape_body(s.drop_first())
    }
}

/// The Nix string literal whose value is `s`.
pub open spec fn string_literal(s: Seq<char>) -> Seq<char> {
    seq!['"'] + escape_body(s) + seq!['"']
}

/// The value of the body of a double-quoted Nix string: a backslash takes the
/// next character literally, except that `\n`, `\r` and `\t` stand for newline,
/// carriage return and tab; a bare `"` would end the string and a bare `${`
/// would start an interpolation, so a body holding either has no plain value.
pub open spec fn read_body(b: Seq<char>) -> Option<Seq<char>>
    decreases b.len(),
{
    if b.len() == 0 {
        Some(Seq::empty())
    } else if b[0] == '\\' {
        if b.len() < 2 {
            None
        } else {
            let c = if b[1] == 'n' {
                '\n'
            } else if b[1] == 'r' {
                '\r'
            } else if b[1] == 't' {
                '\t'
            } else {
                b[1]
            };
            match read_body(b.skip(2)) {
                Some(rest) => Some(seq![c] + rest),
                None => None,
            }
        }
    } else if b[0] == '"' {
        None
    } else if b[0] == '$' && b.len() > 1 && b[1] == '{' {
        None
    } else {
        match read_body(b.drop_first()) {
            Some(rest) => Some(seq![b[0]] + rest),
            None => None,
        }
    }
}

proof fn lemma_escape_body_first(s: Seq<char>)
    ensures
        s.len() == 0 <==> escape_body(s).len() == 0,
        s.len() > 0 ==> escape_body(s)[0] == '\\' || escape_body(s)[0] == s[0],
{
    if s.len() > 0 {
        let e = escape_char(s[0], first_char(s.drop_first()));
        assert(escape_body(s)[0] == e[0]);
    }
}

/// Reading back the body of the literal gives back the string.
pub proof fn law_string_literal_reads_back(s: Seq<char>)
    ensures
        read_body(escape_body(s)) == Some(s),
        string_literal(s)[0] == '"',
        string_literal(s).last() == '"',
    decreases s.len(),
{
    if s.len() == 0 {
        assert(escape_body(s) =~= Seq::<char>::empty());
        assert(s =~= Seq::<char>::empty());
    } else {
        let c = s[0];
        let rest = s.drop_first();
        let e = escape_char(c, first_char(rest));
        let b = escape_body(s);
        law_string_literal_reads_back(rest);
        lemma_escape_body_first(rest);
        assert(b == e + escape_body(rest));
        if e.len() == 2 {
            assert(b.skip(2) == escape_body(rest));
        } else {
            assert(b.drop_first() == escape_body(rest));
        }
        assert(s == seq![c] + rest);
    }
}

/// Formats a given string as a string literal value in the Nix expression language.
pub fn to_string_literal(s: &str) -> (r: String)
    ensures
        r@ == string_literal(s@),
{
    let cs = chars_of(s);
    let n = cs.len();
    let mut out = String::new();
    out.push('"');
    let mut i: usize = 0;
    proof {
        assert(cs@.skip(0) == cs@);
    }
    while i < n
        invariant
            i <= n,
            n == cs@.len(),
            cs@ == s@,
            out@ + escape_body(cs@.skip(i as int)) == seq!['"'] + escape_body(cs@),
        decreases n - i,
    {
        let c = cs[i];
        let ghost rest = cs@.skip(i as int);
        proof {
            assert(rest[0] == c);
            assert(rest.drop_first() == cs@.skip(i + 1));
            if i + 1 < n {
                assert(rest.drop_first()[0] == cs@[i + 1]);
            }
        }
        let next_is_brace = i + 1 < n && cs[i + 1] == '{';
        let ghost before = out@;
        if c == '"' {
            out.push('\\');
            out.push('"');
        } else if c == '\\' {
            out.push('\\');
            out.push('\\');
        } else if c == '$' && next_is_brace {
            out.push('\\');
            out.push('$');
        } else if c == '\n' {
            out.push('\\');
            out.push('n');
        } else if c == '\r' {
            out.push('\\');
            out.push('r');
        } else if c == '\t' {
            out.push('\\');
            out.push('t');
        } else {
            out.push(c);
        }
        proof {
            let e = escape_char(c, first_char(rest.drop_first()));
            assert(out@ == before + e);
            assert(escape_body(rest) == e + escape_body(cs@.skip(i + 1)));
        }
        i = i + 1;
    }
    proof {
        assert(cs@.skip(i as int).len() == 0);
        assert(escape_body(cs@.skip(i as int)) =~= Seq::<char>::empty());
    }
    out.push('"');
    out
}

}
