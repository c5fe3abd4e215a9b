//! Deploy targets: a node name, optionally followed by a dot and a profile name.
//!
//! The syntax follows Nix attribute paths: components are separated by dots,
//! and a component that is (partly) surrounded by double quotes may contain dots.

use std::str::FromStr;

use vstd::prelude::*;

use crate::text::chars_of;

verus! {

#[derive(Debug, Clone, Copy, PartialEq, Eq, Structural)]
pub enum ParseError {
    ConsecutiveDots,
    LeadingDot,
    TrailingDot,
    NoClosingQuote,
    EmptyPath,
    TooManyComponents,
}

/// A node and an optional profile of that node.
#[derive(Debug, PartialEq, Eq)]
pub struct Target {
    pub node: String,
    pub profile: Option<String>,
}

/// A target as plain values: the node name and the optional profile name.
pub type TargetView = (Seq<char>, Option<Seq<char>>);

impl View for Target {
    type V = TargetView;

    open spec fn view(&self) -> TargetView {
        (
            self.node@,
            match self.profile {
                Some(p) => Some(p@),
                None => None,
            },
        )
    }
}

// ---------------------------------------------------------------------------
// The model: a left-to-right scanner over the characters of the input
// ---------------------------------------------------------------------------

/// The state of the scanner after reading part of the input.
pub enum Scan {
    Reading {
        /// Components finished so far.
        parts: Seq<Seq<char>>,
        /// The component being read.
        current: Seq<char>,
        /// Whether the current component has begun (a character or a quote was read).
        started: bool,
        /// Whether the scanner is between an opening and a closing quote.
        quoted: bool,
    },
    Failed(ParseError),
}

pub open spec fn scan_start() -> Scan {
    Scan::Reading { parts: Seq::empty(), current: Seq::empty(), started: false, quoted: false }
}

/// A scanner that is still reading.
pub open spec fn reading(parts: Seq<Seq<char>>, current: Seq<char>, started: bool, quoted: bool) -> Scan {
    Scan::Reading { parts, current, started, quoted }
}

/// Reads one character.
pub open spec fn scan_step(st: Scan, c: char) -> Scan {
    match st {
        Scan::Failed(e) => Scan::Failed(e),
        Scan::Reading { parts, current, started, quoted } => {
            if quoted {
                if c == '"' {
                    Scan::Reading { parts, current, started, quoted: false }
                } else {
                    Scan::Reading { parts, current: current.push(c), started, quoted }
                }
            } else if c == '.' {
                if !started {
                    Scan::Failed(ParseError::ConsecutiveDots)
                } else {
                    Scan::Reading {
                        parts: parts.push(current),
                        current: Seq::empty(),
                        started: false,
                        quoted: false,
                    }
                }
            } else if c == '"' {
                Scan::Reading { parts, current, started: true, quoted: true }
            } else {
                Scan::Reading { parts, current: current.push(c), started: true, quoted }
            }
        },
    }
}

/// Reads all of `s`, starting from `st`.
pub open spec fn scan(st: Scan, s: Seq<char>) -> Scan
    decreases s.len(),
{
    if s.len() == 0 {
        st
    } else {
        scan(scan_step(st, s[0]), s.drop_first())
    }
}

/// The components read, once the input has ended.
pub open spec fn scan_finish(st: Scan) -> Result<Seq<Seq<char>>, ParseError> {
    match st {
        Scan::Failed(e) => Err(e),
        Scan::Reading { parts, current, started, quoted } => {
            if quoted {
                Err(ParseError::NoClosingQuote)
            } else if started {
                Ok(parts.push(current))
            } else {
                Err(ParseError::TrailingDot)
            }
        },
    }
}

/// A target made of the components: one or two are accepted.
pub open spec fn target_of_parts(parts: Seq<Seq<char>>) -> Result<TargetView, ParseError> {
    if parts.len() == 0 {
        Err(ParseError::EmptyPath)
    } else if parts.len() == 1 {
        Ok((parts[0], None))
    } else if parts.len() == 2 {
        Ok((parts[0], Some(parts[1])))
    } else {
        Err(ParseError::TooManyComponents)
    }
}

/// The result of parsing `s` as a target.
pub open spec fn parse_target(s: Seq<char>) -> Result<TargetView, ParseError> {
    if s.len() > 0 && s[0] == '.' {
        Err(ParseError::LeadingDot)
    } else if s.len() == 0 {
        target_of_parts(Seq::empty())
    } else {
        match scan_finish(scan(scan_start(), s)) {
            Ok(parts) => target_of_parts(parts),
            Err(e) => Err(e),
        }
    }
}

pub open spec fn views_of_strings(v: Seq<String>) -> Seq<Seq<char>> {
    v.map_values(|p: String| p@)
}

pub proof fn lemma_scan_failed(e: ParseError, s: Seq<char>)
    ensures
        scan(Scan::Failed(e), s) == Scan::Failed(e),
    decreases s.len(),
{
    if s.len() > 0 {
        lemma_scan_failed(e, s.drop_first());
    }
}

pub proof fn lemma_scan_concat(st: Scan, a: Seq<char>, b: Seq<char>)
    ensures
        scan(st, a + b) == scan(scan(st, a), b),
    decreases a.len(),
{
    if a.len() > 0 {
        assert((a + b).drop_first() == a.drop_first() + b);
        lemma_scan_concat(scan_step(st, a[0]), a.drop_first(), b);
    }
}

/// A name that can be written without quotes: it holds no dot and no double quote.
pub open spec fn plain_name(n: Seq<char>) -> bool {
    forall|k: int| 0 <= k < n.len() ==> #[trigger] n[k] != '.' && n[k] != '"'
}

/// A name that can be written between double quotes: it holds no double quote.
pub open spec fn quotable_name(n: Seq<char>) -> bool {
    forall|k: int| 0 <= k < n.len() ==> #[trigger] n[k] != '"'
}

/// `n` surrounded by double quotes.
pub open spec fn quoted(n: Seq<char>) -> Seq<char> {
    seq!['"'] + n + seq!['"']
}

proof fn lemma_scan_plain(parts: Seq<Seq<char>>, cur: Seq<char>, started: bool, n: Seq<char>)
    requires
        plain_name(n),
    ensures
        scan(reading(parts, cur, started, false), n) == reading(parts, cur + n, started || n.len() > 0, false),
    decreases n.len(),
{
    if n.len() > 0 {
        assert(n[0] != '.' && n[0] != '"');
        assert(plain_name(n.drop_first())) by {
            assert forall|k: int| 0 <= k < n.drop_first().len() implies #[trigger] n.drop_first()[k]
                != '.' && n.drop_first()[k] != '"' by {
                assert(n.drop_first()[k] == n[k + 1]);
            }
        }
        lemma_scan_plain(parts, cur.push(n[0]), true, n.drop_first());
        assert(cur.push(n[0]) + n.drop_first() == cur + n);
    } else {
        assert(cur + n == cur);
    }
}

proof fn lemma_scan_in_quotes(parts: Seq<Seq<char>>, cur: Seq<char>, n: Seq<char>)
    requires
        quotable_name(n),
    ensures
        scan(reading(parts, cur, true, true), n)
            == reading(parts, cur + n, true, true),
    decreases n.len(),
{
    if n.len() > 0 {
        assert(n[0] != '"');
        assert(quotable_name(n.drop_first())) by {
            assert forall|k: int| 0 <= k < n.drop_first().len() implies #[trigger] n.drop_first()[k]
                != '"' by {
                assert(n.drop_first()[k] == n[k + 1]);
            }
        }
        lemma_scan_in_quotes(parts, cur.push(n[0]), n.drop_first());
        assert(cur.push(n[0]) + n.drop_first() == cur + n);
    } else {
        assert(cur + n == cur);
    }
}

proof fn lemma_scan_quoted(parts: Seq<Seq<char>>, n: Seq<char>)
    requires
        quotable_name(n),
    ensures
        scan(
            reading(parts, Seq::empty(), false, false),
            quoted(n),
        ) == reading(parts, n, true, false),
{
    let st0 = reading(parts, Seq::empty(), false, false);
    let st1 = reading(parts, Seq::<char>::empty(), true, true);
    lemma_scan_concat(st0, seq!['"'] + n, seq!['"']);
    lemma_scan_concat(st0, seq!['"'], n);
    lemma_scan_one(st0, '"');
    lemma_scan_in_quotes(parts, Seq::empty(), n);
    assert(Seq::<char>::empty() + n == n);
    let st2 = reading(parts, n, true, true);
    lemma_scan_one(st2, '"');
}

proof fn lemma_scan_one(st: Scan, c: char)
    ensures
        scan(st, seq![c]) == scan_step(st, c),
{
    assert(seq![c].drop_first() =~= Seq::<char>::empty());
    assert(scan(scan_step(st, c), Seq::<char>::empty()) == scan_step(st, c));
}

proof fn lemma_scan_dot(parts: Seq<Seq<char>>, n: Seq<char>)
    ensures
        scan(reading(parts, n, true, false), seq!['.'])
            == reading(parts.push(n), Seq::empty(), false, false),
{
    lemma_scan_one(reading(parts, n, true, false), '.');
}

/// A node name without dots and quotes is written as it is; a node and a profile
/// written so are separated by a single dot.
pub proof fn law_plain_target(node: Seq<char>, profile: Seq<char>)
    requires
        node.len() > 0,
        profile.len() > 0,
        plain_name(node),
        plain_name(profile),
    ensures
        parse_target(node) == Ok::<TargetView, ParseError>((node, None)),
        parse_target(node + seq!['.'] + profile) == Ok::<TargetView, ParseError>(
            (node, Some(profile)),
        ),
{
    let e: Seq<Seq<char>> = Seq::empty();
    let st0 = scan_start();
    assert(node[0] != '.');
    lemma_scan_plain(e, Seq::empty(), false, node);
    assert(Seq::<char>::empty() + node == node);
    assert(e.push(node) == seq![node]);
    let s = node + seq!['.'] + profile;
    assert(s[0] == node[0]);
    lemma_scan_concat(st0, node + seq!['.'], profile);
    lemma_scan_concat(st0, node, seq!['.']);
    lemma_scan_dot(e, node);
    lemma_scan_plain(e.push(node), Seq::empty(), false, profile);
    assert(Seq::<char>::empty() + profile == profile);
    assert(e.push(node).push(profile) == seq![node, profile]);
}

/// Names are written between double quotes, which lets them hold dots (or be empty).
pub proof fn law_quoted_target(node: Seq<char>, profile: Seq<char>)
    requires
        quotable_name(node),
        quotable_name(profile),
    ensures
        parse_target(quoted(node)) == Ok::<TargetView, ParseError>((node, None)),
        parse_target(quoted(node) + seq!['.'] + quoted(profile)) == Ok::<TargetView, ParseError>(
            (node, Some(profile)),
        ),
{
    let e: Seq<Seq<char>> = Seq::empty();
    let st0 = scan_start();
    lemma_scan_quoted(e, node);
    assert(quoted(node)[0] == '"');
    assert(e.push(node) == seq![node]);
    let s = quoted(node) + seq!['.'] + quoted(profile);
    assert(s[0] == '"');
    lemma_scan_concat(st0, quoted(node) + seq!['.'], quoted(profile));
    lemma_scan_concat(st0, quoted(node), seq!['.']);
    lemma_scan_dot(e, node);
    lemma_scan_quoted(e.push(node), profile);
    assert(e.push(node).push(profile) == seq![node, profile]);
}

// ---------------------------------------------------------------------------
// Executable code
// ---------------------------------------------------------------------------

impl Target {
    pub fn node(&self) -> (r: &str)
        ensures
            r@ == self.node@,
    {
        self.node.as_str()
    }

    pub fn profile(&self) -> (r: Option<&str>)
        ensures
            r is Some <==> self.profile is Some,
            r is Some ==> r->0@ == self.profile->0@,
    {
        match &self.profile {
            Some(p) => Some(p.as_str()),
            None => None,
        }
    }

    pub fn from_parts(parts: Vec<String>) -> (r: Result<Self, ParseError>)
        ensures
            match r {
                Ok(t) => target_of_parts(views_of_strings(parts@)) == Ok::<TargetView, ParseError>(t@),
                Err(e) => target_of_parts(views_of_strings(parts@)) == Err::<TargetView, ParseError>(e),
            },
    {
        let mut parts = parts;
        let ghost all = views_of_strings(parts@);
        if parts.len() == 0 {
            Err(ParseError::EmptyPath)
        } else if parts.len() == 1 {
            let node = parts.pop().unwrap();
            Ok(Target { node, profile: None })
        } else if parts.len() == 2 {
            let profile = parts.pop().unwrap();
            let node = parts.pop().unwrap();
            Ok(Target { node, profile: Some(profile) })
        } else {
            Err(ParseError::TooManyComponents)
        }
    }

    /// Parses a target written as on the command line.
    pub fn parse(s: &str) -> (r: Result<Self, ParseError>)
        ensures
            match r {
                Ok(t) => parse_target(s@) == Ok::<TargetView, ParseError>(t@),
                Err(e) => parse_target(s@) == Err::<TargetView, ParseError>(e),
            },
    {
        let cs = chars_of(s);
        let n = cs.len();
        if n > 0 && cs[0] == '.' {
            return Err(ParseError::LeadingDot);
        }
        if n == 0 {
            return Self::from_parts(Vec::new());
        }
        let mut parts: Vec<String> = Vec::new();
        let mut current = String::new();
        let mut started = false;
        let mut i: usize = 0;
        proof {
            assert(views_of_strings(parts@) == Seq::<Seq<char>>::empty());
            assert(cs@.skip(0) == cs@);
        }
        while i < n
            invariant
                i <= n,
                n == cs@.len(),
                cs@ == s@,
                n > 0,
                !(cs@[0] == '.'),
                scan(
                    reading(views_of_strings(parts@), current@, started, false),
                    cs@.skip(i as int),
                ) == scan(scan_start(), cs@),
            decreases n - i,
        {
            let ghost st = reading(views_of_strings(parts@), current@, started, false);
            let c = cs[i];
            proof {
                assert(cs@.skip(i as int)[0] == c);
                assert(cs@.skip(i as int).drop_first() == cs@.skip(i + 1));
            }
            if c == '.' {
                if !started {
                    proof {
                        lemma_scan_failed(ParseError::ConsecutiveDots, cs@.skip(i + 1));
                    }
                    return Err(ParseError::ConsecutiveDots);
                }
                let ghost old_parts = parts@;
                let ghost cur = current@;
                parts.push(current);
                current = String::new();
                started = false;
                proof {
                    assert(views_of_strings(parts@) == views_of_strings(old_parts).push(cur));
                }
                i = i + 1;
            } else if c == '"' {
                started = true;
                i = i + 1;
                let ghost start = i;
                loop
                    invariant_except_break
                        scan(
                            reading(views_of_strings(parts@), current@, started, true),
                            cs@.skip(i as int),
                        ) == scan(scan_start(), cs@),
                    invariant
                        i <= n,
                        n == cs@.len(),
                        cs@ == s@,
                        n > 0,
                        !(cs@[0] == '.'),
                        started,
                        i >= start,
                    ensures
                        i <= n,
                        i >= start,
                        scan(
                            reading(views_of_strings(parts@), current@, started, false),
                            cs@.skip(i as int),
                        ) == scan(scan_start(), cs@),
                    decreases n - i,
                {
                    if i == n {
                        proof {
                            assert(cs@.skip(i as int).len() == 0);
                        }
                        return Err(ParseError::NoClosingQuote);
                    }
                    let q = cs[i];
                    proof {
                        assert(cs@.skip(i as int)[0] == q);
                        assert(cs@.skip(i as int).drop_first() == cs@.skip(i + 1));
                    }
                    i = i + 1;
                    if q == '"' {
                        break;
                    }
                    current.push(q);
                }
            } else {
                started = true;
                current.push(c);
                i = i + 1;
            }
        }
        proof {
            assert(cs@.skip(i as int).len() == 0);
        }
        if started {
            let ghost old_parts = parts@;
            let ghost cur = current@;
            parts.push(current);
            proof {
                assert(views_of_strings(parts@) == views_of_strings(old_parts).push(cur));
            }
        } else {
            return Err(ParseError::TrailingDot);
        }
        Self::from_parts(parts)
    }
}

impl FromStr for Target {
    type Err = ParseError;

    fn from_str(s: &str) -> (r: Result<Self, Self::Err>)
        ensures
            match r {
                Ok(t) => parse_target(s@) == Ok::<TargetView, ParseError>(t@),
                Err(e) => parse_target(s@) == Err::<TargetView, ParseError>(e),
            },
    {
        Target::parse(s)
    }
}

impl ParseError {
    /// A description of the error for the user.
    pub fn message(&self) -> (r: &'static str)
        ensures
            r@ == match self {
                ParseError::ConsecutiveDots =>
                    "consecutive dots are not allowed in attribute paths (empty attribute names must be quoted)"@,
                ParseError::LeadingDot =>
                    "leading dots are not allowed in attribute paths (empty attribute names must be quoted)"@,
                ParseError::TrailingDot =>
                    "trailing dots are not allowed in attribute paths (empty attribute names must be quoted)"@,
                ParseError::NoClosingQuote => "missing closing quote in attribute path"@,
                ParseError::EmptyPath =>
                    "attribute paths must contain at least one component (empty attribute names must be quoted)"@,
                ParseError::TooManyComponents =>
                    "attribute paths can contain at most 2 components (attribute names containing dots must be quoted)"@,
            },
    {
        match self {
            ParseError::ConsecutiveDots => {
                "consecutive dots are not allowed in attribute paths (empty attribute names must be quoted)"
            },
            ParseError::LeadingDot => {
                "leading dots are not allowed in attribute paths (empty attribute names must be quoted)"
            },
            ParseError::TrailingDot => {
                "trailing dots are not allowed in attribute paths (empty attribute names must be quoted)"
            },
            ParseError::NoClosingQuote => "missing closing quote in attribute path",
            ParseError::EmptyPath => {
                "attribute paths must contain at least one component (empty attribute names must be quoted)"
            },
            ParseError::TooManyComponents => {
                "attribute paths can contain at most 2 components (attribute names containing dots must be quoted)"
            },
        }
    }
}

}
