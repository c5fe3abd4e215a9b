//! Utilities for displaying things to the user.
//!
//! Output meant for the terminal is built as a sequence of styled pieces of
//! text; the program renders each style with the terminal's colors.

use unicode_width::UnicodeWidthStr;

use vstd::prelude::*;

use crate::text::chars_of;

verus! {

/// Text styles used for displaying elements.
#[derive(Debug, Clone, Copy, PartialEq, Eq, Structural)]
pub enum Style {
    /// No styling.
    Plain,
    /// Section headers.
    Header,
    Node,
    Profile,
    User,
    Sudo,
    InteractiveSudo,
    SshUser,
    Hostname,
    Path,
    Fast,
    SshOpts,
    Success,
    Failure,
    Warning,
    Unknown,
}

/// A piece of text in one style.
#[derive(Debug, PartialEq, Eq)]
pub struct Piece {
    pub style: Style,
    pub text: String,
}

impl Clone for Piece {
    fn clone(&self) -> (r: Self)
        ensures
            r.style == self.style,
            r.text@ == self.text@,
    {
        Piece { style: self.style, text: self.text.clone() }
    }
}

/// A copy of styled text.
pub fn copy_pieces(v: &Vec<Piece>) -> (r: Vec<Piece>)
    ensures
        piece_views(r@) == piece_views(v@),
{
    let mut r: Vec<Piece> = Vec::new();
    let mut i: usize = 0;
    while i < v.len()
        invariant
            i <= v@.len(),
            piece_views(r@) == piece_views(v@).take(i as int),
        decreases v@.len() - i,
    {
        let p = v[i].clone();
        let ghost before = r@;
        r.push(p);
        proof {
            assert(piece_views(r@) == piece_views(before).push((p.style, p.text@)));
            assert(piece_views(v@).take(i + 1) == piece_views(v@).take(i as int).push(
                (v@[i as int].style, v@[i as int].text@),
            ));
        }
        i = i + 1;
    }
    proof {
        assert(piece_views(v@).take(v@.len() as int) == piece_views(v@));
    }
    r
}

/// Styled text as plain values.
pub type StyledText = Seq<(Style, Seq<char>)>;

pub open spec fn piece_views(v: Seq<Piece>) -> StyledText {
    v.map_values(|p: Piece| (p.style, p.text@))
}

/// The text without its styles.
pub open spec fn plain_text(t: StyledText) -> Seq<char>
    decreases t.len(),
{
    if t.len() == 0 {
        Seq::empty()
    } else {
        t[0].1 + plain_text(t.drop_first())
    }
}

pub fn piece(style: Style, text: String) -> (r: Piece)
    ensures
        r.style == style,
        r.text@ == text@,
{
    Piece { style, text }
}

/// Appends a piece to styled text.
pub fn push_piece(out: &mut Vec<Piece>, style: Style, text: String)
    ensures
        piece_views(final(out)@) == piece_views(old(out)@).push((style, text@)),
{
    let ghost before = out@;
    out.push(Piece { style, text });
    proof {
        assert(piece_views(out@) == piece_views(before).push((style, text@)));
    }
}

/// Appends styled text to styled text.
pub fn append_pieces(out: &mut Vec<Piece>, more: Vec<Piece>)
    ensures
        piece_views(final(out)@) == piece_views(old(out)@) + piece_views(more@),
{
    let mut more = more;
    let ghost before = out@;
    let ghost added = more@;
    out.append(&mut more);
    proof {
        assert(out@ == before + added);
        assert(piece_views(out@) == piece_views(before) + piece_views(added));
    }
}

// ---------------------------------------------------------------------------
// Strings
// ---------------------------------------------------------------------------

/// `n` spaces.
pub open spec fn spaces(n: nat) -> Seq<char> {
    Seq::new(n, |i: int| ' ')
}

/// `s` padded with spaces on the right to at least `width` characters, as `{:width$}` does.
pub open spec fn padded(s: Seq<char>, width: nat) -> Seq<char> {
    if s.len() < width {
        s + spaces((width - s.len()) as nat)
    } else {
        s
    }
}

/// A string of `n` spaces.
pub fn make_spaces(n: usize) -> (r: String)
    ensures
        r@ == spaces(n as nat),
{
    let mut r = String::new();
    let mut i: usize = 0;
    while i < n
        invariant
            i <= n,
            r@ == spaces(i as nat),
        decreases n - i,
    {
        r.push(' ');
        i = i + 1;
        proof {
            assert(r@ == spaces(i as nat));
        }
    }
    r
}

/// Pads `s` with spaces on the right to `width` characters.
pub fn pad(s: &str, width: usize) -> (r: String)
    ensures
        r@ == padded(s@, width as nat),
{
    let len = s.unicode_len();
    let mut r = String::from_str(s);
    if len < width {
        let fill = make_spaces(width - len);
        r.append(fill.as_str());
    }
    r
}

/// Joins the strings, putting `sep` between each two.
pub open spec fn join(parts: Seq<Seq<char>>, sep: Seq<char>) -> Seq<char>
    decreases parts.len(),
{
    if parts.len() == 0 {
        Seq::empty()
    } else if parts.len() == 1 {
        parts[0]
    } else {
        join(parts.drop_last(), sep) + sep + parts.last()
    }
}

pub open spec fn string_views(v: Seq<String>) -> Seq<Seq<char>> {
    v.map_values(|s: String| s@)
}

/// Joins the strings with a separator.
pub fn join_strings(parts: &Vec<String>, sep: &str) -> (r: String)
    ensures
        r@ == join(string_views(parts@), sep@),
{
    let mut r = String::new();
    let n = parts.len();
    let mut i: usize = 0;
    while i < n
        invariant
            i <= n,
            n == parts@.len(),
            r@ == join(string_views(parts@).take(i as int), sep@),
        decreases n - i,
    {
        let ghost prefix = string_views(parts@).take(i + 1);
        proof {
            assert(prefix.drop_last() == string_views(parts@).take(i as int));
            assert(prefix.last() == parts@[i as int]@);
        }
        if i > 0 {
            r.append(sep);
        }
        r.append(parts[i].as_str());
        i = i + 1;
    }
    proof {
        assert(string_views(parts@).take(n as int) == string_views(parts@));
    }
    r
}

// ---------------------------------------------------------------------------
// Width
// ---------------------------------------------------------------------------

/// The displayed width of a string in terminal columns, as `unicode-width` computes it.
pub uninterp spec fn unicode_width(s: Seq<char>) -> usize;

/// Calls `UnicodeWidthStr::width` of the `unicode-width` crate; its result, the
/// displayed width in columns, is named by `unicode_width`.
#[verifier::external_body]
fn str_width(s: &str) -> (w: usize)
    ensures
        w == unicode_width(s@),
{
    UnicodeWidthStr::width(s)
}

/// The largest width among the strings, or 0 if there are none.
pub open spec fn max_width(elements: Seq<Seq<char>>) -> nat
    decreases elements.len(),
{
    if elements.len() == 0 {
        0
    } else {
        let rest = max_width(elements.drop_last());
        let w = unicode_width(elements.last()) as nat;
        if w > rest {
            w
        } else {
            rest
        }
    }
}

/// The largest display width among the strings.
pub fn get_max_width(elements: &Vec<String>) -> (r: usize)
    ensures
        r == max_width(string_views(elements@)),
{
    let mut best: usize = 0;
    let n = elements.len();
    let mut i: usize = 0;
    while i < n
        invariant
            i <= n,
            n == elements@.len(),
            best == max_width(string_views(elements@).take(i as int)),
        decreases n - i,
    {
        let w = str_width(elements[i].as_str());
        proof {
            let prefix = string_views(elements@).take(i + 1);
            assert(prefix.drop_last() == string_views(elements@).take(i as int));
            assert(prefix.last() == elements@[i as int]@);
        }
        if w > best {
            best = w;
        }
        i = i + 1;
    }
    proof {
        assert(string_views(elements@).take(n as int) == string_views(elements@));
    }
    best
}

// ---------------------------------------------------------------------------
// Command arguments
// ---------------------------------------------------------------------------

/// Whether `c` has the Unicode `White_Space` property (`char::is_whitespace`):
/// U+0009 to U+000D, U+0020, U+0085, U+00A0, U+1680, U+2000 to U+200A,
/// U+2028, U+2029, U+202F, U+205F and U+3000.
pub open spec fn white_space(c: char) -> bool {
    ||| ('\u{9}' <= c && c <= '\u{d}')
    ||| c == ' '
    ||| c == '\u{85}'
    ||| c == '\u{a0}'
    ||| c == '\u{1680}'
    ||| ('\u{2000}' <= c && c <= '\u{200a}')
    ||| c == '\u{2028}'
    ||| c == '\u{2029}'
    ||| c == '\u{202f}'
    ||| c == '\u{205f}'
    ||| c == '\u{3000}'
}

/// Whether `c` is white space (`char::is_whitespace`).
pub fn is_whitespace(c: char) -> (r: bool)
    ensures
        r == white_space(c),
{
    ('\u{9}' <= c && c <= '\u{d}') || c == ' ' || c == '\u{85}' || c == '\u{a0}' || c
        == '\u{1680}' || ('\u{2000}' <= c && c <= '\u{200a}') || c == '\u{2028}' || c
        == '\u{2029}' || c == '\u{202f}' || c == '\u{205f}' || c == '\u{3000}'
}

/// Whether `c` is Unicode alphabetic or numeric, as `char::is_alphanumeric` reports.
pub uninterp spec fn unicode_alphanumeric(c: char) -> bool;

/// The text that `{:?}` writes for a string: the string in double quotes, with
/// characters escaped as `char::escape_debug` does.
pub uninterp spec fn debug_quoted(s: Seq<char>) -> Seq<char>;

/// An ASCII letter or digit.
pub open spec fn ascii_alphanumeric(c: char) -> bool {
    ('a' <= c && c <= 'z') || ('A' <= c && c <= 'Z') || ('0' <= c && c <= '9')
}

/// Calls `char::is_alphanumeric` of std; the answer is named by `unicode_alphanumeric`.
/// Of ASCII characters, exactly the letters and digits are alphabetic or numeric.
#[verifier::external_body]
fn is_alphanumeric(c: char) -> (r: bool)
    ensures
        r == unicode_alphanumeric(c),
        c <= '\u{7f}' ==> (r <==> ascii_alphanumeric(c)),
{
    c.is_alphanumeric()
}

/// Formats `s` with `{:?}` (std's `Debug` for `str`); the text is named by `debug_quoted`.
#[verifier::external_body]
fn debug_string(s: &str) -> (r: String)
    ensures
        r@ == debug_quoted(s@),
{
    format!("{:?}", s)
}

/// An ASCII punctuation character (`char::is_ascii_punctuation`).
pub open spec fn ascii_punctuation(c: char) -> bool {
    ('!' <= c && c <= '/') || (':' <= c && c <= '@') || ('[' <= c && c <= '`') || ('{' <= c
        && c <= '~')
}

pub fn is_ascii_punctuation(c: char) -> (r: bool)
    ensures
        r == ascii_punctuation(c),
{
    ('!' <= c && c <= '/') || (':' <= c && c <= '@') || ('[' <= c && c <= '`') || ('{' <= c
        && c <= '~')
}

/// Whether a command argument holding `c` is shown quoted.
pub open spec fn arg_char_needs_quoting(c: char) -> bool {
    if c == '"' || c == '\'' || c == '\\' {
        true
    } else if white_space(c) {
        true
    } else if ascii_alphanumeric(c) || unicode_alphanumeric(c) {
        false
    } else if ascii_punctuation(c) {
        false
    } else {
        true
    }
}

/// How one command argument is shown: as it is, or in `{:?}` form when it is
/// empty or holds a character that needs quoting.
pub open spec fn shown_arg(arg: Seq<char>) -> Seq<char> {
    if arg.len() == 0 || exists|k: int| 0 <= k < arg.len() && arg_char_needs_quoting(#[trigger] arg[k]) {
        debug_quoted(arg)
    } else {
        arg
    }
}

/// An argument of ASCII letters, digits and punctuation other than quotes and
/// backslashes is shown as it is.
pub proof fn law_plain_args_shown_as_they_are(arg: Seq<char>)
    requires
        arg.len() > 0,
        forall|k: int| 0 <= k < arg.len() ==> (ascii_alphanumeric(#[trigger] arg[k]) || ascii_punctuation(arg[k]))
            && arg[k] != '"' && arg[k] != '\'' && arg[k] != '\\',
    ensures
        shown_arg(arg) == arg,
{
    assert forall|k: int| 0 <= k < arg.len() implies !arg_char_needs_quoting(#[trigger] arg[k]) by {
        assert(ascii_alphanumeric(arg[k]) || ascii_punctuation(arg[k]));
    }
}

fn needs_quoting(c: char) -> (r: bool)
    ensures
        r == arg_char_needs_quoting(c),
{
    if c == '"' || c == '\'' || c == '\\' {
        true
    } else if is_whitespace(c) {
        true
    } else if is_alphanumeric(c) {
        false
    } else if is_ascii_punctuation(c) {
        false
    } else {
        true
    }
}

/// Shows one command argument.
pub fn display_command_arg(arg: &str) -> (r: String)
    ensures
        r@ == shown_arg(arg@),
{
    let cs = chars_of(arg);
    let mut quote = cs.len() == 0;
    let mut i: usize = 0;
    while i < cs.len() && !quote
        invariant
            i <= cs@.len(),
            cs@ == arg@,
            quote <==> (cs@.len() == 0 || exists|k: int| 0 <= k < i && arg_char_needs_quoting(#[trigger] cs@[k])),
        decreases cs@.len() - i,
    {
        if needs_quoting(cs[i]) {
            quote = true;
        }
        i = i + 1;
    }
    proof {
        if !quote {
            assert(i == cs@.len());
        }
    }
    if quote {
        debug_string(arg)
    } else {
        String::from_str(arg)
    }
}

/// Each argument shown as `shown_arg` says.
pub open spec fn shown_args(args: Seq<Seq<char>>) -> Seq<Seq<char>> {
    args.map_values(|a: Seq<char>| shown_arg(a))
}

/// Shows a command line: the arguments, each shown as `shown_arg` says, separated by spaces.
pub fn display_command_args(args: &Vec<String>) -> (r: String)
    ensures
        r@ == join(shown_args(string_views(args@)), seq![' ']),
{
    let mut shown: Vec<String> = Vec::new();
    let n = args.len();
    let mut i: usize = 0;
    while i < n
        invariant
            i <= n,
            n == args@.len(),
            string_views(shown@) == shown_args(string_views(args@).take(i as int)),
        decreases n - i,
    {
        let s = display_command_arg(args[i].as_str());
        let ghost before = shown@;
        shown.push(s);
        proof {
            assert(string_views(shown@) == string_views(before).push(s@));
            assert(string_views(args@).take(i + 1) == string_views(args@).take(i as int).push(
                args@[i as int]@,
            ));
            assert(shown_args(string_views(args@).take(i + 1)) == shown_args(
                string_views(args@).take(i as int),
            ).push(shown_arg(args@[i as int]@)));
        }
        i = i + 1;
    }
    proof {
        assert(string_views(args@).take(n as int) == string_views(args@));
    }
    let sep = " ";
    proof {
        reveal_strlit(" ");
        assert(sep@ =~= seq![' ']);
        assert(shown_args(string_views(args@).take(n as int)) == shown_args(string_views(args@)));
    }
    join_strings(&shown, sep)
}

// ---------------------------------------------------------------------------
// Indentation
// ---------------------------------------------------------------------------

/// The number of characters before the first `'\n'` of `s` (all of `s` if there is none).
pub open spec fn line_len(s: Seq<char>) -> nat
    decreases s.len(),
{
    if s.len() == 0 || s[0] == '\n' {
        0
    } else {
        1 + line_len(s.drop_first())
    }
}

/// A line without the `'\r'` of a `"\r\n"` line ending.
pub open spec fn strip_cr(l: Seq<char>) -> Seq<char> {
    if l.len() > 0 && l.last() == '\r' {
        l.drop_last()
    } else {
        l
    }
}

/// The lines of `s`, as `str::lines` gives them: split at `"\n"` and `"\r\n"`,
/// with a final line ending optional.
pub open spec fn lines(s: Seq<char>) -> Seq<Seq<char>>
    decreases s.len(),
{
    if s.len() == 0 {
        Seq::empty()
    } else {
        let k = line_len(s);
        if k >= s.len() {
            seq![s]
        } else {
            seq![strip_cr(s.take(k as int))] + lines(s.skip(k as int + 1))
        }
    }
}

pub proof fn lemma_line_len(s: Seq<char>)
    ensures
        line_len(s) <= s.len(),
        forall|k: int| 0 <= k < line_len(s) ==> #[trigger] s[k] != '\n',
        line_len(s) < s.len() ==> s[line_len(s) as int] == '\n',
    decreases s.len(),
{
    if s.len() > 0 && s[0] != '\n' {
        lemma_line_len(s.drop_first());
        assert forall|k: int| 0 <= k < line_len(s) implies #[trigger] s[k] != '\n' by {
            if k > 0 {
                assert(s[k] == s.drop_first()[k - 1]);
            }
        }
    }
}

pub proof fn lemma_line_len_exact(s: Seq<char>, m: int)
    requires
        0 <= m <= s.len(),
        forall|k: int| 0 <= k < m ==> #[trigger] s[k] != '\n',
        m < s.len() ==> s[m] == '\n',
    ensures
        line_len(s) == m,
    decreases s.len(),
{
    if m > 0 {
        assert forall|k: int| 0 <= k < m - 1 implies #[trigger] s.drop_first()[k] != '\n' by {
            assert(s.drop_first()[k] == s[k + 1]);
        }
        if m - 1 < s.drop_first().len() {
            assert(s.drop_first()[m - 1] == s[m]);
        }
        lemma_line_len_exact(s.drop_first(), m - 1);
    }
}

/// Each line preceded by `amount` spaces.
pub open spec fn indent_lines(amount: nat, ls: Seq<Seq<char>>) -> Seq<Seq<char>> {
    ls.map_values(|l: Seq<char>| spaces(amount) + l)
}

/// Each line of `s` preceded by `amount` spaces; lines separated by `'\n'`.
pub open spec fn indented(amount: nat, s: Seq<char>) -> Seq<char> {
    join(indent_lines(amount, lines(s)), seq!['\n'])
}

pub proof fn lemma_join_push(parts: Seq<Seq<char>>, sep: Seq<char>, x: Seq<char>)
    ensures
        join(parts.push(x), sep) == if parts.len() == 0 {
            x
        } else {
            join(parts, sep) + sep + x
        },
{
    assert(parts.push(x).drop_last() == parts);
}

/// Indents every line of `s` by `amount` spaces.
pub fn indent(amount: usize, s: &str) -> (r: String)
    ensures
        r@ == indented(amount as nat, s@),
{
    let cs = chars_of(s);
    let n = cs.len();
    let prefix = make_spaces(amount);
    let mut out = String::new();
    let mut done: Vec<String> = Vec::new();
    let mut i: usize = 0;
    proof {
        assert(cs@.skip(0) == cs@);
        assert(string_views(done@) == Seq::<Seq<char>>::empty());
    }
    while i < n
        invariant
            i <= n,
            n == cs@.len(),
            cs@ == s@,
            prefix@ == spaces(amount as nat),
            string_views(done@) + lines(cs@.skip(i as int)) == lines(cs@),
            out@ == join(indent_lines(amount as nat, string_views(done@)), seq!['\n']),
        decreases n - i,
    {
        let ghost rest = cs@.skip(i as int);
        let mut line = String::new();
        let mut j = i;
        while j < n && cs[j] != '\n'
            invariant
                i <= j <= n,
                n == cs@.len(),
                line@ == cs@.subrange(i as int, j as int),
                forall|k: int| i <= k < j ==> #[trigger] cs@[k] != '\n',
            decreases n - j,
        {
            line.push(cs[j]);
            j = j + 1;
        }
        proof {
            assert forall|k: int| 0 <= k < j - i implies #[trigger] rest[k] != '\n' by {
                assert(rest[k] == cs@[i + k]);
            }
            if j < n {
                assert(rest[j - i] == cs@[j as int]);
            }
            lemma_line_len_exact(rest, j - i);
            assert(rest.take(j - i) == line@);
        }
        let mut text = line;
        let mut next = j;
        if j < n {
            // Drop the '\r' of a "\r\n" line ending.
            let ghost full = text@;
            let tl = text.unicode_len();
            if tl > 0 && text.as_str().get_char(tl - 1) == '\r' {
                let trimmed = String::from_str(text.as_str().substring_char(0, tl - 1));
                text = trimmed;
            }
            proof {
                assert(text@ == strip_cr(full));
                assert(rest.skip(j - i + 1) == cs@.skip(j + 1));
            }
            next = j + 1;
        } else {
            proof {
                assert(rest == line@);
            }
        }
        let ghost old_done = string_views(done@);
        let ghost old_out = out@;
        let mut entry = String::from_str(prefix.as_str());
        entry.append(text.as_str());
        proof {
            assert(entry@ == (spaces(amount as nat) + text@));
        }
        if done.len() > 0 {
            out.push('\n');
        }
        out.append(entry.as_str());
        proof {
            if old_done.len() > 0 {
                assert(out@ == old_out + seq!['\n'] + (spaces(amount as nat) + text@));
            } else {
                assert(out@ == old_out + (spaces(amount as nat) + text@));
                assert(indent_lines(amount as nat, old_done) == Seq::<Seq<char>>::empty());
                assert(old_out == Seq::<char>::empty());
            }
        }
        done.push(text);
        proof {
            assert(string_views(done@) == old_done.push(text@));
            assert(indent_lines(amount as nat, old_done.push(text@)) == indent_lines(
                amount as nat,
                old_done,
            ).push(spaces(amount as nat) + text@));
            lemma_join_push(indent_lines(amount as nat, old_done), seq!['\n'], spaces(amount as nat) + text@);
            assert(lines(rest) == seq![text@] + lines(cs@.skip(next as int)));
            assert(old_done + lines(rest) == old_done.push(text@) + lines(cs@.skip(next as int)));
        }
        i = next;
    }
    proof {
        assert(cs@.skip(i as int).len() == 0);
        assert(lines(cs@.skip(i as int)) == Seq::<Seq<char>>::empty());
        assert(string_views(done@) == lines(cs@));
    }
    out
}

// ---------------------------------------------------------------------------
// Tables grouped by node
// ---------------------------------------------------------------------------

/// One row of a table: two spaces, the node column (the node's name on the
/// node's first row, blank on the others), a space, the row's own pieces, a newline.
pub open spec fn row_text(node: Seq<char>, first: bool, node_width: nat, row: StyledText) -> StyledText {
    seq![
        (Style::Plain, spaces(2)),
        if first {
            (Style::Node, padded(node, node_width))
        } else {
            (Style::Plain, spaces(node_width))
        },
        (Style::Plain, spaces(1)),
    ] + row + seq![(Style::Plain, seq!['\n'])]
}

/// The rows of one node.
pub open spec fn group_text(node: Seq<char>, rows: Seq<StyledText>, node_width: nat) -> StyledText
    decreases rows.len(),
{
    if rows.len() == 0 {
        Seq::empty()
    } else {
        group_text(node, rows.drop_last(), node_width) + row_text(
            node,
            rows.len() == 1,
            node_width,
            rows.last(),
        )
    }
}

/// The rows of all nodes, in order.
pub open spec fn groups_text(groups: Seq<(Seq<char>, Seq<StyledText>)>, node_width: nat) -> StyledText
    decreases groups.len(),
{
    if groups.len() == 0 {
        Seq::empty()
    } else {
        groups_text(groups.drop_last(), node_width) + group_text(
            groups.last().0,
            groups.last().1,
            node_width,
        )
    }
}

/// A header line followed by the rows of all nodes.
pub open spec fn table_text(
    header: Seq<char>,
    groups: Seq<(Seq<char>, Seq<StyledText>)>,
    node_width: nat,
) -> StyledText {
    seq![(Style::Header, header), (Style::Plain, seq!['\n'])] + groups_text(groups, node_width)
}

pub open spec fn rows_view(rows: Seq<Vec<Piece>>) -> Seq<StyledText> {
    rows.map_values(|r: Vec<Piece>| piece_views(r@))
}

pub open spec fn groups_view(groups: Seq<(String, Vec<Vec<Piece>>)>) -> Seq<(Seq<char>, Seq<StyledText>)> {
    groups.map_values(|g: (String, Vec<Vec<Piece>>)| (g.0@, rows_view(g.1@)))
}

/// A string holding one newline.
pub fn newline() -> (r: String)
    ensures
        r@ == seq!['\n'],
{
    let mut r = String::new();
    r.push('\n');
    r
}

fn row_pieces(node: &str, first: bool, node_width: usize, row: &Vec<Piece>) -> (r: Vec<Piece>)
    ensures
        piece_views(r@) == row_text(node@, first, node_width as nat, piece_views(row@)),
{
    let mut out: Vec<Piece> = Vec::new();
    push_piece(&mut out, Style::Plain, make_spaces(2));
    if first {
        push_piece(&mut out, Style::Node, pad(node, node_width));
    } else {
        push_piece(&mut out, Style::Plain, make_spaces(node_width));
    }
    push_piece(&mut out, Style::Plain, make_spaces(1));
    append_pieces(&mut out, copy_pieces(row));
    push_piece(&mut out, Style::Plain, newline());
    out
}

/// Lays out a table of rows grouped by node.
pub fn table(header: String, groups: &Vec<(String, Vec<Vec<Piece>>)>, node_width: usize) -> (r: Vec<Piece>)
    ensures
        piece_views(r@) == table_text(header@, groups_view(groups@), node_width as nat),
{
    let mut out: Vec<Piece> = Vec::new();
    push_piece(&mut out, Style::Header, header);
    push_piece(&mut out, Style::Plain, newline());
    let ghost head = piece_views(out@);
    let mut g: usize = 0;
    while g < groups.len()
        invariant
            g <= groups@.len(),
            piece_views(out@) == head + groups_text(groups_view(groups@).take(g as int), node_width as nat),
        decreases groups@.len() - g,
    {
        let node = groups[g].0.as_str();
        let rows = &groups[g].1;
        let ghost before = piece_views(out@);
        let mut k: usize = 0;
        while k < rows.len()
            invariant
                k <= rows@.len(),
                rows == groups@[g as int].1,
                node@ == groups@[g as int].0@,
                piece_views(out@) == before + group_text(node@, rows_view(rows@).take(k as int), node_width as nat),
            decreases rows@.len() - k,
        {
            let row = row_pieces(node, k == 0, node_width, &rows[k]);
            let ghost mid = piece_views(out@);
            append_pieces(&mut out, row);
            proof {
                let taken = rows_view(rows@).take(k + 1);
                assert(taken.drop_last() == rows_view(rows@).take(k as int));
                assert(taken.last() == piece_views(rows@[k as int]@));
                assert(group_text(node@, taken, node_width as nat) == group_text(node@, rows_view(rows@).take(k as int), node_width as nat) + row_text(node@, k == 0, node_width as nat, piece_views(rows@[k as int]@)));
            }
            k = k + 1;
        }
        proof {
            assert(rows_view(rows@).take(rows@.len() as int) == rows_view(rows@));
            let taken = groups_view(groups@).take(g + 1);
            assert(taken.drop_last() == groups_view(groups@).take(g as int));
            assert(taken.last() == (node@, rows_view(rows@)));
        }
        g = g + 1;
    }
    proof {
        assert(groups_view(groups@).take(groups@.len() as int) == groups_view(groups@));
    }
    out
}

}
