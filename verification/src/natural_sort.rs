//! Natural sorting of strings.
//!
//! A string is split into maximal runs of ASCII digits ("numbers") and runs of
//! other characters ("text").  Two strings are compared run by run: text runs
//! compare character by character, number runs compare by numeric value first
//! (ignoring leading zeros) and by the number of leading zeros second, and a
//! number run orders before a text run.

use std::borrow::Cow;
use std::cmp::Ordering;

use vstd::prelude::*;

use crate::text::chars_of;

verus! {

// ---------------------------------------------------------------------------
// The model
// ---------------------------------------------------------------------------

/// An ASCII digit `0`..`9`.
pub open spec fn is_digit(c: char) -> bool {
    '0' <= c && c <= '9'
}

/// One run of a split string, as a mathematical value.
pub enum Chunk {
    Text(Seq<char>),
    Number(Seq<char>),
}

impl Chunk {
    pub open spec fn chars(self) -> Seq<char> {
        match self {
            Chunk::Text(s) => s,
            Chunk::Number(s) => s,
        }
    }

    pub open spec fn make(digits: bool, s: Seq<char>) -> Chunk {
        if digits {
            Chunk::Number(s)
        } else {
            Chunk::Text(s)
        }
    }
}

/// The length of the longest prefix of `s` whose characters are digits exactly when `digits`.
pub open spec fn run_len(s: Seq<char>, digits: bool) -> nat
    decreases s.len(),
{
    if s.len() == 0 || is_digit(s[0]) != digits {
        0
    } else {
        1 + run_len(s.drop_first(), digits)
    }
}

/// `s` split into maximal runs of digits and of non-digits, in order.
pub open spec fn split_chunks(s: Seq<char>) -> Seq<Chunk>
    decreases s.len(),
{
    if s.len() == 0 {
        Seq::empty()
    } else {
        let digits = is_digit(s[0]);
        let n = run_len(s, digits);
        proof {
            lemma_run_len_bounds(s, digits);
        }
        seq![Chunk::make(digits, s.take(n as int))] + split_chunks(s.skip(n as int))
    }
}

/// The characters of all chunks, concatenated.
pub open spec fn flatten(cs: Seq<Chunk>) -> Seq<char>
    decreases cs.len(),
{
    if cs.len() == 0 {
        Seq::empty()
    } else {
        cs[0].chars() + flatten(cs.drop_first())
    }
}

/// The number of leading `'0'` characters of `s`.
pub open spec fn zero_run(s: Seq<char>) -> nat
    decreases s.len(),
{
    if s.len() == 0 || s[0] != '0' {
        0
    } else {
        1 + zero_run(s.drop_first())
    }
}

/// The leading zeros of `s`.
pub open spec fn leading_zeros(s: Seq<char>) -> Seq<char> {
    s.take(zero_run(s) as int)
}

/// `s` without its leading zeros.
pub open spec fn significant(s: Seq<char>) -> Seq<char> {
    s.skip(zero_run(s) as int)
}

pub open spec fn reversed(o: Ordering) -> Ordering {
    match o {
        Ordering::Less => Ordering::Greater,
        Ordering::Equal => Ordering::Equal,
        Ordering::Greater => Ordering::Less,
    }
}

pub open spec fn nat_order(a: nat, b: nat) -> Ordering {
    if a < b {
        Ordering::Less
    } else if a > b {
        Ordering::Greater
    } else {
        Ordering::Equal
    }
}

/// Lexicographic order of character sequences (the order of `str`).
pub open spec fn text_order(a: Seq<char>, b: Seq<char>) -> Ordering
    decreases a.len(),
{
    if a.len() == 0 {
        if b.len() == 0 {
            Ordering::Equal
        } else {
            Ordering::Less
        }
    } else if b.len() == 0 {
        Ordering::Greater
    } else if a[0] < b[0] {
        Ordering::Less
    } else if a[0] > b[0] {
        Ordering::Greater
    } else {
        text_order(a.drop_first(), b.drop_first())
    }
}

/// Order of two digit runs: by the length of the significant digits, then by the
/// significant digits, then by the number of leading zeros.
pub open spec fn number_order(a: Seq<char>, b: Seq<char>) -> Ordering {
    let by_len = nat_order(significant(a).len(), significant(b).len());
    let by_digits = text_order(significant(a), significant(b));
    if by_len != Ordering::Equal {
        by_len
    } else if by_digits != Ordering::Equal {
        by_digits
    } else {
        nat_order(zero_run(a), zero_run(b))
    }
}

pub open spec fn chunk_order(a: Chunk, b: Chunk) -> Ordering {
    match (a, b) {
        (Chunk::Text(l), Chunk::Text(r)) => text_order(l, r),
        (Chunk::Text(_), Chunk::Number(_)) => Ordering::Greater,
        (Chunk::Number(_), Chunk::Text(_)) => Ordering::Less,
        (Chunk::Number(l), Chunk::Number(r)) => number_order(l, r),
    }
}

/// Lexicographic order of chunk sequences (the order of `Iterator::cmp`).
pub open spec fn chunks_order(a: Seq<Chunk>, b: Seq<Chunk>) -> Ordering
    decreases a.len(),
{
    if a.len() == 0 {
        if b.len() == 0 {
            Ordering::Equal
        } else {
            Ordering::Less
        }
    } else if b.len() == 0 {
        Ordering::Greater
    } else if chunk_order(a[0], b[0]) != Ordering::Equal {
        chunk_order(a[0], b[0])
    } else {
        chunks_order(a.drop_first(), b.drop_first())
    }
}

/// The natural order of two strings.
pub open spec fn natural_order(a: Seq<char>, b: Seq<char>) -> Ordering {
    chunks_order(split_chunks(a), split_chunks(b))
}

// ---------------------------------------------------------------------------
// Lemmas about splitting
// ---------------------------------------------------------------------------

pub proof fn lemma_run_len_bounds(s: Seq<char>, digits: bool)
    ensures
        run_len(s, digits) <= s.len(),
        s.len() > 0 && is_digit(s[0]) == digits ==> run_len(s, digits) >= 1,
        forall|k: int| 0 <= k < run_len(s, digits) ==> is_digit(#[trigger] s[k]) == digits,
        run_len(s, digits) < s.len() ==> is_digit(s[run_len(s, digits) as int]) != digits,
    decreases s.len(),
{
    if s.len() > 0 && is_digit(s[0]) == digits {
        lemma_run_len_bounds(s.drop_first(), digits);
        assert forall|k: int| 0 <= k < run_len(s, digits) implies is_digit(#[trigger] s[k])
            == digits by {
            if k > 0 {
                assert(s[k] == s.drop_first()[k - 1]);
            }
        }
    }
}

/// A run that ends where the digit-ness first changes has that length.
pub proof fn lemma_run_len_exact(s: Seq<char>, digits: bool, m: int)
    requires
        0 <= m <= s.len(),
        forall|k: int| 0 <= k < m ==> is_digit(#[trigger] s[k]) == digits,
        m < s.len() ==> is_digit(s[m]) != digits,
    ensures
        run_len(s, digits) == m,
    decreases s.len(),
{
    if m > 0 {
        assert(is_digit(s[0]) == digits);
        assert forall|k: int| 0 <= k < m - 1 implies is_digit(#[trigger] s.drop_first()[k])
            == digits by {
            assert(s.drop_first()[k] == s[k + 1]);
        }
        if m - 1 < s.drop_first().len() {
            assert(s.drop_first()[m - 1] == s[m]);
        }
        lemma_run_len_exact(s.drop_first(), digits, m - 1);
    }
}

pub proof fn lemma_flatten_split(s: Seq<char>)
    ensures
        flatten(split_chunks(s)) == s,
    decreases s.len(),
{
    if s.len() > 0 {
        let digits = is_digit(s[0]);
        let n = run_len(s, digits);
        lemma_run_len_bounds(s, digits);
        lemma_flatten_split(s.skip(n as int));
        let cs = split_chunks(s);
        assert(cs.drop_first() == split_chunks(s.skip(n as int)));
        assert(cs[0].chars() == s.take(n as int));
        assert(s == s.take(n as int) + s.skip(n as int));
    }
}

/// Splitting is injective.
pub proof fn lemma_split_injective(a: Seq<char>, b: Seq<char>)
    requires
        split_chunks(a) == split_chunks(b),
    ensures
        a == b,
{
    lemma_flatten_split(a);
    lemma_flatten_split(b);
}

// ---------------------------------------------------------------------------
// Lemmas about the orders
// ---------------------------------------------------------------------------

pub proof fn lemma_text_order_laws(a: Seq<char>, b: Seq<char>)
    ensures
        text_order(b, a) == reversed(text_order(a, b)),
        text_order(a, b) == Ordering::Equal <==> a == b,
    decreases a.len(),
{
    if a.len() == 0 && b.len() == 0 {
        assert(a =~= b);
    }
    if a.len() > 0 && b.len() > 0 && a[0] == b[0] {
        lemma_text_order_laws(a.drop_first(), b.drop_first());
        if a.drop_first() == b.drop_first() {
            assert(a == seq![a[0]] + a.drop_first());
            assert(b == seq![b[0]] + b.drop_first());
        }
    }
}

pub proof fn lemma_text_order_transitive(a: Seq<char>, b: Seq<char>, c: Seq<char>)
    requires
        text_order(a, b) == Ordering::Less,
        text_order(b, c) == Ordering::Less,
    ensures
        text_order(a, c) == Ordering::Less,
    decreases a.len(),
{
    if a.len() > 0 && b.len() > 0 && c.len() > 0 && a[0] == b[0] && b[0] == c[0] {
        lemma_text_order_transitive(a.drop_first(), b.drop_first(), c.drop_first());
    }
}

pub proof fn lemma_zero_run_bounds(s: Seq<char>)
    ensures
        zero_run(s) <= s.len(),
        forall|k: int| 0 <= k < zero_run(s) ==> #[trigger] s[k] == '0',
        zero_run(s) < s.len() ==> s[zero_run(s) as int] != '0',
    decreases s.len(),
{
    if s.len() > 0 && s[0] == '0' {
        lemma_zero_run_bounds(s.drop_first());
        assert forall|k: int| 0 <= k < zero_run(s) implies #[trigger] s[k] == '0' by {
            if k > 0 {
                assert(s[k] == s.drop_first()[k - 1]);
            }
        }
    }
}

pub proof fn lemma_zeros_then_significant(s: Seq<char>)
    ensures
        s == leading_zeros(s) + significant(s),
        leading_zeros(s) == Seq::new(zero_run(s), |i: int| '0'),
{
    lemma_zero_run_bounds(s);
    assert(s == s.take(zero_run(s) as int) + s.skip(zero_run(s) as int));
    assert(leading_zeros(s) == Seq::new(zero_run(s), |i: int| '0'));
}

pub proof fn lemma_number_order_laws(a: Seq<char>, b: Seq<char>)
    ensures
        number_order(b, a) == reversed(number_order(a, b)),
        number_order(a, b) == Ordering::Equal <==> a == b,
{
    lemma_text_order_laws(significant(a), significant(b));
    lemma_zero_run_bounds(a);
    lemma_zero_run_bounds(b);
    if number_order(a, b) == Ordering::Equal {
        lemma_zeros_then_significant(a);
        lemma_zeros_then_significant(b);
    }
}

pub proof fn lemma_number_order_transitive(a: Seq<char>, b: Seq<char>, c: Seq<char>)
    requires
        number_order(a, b) == Ordering::Less,
        number_order(b, c) == Ordering::Less,
    ensures
        number_order(a, c) == Ordering::Less,
{
    lemma_text_order_laws(significant(a), significant(b));
    lemma_text_order_laws(significant(b), significant(c));
    lemma_text_order_laws(significant(a), significant(c));
    if text_order(significant(a), significant(b)) == Ordering::Less && text_order(
        significant(b),
        significant(c),
    ) == Ordering::Less {
        lemma_text_order_transitive(significant(a), significant(b), significant(c));
    }
}

pub proof fn lemma_chunk_order_laws(a: Chunk, b: Chunk)
    ensures
        chunk_order(b, a) == reversed(chunk_order(a, b)),
        chunk_order(a, b) == Ordering::Equal <==> a == b,
{
    match (a, b) {
        (Chunk::Text(l), Chunk::Text(r)) => lemma_text_order_laws(l, r),
        (Chunk::Number(l), Chunk::Number(r)) => lemma_number_order_laws(l, r),
        _ => {},
    }
}

pub proof fn lemma_chunk_order_transitive(a: Chunk, b: Chunk, c: Chunk)
    requires
        chunk_order(a, b) == Ordering::Less,
        chunk_order(b, c) == Ordering::Less,
    ensures
        chunk_order(a, c) == Ordering::Less,
{
    match (a, b, c) {
        (Chunk::Text(x), Chunk::Text(y), Chunk::Text(z)) => lemma_text_order_transitive(x, y, z),
        (Chunk::Number(x), Chunk::Number(y), Chunk::Number(z)) => lemma_number_order_transitive(
            x,
            y,
            z,
        ),
        _ => {},
    }
}

pub proof fn lemma_chunks_order_laws(a: Seq<Chunk>, b: Seq<Chunk>)
    ensures
        chunks_order(b, a) == reversed(chunks_order(a, b)),
        chunks_order(a, b) == Ordering::Equal <==> a == b,
    decreases a.len(),
{
    if a.len() == 0 && b.len() == 0 {
        assert(a =~= b);
    }
    if a.len() > 0 && b.len() > 0 {
        lemma_chunk_order_laws(a[0], b[0]);
        if a[0] == b[0] {
            lemma_chunks_order_laws(a.drop_first(), b.drop_first());
            if a.drop_first() == b.drop_first() {
                assert(a == seq![a[0]] + a.drop_first());
                assert(b == seq![b[0]] + b.drop_first());
            }
        }
    }
}

pub proof fn lemma_chunks_order_transitive(a: Seq<Chunk>, b: Seq<Chunk>, c: Seq<Chunk>)
    requires
        chunks_order(a, b) == Ordering::Less,
        chunks_order(b, c) == Ordering::Less,
    ensures
        chunks_order(a, c) == Ordering::Less,
    decreases a.len(),
{
    if a.len() > 0 && b.len() > 0 && c.len() > 0 {
        lemma_chunk_order_laws(a[0], b[0]);
        lemma_chunk_order_laws(b[0], c[0]);
        lemma_chunk_order_laws(a[0], c[0]);
        if chunk_order(a[0], b[0]) == Ordering::Less && chunk_order(b[0], c[0])
            == Ordering::Less {
            lemma_chunk_order_transitive(a[0], b[0], c[0]);
        } else if a[0] == b[0] && b[0] == c[0] {
            lemma_chunks_order_transitive(a.drop_first(), b.drop_first(), c.drop_first());
        }
    }
}

/// Comparing in the other direction gives the reversed result.
pub proof fn lemma_natural_order_antisymmetric(a: Seq<char>, b: Seq<char>)
    ensures
        natural_order(b, a) == reversed(natural_order(a, b)),
{
    lemma_chunks_order_laws(split_chunks(a), split_chunks(b));
}

/// Two strings compare equal exactly when they are the same string.
pub proof fn lemma_natural_order_equal_iff_same(a: Seq<char>, b: Seq<char>)
    ensures
        natural_order(a, b) == Ordering::Equal <==> a == b,
{
    lemma_chunks_order_laws(split_chunks(a), split_chunks(b));
    if natural_order(a, b) == Ordering::Equal {
        lemma_split_injective(a, b);
    }
}

/// The natural order is transitive.
pub proof fn lemma_natural_order_transitive(a: Seq<char>, b: Seq<char>, c: Seq<char>)
    requires
        natural_order(a, b) == Ordering::Less,
        natural_order(b, c) == Ordering::Less,
    ensures
        natural_order(a, c) == Ordering::Less,
{
    lemma_chunks_order_transitive(split_chunks(a), split_chunks(b), split_chunks(c));
}

// ---------------------------------------------------------------------------
// Numbers and plain text
// ---------------------------------------------------------------------------

/// The value of an ASCII digit.
pub open spec fn digit_value(c: char) -> int {
    c as int - '0' as int
}

pub open spec fn pow10(n: nat) -> int
    decreases n,
{
    if n == 0 {
        1
    } else {
        10 * pow10((n - 1) as nat)
    }
}

/// The number that a sequence of digits writes in decimal.
pub open spec fn decimal_value(s: Seq<char>) -> int
    decreases s.len(),
{
    if s.len() == 0 {
        0
    } else {
        digit_value(s[0]) * pow10((s.len() - 1) as nat) + decimal_value(s.drop_first())
    }
}

pub open spec fn all_digits(s: Seq<char>) -> bool {
    forall|k: int| 0 <= k < s.len() ==> is_digit(#[trigger] s[k])
}

pub open spec fn no_digits(s: Seq<char>) -> bool {
    forall|k: int| 0 <= k < s.len() ==> !is_digit(#[trigger] s[k])
}

/// The order of two integers.
pub open spec fn int_order(a: int, b: int) -> Ordering {
    if a < b {
        Ordering::Less
    } else if a > b {
        Ordering::Greater
    } else {
        Ordering::Equal
    }
}

proof fn lemma_pow10_monotone(m: nat, n: nat)
    requires
        m <= n,
    ensures
        1 <= pow10(m) <= pow10(n),
    decreases n,
{
    if n > m {
        lemma_pow10_monotone(m, (n - 1) as nat);
    } else if m > 0 {
        lemma_pow10_monotone((m - 1) as nat, (m - 1) as nat);
    }
}

/// Of two numbers written without leading zeros, the one with more digits is larger.
proof fn lemma_longer_is_larger(a: Seq<char>, b: Seq<char>)
    requires
        all_digits(a),
        all_digits(b),
        a.len() < b.len(),
        b[0] != '0',
    ensures
        decimal_value(a) < decimal_value(b),
{
    lemma_decimal_value_bounds(a);
    lemma_decimal_value_bounds(b);
    lemma_pow10_monotone(a.len(), (b.len() - 1) as nat);
}

proof fn lemma_decimal_value_bounds(s: Seq<char>)
    requires
        all_digits(s),
    ensures
        0 <= decimal_value(s) < pow10(s.len()),
        s.len() > 0 && s[0] != '0' ==> decimal_value(s) >= pow10((s.len() - 1) as nat),
    decreases s.len(),
{
    if s.len() > 0 {
        let t = s.drop_first();
        assert(all_digits(t)) by {
            assert forall|k: int| 0 <= k < t.len() implies is_digit(#[trigger] t[k]) by {
                assert(t[k] == s[k + 1]);
            }
        }
        lemma_decimal_value_bounds(t);
        assert(is_digit(s[0]));
        let d = digit_value(s[0]);
        let p = pow10(t.len());
        lemma_pow10_monotone(0, t.len());
        assert(pow10(s.len()) == 10 * p);
        assert(0 <= d <= 9);
        assert(0 <= d * p <= 9 * p) by (nonlinear_arith)
            requires
                0 <= d <= 9,
                p >= 1,
        ;
        if s[0] != '0' {
            assert(d >= 1);
            assert(d * p >= p) by (nonlinear_arith)
                requires
                    d >= 1,
                    p >= 1,
            ;
        }
    }
}

proof fn lemma_decimal_value_significant(s: Seq<char>)
    requires
        all_digits(s),
    ensures
        decimal_value(s) == decimal_value(significant(s)),
        all_digits(significant(s)),
        significant(s).len() > 0 ==> significant(s)[0] != '0',
    decreases s.len(),
{
    lemma_zero_run_bounds(s);
    if s.len() > 0 && s[0] == '0' {
        let t = s.drop_first();
        assert(all_digits(t)) by {
            assert forall|k: int| 0 <= k < t.len() implies is_digit(#[trigger] t[k]) by {
                assert(t[k] == s[k + 1]);
            }
        }
        lemma_decimal_value_significant(t);
        assert(significant(s) == significant(t));
        assert(digit_value(s[0]) == 0);
    } else {
        assert(significant(s) == s);
    }
}

proof fn lemma_same_length_digits(a: Seq<char>, b: Seq<char>)
    requires
        all_digits(a),
        all_digits(b),
        a.len() == b.len(),
    ensures
        text_order(a, b) == int_order(decimal_value(a), decimal_value(b)),
    decreases a.len(),
{
    if a.len() > 0 {
        let ta = a.drop_first();
        let tb = b.drop_first();
        assert(all_digits(ta)) by {
            assert forall|k: int| 0 <= k < ta.len() implies is_digit(#[trigger] ta[k]) by {
                assert(ta[k] == a[k + 1]);
            }
        }
        assert(all_digits(tb)) by {
            assert forall|k: int| 0 <= k < tb.len() implies is_digit(#[trigger] tb[k]) by {
                assert(tb[k] == b[k + 1]);
            }
        }
        lemma_same_length_digits(ta, tb);
        lemma_decimal_value_bounds(ta);
        lemma_decimal_value_bounds(tb);
        assert(is_digit(a[0]) && is_digit(b[0]));
        let da = digit_value(a[0]);
        let db = digit_value(b[0]);
        let p = pow10(ta.len());
        let va = decimal_value(ta);
        let vb = decimal_value(tb);
        assert(decimal_value(a) == da * p + va);
        assert(decimal_value(b) == db * p + vb);
        if a[0] < b[0] {
            assert(da + 1 <= db);
            assert(da * p + va < db * p + vb) by (nonlinear_arith)
                requires
                    da + 1 <= db,
                    0 <= va < p,
                    0 <= vb,
            ;
        } else if a[0] > b[0] {
            assert(db + 1 <= da);
            assert(db * p + vb < da * p + va) by (nonlinear_arith)
                requires
                    db + 1 <= da,
                    0 <= vb < p,
                    0 <= va,
            ;
        } else {
            assert(da == db);
        }
    }
}

/// Decimal numbers are ordered by their value, and numbers of equal value by
/// their count of leading zeros.
pub proof fn law_numbers_by_value(a: Seq<char>, b: Seq<char>)
    requires
        all_digits(a),
        all_digits(b),
        a.len() > 0,
        b.len() > 0,
    ensures
        natural_order(a, b) == if decimal_value(a) != decimal_value(b) {
            int_order(decimal_value(a), decimal_value(b))
        } else {
            nat_order(zero_run(a), zero_run(b))
        },
{
    lemma_single_run(a, true);
    lemma_single_run(b, true);
    let sa = significant(a);
    let sb = significant(b);
    lemma_decimal_value_significant(a);
    lemma_decimal_value_significant(b);
    lemma_decimal_value_bounds(sa);
    lemma_decimal_value_bounds(sb);
    if sa.len() < sb.len() {
        lemma_longer_is_larger(sa, sb);
    } else if sb.len() < sa.len() {
        lemma_longer_is_larger(sb, sa);
    } else {
        lemma_same_length_digits(sa, sb);
    }
    assert(chunk_order(Chunk::Number(a), Chunk::Number(b)) == number_order(a, b));
    assert(chunks_order(seq![Chunk::Number(a)], seq![Chunk::Number(b)]) == number_order(a, b)) by {
        assert(seq![Chunk::Number(a)].drop_first() =~= Seq::<Chunk>::empty());
        assert(seq![Chunk::Number(b)].drop_first() =~= Seq::<Chunk>::empty());
        assert(chunks_order(Seq::<Chunk>::empty(), Seq::<Chunk>::empty()) == Ordering::Equal);
    }
}

/// Strings without digits are in the ordinary order of strings.
pub proof fn law_text_in_string_order(a: Seq<char>, b: Seq<char>)
    requires
        no_digits(a),
        no_digits(b),
    ensures
        natural_order(a, b) == text_order(a, b),
{
    if a.len() > 0 {
        lemma_single_run(a, false);
    }
    if b.len() > 0 {
        lemma_single_run(b, false);
    }
    if a.len() > 0 && b.len() > 0 {
        assert(chunks_order(seq![Chunk::Text(a)], seq![Chunk::Text(b)]) == text_order(a, b)) by {
            assert(seq![Chunk::Text(a)].drop_first() =~= Seq::<Chunk>::empty());
            assert(seq![Chunk::Text(b)].drop_first() =~= Seq::<Chunk>::empty());
            assert(chunks_order(Seq::<Chunk>::empty(), Seq::<Chunk>::empty()) == Ordering::Equal);
        }
    }
}

/// The digit that writes `d` (below ten).
pub open spec fn digit_char(d: nat) -> char {
    if d == 0 {
        '0'
    } else if d == 1 {
        '1'
    } else if d == 2 {
        '2'
    } else if d == 3 {
        '3'
    } else if d == 4 {
        '4'
    } else if d == 5 {
        '5'
    } else if d == 6 {
        '6'
    } else if d == 7 {
        '7'
    } else if d == 8 {
        '8'
    } else {
        '9'
    }
}

/// `n` written in decimal without leading zeros, as `to_string` writes an integer.
pub open spec fn decimal_digits(n: nat) -> Seq<char>
    decreases n,
{
    if n < 10 {
        seq![digit_char(n)]
    } else {
        decimal_digits(n / 10).push(digit_char(n % 10))
    }
}

proof fn lemma_digit_char(d: nat)
    requires
        d < 10,
    ensures
        is_digit(digit_char(d)),
        digit_value(digit_char(d)) == d,
{
}

proof fn lemma_decimal_value_push(s: Seq<char>, c: char)
    ensures
        decimal_value(s.push(c)) == 10 * decimal_value(s) + digit_value(c),
    decreases s.len(),
{
    if s.len() == 0 {
        assert(s.push(c).drop_first() =~= Seq::<char>::empty());
        assert(s.push(c).len() == 1);
        assert(pow10(0) == 1);
        assert(decimal_value(Seq::<char>::empty()) == 0);
        assert(decimal_value(s.push(c)) == digit_value(c) * pow10(0) + decimal_value(Seq::<char>::empty()));
    } else {
        let t = s.drop_first();
        assert(s.push(c).drop_first() =~= t.push(c));
        lemma_decimal_value_push(t, c);
        let d = digit_value(s[0]);
        let p = pow10(t.len());
        assert(pow10(t.push(c).len()) == 10 * p);
        assert(decimal_value(s.push(c)) == d * (10 * p) + decimal_value(t.push(c)));
        assert(decimal_value(s) == d * p + decimal_value(t));
        assert(d * (10 * p) == 10 * (d * p)) by (nonlinear_arith);
    }
}

proof fn lemma_decimal_digits(n: nat)
    ensures
        decimal_digits(n).len() > 0,
        all_digits(decimal_digits(n)),
        decimal_value(decimal_digits(n)) == n,
    decreases n,
{
    if n < 10 {
        lemma_digit_char(n);
        let one = seq![digit_char(n)];
        assert(one.drop_first() =~= Seq::<char>::empty());
        assert(pow10(0) == 1);
        assert(decimal_value(one) == digit_value(one[0]) * pow10(0) + decimal_value(Seq::<char>::empty()));
        assert(all_digits(one));
    } else {
        let h = decimal_digits(n / 10);
        lemma_decimal_digits(n / 10);
        lemma_digit_char(n % 10);
        let c = digit_char(n % 10);
        lemma_decimal_value_push(h, c);
        assert(all_digits(h.push(c))) by {
            assert forall|k: int| 0 <= k < h.push(c).len() implies is_digit(#[trigger] h.push(c)[k]) by {
                if k < h.len() {
                    assert(h.push(c)[k] == h[k]);
                }
            }
        }
    }
}

/// Integers written in decimal (as `to_string` writes them) are in the order of
/// their values.
pub proof fn law_written_numbers_by_value(m: nat, n: nat)
    ensures
        natural_order(decimal_digits(m), decimal_digits(n)) == nat_order(m, n),
{
    lemma_decimal_digits(m);
    lemma_decimal_digits(n);
    law_numbers_by_value(decimal_digits(m), decimal_digits(n));
}

/// A nonempty string all of whose characters are digits (or all are not) is one run.
proof fn lemma_single_run(s: Seq<char>, digits: bool)
    requires
        s.len() > 0,
        forall|k: int| 0 <= k < s.len() ==> is_digit(#[trigger] s[k]) == digits,
    ensures
        split_chunks(s) == seq![Chunk::make(digits, s)],
{
    lemma_run_len_exact(s, digits, s.len() as int);
    assert(is_digit(s[0]) == digits);
    assert(s.take(s.len() as int) == s);
    assert(s.skip(s.len() as int).len() == 0);
    assert(split_chunks(s.skip(s.len() as int)) == Seq::<Chunk>::empty());
}

// ---------------------------------------------------------------------------
// Executable code
// ---------------------------------------------------------------------------

/// The suffix of `s` from position `i`.
pub open spec fn suffix<T>(s: Seq<T>, i: usize) -> Seq<T> {
    s.skip(i as int)
}

pub proof fn lemma_suffix_step<T>(s: Seq<T>, i: usize)
    requires
        i <= s.len(),
    ensures
        suffix(s, i).len() == s.len() - i,
        i < s.len() ==> suffix(s, i)[0] == s[i as int],
        i < s.len() && i < usize::MAX ==> suffix(s, i).drop_first() == suffix(s, (i + 1) as usize),
        i == 0 ==> suffix(s, i) == s,
{
    if i < s.len() && i < usize::MAX {
        assert(suffix(s, i).drop_first() == suffix(s, (i + 1) as usize));
    }
    if i == 0 {
        assert(suffix(s, i) == s);
    }
}

/// Whether `c` is an ASCII digit (`char::is_ascii_digit`).
pub fn is_ascii_digit(c: char) -> (r: bool)
    ensures
        r == is_digit(c),
{
    '0' <= c && c <= '9'
}

/// One run of a split string.
#[derive(Debug, PartialEq, Eq)]
pub enum Component {
    Text(Vec<char>),
    Number(Vec<char>),
}

impl View for Component {
    type V = Chunk;

    open spec fn view(&self) -> Chunk {
        match self {
            Component::Text(v) => Chunk::Text(v@),
            Component::Number(v) => Chunk::Number(v@),
        }
    }
}

/// The chunks that a sequence of components stands for.
pub open spec fn chunk_views(v: Seq<Component>) -> Seq<Chunk> {
    v.map_values(|c: Component| c@)
}

pub proof fn lemma_chunk_views_suffix(v: Seq<Component>, i: usize)
    requires
        i <= v.len(),
    ensures
        chunk_views(suffix(v, i)) == suffix(chunk_views(v), i),
        chunk_views(v).len() == v.len(),
        i < v.len() ==> chunk_views(v)[i as int] == v[i as int]@,
{
    assert(chunk_views(suffix(v, i)) == suffix(chunk_views(v), i));
}

/// Splits `s` into maximal runs of ASCII digits and of other characters.
pub fn split(s: &str) -> (r: Vec<Component>)
    ensures
        chunk_views(r@) == split_chunks(s@),
{
    let cs = chars_of(s);
    let n = cs.len();
    let mut out: Vec<Component> = Vec::new();
    let mut i: usize = 0;
    proof {
        lemma_suffix_step(cs@, 0);
    }
    while i < n
        invariant
            i <= n,
            n == cs@.len(),
            cs@ == s@,
            chunk_views(out@) + split_chunks(suffix(cs@, i)) == split_chunks(cs@),
        decreases n - i,
    {
        let digits = is_ascii_digit(cs[i]);
        let mut chunk: Vec<char> = Vec::new();
        let mut j: usize = i;
        while j < n && is_ascii_digit(cs[j]) == digits
            invariant
                i <= j <= n,
                n == cs@.len(),
                chunk@ == cs@.subrange(i as int, j as int),
                forall|k: int| i <= k < j ==> is_digit(#[trigger] cs@[k]) == digits,
            decreases n - j,
        {
            chunk.push(cs[j]);
            j = j + 1;
        }
        let ghost rest = suffix(cs@, i);
        proof {
            assert forall|k: int| 0 <= k < j - i implies is_digit(#[trigger] rest[k]) == digits by {
                assert(rest[k] == cs@[i + k]);
            }
            if j < n {
                assert(rest[j - i] == cs@[j as int]);
            }
            lemma_run_len_exact(rest, digits, j - i);
            assert(rest[0] == cs@[i as int]);
            assert(rest.take(j - i) == chunk@);
            assert(rest.skip(j - i) == suffix(cs@, j));
            assert(split_chunks(rest) == seq![Chunk::make(digits, chunk@)] + split_chunks(
                suffix(cs@, j),
            ));
        }
        let comp = if digits {
            Component::Number(chunk)
        } else {
            Component::Text(chunk)
        };
        let ghost before = out@;
        out.push(comp);
        proof {
            assert(chunk_views(out@) == chunk_views(before) + seq![comp@]);
        }
        i = j;
    }
    proof {
        assert(split_chunks(suffix(cs@, i)) == Seq::<Chunk>::empty());
    }
    out
}

/// Compares `a` from position `ia` with `b` from position `ib`, character by character.
fn compare_text_from(a: &Vec<char>, ia: usize, b: &Vec<char>, ib: usize) -> (r: Ordering)
    requires
        ia <= a@.len(),
        ib <= b@.len(),
    ensures
        r == text_order(suffix(a@, ia), suffix(b@, ib)),
{
    let mut i = ia;
    let mut j = ib;
    loop
        invariant
            ia <= i <= a@.len(),
            ib <= j <= b@.len(),
            text_order(suffix(a@, i), suffix(b@, j)) == text_order(suffix(a@, ia), suffix(b@, ib)),
        decreases a@.len() - i,
    {
        proof {
            lemma_suffix_step(a@, i);
            lemma_suffix_step(b@, j);
        }
        if i == a.len() {
            if j == b.len() {
                return Ordering::Equal;
            } else {
                return Ordering::Less;
            }
        } else if j == b.len() {
            return Ordering::Greater;
        }
        let x = a[i];
        let y = b[j];
        if x < y {
            return Ordering::Less;
        } else if x > y {
            return Ordering::Greater;
        }
        i = i + 1;
        j = j + 1;
    }
}

/// The number of leading `'0'` characters of `a`.
fn count_zeros(a: &Vec<char>) -> (z: usize)
    ensures
        z == zero_run(a@),
        significant(a@) == suffix(a@, z),
        z <= a@.len(),
{
    let mut i: usize = 0;
    while i < a.len() && a[i] == '0'
        invariant
            i <= a@.len(),
            forall|k: int| 0 <= k < i ==> #[trigger] a@[k] == '0',
        decreases a@.len() - i,
    {
        i = i + 1;
    }
    proof {
        lemma_zero_run_exact(a@, i as int);
    }
    i
}

pub proof fn lemma_zero_run_exact(s: Seq<char>, m: int)
    requires
        0 <= m <= s.len(),
        forall|k: int| 0 <= k < m ==> #[trigger] s[k] == '0',
        m < s.len() ==> s[m] != '0',
    ensures
        zero_run(s) == m,
    decreases s.len(),
{
    if m > 0 {
        assert forall|k: int| 0 <= k < m - 1 implies #[trigger] s.drop_first()[k] == '0' by {
            assert(s.drop_first()[k] == s[k + 1]);
        }
        if m - 1 < s.drop_first().len() {
            assert(s.drop_first()[m - 1] == s[m]);
        }
        lemma_zero_run_exact(s.drop_first(), m - 1);
    }
}

fn compare_numbers(a: &Vec<char>, b: &Vec<char>) -> (r: Ordering)
    ensures
        r == number_order(a@, b@),
{
    let za = count_zeros(a);
    let zb = count_zeros(b);
    proof {
        lemma_suffix_step(a@, za);
        lemma_suffix_step(b@, zb);
    }
    let la = a.len() - za;
    let lb = b.len() - zb;
    if la < lb {
        Ordering::Less
    } else if la > lb {
        Ordering::Greater
    } else {
        match compare_text_from(a, za, b, zb) {
            Ordering::Less => Ordering::Less,
            Ordering::Greater => Ordering::Greater,
            Ordering::Equal => {
                if za < zb {
                    Ordering::Less
                } else if za > zb {
                    Ordering::Greater
                } else {
                    Ordering::Equal
                }
            },
        }
    }
}

impl Component {
    /// The order of two runs: numbers before text, text by characters, numbers by value.
    pub fn compare(&self, other: &Component) -> (r: Ordering)
        ensures
            r == chunk_order(self@, other@),
    {
        match (self, other) {
            (Component::Text(l), Component::Text(r)) => {
                proof {
                    lemma_suffix_step(l@, 0);
                    lemma_suffix_step(r@, 0);
                }
                compare_text_from(l, 0, r, 0)
            },
            (Component::Text(_), Component::Number(_)) => Ordering::Greater,
            (Component::Number(_), Component::Text(_)) => Ordering::Less,
            (Component::Number(l), Component::Number(r)) => compare_numbers(l, r),
        }
    }
}

/// Compares two run sequences lexicographically.
fn compare_components(a: &Vec<Component>, b: &Vec<Component>) -> (r: Ordering)
    ensures
        r == chunks_order(chunk_views(a@), chunk_views(b@)),
{
    let mut i: usize = 0;
    proof {
        lemma_chunk_views_suffix(a@, 0);
        lemma_chunk_views_suffix(b@, 0);
        lemma_suffix_step(chunk_views(a@), 0);
        lemma_suffix_step(chunk_views(b@), 0);
    }
    loop
        invariant
            i <= a@.len(),
            i <= b@.len(),
            chunks_order(suffix(chunk_views(a@), i), suffix(chunk_views(b@), i)) == chunks_order(
                chunk_views(a@),
                chunk_views(b@),
            ),
        decreases a@.len() - i,
    {
        proof {
            lemma_chunk_views_suffix(a@, i);
            lemma_chunk_views_suffix(b@, i);
            lemma_suffix_step(chunk_views(a@), i);
            lemma_suffix_step(chunk_views(b@), i);
        }
        if i == a.len() {
            if i == b.len() {
                return Ordering::Equal;
            } else {
                return Ordering::Less;
            }
        } else if i == b.len() {
            return Ordering::Greater;
        }
        match a[i].compare(&b[i]) {
            Ordering::Less => {
                return Ordering::Less;
            },
            Ordering::Greater => {
                return Ordering::Greater;
            },
            Ordering::Equal => {},
        }
        i = i + 1;
    }
}

/// A string that is ordered naturally.
#[derive(Debug, Eq, PartialEq)]
pub struct NaturalString<'a>(Cow<'a, str>);

impl<'a> View for NaturalString<'a> {
    type V = Seq<char>;

    closed spec fn view(&self) -> Seq<char> {
        self.0@
    }
}

impl<'a> Clone for NaturalString<'a> {
    fn clone(&self) -> (r: Self)
        ensures
            r@ == self@,
    {
        match &self.0 {
            Cow::Borrowed(b) => NaturalString(Cow::Borrowed(*b)),
            Cow::Owned(o) => NaturalString(Cow::Owned(o.clone())),
        }
    }
}

impl<'a> NaturalString<'a> {
    pub fn owned(s: String) -> (r: Self)
        ensures
            r@ == s@,
    {
        NaturalString(Cow::Owned(s))
    }

    pub fn borrowed(s: &'a str) -> (r: Self)
        ensures
            r@ == s@,
    {
        NaturalString(Cow::Borrowed(s))
    }

    pub fn as_str(&self) -> (r: &str)
        ensures
            r@ == self@,
    {
        match &self.0 {
            Cow::Borrowed(b) => b,
            Cow::Owned(o) => o.as_str(),
        }
    }

    /// The natural order of the two strings.
    pub fn cmp(&self, other: &Self) -> (r: Ordering)
        ensures
            r == natural_order(self@, other@),
    {
        let a = split(self.as_str());
        let b = split(other.as_str());
        compare_components(&a, &b)
    }
}

}
