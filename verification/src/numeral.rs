use vstd::prelude::*;
use vstd::string::StringExecFns;
use crate::token::{
    is_digit, all_digits, is_exponent_marker, is_mantissa, is_exponent, is_decimal, strip_sign,
    lower, is_number_literal, ascii_lower, is_sign, chars_of, check_decimal, find_either,
    lower_equals,
};

verus! {

// ------------------------------------------------------------------
// The value of a numeral, digit by digit
// ------------------------------------------------------------------

/// The index of the first character of `s` that is `a` or `b`, or the
/// length of `s`.
pub open spec fn first_index(s: Seq<char>, a: char, b: char) -> int
    decreases s.len(),
{
    if s.len() == 0 {
        0
    } else if s[0] == a || s[0] == b {
        0
    } else {
        1 + first_index(s.drop_first(), a, b)
    }
}

/// The number of `0` characters at the start of `s`.
pub open spec fn lead_zeros(s: Seq<char>) -> nat
    decreases s.len(),
{
    if s.len() > 0 && s[0] == '0' {
        1 + lead_zeros(s.drop_first())
    } else {
        0
    }
}

/// The number of `0` characters at the end of `s`.
pub open spec fn trail_zeros(s: Seq<char>) -> nat
    decreases s.len(),
{
    if s.len() > 0 && s.last() == '0' {
        1 + trail_zeros(s.drop_last())
    } else {
        0
    }
}

/// The number that a string of decimal digits writes.
pub open spec fn digits_value(s: Seq<char>) -> nat
    decreases s.len(),
{
    if s.len() == 0 {
        0
    } else {
        digits_value(s.drop_last()) * 10 + ((s.last() as int - '0' as int) as nat)
    }
}

/// The value of an exponent: an optional sign and digits.
pub open spec fn exponent_value(x: Seq<char>) -> int {
    if x.len() > 0 && x[0] == '-' {
        -(digits_value(x.drop_first()) as int)
    } else {
        digits_value(strip_sign(x)) as int
    }
}

/// `n` zeros.
pub open spec fn zeros(n: nat) -> Seq<char> {
    Seq::new(n, |i: int| '0')
}

/// The significant digits `d` (first and last not `0`) of the number
/// `0.d × 10^q`, written without exponent and without needless zeros.
pub open spec fn plain(d: Seq<char>, q: int) -> Seq<char> {
    if q <= 0 {
        seq!['0', '.'] + zeros((-q) as nat) + d
    } else if q < d.len() {
        d.take(q) + seq!['.'] + d.skip(q)
    } else {
        d + zeros((q - d.len()) as nat)
    }
}

/// `-` for a negative number, nothing otherwise.
pub open spec fn sign_text(neg: bool) -> Seq<char> {
    if neg {
        seq!['-']
    } else {
        seq![]
    }
}

/// The decimal part of a numeral without its sign, taken apart: the digits
/// of the mantissa without the decimal point, how many of them stand before
/// the point, and the exponent.
pub struct DecimalParts {
    pub digits: Seq<char>,
    pub int_len: int,
    pub exponent: int,
}

pub open spec fn decimal_parts(u: Seq<char>) -> DecimalParts {
    let k = first_index(u, 'e', 'E');
    let m = u.take(k);
    let d = first_index(m, '.', '.');
    DecimalParts {
        digits: m.take(d) + (if d < m.len() {
            m.skip(d + 1)
        } else {
            seq![]
        }),
        int_len: d,
        exponent: if k < u.len() {
            exponent_value(u.skip(k + 1))
        } else {
            0
        },
    }
}

/// The significant digits of a decimal numeral: its mantissa digits
/// without leading and trailing zeros (empty for zero).
pub open spec fn significant(p: DecimalParts) -> Seq<char> {
    let z = lead_zeros(p.digits);
    let t = trail_zeros(p.digits);
    if z == p.digits.len() {
        seq![]
    } else {
        p.digits.subrange(z as int, p.digits.len() - t)
    }
}

/// Where the decimal point stands relative to the significant digits: the
/// number is `0.significant × 10^point`.
pub open spec fn point(p: DecimalParts) -> int {
    p.int_len - lead_zeros(p.digits) + p.exponent
}

/// Whether the shortest decimal that an `f64` rounds back from is the
/// numeral's own value: at most 15 significant digits (every such decimal
/// survives the trip to `f64` and back) and a value between `1e-307` and
/// `1e308`, inside the range of normal `f64` numbers.
pub open spec fn exactly_displayed(d: Seq<char>, q: int) -> bool {
    d.len() <= 15 && -306 <= q <= 308
}

/// How the number that a numeral writes is displayed, as `{}` formats an
/// `f64`: `NaN`, `inf` or `-inf`; zero as `0` or `-0`; other numbers by
/// their significant digits, without exponent and without needless zeros.
/// A decimal numeral with more than 15 significant digits or a value
/// outside `1e-307 ..= 1e308` needs the rounding of floating point to be
/// displayed so; such a numeral is kept as written.
pub open spec fn display_numeral(w: Seq<char>) -> Seq<char> {
    let neg = w.len() > 0 && w[0] == '-';
    let u = strip_sign(w);
    if is_decimal(u) {
        let p = decimal_parts(u);
        let d = significant(p);
        if d.len() == 0 {
            sign_text(neg) + seq!['0']
        } else if exactly_displayed(d, point(p)) {
            sign_text(neg) + plain(d, point(p))
        } else {
            w
        }
    } else if lower(u) == seq!['n', 'a', 'n'] {
        seq!['N', 'a', 'N']
    } else {
        sign_text(neg) + seq!['i', 'n', 'f']
    }
}

// ------------------------------------------------------------------
// Lemmas on the pieces
// ------------------------------------------------------------------

pub proof fn lemma_first_index(s: Seq<char>, a: char, b: char, k: int)
    requires
        0 <= k <= s.len(),
        k < s.len() ==> (s[k] == a || s[k] == b),
        forall|j: int| 0 <= j < k ==> #[trigger] s[j] != a && s[j] != b,
    ensures
        first_index(s, a, b) == k,
    decreases k,
{
    if k > 0 {
        let t = s.drop_first();
        assert forall|j: int| 0 <= j < k - 1 implies #[trigger] t[j] != a && t[j] != b by {
            assert(t[j] == s[j + 1]);
        }
        if k - 1 < t.len() {
            assert(t[k - 1] == s[k]);
        }
        assert(s[0] != a && s[0] != b);
        lemma_first_index(t, a, b, k - 1);
    } else if s.len() > 0 {
        assert(s[0] == a || s[0] == b);
    }
}

/// `lead_zeros` counts exactly the zeros before the first other character.
pub proof fn lemma_lead_zeros(s: Seq<char>)
    ensures
        lead_zeros(s) <= s.len(),
        forall|j: int| 0 <= j < lead_zeros(s) ==> #[trigger] s[j] == '0',
        lead_zeros(s) < s.len() ==> s[lead_zeros(s) as int] != '0',
    decreases s.len(),
{
    if s.len() > 0 && s[0] == '0' {
        let t = s.drop_first();
        lemma_lead_zeros(t);
        assert forall|j: int| 0 <= j < lead_zeros(s) implies #[trigger] s[j] == '0' by {
            if j > 0 {
                assert(s[j] == t[j - 1]);
            }
        }
        if lead_zeros(s) < s.len() {
            assert(s[lead_zeros(s) as int] == t[lead_zeros(t) as int]);
        }
    }
}

/// `trail_zeros` counts exactly the zeros after the last other character.
pub proof fn lemma_trail_zeros(s: Seq<char>)
    ensures
        trail_zeros(s) <= s.len(),
        forall|j: int| s.len() - trail_zeros(s) <= j < s.len() ==> #[trigger] s[j] == '0',
        trail_zeros(s) < s.len() ==> s[s.len() - trail_zeros(s) - 1] != '0',
    decreases s.len(),
{
    if s.len() > 0 && s.last() == '0' {
        let t = s.drop_last();
        lemma_trail_zeros(t);
        assert forall|j: int| s.len() - trail_zeros(s) <= j < s.len() implies #[trigger] s[j]
            == '0' by {
            if j < s.len() - 1 {
                assert(s[j] == t[j]);
            }
        }
        if trail_zeros(s) < s.len() {
            assert(s[s.len() - trail_zeros(s) - 1] == t[t.len() - trail_zeros(t) - 1]);
        }
    }
}

/// Leading zeros are counted up to the first other character.
pub proof fn lemma_lead_zeros_prefix(n: nat, s: Seq<char>)
    requires
        s.len() > 0 ==> s[0] != '0',
    ensures
        lead_zeros(zeros(n) + s) == n,
    decreases n,
{
    if n == 0 {
        assert(zeros(0) + s =~= s);
    } else {
        let w = zeros(n) + s;
        assert(w.drop_first() =~= zeros((n - 1) as nat) + s);
        lemma_lead_zeros_prefix((n - 1) as nat, s);
    }
}

/// Trailing zeros are counted back to the last other character.
pub proof fn lemma_trail_zeros_suffix(s: Seq<char>, n: nat)
    requires
        s.len() > 0 ==> s.last() != '0',
    ensures
        trail_zeros(s + zeros(n)) == n,
    decreases n,
{
    if n == 0 {
        assert(s + zeros(0) =~= s);
    } else {
        let w = s + zeros(n);
        assert(w.drop_last() =~= s + zeros((n - 1) as nat));
        lemma_trail_zeros_suffix(s, (n - 1) as nat);
    }
}

/// The significant digits are digits, begin and end with a digit other than
/// `0`, and are framed by zeros in the mantissa digits.
pub proof fn lemma_significant(p: DecimalParts)
    requires
        all_digits(p.digits),
        lead_zeros(p.digits) < p.digits.len(),
    ensures
        significant(p).len() > 0,
        all_digits(significant(p)),
        significant(p)[0] != '0',
        significant(p).last() != '0',
        lead_zeros(p.digits) + significant(p).len() + trail_zeros(p.digits) == p.digits.len(),
{
    let s = p.digits;
    lemma_lead_zeros(s);
    lemma_trail_zeros(s);
    let z = lead_zeros(s);
    let t = trail_zeros(s);
    assert(z < s.len());
    assert(s[z as int] != '0');
    if t > s.len() - z - 1 {
        assert(s[z as int] == '0');
    }
    let d = significant(p);
    assert(d[0] == s[z as int]);
    assert(d.last() == s[s.len() - t - 1]);
    assert forall|i: int| 0 <= i < d.len() implies is_digit(#[trigger] d[i]) by {
        assert(d[i] == s[z + i]);
    }
}

/// A string of digits and decimal points has no exponent marker.
proof fn lemma_no_marker(s: Seq<char>)
    requires
        forall|i: int| 0 <= i < s.len() ==> is_digit(#[trigger] s[i]) || s[i] == '.',
    ensures
        first_index(s, 'e', 'E') == s.len(),
{
    lemma_first_index(s, 'e', 'E', s.len() as int);
}

/// A plain rendering of significant digits is a decimal numeral, which
/// takes apart into the same significant digits and decimal point.
#[verifier::rlimit(40)]
#[verifier::spinoff_prover]
pub proof fn lemma_plain_parts(d: Seq<char>, q: int)
    requires
        d.len() > 0,
        all_digits(d),
        d[0] != '0',
        d.last() != '0',
    ensures
        is_decimal(plain(d, q)),
        is_digit(plain(d, q)[0]),
        significant(decimal_parts(plain(d, q))) == d,
        point(decimal_parts(plain(d, q))) == q,
{
    let pl = plain(d, q);
    if q <= 0 {
        let r = (-q) as nat;
        let tail = zeros(r) + d;
        assert(pl =~= seq!['0', '.'] + tail);
        assert(all_digits(tail)) by {
            assert forall|i: int| 0 <= i < tail.len() implies is_digit(#[trigger] tail[i]) by {
                if i >= r {
                    assert(tail[i] == d[i - r]);
                }
            }
        }
        assert(pl.take(1) =~= seq!['0']);
        assert(pl.skip(2) =~= tail);
        assert(pl[1] == '.');
        assert(all_digits(pl.skip(1int + 1)));
        assert(is_mantissa(pl));
        assert forall|i: int| 0 <= i < pl.len() implies is_digit(#[trigger] pl[i]) || pl[i] == '.' by {
            if i >= 2 {
                assert(pl[i] == tail[i - 2]);
            }
        }
        lemma_no_marker(pl);
        assert(pl.take(pl.len() as int) =~= pl);
        assert forall|j: int| 0 <= j < 1 implies #[trigger] pl[j] != '.' && pl[j] != '.' by {}
        lemma_first_index(pl, '.', '.', 1);
        let p = decimal_parts(pl);
        assert(p.digits =~= zeros(r + 1) + d) by {
            assert(pl.take(1) + pl.skip(2) =~= zeros(r + 1) + d);
        }
        lemma_lead_zeros_prefix(r + 1, d);
        assert(trail_zeros(p.digits) == 0) by {
            assert(p.digits.last() == d.last());
        }
        assert(p.digits.subrange(r + 1int, p.digits.len() as int) =~= d);
    } else if q < d.len() {
        let a = d.take(q);
        let b = d.skip(q);
        assert(pl =~= a + seq!['.'] + b);
        assert(pl.take(q) =~= a);
        assert(pl.skip(q + 1) =~= b);
        assert(pl[q] == '.');
        assert(all_digits(a)) by {
            assert forall|i: int| 0 <= i < a.len() implies is_digit(#[trigger] a[i]) by {
                assert(a[i] == d[i]);
            }
        }
        assert(all_digits(b)) by {
            assert forall|i: int| 0 <= i < b.len() implies is_digit(#[trigger] b[i]) by {
                assert(b[i] == d[q + i]);
            }
        }
        assert(all_digits(pl.skip(q + 1)));
        assert(is_mantissa(pl));
        assert forall|i: int| 0 <= i < pl.len() implies is_digit(#[trigger] pl[i]) || pl[i] == '.' by {
            if i < q {
                assert(pl[i] == d[i]);
            } else if i > q {
                assert(pl[i] == d[i - 1]);
            }
        }
        lemma_no_marker(pl);
        assert(pl.take(pl.len() as int) =~= pl);
        assert forall|j: int| 0 <= j < q implies #[trigger] pl[j] != '.' && pl[j] != '.' by {
            assert(pl[j] == d[j]);
        }
        lemma_first_index(pl, '.', '.', q);
        let p = decimal_parts(pl);
        assert(p.digits =~= d);
        assert(pl[0] == d[0]);
    } else {
        let n = (q - d.len()) as nat;
        assert(pl =~= d + zeros(n));
        assert(all_digits(pl)) by {
            assert forall|i: int| 0 <= i < pl.len() implies is_digit(#[trigger] pl[i]) by {
                if i < d.len() {
                    assert(pl[i] == d[i]);
                }
            }
        }
        assert(is_mantissa(pl));
        lemma_no_marker(pl);
        assert(pl.take(pl.len() as int) =~= pl);
        lemma_first_index(pl, '.', '.', pl.len() as int);
        let p = decimal_parts(pl);
        assert(p.digits =~= pl);
        assert(lead_zeros(pl) == 0);
        lemma_trail_zeros_suffix(d, n);
        assert(pl.subrange(0, pl.len() - n) =~= d);
    }
}

/// No numeral is an operator, a parenthesis or a function name.
pub proof fn lemma_numeral_is_no_symbol(w: Seq<char>)
    requires
        is_number_literal(w),
    ensures
        w != seq!['+'],
        w != seq!['-'],
        w != seq!['*'],
        w != seq!['/'],
        w != seq!['^'],
        w != seq!['('],
        w != seq![')'],
        w != seq!['s', 'i', 'n'],
        w != seq!['c', 'o', 's'],
        w != seq!['t', 'a', 'n'],
        w != seq!['s', 'q', 'r', 't'],
{
    crate::token::lemma_number_literal_chars(w);
    if w == seq!['+'] || w == seq!['-'] {
        assert(strip_sign(w) =~= Seq::<char>::empty());
        assert(lower(strip_sign(w)) =~= Seq::<char>::empty());
        if is_decimal(strip_sign(w)) {
            if !is_mantissa(strip_sign(w)) {
                let u = strip_sign(w);
                let k = choose|k: int|
                    0 <= k < u.len() && is_exponent_marker(u[k]) && is_mantissa(u.take(k))
                        && #[trigger] is_exponent(u.skip(k + 1));
            }
        }
    }
    if w == seq!['s', 'i', 'n'] || w == seq!['c', 'o', 's'] || w == seq!['t', 'a', 'n'] || w
        == seq!['s', 'q', 'r', 't'] {
        let u = strip_sign(w);
        assert(u == w);
        if is_decimal(u) {
            lemma_decimal_chars(u);
            assert(!(is_digit(u[0]) || u[0] == '.' || is_exponent_marker(u[0]) || u[0] == '+'
                || u[0] == '-'));
        } else {
            assert(lower(u)[0] == u[0]);
        }
    }
}

/// A decimal numeral holds only digits, points, exponent markers and signs.
proof fn lemma_decimal_chars(u: Seq<char>)
    requires
        is_decimal(u),
    ensures
        u.len() > 0,
        forall|i: int|
            0 <= i < u.len() ==> is_digit(#[trigger] u[i]) || u[i] == '.'
                || is_exponent_marker(u[i]) || u[i] == '+' || u[i] == '-',
{
    crate::token::lemma_decimal_chars_of(u);
}

/// The mantissa digits of a decimal numeral are digits.
proof fn lemma_parts_digits(u: Seq<char>)
    requires
        is_decimal(u),
    ensures
        all_digits(decimal_parts(u).digits),
{
    let k = first_index(u, 'e', 'E');
    if is_mantissa(u) {
        crate::token::lemma_decimal_chars_of(u);
        lemma_mantissa_only(u);
        lemma_first_index(u, 'e', 'E', u.len() as int);
        assert(u.take(k) =~= u);
        lemma_mantissa_digits(u);
    } else {
        let j = choose|j: int|
            0 <= j < u.len() && is_exponent_marker(u[j]) && is_mantissa(u.take(j))
                && #[trigger] is_exponent(u.skip(j + 1));
        lemma_mantissa_only(u.take(j));
        assert forall|i: int| 0 <= i < j implies #[trigger] u[i] != 'e' && u[i] != 'E' by {
            assert(u.take(j)[i] == u[i]);
        }
        lemma_first_index(u, 'e', 'E', j);
        lemma_mantissa_digits(u.take(j));
    }
}

/// A mantissa holds only digits and points.
proof fn lemma_mantissa_only(m: Seq<char>)
    requires
        is_mantissa(m),
    ensures
        forall|i: int| 0 <= i < m.len() ==> #[trigger] m[i] != 'e' && m[i] != 'E',
{
    if !(m.len() > 0 && all_digits(m)) {
        let k = choose|k: int|
            0 <= k < m.len() && m[k] == '.' && m.len() >= 2 && all_digits(m.take(k))
                && #[trigger] all_digits(m.skip(k + 1));
        assert forall|i: int| 0 <= i < m.len() implies #[trigger] m[i] != 'e' && m[i] != 'E' by {
            if i < k {
                assert(m.take(k)[i] == m[i]);
            } else if i > k {
                assert(m.skip(k + 1)[i - k - 1] == m[i]);
            }
        }
    }
}

/// The digits of a mantissa, without its point, are digits.
proof fn lemma_mantissa_digits(m: Seq<char>)
    requires
        is_mantissa(m),
    ensures
        ({
            let d = first_index(m, '.', '.');
            all_digits(m.take(d) + (if d < m.len() {
                m.skip(d + 1)
            } else {
                seq![]
            }))
        }),
{
    if m.len() > 0 && all_digits(m) {
        lemma_first_index(m, '.', '.', m.len() as int);
        assert(m.take(m.len() as int) + Seq::<char>::empty() =~= m);
    } else {
        let k = choose|k: int|
            0 <= k < m.len() && m[k] == '.' && m.len() >= 2 && all_digits(m.take(k))
                && #[trigger] all_digits(m.skip(k + 1));
        assert forall|j: int| 0 <= j < k implies #[trigger] m[j] != '.' && m[j] != '.' by {
            assert(m.take(k)[j] == m[j]);
        }
        lemma_first_index(m, '.', '.', k);
        let all = m.take(k) + m.skip(k + 1);
        assert forall|i: int| 0 <= i < all.len() implies is_digit(#[trigger] all[i]) by {
            if i < k {
                assert(all[i] == m.take(k)[i]);
            } else {
                assert(all[i] == m.skip(k + 1)[i - k]);
            }
        }
    }
}

/// `NaN` and `inf` are no decimal numerals.
proof fn lemma_special_not_decimal(u: Seq<char>)
    requires
        u == seq!['N', 'a', 'N'] || u == seq!['i', 'n', 'f'],
    ensures
        !is_decimal(u),
{
    if is_decimal(u) {
        crate::token::lemma_decimal_chars_of(u);
        assert(!(is_digit(u[1]) || u[1] == '.' || is_exponent_marker(u[1]) || u[1] == '+' || u[1]
            == '-'));
    }
}

/// Displaying a numeral gives a numeral that displays as itself.
pub proof fn lemma_display_numeral(w: Seq<char>)
    requires
        is_number_literal(w),
    ensures
        is_number_literal(display_numeral(w)),
        display_numeral(display_numeral(w)) == display_numeral(w),
{
    let neg = w.len() > 0 && w[0] == '-';
    let u = strip_sign(w);
    let c = display_numeral(w);
    if is_decimal(u) {
        let p = decimal_parts(u);
        let d = significant(p);
        if d.len() == 0 {
            let z = seq!['0'];
            assert(c =~= sign_text(neg) + z);
            assert(strip_sign(c) =~= z);
            assert(all_digits(z));
            assert(is_mantissa(z));
            lemma_first_index(z, 'e', 'E', 1);
            assert(z.take(1) =~= z);
            lemma_first_index(z, '.', '.', 1);
            let pz = decimal_parts(z);
            assert(pz.digits =~= z);
            assert(lead_zeros(z) == 1) by {
                let e = z.drop_first();
                assert(e.len() == 0);
                assert(lead_zeros(e) == 0);
                assert(z[0] == '0');
            }
        } else if exactly_displayed(d, point(p)) {
            lemma_parts_digits(u);
            lemma_lead_zeros(p.digits);
            lemma_significant(p);
            let q = point(p);
            let pl = plain(d, q);
            lemma_plain_parts(d, q);
            assert(c =~= sign_text(neg) + pl);
            assert(strip_sign(c) =~= pl);
        }
    } else if lower(u) == seq!['n', 'a', 'n'] {
        let nan = seq!['N', 'a', 'N'];
        assert(lower(nan) =~= seq!['n', 'a', 'n']) by {
            assert(ascii_lower('N') == 'n');
            assert(ascii_lower('a') == 'a');
        }
        assert(strip_sign(nan) =~= nan);
        lemma_special_not_decimal(nan);
    } else {
        let inf = seq!['i', 'n', 'f'];
        assert(c =~= sign_text(neg) + inf);
        assert(strip_sign(c) =~= inf);
        assert(lower(inf) =~= inf);
        lemma_special_not_decimal(inf);
    }
}

} // verus!

verus! {

// ------------------------------------------------------------------
// Computing the display of a numeral
// ------------------------------------------------------------------

/// Appends one digit.
fn append_digit(out: &mut String, c: char)
    requires
        is_digit(c),
    ensures
        final(out)@ == old(out)@.push(c),
{
    proof {
        reveal_strlit("0");
        reveal_strlit("1");
        reveal_strlit("2");
        reveal_strlit("3");
        reveal_strlit("4");
        reveal_strlit("5");
        reveal_strlit("6");
        reveal_strlit("7");
        reveal_strlit("8");
        reveal_strlit("9");
    }
    if c == '0' {
        out.append("0");
    } else if c == '1' {
        out.append("1");
    } else if c == '2' {
        out.append("2");
    } else if c == '3' {
        out.append("3");
    } else if c == '4' {
        out.append("4");
    } else if c == '5' {
        out.append("5");
    } else if c == '6' {
        out.append("6");
    } else if c == '7' {
        out.append("7");
    } else if c == '8' {
        out.append("8");
    } else {
        out.append("9");
    }
}

/// Appends the digits `v[lo..hi]`.
fn append_digits(out: &mut String, v: &Vec<char>, lo: usize, hi: usize)
    requires
        lo <= hi <= v.len(),
        all_digits(v@.subrange(lo as int, hi as int)),
    ensures
        final(out)@ == old(out)@ + v@.subrange(lo as int, hi as int),
{
    let ghost start = out@;
    let mut i = lo;
    while i < hi
        invariant
            lo <= i <= hi <= v.len(),
            all_digits(v@.subrange(lo as int, hi as int)),
            out@ == start + v@.subrange(lo as int, i as int),
        decreases hi - i,
    {
        assert(v@.subrange(lo as int, hi as int)[i - lo] == v@[i as int]);
        append_digit(out, v[i]);
        assert(v@.subrange(lo as int, i + 1) =~= v@.subrange(lo as int, i as int).push(v@[i as int]));
        i = i + 1;
    }
}

/// Appends `n` zeros.
fn append_zeros(out: &mut String, n: usize)
    ensures
        final(out)@ == old(out)@ + zeros(n as nat),
{
    let ghost start = out@;
    let mut i: usize = 0;
    while i < n
        invariant
            0 <= i <= n,
            out@ == start + zeros(i as nat),
        decreases n - i,
    {
        append_digit(out, '0');
        assert(zeros((i + 1) as nat) =~= zeros(i as nat).push('0'));
        i = i + 1;
    }
}

/// The digits `v[lo..hi]`, followed by `v[mid..hi2]`.
fn join_ranges(v: &Vec<char>, lo: usize, hi: usize, mid: usize, hi2: usize) -> (r: Vec<char>)
    requires
        lo <= hi <= v.len(),
        mid <= hi2 <= v.len(),
    ensures
        r@ == v@.subrange(lo as int, hi as int) + v@.subrange(mid as int, hi2 as int),
{
    let mut r: Vec<char> = Vec::new();
    let mut i = lo;
    while i < hi
        invariant
            lo <= i <= hi <= v.len(),
            r@ == v@.subrange(lo as int, i as int),
        decreases hi - i,
    {
        r.push(v[i]);
        assert(v@.subrange(lo as int, i + 1) =~= v@.subrange(lo as int, i as int).push(v@[i as int]));
        i = i + 1;
    }
    let ghost first = r@;
    let mut j = mid;
    while j < hi2
        invariant
            mid <= j <= hi2 <= v.len(),
            r@ == first + v@.subrange(mid as int, j as int),
        decreases hi2 - j,
    {
        r.push(v[j]);
        assert(v@.subrange(mid as int, j + 1) =~= v@.subrange(mid as int, j as int).push(v@[j as int]));
        j = j + 1;
    }
    r
}

fn count_lead_zeros(d: &Vec<char>) -> (z: usize)
    ensures
        z == lead_zeros(d@),
{
    let mut i: usize = 0;
    assert(d@.skip(0) =~= d@);
    while i < d.len() && d[i] == '0'
        invariant
            0 <= i <= d.len(),
            lead_zeros(d@) == i + lead_zeros(d@.skip(i as int)),
        decreases d.len() - i,
    {
        let ghost t = d@.skip(i as int);
        assert(t[0] == d@[i as int]);
        assert(t.drop_first() =~= d@.skip(i + 1));
        i = i + 1;
    }
    proof {
        let t = d@.skip(i as int);
        if i < d.len() {
            assert(t[0] == d@[i as int]);
        } else {
            assert(t.len() == 0);
        }
    }
    i
}

fn count_trail_zeros(d: &Vec<char>) -> (t: usize)
    ensures
        t == trail_zeros(d@),
{
    let n = d.len();
    let mut i: usize = 0;
    assert(d@.take(n as int) =~= d@);
    while i < n && d[n - 1 - i] == '0'
        invariant
            n == d.len(),
            0 <= i <= n,
            trail_zeros(d@) == i + trail_zeros(d@.take(n - i)),
        decreases n - i,
    {
        let ghost t = d@.take(n - i);
        assert(t.last() == d@[n - 1 - i]);
        assert(t.drop_last() =~= d@.take(n - i - 1));
        i = i + 1;
    }
    proof {
        let t = d@.take(n - i);
        if i < n {
            assert(t.last() == d@[n - 1 - i]);
        } else {
            assert(t.len() == 0);
        }
    }
    i
}

/// The bound past which an exponent's exact value no longer matters.
pub open spec fn exponent_cap() -> nat {
    100_000_000_000_000_000_000
}

/// The value of the digits `v[lo..hi]`, or `None` when it is at least
/// `exponent_cap()`.
fn digits_value_capped(v: &Vec<char>, lo: usize, hi: usize) -> (r: Option<u128>)
    requires
        lo <= hi <= v.len(),
        all_digits(v@.subrange(lo as int, hi as int)),
    ensures
        match r {
            Some(x) => x == digits_value(v@.subrange(lo as int, hi as int)) && x < exponent_cap(),
            None => digits_value(v@.subrange(lo as int, hi as int)) >= exponent_cap(),
        },
{
    let cap: u128 = 100_000_000_000_000_000_000;
    let mut val: u128 = 0;
    let mut big = false;
    let mut i = lo;
    assert(v@.subrange(lo as int, lo as int) =~= Seq::<char>::empty());
    while i < hi
        invariant
            lo <= i <= hi <= v.len(),
            cap == exponent_cap(),
            all_digits(v@.subrange(lo as int, hi as int)),
            !big ==> val == digits_value(v@.subrange(lo as int, i as int)) && val < cap,
            big ==> digits_value(v@.subrange(lo as int, i as int)) >= cap,
        decreases hi - i,
    {
        let c = v[i];
        assert(v@.subrange(lo as int, hi as int)[i - lo] == c);
        let ghost pre = v@.subrange(lo as int, i as int);
        let ghost cur = v@.subrange(lo as int, i + 1);
        assert(cur.drop_last() =~= pre);
        assert(cur.last() == c);
        if !big {
            let dgt: u128 = ((c as u32) - ('0' as u32)) as u128;
            let nv = val * 10 + dgt;
            if nv >= cap {
                big = true;
            } else {
                val = nv;
            }
        }
        i = i + 1;
    }
    if big {
        None
    } else {
        Some(val)
    }
}

} // verus!

verus! {

/// In a decimal numeral with an exponent marker, what follows the first
/// marker is an exponent.
proof fn lemma_exponent_after_marker(u: Seq<char>)
    requires
        is_decimal(u),
        first_index(u, 'e', 'E') < u.len(),
    ensures
        is_exponent(u.skip(first_index(u, 'e', 'E') + 1)),
{
    let k = first_index(u, 'e', 'E');
    if is_mantissa(u) {
        lemma_mantissa_only(u);
        lemma_first_index(u, 'e', 'E', u.len() as int);
    } else {
        let j = choose|j: int|
            0 <= j < u.len() && is_exponent_marker(u[j]) && is_mantissa(u.take(j))
                && #[trigger] is_exponent(u.skip(j + 1));
        lemma_mantissa_only(u.take(j));
        assert forall|i: int| 0 <= i < j implies #[trigger] u[i] != 'e' && u[i] != 'E' by {
            assert(u.take(j)[i] == u[i]);
        }
        lemma_first_index(u, 'e', 'E', j);
    }
}

/// The value of the exponent `v[lo..hi]`, or `None` when its size is at
/// least `exponent_cap()`.
fn exponent_capped(v: &Vec<char>, lo: usize, hi: usize) -> (r: Option<i128>)
    requires
        lo <= hi <= v.len(),
        is_exponent(v@.subrange(lo as int, hi as int)),
    ensures
        match r {
            Some(x) => x == exponent_value(v@.subrange(lo as int, hi as int)) && -exponent_cap()
                < x < exponent_cap(),
            None => exponent_value(v@.subrange(lo as int, hi as int)) <= -exponent_cap()
                || exponent_value(v@.subrange(lo as int, hi as int)) >= exponent_cap(),
        },
{
    let ghost x = v@.subrange(lo as int, hi as int);
    if lo < hi && (v[lo] == '+' || v[lo] == '-') {
        assert(x.drop_first() =~= v@.subrange(lo + 1, hi as int));
        assert(x[0] == v@[lo as int]);
        let minus = v[lo] == '-';
        match digits_value_capped(v, lo + 1, hi) {
            Some(d) => {
                let d = d as i128;
                if minus {
                    Some(-d)
                } else {
                    Some(d)
                }
            },
            None => None,
        }
    } else {
        proof {
            if lo < hi {
                assert(x[0] == v@[lo as int]);
            }
            assert(strip_sign(x) == x);
        }
        match digits_value_capped(v, lo, hi) {
            Some(d) => Some(d as i128),
            None => None,
        }
    }
}

/// The parts of the decimal numeral `v[lo..n]`: its mantissa digits, how
/// many stand before the point, and its exponent (`None` when its size is at
/// least `exponent_cap()`).
fn decimal_parts_of(v: &Vec<char>, lo: usize, n: usize) -> (r: (Vec<char>, usize, Option<i128>))
    requires
        lo <= n == v.len(),
        is_decimal(v@.subrange(lo as int, n as int)),
    ensures
        ({
            let p = decimal_parts(v@.subrange(lo as int, n as int));
            &&& r.0@ == p.digits
            &&& r.1 == p.int_len
            &&& match r.2 {
                Some(x) => x == p.exponent && -exponent_cap() < x < exponent_cap(),
                None => p.exponent <= -exponent_cap() || p.exponent >= exponent_cap(),
            }
        }),
{
    let ghost u = v@.subrange(lo as int, n as int);
    let k = find_either(v, lo, n, 'e', 'E');
    let dpos = find_either(v, lo, k, '.', '.');
    let ghost kk = k - lo;
    let ghost m = u.take(kk);
    proof {
        assert forall|j: int| 0 <= j < kk implies #[trigger] u[j] != 'e' && u[j] != 'E' by {
            assert(u[j] == v@[lo + j]);
        }
        if kk < u.len() {
            assert(u[kk] == v@[k as int]);
        }
        lemma_first_index(u, 'e', 'E', kk);
        assert(m =~= v@.subrange(lo as int, k as int));
        assert forall|j: int| 0 <= j < dpos - lo implies #[trigger] m[j] != '.' && m[j] != '.' by {
            assert(m[j] == v@[lo + j]);
        }
        if dpos < k {
            assert(m[dpos - lo] == v@[dpos as int]);
        }
        lemma_first_index(m, '.', '.', dpos - lo);
    }
    let digits = if dpos < k {
        join_ranges(v, lo, dpos, dpos + 1, k)
    } else {
        join_ranges(v, lo, dpos, k, k)
    };
    proof {
        assert(m.take(dpos - lo) =~= v@.subrange(lo as int, dpos as int));
        if dpos < k {
            assert(m.skip(dpos - lo + 1) =~= v@.subrange(dpos + 1, k as int));
        } else {
            assert(v@.subrange(k as int, k as int) =~= Seq::<char>::empty());
        }
        assert(digits@ =~= decimal_parts(u).digits);
    }
    let x = if k < n {
        proof {
            lemma_exponent_after_marker(u);
            assert(u.skip(kk + 1) =~= v@.subrange(k + 1, n as int));
        }
        exponent_capped(v, k + 1, n)
    } else {
        Some(0i128)
    };
    (digits, dpos - lo, x)
}

/// How `{}` displays the `f64` that the numeral `s` stands for; see
/// `display_numeral`.
pub fn display_of_numeral(s: &str) -> (r: String)
    requires
        is_number_literal(s@),
    ensures
        r@ == display_numeral(s@),
{
    let v = chars_of(s);
    let n = v.len();
    let neg = n > 0 && v[0] == '-';
    let lo: usize = if n > 0 && (v[0] == '+' || v[0] == '-') {
        1
    } else {
        0
    };
    let ghost u = v@.subrange(lo as int, n as int);
    proof {
        assert(strip_sign(v@) =~= u);
        reveal_strlit("-");
    }
    let mut out = if neg {
        String::from_str("-")
    } else {
        String::new()
    };
    assert(out@ == sign_text(neg));
    if check_decimal(&v, lo, n) {
        let ghost p = decimal_parts(u);
        let (digits, int_len, x) = decimal_parts_of(&v, lo, n);
        proof {
            lemma_parts_digits(u);
            lemma_lead_zeros(p.digits);
        }
        let z = count_lead_zeros(&digits);
        if z == digits.len() {
            append_digit(&mut out, '0');
            return out;
        }
        let t = count_trail_zeros(&digits);
        proof {
            lemma_significant(p);
        }
        let dlen = digits.len() - z - t;
        match x {
            Some(x) => {
                let q: i128 = int_len as i128 - z as i128 + x;
                if dlen <= 15 && -306 <= q && q <= 308 {
                    let e = digits.len() - t;
                    assert(significant(p) =~= digits@.subrange(z as int, e as int));
                    render_plain(&mut out, &digits, z, e, q);
                    return out;
                }
            },
            None => {
                proof {
                    assert(v@.len() <= usize::MAX);
                }
            },
        }
        String::from_str(s)
    } else {
        let nan = vec!['n', 'a', 'n'];
        if lower_equals(&v, lo, n, &nan) {
            proof {
                reveal_strlit("NaN");
            }
            String::from_str("NaN")
        } else {
            out.append("inf");
            proof {
                reveal_strlit("inf");
            }
            out
        }
    }
}

} // verus!

verus! {

/// Appends `plain(digits[z..e], q)`.
fn render_plain(out: &mut String, digits: &Vec<char>, z: usize, e: usize, q: i128)
    requires
        z < e <= digits.len(),
        all_digits(digits@.subrange(z as int, e as int)),
        -306 <= q <= 308,
    ensures
        final(out)@ == old(out)@ + plain(digits@.subrange(z as int, e as int), q as int),
{
    let ghost start = out@;
    let ghost d = digits@.subrange(z as int, e as int);
    let dlen = e - z;
    if q <= 0 {
        out.append("0.");
        append_zeros(out, (-q) as usize);
        append_digits(out, digits, z, e);
        proof {
            reveal_strlit("0.");
        }
        assert(out@ =~= start + plain(d, q as int));
    } else if q < dlen as i128 {
        let qu = q as usize;
        assert(all_digits(digits@.subrange(z as int, z + qu))) by {
            assert forall|i: int| 0 <= i < qu implies is_digit(
                #[trigger] digits@.subrange(z as int, z + qu)[i],
            ) by {
                assert(digits@.subrange(z as int, z + qu)[i] == d[i]);
            }
        }
        assert(all_digits(digits@.subrange(z + qu, e as int))) by {
            assert forall|i: int| 0 <= i < e - z - qu implies is_digit(
                #[trigger] digits@.subrange(z + qu, e as int)[i],
            ) by {
                assert(digits@.subrange(z + qu, e as int)[i] == d[qu + i]);
            }
        }
        append_digits(out, digits, z, z + qu);
        out.append(".");
        append_digits(out, digits, z + qu, e);
        proof {
            reveal_strlit(".");
            assert(d.take(q as int) =~= digits@.subrange(z as int, z + qu));
            assert(d.skip(q as int) =~= digits@.subrange(z + qu, e as int));
        }
        assert(out@ =~= start + plain(d, q as int));
    } else {
        append_digits(out, digits, z, e);
        append_zeros(out, (q - dlen as i128) as usize);
        assert(out@ =~= start + plain(d, q as int));
    }
}

} // verus!
