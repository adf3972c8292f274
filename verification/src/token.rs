use vstd::prelude::*;
use vstd::string::StrSliceExecFns;
use vstd::string::StringExecFns;
use crate::numeral::{display_numeral, display_of_numeral, lemma_display_numeral, lemma_numeral_is_no_symbol};

verus! {

// ------------------------------------------------------------------
// Operators, functions and number formats
// ------------------------------------------------------------------

/// The binary operators of the calculator.
#[derive(Clone, Copy, Debug, PartialEq, Eq, Structural)]
pub enum Operator {
    Add,
    Subtract,
    Multiply,
    Divide,
    Power,
}

/// Binding strength of each operator: `+ -` bind loosest, `^` tightest.
pub open spec fn operator_precedence(op: Operator) -> u8 {
    match op {
        Operator::Add | Operator::Subtract => 1,
        Operator::Multiply | Operator::Divide => 2,
        Operator::Power => 3,
    }
}

/// The one-character symbol that writes each operator.
pub open spec fn operator_char(op: Operator) -> char {
    match op {
        Operator::Add => '+',
        Operator::Subtract => '-',
        Operator::Multiply => '*',
        Operator::Divide => '/',
        Operator::Power => '^',
    }
}

impl Operator {
    pub fn precedence(&self) -> (p: u8)
        ensures
            p == operator_precedence(*self),
    {
        match self {
            Operator::Add | Operator::Subtract => 1,
            Operator::Multiply | Operator::Divide => 2,
            Operator::Power => 3,
        }
    }

    /// The symbol of the operator as a one-character string.
    pub fn symbol(&self) -> (s: String)
        ensures
            s@ == seq![operator_char(*self)],
    {
        let s = match self {
            Operator::Add => String::from_str("+"),
            Operator::Subtract => String::from_str("-"),
            Operator::Multiply => String::from_str("*"),
            Operator::Divide => String::from_str("/"),
            Operator::Power => String::from_str("^"),
        };
        proof {
            reveal_strlit("+");
            reveal_strlit("-");
            reveal_strlit("*");
            reveal_strlit("/");
            reveal_strlit("^");
        }
        s
    }
}

/// The one-argument functions of the calculator.
#[derive(Clone, Copy, Debug, PartialEq, Eq, Structural)]
pub enum Function {
    Sin,
    Cos,
    Tan,
    Sqrt,
}

/// The name that writes each function.
pub open spec fn function_name(f: Function) -> Seq<char> {
    match f {
        Function::Sin => seq!['s', 'i', 'n'],
        Function::Cos => seq!['c', 'o', 's'],
        Function::Tan => seq!['t', 'a', 'n'],
        Function::Sqrt => seq!['s', 'q', 'r', 't'],
    }
}

/// How a function token is shown in diagnostics, e.g. `Function(Sin)`.
pub open spec fn function_debug(f: Function) -> Seq<char> {
    let variant = match f {
        Function::Sin => seq!['S', 'i', 'n'],
        Function::Cos => seq!['C', 'o', 's'],
        Function::Tan => seq!['T', 'a', 'n'],
        Function::Sqrt => seq!['S', 'q', 'r', 't'],
    };
    seq!['F', 'u', 'n', 'c', 't', 'i', 'o', 'n', '('] + variant + seq![')']
}

impl Function {
    pub fn name(&self) -> (s: String)
        ensures
            s@ == function_name(*self),
    {
        let s = match self {
            Function::Sin => String::from_str("sin"),
            Function::Cos => String::from_str("cos"),
            Function::Tan => String::from_str("tan"),
            Function::Sqrt => String::from_str("sqrt"),
        };
        proof {
            reveal_strlit("sin");
            reveal_strlit("cos");
            reveal_strlit("tan");
            reveal_strlit("sqrt");
        }
        s
    }

    /// The diagnostic form of a function token, e.g. `Function(Sqrt)`.
    pub fn debug_text(&self) -> (s: String)
        ensures
            s@ == function_debug(*self),
    {
        let s = match self {
            Function::Sin => String::from_str("Function(Sin)"),
            Function::Cos => String::from_str("Function(Cos)"),
            Function::Tan => String::from_str("Function(Tan)"),
            Function::Sqrt => String::from_str("Function(Sqrt)"),
        };
        proof {
            reveal_strlit("Function(Sin)");
            reveal_strlit("Function(Cos)");
            reveal_strlit("Function(Tan)");
            reveal_strlit("Function(Sqrt)");
            assert(function_debug(Function::Sin) =~= "Function(Sin)"@);
            assert(function_debug(Function::Cos) =~= "Function(Cos)"@);
            assert(function_debug(Function::Tan) =~= "Function(Tan)"@);
            assert(function_debug(Function::Sqrt) =~= "Function(Sqrt)"@);
        }
        s
    }
}

/// How numbers are written out.
#[derive(Clone, Copy, Debug, PartialEq, Eq, Structural)]
pub enum NumberFormat {
    Decimal,
    Scientific,
    Engineering,
}

// ------------------------------------------------------------------
// Character classes and the lexical grammar of a token
// ------------------------------------------------------------------

/// The characters with the Unicode `White_Space` property.
pub open spec fn is_whitespace_char(c: char) -> bool {
    ||| '\u{9}' <= c <= '\u{D}'
    ||| c == ' '
    ||| c == '\u{85}'
    ||| c == '\u{A0}'
    ||| c == '\u{1680}'
    ||| '\u{2000}' <= c <= '\u{200A}'
    ||| c == '\u{2028}'
    ||| c == '\u{2029}'
    ||| c == '\u{202F}'
    ||| c == '\u{205F}'
    ||| c == '\u{3000}'
}

/// Whether `c` has the Unicode `White_Space` property, as
/// `char::is_whitespace` decides it.
fn char_is_whitespace(c: char) -> (b: bool)
    ensures
        b == is_whitespace_char(c),
{
    ('\u{9}' <= c && c <= '\u{D}') || c == ' ' || c == '\u{85}' || c == '\u{A0}' || c
        == '\u{1680}' || ('\u{2000}' <= c && c <= '\u{200A}') || c == '\u{2028}' || c
        == '\u{2029}' || c == '\u{202F}' || c == '\u{205F}' || c == '\u{3000}'
}

pub open spec fn is_digit(c: char) -> bool {
    '0' <= c <= '9'
}

pub open spec fn is_ascii_letter(c: char) -> bool {
    ('a' <= c <= 'z') || ('A' <= c <= 'Z')
}

pub open spec fn all_digits(s: Seq<char>) -> bool {
    forall|i: int| 0 <= i < s.len() ==> is_digit(#[trigger] s[i])
}

pub open spec fn is_sign(c: char) -> bool {
    c == '+' || c == '-'
}

/// The word without one leading `+` or `-`.
pub open spec fn strip_sign(w: Seq<char>) -> Seq<char> {
    if w.len() > 0 && is_sign(w[0]) {
        w.drop_first()
    } else {
        w
    }
}

/// Digits, optionally with one decimal point, with at least one digit.
pub open spec fn is_mantissa(m: Seq<char>) -> bool {
    ||| (m.len() > 0 && all_digits(m))
    ||| exists|k: int|
        0 <= k < m.len() && m[k] == '.' && m.len() >= 2 && all_digits(m.take(k))
            && #[trigger] all_digits(m.skip(k + 1))
}

/// An exponent after the `e`: an optional sign and at least one digit.
pub open spec fn is_exponent(x: Seq<char>) -> bool {
    strip_sign(x).len() > 0 && all_digits(strip_sign(x))
}

pub open spec fn is_exponent_marker(c: char) -> bool {
    c == 'e' || c == 'E'
}

/// A decimal numeral with an optional exponent, without a sign in front.
pub open spec fn is_decimal(u: Seq<char>) -> bool {
    ||| is_mantissa(u)
    ||| exists|k: int|
        0 <= k < u.len() && is_exponent_marker(u[k]) && is_mantissa(u.take(k))
            && #[trigger] is_exponent(u.skip(k + 1))
}

pub open spec fn ascii_lower(c: char) -> char {
    if 'A' <= c <= 'Z' {
        ((c as u32) + 32) as char
    } else {
        c
    }
}

pub open spec fn lower(s: Seq<char>) -> Seq<char> {
    s.map_values(|c: char| ascii_lower(c))
}

/// `inf`, `infinity` or `nan` in any letter case.
pub open spec fn is_special_number(u: Seq<char>) -> bool {
    ||| lower(u) == seq!['i', 'n', 'f']
    ||| lower(u) == seq!['i', 'n', 'f', 'i', 'n', 'i', 't', 'y']
    ||| lower(u) == seq!['n', 'a', 'n']
}

/// The numerals that the calculator reads as numbers: those of Rust's
/// floating-point syntax, an optional sign followed by a decimal numeral with
/// optional exponent, or by `inf`, `infinity` or `nan`.
pub open spec fn is_number_literal(w: Seq<char>) -> bool {
    is_decimal(strip_sign(w)) || is_special_number(strip_sign(w))
}

pub open spec fn is_identifier_start(c: char) -> bool {
    is_ascii_letter(c) || c == '_'
}

pub open spec fn is_identifier_char(c: char) -> bool {
    is_ascii_letter(c) || is_digit(c) || c == '_'
}

/// Variable names: a letter or `_`, then letters, digits and `_`.
pub open spec fn is_identifier(w: Seq<char>) -> bool {
    &&& w.len() > 0
    &&& is_identifier_start(w[0])
    &&& forall|i: int| 1 <= i < w.len() ==> is_identifier_char(#[trigger] w[i])
}

// ------------------------------------------------------------------
// Tokens
// ------------------------------------------------------------------

/// A lexical token. A number token holds its number as `{}` displays it.
#[derive(Clone, Debug, PartialEq)]
pub enum Token {
    Number(String),
    Variable(String),
    Operator(Operator),
    Function(Function),
    OpenParen,
    CloseParen,
}

/// The mathematical model of a token.
pub enum TokenView {
    Number(Seq<char>),
    Variable(Seq<char>),
    Operator(Operator),
    Function(Function),
    OpenParen,
    CloseParen,
}

impl View for Token {
    type V = TokenView;

    open spec fn view(&self) -> TokenView {
        match self {
            Token::Number(s) => TokenView::Number(s@),
            Token::Variable(s) => TokenView::Variable(s@),
            Token::Operator(op) => TokenView::Operator(*op),
            Token::Function(f) => TokenView::Function(*f),
            Token::OpenParen => TokenView::OpenParen,
            Token::CloseParen => TokenView::CloseParen,
        }
    }
}

/// The token that a whitespace-free word denotes, if any. Symbols and
/// function names come first, then numerals (read as the number they write,
/// held in its displayed form), then variable names.
pub open spec fn token_of(w: Seq<char>) -> Option<TokenView> {
    if w == seq!['+'] {
        Some(TokenView::Operator(Operator::Add))
    } else if w == seq!['-'] {
        Some(TokenView::Operator(Operator::Subtract))
    } else if w == seq!['*'] {
        Some(TokenView::Operator(Operator::Multiply))
    } else if w == seq!['/'] {
        Some(TokenView::Operator(Operator::Divide))
    } else if w == seq!['^'] {
        Some(TokenView::Operator(Operator::Power))
    } else if w == seq!['('] {
        Some(TokenView::OpenParen)
    } else if w == seq![')'] {
        Some(TokenView::CloseParen)
    } else if w == function_name(Function::Sin) {
        Some(TokenView::Function(Function::Sin))
    } else if w == function_name(Function::Cos) {
        Some(TokenView::Function(Function::Cos))
    } else if w == function_name(Function::Tan) {
        Some(TokenView::Function(Function::Tan))
    } else if w == function_name(Function::Sqrt) {
        Some(TokenView::Function(Function::Sqrt))
    } else if is_number_literal(w) {
        Some(TokenView::Number(display_numeral(w)))
    } else if is_identifier(w) {
        Some(TokenView::Variable(w))
    } else {
        None
    }
}

/// The message for a word that is no token.
pub open spec fn invalid_token_message(w: Seq<char>) -> Seq<char> {
    "Invalid token: "@ + w
}

} // verus!

verus! {

// ------------------------------------------------------------------
// Splitting a string into whitespace-separated words
// ------------------------------------------------------------------

/// The maximal runs of non-whitespace characters of `s`, in order: what
/// `str::split_whitespace` yields.
pub open spec fn split_words(s: Seq<char>) -> Seq<Seq<char>>
    decreases s.len(),
{
    if s.len() == 0 {
        seq![]
    } else {
        let prev = split_words(s.drop_last());
        let c = s.last();
        if is_whitespace_char(c) {
            prev
        } else if s.len() >= 2 && !is_whitespace_char(s[s.len() - 2]) {
            prev.drop_last().push(prev.last().push(c))
        } else {
            prev.push(seq![c])
        }
    }
}

/// The words that a list of index ranges picks out of `s`.
pub open spec fn words_at(s: Seq<char>, ranges: Seq<(usize, usize)>) -> Seq<Seq<char>> {
    ranges.map_values(|r: (usize, usize)| s.subrange(r.0 as int, r.1 as int))
}

/// The index ranges of the whitespace-separated words of `v`.
pub fn word_ranges(v: &Vec<char>) -> (ranges: Vec<(usize, usize)>)
    ensures
        words_at(v@, ranges@) == split_words(v@),
        forall|i: int|
            0 <= i < ranges.len() ==> #[trigger] ranges[i].0 < ranges[i].1 && ranges[i].1 <= v.len(),
{
    let mut ranges: Vec<(usize, usize)> = Vec::new();
    let mut in_word = false;
    let mut start: usize = 0;
    let n = v.len();
    let mut i: usize = 0;
    while i < n
        invariant
            n == v.len(),
            0 <= i <= n,
            forall|j: int|
                0 <= j < ranges.len() ==> #[trigger] ranges[j].0 < ranges[j].1 && ranges[j].1
                    <= i,
            in_word ==> start < i,
            in_word ==> !is_whitespace_char(v@[i - 1]),
            !in_word && i > 0 ==> is_whitespace_char(v@[i - 1]),
            in_word ==> split_words(v@.take(i as int)) == words_at(v@, ranges@).push(
                v@.subrange(start as int, i as int),
            ),
            !in_word ==> split_words(v@.take(i as int)) == words_at(v@, ranges@),
        decreases n - i,
    {
        let c = v[i];
        let ws = char_is_whitespace(c);
        let ghost pre = v@.take(i as int);
        let ghost cur = v@.take(i + 1);
        assert(cur.drop_last() =~= pre);
        assert(cur.last() == c);
        if ws {
            if in_word {
                let ghost old_ranges = ranges@;
                ranges.push((start, i));
                assert(words_at(v@, ranges@) =~= words_at(v@, old_ranges).push(
                    v@.subrange(start as int, i as int),
                ));
            }
            in_word = false;
        } else {
            if in_word {
                assert(cur.len() >= 2 && cur[cur.len() - 2] == v@[i - 1]);
                assert(v@.subrange(start as int, i + 1) =~= v@.subrange(start as int, i as int).push(
                    c,
                ));
            } else {
                assert(i > 0 ==> cur[cur.len() - 2] == v@[i - 1]);
                assert(v@.subrange(i as int, i + 1) =~= seq![c]);
                start = i;
            }
            in_word = true;
        }
        i = i + 1;
    }
    assert(v@.take(n as int) =~= v@);
    if in_word {
        let ghost old_ranges = ranges@;
        ranges.push((start, n));
        assert(words_at(v@, ranges@) =~= words_at(v@, old_ranges).push(
            v@.subrange(start as int, n as int),
        ));
    }
    ranges
}

} // verus!

verus! {

// ------------------------------------------------------------------
// Recognising numerals and names
// ------------------------------------------------------------------

fn digits_between(v: &Vec<char>, lo: usize, hi: usize) -> (b: bool)
    requires
        lo <= hi <= v.len(),
    ensures
        b == all_digits(v@.subrange(lo as int, hi as int)),
{
    let mut i = lo;
    while i < hi
        invariant
            lo <= i <= hi <= v.len(),
            forall|j: int| lo <= j < i ==> is_digit(#[trigger] v@[j]),
        decreases hi - i,
    {
        if !(v[i] >= '0' && v[i] <= '9') {
            assert(!is_digit(v@.subrange(lo as int, hi as int)[i - lo]));
            return false;
        }
        i = i + 1;
    }
    assert forall|j: int| 0 <= j < hi - lo implies is_digit(
        #[trigger] v@.subrange(lo as int, hi as int)[j],
    ) by {
        assert(v@.subrange(lo as int, hi as int)[j] == v@[lo + j]);
    }
    true
}

/// The first index in `lo..hi` whose character is `a` or `b`, or `hi`.
pub(crate) fn find_either(v: &Vec<char>, lo: usize, hi: usize, a: char, b: char) -> (k: usize)
    requires
        lo <= hi <= v.len(),
    ensures
        lo <= k <= hi,
        k < hi ==> (v@[k as int] == a || v@[k as int] == b),
        forall|j: int| lo <= j < k ==> #[trigger] v@[j] != a && v@[j] != b,
{
    let mut i = lo;
    while i < hi
        invariant
            lo <= i <= hi <= v.len(),
            forall|j: int| lo <= j < i ==> #[trigger] v@[j] != a && v@[j] != b,
        decreases hi - i,
    {
        if v[i] == a || v[i] == b {
            return i;
        }
        i = i + 1;
    }
    hi
}

proof fn lemma_mantissa_chars(m: Seq<char>)
    requires
        is_mantissa(m),
    ensures
        forall|i: int| 0 <= i < m.len() ==> is_digit(#[trigger] m[i]) || m[i] == '.',
{
    if !(m.len() > 0 && all_digits(m)) {
        let k = choose|k: int|
            0 <= k < m.len() && m[k] == '.' && m.len() >= 2 && all_digits(m.take(k))
                && #[trigger] all_digits(m.skip(k + 1));
        assert forall|i: int| 0 <= i < m.len() implies is_digit(#[trigger] m[i]) || m[i] == '.' by {
            if i < k {
                assert(m.take(k)[i] == m[i]);
            } else if i > k {
                assert(m.skip(k + 1)[i - k - 1] == m[i]);
            }
        }
    }
}

fn check_mantissa(v: &Vec<char>, lo: usize, hi: usize) -> (b: bool)
    requires
        lo <= hi <= v.len(),
    ensures
        b == is_mantissa(v@.subrange(lo as int, hi as int)),
{
    let ghost m = v@.subrange(lo as int, hi as int);
    let k = find_either(v, lo, hi, '.', '.');
    if k == hi {
        let b = hi > lo && digits_between(v, lo, hi);
        proof {
            if is_mantissa(m) && !(m.len() > 0 && all_digits(m)) {
                let j = choose|j: int|
                    0 <= j < m.len() && m[j] == '.' && m.len() >= 2 && all_digits(m.take(j))
                        && #[trigger] all_digits(m.skip(j + 1));
                assert(m[j] == v@[lo + j]);
            }
        }
        b
    } else {
        let b = hi - lo >= 2 && digits_between(v, lo, k) && digits_between(v, k + 1, hi);
        proof {
            let kk = k - lo;
            assert(m.take(kk) =~= v@.subrange(lo as int, k as int));
            assert(m.skip(kk + 1) =~= v@.subrange(k + 1, hi as int));
            assert(m[kk] == '.');
            if b {
                assert(all_digits(m.skip(kk + 1)));
            }
            if is_mantissa(m) {
                if m.len() > 0 && all_digits(m) {
                    assert(is_digit(m[kk]));
                } else {
                    let j = choose|j: int|
                        0 <= j < m.len() && m[j] == '.' && m.len() >= 2 && all_digits(m.take(j))
                            && #[trigger] all_digits(m.skip(j + 1));
                    if j < kk {
                        assert(m[j] == v@[lo + j]);
                    } else if j > kk {
                        assert(m.take(j)[kk] == m[kk]);
                    }
                }
            }
        }
        b
    }
}

fn check_exponent(v: &Vec<char>, lo: usize, hi: usize) -> (b: bool)
    requires
        lo <= hi <= v.len(),
    ensures
        b == is_exponent(v@.subrange(lo as int, hi as int)),
{
    let ghost x = v@.subrange(lo as int, hi as int);
    if lo < hi && (v[lo] == '+' || v[lo] == '-') {
        assert(x.drop_first() =~= v@.subrange(lo + 1, hi as int));
        lo + 1 < hi && digits_between(v, lo + 1, hi)
    } else {
        lo < hi && digits_between(v, lo, hi)
    }
}

pub(crate) fn check_decimal(v: &Vec<char>, lo: usize, hi: usize) -> (b: bool)
    requires
        lo <= hi <= v.len(),
    ensures
        b == is_decimal(v@.subrange(lo as int, hi as int)),
{
    let ghost u = v@.subrange(lo as int, hi as int);
    let k = find_either(v, lo, hi, 'e', 'E');
    if k == hi {
        let b = check_mantissa(v, lo, hi);
        proof {
            if is_decimal(u) && !is_mantissa(u) {
                let j = choose|j: int|
                    0 <= j < u.len() && is_exponent_marker(u[j]) && is_mantissa(u.take(j))
                        && #[trigger] is_exponent(u.skip(j + 1));
                assert(u[j] == v@[lo + j]);
            }
        }
        b
    } else {
        let b = check_mantissa(v, lo, k) && check_exponent(v, k + 1, hi);
        proof {
            let kk = k - lo;
            assert(u.take(kk) =~= v@.subrange(lo as int, k as int));
            assert(u.skip(kk + 1) =~= v@.subrange(k + 1, hi as int));
            assert(is_exponent_marker(u[kk]));
            if b {
                assert(is_exponent(u.skip(kk + 1)));
            }
            if is_decimal(u) {
                if is_mantissa(u) {
                    lemma_mantissa_chars(u);
                    assert(is_digit(u[kk]) || u[kk] == '.');
                } else {
                    let j = choose|j: int|
                        0 <= j < u.len() && is_exponent_marker(u[j]) && is_mantissa(u.take(j))
                            && #[trigger] is_exponent(u.skip(j + 1));
                    if j < kk {
                        assert(u[j] == v@[lo + j]);
                    } else if j > kk {
                        lemma_mantissa_chars(u.take(j));
                        assert(u.take(j)[kk] == u[kk]);
                    }
                }
            }
        }
        b
    }
}

fn lower_char(c: char) -> (d: char)
    ensures
        d == ascii_lower(c),
{
    if c >= 'A' && c <= 'Z' {
        let n = (c as u32) + 32;
        assert(n <= 0x7f);
        // Lower-case ASCII letters are valid characters.
        let d = char_from_ascii(n);
        d
    } else {
        c
    }
}

fn char_from_ascii(n: u32) -> (c: char)
    requires
        n <= 0x7f,
    ensures
        c == n as char,
{
    let b: u8 = n as u8;
    b as char
}

/// Whether `v[lo..hi]`, lower-cased, equals `w`.
pub(crate) fn lower_equals(v: &Vec<char>, lo: usize, hi: usize, w: &Vec<char>) -> (b: bool)
    requires
        lo <= hi <= v.len(),
    ensures
        b == (lower(v@.subrange(lo as int, hi as int)) == w@),
{
    let ghost s = v@.subrange(lo as int, hi as int);
    if hi - lo != w.len() {
        assert(lower(s).len() != w@.len());
        return false;
    }
    let mut i: usize = 0;
    while i < w.len()
        invariant
            lo <= hi <= v.len(),
            hi - lo == w.len(),
            s == v@.subrange(lo as int, hi as int),
            0 <= i <= w.len(),
            forall|j: int| 0 <= j < i ==> ascii_lower(#[trigger] v@[lo + j]) == w@[j],
        decreases w.len() - i,
    {
        if lower_char(v[lo + i]) != w[i] {
            assert(lower(s)[i as int] == ascii_lower(v@[lo + i]));
            return false;
        }
        i = i + 1;
    }
    assert(lower(s) =~= w@) by {
        assert forall|j: int| 0 <= j < w.len() implies lower(s)[j] == w@[j] by {
            assert(s[j] == v@[lo + j]);
        }
    }
    true
}

fn check_number_literal(v: &Vec<char>) -> (b: bool)
    ensures
        b == is_number_literal(v@),
{
    let n = v.len();
    let lo: usize = if n > 0 && (v[0] == '+' || v[0] == '-') {
        1
    } else {
        0
    };
    proof {
        if lo == 1 {
            assert(strip_sign(v@) =~= v@.subrange(1, n as int));
        } else {
            assert(strip_sign(v@) =~= v@.subrange(0, n as int));
        }
    }
    if check_decimal(v, lo, n) {
        return true;
    }
    let inf = vec!['i', 'n', 'f'];
    let infinity = vec!['i', 'n', 'f', 'i', 'n', 'i', 't', 'y'];
    let nan = vec!['n', 'a', 'n'];
    lower_equals(v, lo, n, &inf) || lower_equals(v, lo, n, &infinity) || lower_equals(
        v,
        lo,
        n,
        &nan,
    )
}

/// Whether `s` is a numeral: the numbers that the library holds and hands
/// back are numerals, and its functions that take numbers ask for them.
pub fn is_numeral(s: &str) -> (b: bool)
    ensures
        b == is_number_literal(s@),
{
    let v = chars_of(s);
    check_number_literal(&v)
}

fn check_identifier(v: &Vec<char>) -> (b: bool)
    ensures
        b == is_identifier(v@),
{
    let n = v.len();
    if n == 0 {
        return false;
    }
    let c0 = v[0];
    if !((c0 >= 'a' && c0 <= 'z') || (c0 >= 'A' && c0 <= 'Z') || c0 == '_') {
        return false;
    }
    let mut i: usize = 1;
    while i < n
        invariant
            n == v.len(),
            1 <= i <= n,
            forall|j: int| 1 <= j < i ==> is_identifier_char(#[trigger] v@[j]),
        decreases n - i,
    {
        let c = v[i];
        if !((c >= 'a' && c <= 'z') || (c >= 'A' && c <= 'Z') || (c >= '0' && c <= '9') || c
            == '_') {
            return false;
        }
        i = i + 1;
    }
    true
}

} // verus!

verus! {

fn is_one_char(v: &Vec<char>, c: char) -> (b: bool)
    ensures
        b == (v@ == seq![c]),
{
    let b = v.len() == 1 && v[0] == c;
    proof {
        if v.len() == 1 && v@[0] == c {
            assert(v@ =~= seq![c]);
        }
    }
    b
}

fn is_function_name(v: &Vec<char>, f: Function) -> (b: bool)
    ensures
        b == (v@ == function_name(f)),
{
    let b = match f {
        Function::Sin => v.len() == 3 && v[0] == 's' && v[1] == 'i' && v[2] == 'n',
        Function::Cos => v.len() == 3 && v[0] == 'c' && v[1] == 'o' && v[2] == 's',
        Function::Tan => v.len() == 3 && v[0] == 't' && v[1] == 'a' && v[2] == 'n',
        Function::Sqrt => v.len() == 4 && v[0] == 's' && v[1] == 'q' && v[2] == 'r' && v[3]
            == 't',
    };
    proof {
        if b {
            assert(v@ =~= function_name(f));
        }
    }
    b
}

/// The message `Invalid token: <word>`.
fn invalid_token(s: &str) -> (e: String)
    ensures
        e@ == invalid_token_message(s@),
{
    let mut e = String::from_str("Invalid token: ");
    e.append(s);
    e
}

impl Token {
    /// Reads one whitespace-free word as a token.
    pub fn from_str(s: &str) -> (r: Result<Token, String>)
        ensures
            match r {
                Ok(t) => token_of(s@) == Some(t@),
                Err(e) => token_of(s@) is None && e@ == invalid_token_message(s@),
            },
    {
        let v = chars_of(s);
        if is_one_char(&v, '+') {
            return Ok(Token::Operator(Operator::Add));
        }
        if is_one_char(&v, '-') {
            return Ok(Token::Operator(Operator::Subtract));
        }
        if is_one_char(&v, '*') {
            return Ok(Token::Operator(Operator::Multiply));
        }
        if is_one_char(&v, '/') {
            return Ok(Token::Operator(Operator::Divide));
        }
        if is_one_char(&v, '^') {
            return Ok(Token::Operator(Operator::Power));
        }
        if is_one_char(&v, '(') {
            return Ok(Token::OpenParen);
        }
        if is_one_char(&v, ')') {
            return Ok(Token::CloseParen);
        }
        if is_function_name(&v, Function::Sin) {
            return Ok(Token::Function(Function::Sin));
        }
        if is_function_name(&v, Function::Cos) {
            return Ok(Token::Function(Function::Cos));
        }
        if is_function_name(&v, Function::Tan) {
            return Ok(Token::Function(Function::Tan));
        }
        if is_function_name(&v, Function::Sqrt) {
            return Ok(Token::Function(Function::Sqrt));
        }
        proof {
            assert(v@ != seq!['+']);
            assert(v@ != seq!['-']);
            assert(v@ != seq!['*']);
            assert(v@ != seq!['/']);
            assert(v@ != seq!['^']);
            assert(v@ != seq!['(']);
            assert(v@ != seq![')']);
            assert(v@ != function_name(Function::Sin));
            assert(v@ != function_name(Function::Cos));
            assert(v@ != function_name(Function::Tan));
            assert(v@ != function_name(Function::Sqrt));
        }
        if check_number_literal(&v) {
            return Ok(Token::Number(display_of_numeral(s)));
        }
        if check_identifier(&v) {
            return Ok(Token::Variable(String::from_str(s)));
        }
        Err(invalid_token(s))
    }
}

/// The models of a list of tokens.
pub open spec fn token_views(ts: Seq<Token>) -> Seq<TokenView> {
    ts.map_values(|t: Token| t@)
}

/// Reads words one after the other; the first word that is no token stops
/// the reading with its message.
pub open spec fn tokens_of_words(ws: Seq<Seq<char>>) -> Result<Seq<TokenView>, Seq<char>>
    decreases ws.len(),
{
    if ws.len() == 0 {
        Ok(seq![])
    } else {
        match tokens_of_words(ws.drop_last()) {
            Err(e) => Err(e),
            Ok(ts) => match token_of(ws.last()) {
                Some(t) => Ok(ts.push(t)),
                None => Err(invalid_token_message(ws.last())),
            },
        }
    }
}

/// The tokens of a whole input: its whitespace-separated words, each read
/// as a token.
pub open spec fn tokenize_spec(s: Seq<char>) -> Result<Seq<TokenView>, Seq<char>> {
    tokens_of_words(split_words(s))
}

/// Splits the input at whitespace and reads each word as a token; fails with
/// the message of the first word that is no token.
pub fn tokenize(input: &str) -> (r: Result<Vec<Token>, String>)
    ensures
        match r {
            Ok(ts) => tokenize_spec(input@) == Ok::<Seq<TokenView>, Seq<char>>(token_views(ts@)),
            Err(e) => tokenize_spec(input@) == Err::<Seq<TokenView>, Seq<char>>(e@),
        },
{
    let v = chars_of(input);
    let ranges = word_ranges(&v);
    let ghost ws = split_words(input@);
    let mut tokens: Vec<Token> = Vec::new();
    let mut i: usize = 0;
    assert(ws.take(0) =~= Seq::<Seq<char>>::empty());
    assert(token_views(tokens@) =~= Seq::<TokenView>::empty());
    while i < ranges.len()
        invariant
            v@ == input@,
            words_at(v@, ranges@) == ws,
            forall|j: int|
                0 <= j < ranges.len() ==> #[trigger] ranges[j].0 < ranges[j].1 && ranges[j].1
                    <= v.len(),
            ws.len() == ranges.len(),
            ws == split_words(input@),
            0 <= i <= ranges.len(),
            tokens_of_words(ws.take(i as int)) == Ok::<Seq<TokenView>, Seq<char>>(
                token_views(tokens@),
            ),
        decreases ranges.len() - i,
    {
        let (lo, hi) = ranges[i];
        let word = input.substring_char(lo, hi);
        assert(ws.take(i + 1).drop_last() =~= ws.take(i as int));
        assert(ws.take(i + 1).last() == word@);
        match Token::from_str(word) {
            Ok(t) => {
                let ghost before = tokens@;
                tokens.push(t);
                assert(token_views(tokens@) =~= token_views(before).push(t@));
            },
            Err(e) => {
                proof {
                    let pre = ws.take(i + 1);
                    assert(tokens_of_words(pre.drop_last()) is Ok);
                    assert(token_of(pre.last()) is None);
                    assert(tokens_of_words(pre) == Err::<Seq<TokenView>, Seq<char>>(e@));
                    lemma_tokens_of_words_error_sticks(ws, i + 1);
                }
                return Err(e);
            },
        }
        i = i + 1;
    }
    assert(ws.take(ranges.len() as int) =~= ws);
    Ok(tokens)
}

/// Once a prefix of the words fails, every longer prefix fails the same way.
proof fn lemma_tokens_of_words_error_sticks(ws: Seq<Seq<char>>, n: int)
    requires
        0 <= n <= ws.len(),
        tokens_of_words(ws.take(n)) is Err,
    ensures
        tokens_of_words(ws) == tokens_of_words(ws.take(n)),
    decreases ws.len() - n,
{
    if n < ws.len() {
        assert(ws.take(n + 1).drop_last() =~= ws.take(n));
        lemma_tokens_of_words_error_sticks(ws, n + 1);
    } else {
        assert(ws.take(n) =~= ws);
    }
}

} // verus!

verus! {

/// The characters of a string slice, in order.
pub fn chars_of(s: &str) -> (v: Vec<char>)
    ensures
        v@ == s@,
{
    broadcast use vstd::string::group_string_axioms;

    let mut v: Vec<char> = Vec::new();
    for c in it: s.chars()
        invariant
            it.seq() == s@,
            v@ == it.seq().take(it.index() as int),
    {
        v.push(c);
        assert(v@ =~= it.seq().take(it.index() + 1));
    }
    assert(v@ =~= s@);
    v
}

} // verus!

verus! {

// ------------------------------------------------------------------
// Writing tokens back out
// ------------------------------------------------------------------

/// The word that writes a token.
pub open spec fn render_token(t: TokenView) -> Seq<char> {
    match t {
        TokenView::Number(n) => n,
        TokenView::Variable(v) => v,
        TokenView::Operator(op) => seq![operator_char(op)],
        TokenView::Function(f) => function_name(f),
        TokenView::OpenParen => seq!['('],
        TokenView::CloseParen => seq![')'],
    }
}

/// Words joined by single spaces.
pub open spec fn join_words(ws: Seq<Seq<char>>) -> Seq<char>
    decreases ws.len(),
{
    if ws.len() == 0 {
        seq![]
    } else if ws.len() == 1 {
        ws[0]
    } else {
        join_words(ws.drop_last()) + seq![' '] + ws.last()
    }
}

/// The words of a token list.
pub open spec fn rendered_words(ts: Seq<TokenView>) -> Seq<Seq<char>> {
    ts.map_values(|t: TokenView| render_token(t))
}

/// A token list written out as text, one space between tokens.
pub open spec fn rendered_text(ts: Seq<TokenView>) -> Seq<char> {
    join_words(rendered_words(ts))
}

} // verus!

verus! {

// ------------------------------------------------------------------
// Laws of tokenizing
// ------------------------------------------------------------------

/// A word in the sense of `split_words`: not empty, without whitespace.
pub open spec fn is_clean_word(w: Seq<char>) -> bool {
    w.len() > 0 && forall|i: int| 0 <= i < w.len() ==> !is_whitespace_char(#[trigger] w[i])
}

/// After whitespace (or at the start), appending a clean word adds exactly
/// that word.
pub proof fn lemma_split_words_append(s: Seq<char>, w: Seq<char>)
    requires
        s.len() == 0 || is_whitespace_char(s.last()),
        is_clean_word(w),
    ensures
        split_words(s + w) == split_words(s).push(w),
    decreases w.len(),
{
    let sw = s + w;
    if w.len() == 1 {
        assert(sw.drop_last() =~= s);
        assert(sw.last() == w[0]);
        assert(seq![w[0]] =~= w);
        if sw.len() >= 2 {
            assert(sw[sw.len() - 2] == s.last());
        }
    } else {
        let w0 = w.drop_last();
        assert(is_clean_word(w0)) by {
            assert forall|i: int| 0 <= i < w0.len() implies !is_whitespace_char(#[trigger] w0[i]) by {
                assert(w0[i] == w[i]);
            }
        }
        lemma_split_words_append(s, w0);
        assert(sw.drop_last() =~= s + w0);
        assert(sw.last() == w.last());
        assert(sw[sw.len() - 2] == w[w.len() - 2]);
        assert(w0.push(w.last()) =~= w);
        assert(split_words(s + w0).drop_last() =~= split_words(s));
    }
}

/// Splitting clean words joined by spaces gives the words back.
pub proof fn lemma_split_join(ws: Seq<Seq<char>>)
    requires
        forall|i: int| 0 <= i < ws.len() ==> is_clean_word(#[trigger] ws[i]),
    ensures
        split_words(join_words(ws)) == ws,
    decreases ws.len(),
{
    if ws.len() == 0 {
        assert(split_words(Seq::<char>::empty()) =~= ws);
    } else if ws.len() == 1 {
        lemma_split_words_append(Seq::<char>::empty(), ws[0]);
        assert(Seq::<char>::empty() + ws[0] =~= ws[0]);
        assert(split_words(Seq::<char>::empty()).push(ws[0]) =~= ws);
    } else {
        let rest = ws.drop_last();
        lemma_split_join(rest);
        let j = join_words(rest);
        let js = j + seq![' '];
        assert(js.drop_last() =~= j);
        assert(split_words(js) == split_words(j));
        lemma_split_words_append(js, ws.last());
        assert(join_words(ws) =~= js + ws.last());
        assert(rest.push(ws.last()) =~= ws);
    }
}

/// The characters that can occur in a numeral.
pub open spec fn is_numeral_char(c: char) -> bool {
    is_digit(c) || c == '.' || is_sign(c) || is_ascii_letter(c)
}

/// A decimal numeral holds only digits, points, exponent markers and signs.
pub proof fn lemma_decimal_chars_of(u: Seq<char>)
    requires
        is_decimal(u),
    ensures
        u.len() > 0,
        forall|i: int|
            0 <= i < u.len() ==> is_digit(#[trigger] u[i]) || u[i] == '.'
                || is_exponent_marker(u[i]) || u[i] == '+' || u[i] == '-',
{
    if is_mantissa(u) {
        lemma_mantissa_chars(u);
        if !(u.len() > 0 && all_digits(u)) {
            let k = choose|k: int|
                0 <= k < u.len() && u[k] == '.' && u.len() >= 2 && all_digits(u.take(k))
                    && #[trigger] all_digits(u.skip(k + 1));
        }
    } else {
        let k = choose|k: int|
            0 <= k < u.len() && is_exponent_marker(u[k]) && is_mantissa(u.take(k))
                && #[trigger] is_exponent(u.skip(k + 1));
        lemma_mantissa_chars(u.take(k));
        let x = u.skip(k + 1);
        assert forall|i: int| 0 <= i < u.len() implies is_digit(#[trigger] u[i]) || u[i] == '.'
            || is_exponent_marker(u[i]) || u[i] == '+' || u[i] == '-' by {
            if i < k {
                assert(u.take(k)[i] == u[i]);
            } else if i > k {
                assert(x[i - k - 1] == u[i]);
                if x.len() > 0 && is_sign(x[0]) {
                    if i - k - 1 > 0 {
                        assert(strip_sign(x)[i - k - 2] == x[i - k - 1]);
                    }
                } else {
                    assert(strip_sign(x)[i - k - 1] == x[i - k - 1]);
                }
            }
        }
    }
}

pub proof fn lemma_number_literal_chars(w: Seq<char>)
    requires
        is_number_literal(w),
    ensures
        w.len() > 0,
        forall|i: int| 0 <= i < w.len() ==> is_numeral_char(#[trigger] w[i]),
{
    let u = strip_sign(w);
    assert(u.len() > 0 && forall|i: int| 0 <= i < u.len() ==> is_numeral_char(#[trigger] u[i]))
        by {
        if is_decimal(u) {
            if is_mantissa(u) {
                lemma_mantissa_chars(u);
                if !(u.len() > 0 && all_digits(u)) {
                    let k = choose|k: int|
                        0 <= k < u.len() && u[k] == '.' && u.len() >= 2 && all_digits(u.take(k))
                            && #[trigger] all_digits(u.skip(k + 1));
                }
            } else {
                let k = choose|k: int|
                    0 <= k < u.len() && is_exponent_marker(u[k]) && is_mantissa(u.take(k))
                        && #[trigger] is_exponent(u.skip(k + 1));
                lemma_mantissa_chars(u.take(k));
                let x = u.skip(k + 1);
                assert forall|i: int| 0 <= i < u.len() implies is_numeral_char(#[trigger] u[i]) by {
                    if i < k {
                        assert(u.take(k)[i] == u[i]);
                    } else if i > k {
                        assert(x[i - k - 1] == u[i]);
                        if x.len() > 0 && is_sign(x[0]) {
                            if i - k - 1 > 0 {
                                assert(strip_sign(x)[i - k - 2] == x[i - k - 1]);
                            }
                        } else {
                            assert(strip_sign(x)[i - k - 1] == x[i - k - 1]);
                        }
                    }
                }
            }
        } else {
            assert(lower(u).len() == u.len());
            assert forall|i: int| 0 <= i < u.len() implies is_numeral_char(#[trigger] u[i]) by {
                assert(lower(u)[i] == ascii_lower(u[i]));
                let l = lower(u);
                if l == seq!['i', 'n', 'f'] {
                    assert(is_ascii_letter(l[i]));
                } else if l == seq!['i', 'n', 'f', 'i', 'n', 'i', 't', 'y'] {
                    assert(is_ascii_letter(l[i]));
                } else {
                    assert(is_ascii_letter(l[i]));
                }
            }
        }
    }
    if w.len() > 0 && is_sign(w[0]) {
        assert forall|i: int| 0 <= i < w.len() implies is_numeral_char(#[trigger] w[i]) by {
            if i > 0 {
                assert(u[i - 1] == w[i]);
            }
        }
    }
}

/// The word of a token is clean.
pub proof fn lemma_token_word_clean(w: Seq<char>)
    requires
        token_of(w) is Some,
    ensures
        is_clean_word(w),
{
    if is_number_literal(w) {
        lemma_number_literal_chars(w);
        assert forall|i: int| 0 <= i < w.len() implies !is_whitespace_char(#[trigger] w[i]) by {
            assert(is_numeral_char(w[i]));
        }
    } else if is_identifier(w) {
        assert forall|i: int| 0 <= i < w.len() implies !is_whitespace_char(#[trigger] w[i]) by {
            if i > 0 {
                assert(is_identifier_char(w[i]));
            }
        }
    }
}

/// A token read from a word writes out to a word that reads back as the
/// same token: the word itself, or the displayed form of a numeral.
pub proof fn lemma_token_of_round_trips(w: Seq<char>)
    requires
        token_of(w) is Some,
    ensures
        token_round_trips(token_of(w)->Some_0),
{
    let t = token_of(w)->Some_0;
    if t is Number {
        lemma_numeral_is_no_symbol(w);
        assert(is_number_literal(w));
        let c = display_numeral(w);
        lemma_display_numeral(w);
        lemma_numeral_is_no_symbol(c);
        assert(render_token(t) == c);
    } else {
        assert(render_token(t) == w);
    }
}

/// Whether writing a token out and reading it back gives the same token.
pub open spec fn token_round_trips(t: TokenView) -> bool {
    token_of(render_token(t)) == Some(t)
}

/// Reading the written-out words of round-tripping tokens gives the tokens.
pub proof fn lemma_tokens_of_rendered_words(ts: Seq<TokenView>)
    requires
        forall|i: int| 0 <= i < ts.len() ==> token_round_trips(#[trigger] ts[i]),
    ensures
        tokens_of_words(rendered_words(ts)) == Ok::<Seq<TokenView>, Seq<char>>(ts),
    decreases ts.len(),
{
    if ts.len() == 0 {
        assert(rendered_words(ts) =~= Seq::<Seq<char>>::empty());
        assert(ts =~= Seq::<TokenView>::empty());
    } else {
        let rest = ts.drop_last();
        assert forall|i: int| 0 <= i < rest.len() implies token_round_trips(#[trigger] rest[i]) by {
            assert(rest[i] == ts[i]);
        }
        lemma_tokens_of_rendered_words(rest);
        assert(rendered_words(ts).drop_last() =~= rendered_words(rest));
        assert(rendered_words(ts).last() == render_token(ts.last()));
        assert(token_round_trips(ts[ts.len() - 1]));
        assert(token_of(rendered_words(ts).last()) == Some(ts.last()));
        assert(rest.push(ts.last()) =~= ts);
        assert(tokens_of_words(rendered_words(ts).drop_last()) == Ok::<
            Seq<TokenView>,
            Seq<char>,
        >(rest));
    }
}

/// Every token that tokenizing yields round-trips.
pub proof fn lemma_tokens_of_words_round_trip(ws: Seq<Seq<char>>)
    requires
        tokens_of_words(ws) is Ok,
    ensures
        forall|i: int|
            0 <= i < tokens_of_words(ws)->Ok_0.len() ==> token_round_trips(
                #[trigger] tokens_of_words(ws)->Ok_0[i],
            ),
        tokens_of_words(ws)->Ok_0.len() == ws.len(),
    decreases ws.len(),
{
    if ws.len() > 0 {
        lemma_tokens_of_words_round_trip(ws.drop_last());
        let ts = tokens_of_words(ws)->Ok_0;
        let prev = tokens_of_words(ws.drop_last())->Ok_0;
        lemma_token_of_round_trips(ws.last());
        assert forall|i: int| 0 <= i < ts.len() implies token_round_trips(#[trigger] ts[i]) by {
            if i < prev.len() {
                assert(ts[i] == prev[i]);
            }
        }
    }
}

/// Writing out the tokens of a text, one space between them, and
/// tokenizing the result gives the same tokens.
pub proof fn law_tokenize_rendered(s: Seq<char>)
    requires
        tokenize_spec(s) is Ok,
    ensures
        tokenize_spec(rendered_text(tokenize_spec(s)->Ok_0)) == tokenize_spec(s),
{
    let ts = tokenize_spec(s)->Ok_0;
    lemma_tokens_of_words_round_trip(split_words(s));
    let ws = rendered_words(ts);
    assert forall|i: int| 0 <= i < ws.len() implies is_clean_word(#[trigger] ws[i]) by {
        assert(token_round_trips(ts[i]));
        lemma_token_word_clean(ws[i]);
    }
    lemma_split_join(ws);
    lemma_tokens_of_rendered_words(ts);
}

} // verus!
