//! Lexical predicates on token text: ASCII case folding, digits, and the
//! floating-point literal grammar that operand tokens must follow.

use vstd::prelude::*;

verus! {

/// The texts of a sequence of strings.
pub open spec fn texts(v: Seq<String>) -> Seq<Seq<char>> {
    v.map_values(|t: String| t@)
}

/// The character code of `c` with ASCII upper-case letters folded to lower
/// case; every other character keeps its code.
pub open spec fn ascii_lower(c: char) -> u32 {
    if 'A' <= c && c <= 'Z' {
        (c as u32 + 32) as u32
    } else {
        c as u32
    }
}

/// Two texts are equal once ASCII letters are folded to one case.
pub open spec fn same_ignoring_ascii_case(a: Seq<char>, b: Seq<char>) -> bool {
    &&& a.len() == b.len()
    &&& forall|i: int| 0 <= i < a.len() ==> #[trigger] ascii_lower(a[i]) == ascii_lower(b[i])
}

/// The identifier that stands for the previous result.
pub open spec fn answer_word() -> Seq<char> {
    seq!['a', 'n', 's']
}

/// The text is `ans`, in any mix of cases.
pub open spec fn is_answer(s: Seq<char>) -> bool {
    same_ignoring_ascii_case(s, answer_word())
}

pub open spec fn is_digit(c: char) -> bool {
    '0' <= c && c <= '9'
}

/// The text holds at least one decimal digit.
pub open spec fn has_digit(s: Seq<char>) -> bool {
    exists|i: int| 0 <= i < s.len() && #[trigger] is_digit(s[i])
}

/// The end of the run of digits that starts at `i`.
pub open spec fn digits_end(s: Seq<char>, i: int) -> int
    decreases s.len() - i,
{
    if 0 <= i < s.len() && is_digit(s[i]) {
        digits_end(s, i + 1)
    } else {
        i
    }
}

pub open spec fn is_sign_at(s: Seq<char>, i: int) -> bool {
    0 <= i < s.len() && (s[i] == '+' || s[i] == '-')
}

/// A decimal floating-point literal: an optional sign, then digits with an
/// optional point (at least one digit on either side of it), then an
/// optional exponent `e` or `E` with an optional sign and at least one digit.
pub open spec fn is_decimal_literal(s: Seq<char>) -> bool {
    let a: int = if is_sign_at(s, 0) { 1 } else { 0 };
    let b = digits_end(s, a);
    let c = if b < s.len() && s[b] == '.' { b + 1 } else { b };
    let d = digits_end(s, c);
    let mantissa = b > a || d > c;
    if d == s.len() {
        mantissa
    } else if s[d] == 'e' || s[d] == 'E' {
        let f = if is_sign_at(s, d + 1) { d + 2 } else { d + 1 };
        let g = digits_end(s, f);
        mantissa && g > f && g == s.len()
    } else {
        false
    }
}

/// The text without its leading sign, if it has one.
pub open spec fn unsigned(s: Seq<char>) -> Seq<char> {
    if is_sign_at(s, 0) {
        s.drop_first()
    } else {
        s
    }
}

/// `inf`, `infinity` or `nan`, in any mix of cases.
pub open spec fn is_number_word(w: Seq<char>) -> bool {
    ||| same_ignoring_ascii_case(w, seq!['i', 'n', 'f'])
    ||| same_ignoring_ascii_case(w, seq!['i', 'n', 'f', 'i', 'n', 'i', 't', 'y'])
    ||| same_ignoring_ascii_case(w, seq!['n', 'a', 'n'])
}

/// A floating-point literal as `str::parse::<f64>` accepts it: a decimal
/// literal, or an optional sign followed by `inf`, `infinity` or `nan` in
/// any case.
pub open spec fn is_float_literal(s: Seq<char>) -> bool {
    is_decimal_literal(s) || is_number_word(unsigned(s))
}

proof fn lemma_digits_end_bounds(s: Seq<char>, i: int)
    requires
        0 <= i <= s.len(),
    ensures
        i <= digits_end(s, i) <= s.len(),
        digits_end(s, i) < s.len() ==> !is_digit(s[digits_end(s, i)]),
    decreases s.len() - i,
{
    if i < s.len() && is_digit(s[i]) {
        lemma_digits_end_bounds(s, i + 1);
    }
}

fn fold_ascii(c: char) -> (r: u32)
    ensures
        r == ascii_lower(c),
{
    if 'A' <= c && c <= 'Z' {
        c as u32 + 32
    } else {
        c as u32
    }
}

fn is_digit_char(c: char) -> (r: bool)
    ensures
        r == is_digit(c),
{
    '0' <= c && c <= '9'
}

/// Whether two texts are equal once ASCII letters are folded to one case.
pub fn eq_ignore_ascii_case(a: &str, b: &str) -> (r: bool)
    ensures
        r == same_ignoring_ascii_case(a@, b@),
{
    let n = a.unicode_len();
    if n != b.unicode_len() {
        return false;
    }
    let mut i: usize = 0;
    while i < n
        invariant
            n == a@.len(),
            n == b@.len(),
            i <= n,
            forall|k: int| 0 <= k < i ==> #[trigger] ascii_lower(a@[k]) == ascii_lower(b@[k]),
        decreases n - i,
    {
        if fold_ascii(a.get_char(i)) != fold_ascii(b.get_char(i)) {
            return false;
        }
        i += 1;
    }
    true
}

/// Whether the text is the identifier `ans`, in any mix of cases.
pub fn is_answer_token(s: &str) -> (r: bool)
    ensures
        r == is_answer(s@),
{
    proof {
        reveal_strlit("ans");
    }
    let r = eq_ignore_ascii_case(s, "ans");
    proof {
        assert("ans"@ =~= answer_word());
    }
    r
}

/// Whether the text holds a decimal digit.
pub fn contains_digit(s: &str) -> (r: bool)
    ensures
        r == has_digit(s@),
{
    let n = s.unicode_len();
    let mut i: usize = 0;
    while i < n
        invariant
            n == s@.len(),
            i <= n,
            forall|k: int| 0 <= k < i ==> !#[trigger] is_digit(s@[k]),
        decreases n - i,
    {
        if is_digit_char(s.get_char(i)) {
            return true;
        }
        i += 1;
    }
    false
}

fn scan_digits(s: &str, n: usize, i: usize) -> (r: usize)
    requires
        n == s@.len(),
        i <= n,
    ensures
        r == digits_end(s@, i as int),
        i <= r <= n,
{
    let mut j = i;
    while j < n && is_digit_char(s.get_char(j))
        invariant
            n == s@.len(),
            i <= j <= n,
            digits_end(s@, j as int) == digits_end(s@, i as int),
        decreases n - j,
    {
        j += 1;
    }
    j
}

fn is_sign_char(c: char) -> (r: bool)
    ensures
        r == (c == '+' || c == '-'),
{
    c == '+' || c == '-'
}

/// Whether the text is a decimal floating-point literal.
pub fn is_decimal_literal_text(s: &str) -> (r: bool)
    ensures
        r == is_decimal_literal(s@),
{
    let n = s.unicode_len();
    let a: usize = if n > 0 && is_sign_char(s.get_char(0)) { 1 } else { 0 };
    let b = scan_digits(s, n, a);
    let c: usize = if b < n && s.get_char(b) == '.' { b + 1 } else { b };
    let d = scan_digits(s, n, c);
    let mantissa = b > a || d > c;
    if d == n {
        return mantissa;
    }
    let e = s.get_char(d);
    if e == 'e' || e == 'E' {
        let f: usize = if d + 1 < n && is_sign_char(s.get_char(d + 1)) { d + 2 } else { d + 1 };
        let g = scan_digits(s, n, f);
        mantissa && g > f && g == n
    } else {
        false
    }
}

/// A decimal literal holds a digit and is not `ans`.
pub proof fn lemma_literal_is_number(s: Seq<char>)
    requires
        is_decimal_literal(s),
    ensures
        has_digit(s),
        !is_answer(s),
{
    let a: int = if is_sign_at(s, 0) { 1 } else { 0 };
    let b = digits_end(s, a);
    let c = if b < s.len() && s[b] == '.' { b + 1 } else { b };
    let d = digits_end(s, c);
    lemma_digits_end_bounds(s, a);
    lemma_digits_end_bounds(s, c);
    let k = if b > a { a } else { c };
    assert(is_digit(s[k]));
    if is_answer(s) {
        assert(ascii_lower(s[k]) == ascii_lower(answer_word()[k]));
    }
}

/// Whether the text is a floating-point literal.
pub fn is_float_literal_text(s: &str) -> (r: bool)
    ensures
        r == is_float_literal(s@),
{
    if is_decimal_literal_text(s) {
        return true;
    }
    let n = s.unicode_len();
    let body: &str = if n > 0 && is_sign_char(s.get_char(0)) {
        s.substring_char(1, n)
    } else {
        s
    };
    proof {
        assert(body@ =~= unsigned(s@));
        reveal_strlit("inf");
        reveal_strlit("infinity");
        reveal_strlit("nan");
        assert("inf"@ =~= seq!['i', 'n', 'f']);
        assert("infinity"@ =~= seq!['i', 'n', 'f', 'i', 'n', 'i', 't', 'y']);
        assert("nan"@ =~= seq!['n', 'a', 'n']);
    }
    eq_ignore_ascii_case(body, "inf") || eq_ignore_ascii_case(body, "infinity")
        || eq_ignore_ascii_case(body, "nan")
}

/// A token that stands for an operand rather than an operator: it holds a
/// digit, or it is `ans`.
pub open spec fn is_operand(s: Seq<char>) -> bool {
    has_digit(s) || is_answer(s)
}

/// Whether the token stands for an operand rather than an operator.
pub fn is_operand_token(s: &str) -> (r: bool)
    ensures
        r == is_operand(s@),
{
    contains_digit(s) || is_answer_token(s)
}

} // verus!
