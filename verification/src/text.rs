//! Character-level helpers shared by the lexer, tokenizer and interpreter.

use vstd::prelude::*;

verus! {

broadcast use vstd::string::group_string_axioms;

/// The characters of a string, in order.
pub fn chars_of(s: &str) -> (v: Vec<char>)
    ensures
        v@ == s@,
{
    let mut v: Vec<char> = Vec::new();
    for c in it: s.chars()
        invariant
            it.seq() == s@,
            v@ == it.seq().take(it.index()),
    {
        v.push(c);
        assert(it.seq().take(it.index() + 1) == v@);
    }
    v
}

} // verus!

verus! {

/// Appends a character to a string.
///
/// Trusted: `String::push` appends the character at the end of the string,
/// as its documentation states.
#[verifier::external_body]
fn push_char(s: &mut String, c: char)
    ensures
        final(s)@ == old(s)@.push(c),
{
    s.push(c);
}

/// A string made of the given characters.
pub(crate) fn string_of(v: &[char]) -> (s: String)
    ensures
        s@ == v@,
{
    let mut s = String::new();
    let mut i: usize = 0;
    while i < v.len()
        invariant
            i <= v@.len(),
            s@ == v@.take(i as int),
        decreases v@.len() - i,
    {
        push_char(&mut s, v[i]);
        i = i + 1;
        assert(s@ =~= v@.take(i as int));
    }
    assert(v@.take(v@.len() as int) =~= v@);
    s
}

/// Whether two strings hold the same characters.
pub fn str_eq(a: &str, b: &str) -> (r: bool)
    ensures
        r == (a@ == b@),
{
    let x = chars_of(a);
    let y = chars_of(b);
    chars_eq(&x, &y)
}

/// Whether two character vectors are equal.
pub fn chars_eq(x: &Vec<char>, y: &Vec<char>) -> (r: bool)
    ensures
        r == (x@ == y@),
{
    if x.len() != y.len() {
        return false;
    }
    let mut i: usize = 0;
    while i < x.len()
        invariant
            x@.len() == y@.len(),
            i <= x@.len(),
            forall|j: int| 0 <= j < i ==> x@[j] == y@[j],
        decreases x@.len() - i,
    {
        if x[i] != y[i] {
            return false;
        }
        i = i + 1;
    }
    assert(x@ =~= y@);
    true
}

/// A decimal digit.
pub open spec fn is_digit(c: char) -> bool {
    '0' <= c <= '9'
}

/// The value of a decimal digit.
pub open spec fn digit_value(c: char) -> int {
    c as int - '0' as int
}

/// Every character is a decimal digit.
pub open spec fn all_digits(s: Seq<char>) -> bool {
    forall|i: int| 0 <= i < s.len() ==> is_digit(#[trigger] s[i])
}

/// The number that a string of decimal digits writes.
pub open spec fn digits_value(s: Seq<char>) -> int
    decreases s.len(),
{
    if s.len() == 0 {
        0
    } else {
        digits_value(s.drop_last()) * 10 + digit_value(s.last())
    }
}

/// What `i64::from_str` accepts and returns: an optional `+` or `-`, then
/// one or more decimal digits, whose value fits in an `i64`.
pub open spec fn spec_parse_i64(s: Seq<char>) -> Option<i64> {
    let signed = s.len() > 0 && (s[0] == '-' || s[0] == '+');
    let body = if signed { s.skip(1) } else { s };
    let magnitude = digits_value(body);
    let v = if s.len() > 0 && s[0] == '-' { -magnitude } else { magnitude };
    if body.len() > 0 && all_digits(body) && i64::MIN <= v <= i64::MAX {
        Some(v as i64)
    } else {
        None
    }
}

proof fn lemma_digits_value_nonneg(s: Seq<char>)
    requires
        all_digits(s),
    ensures
        digits_value(s) >= 0,
    decreases s.len(),
{
    if s.len() > 0 {
        assert(all_digits(s.drop_last())) by {
            assert forall|i: int| 0 <= i < s.drop_last().len() implies is_digit(
                #[trigger] s.drop_last()[i],
            ) by {
                assert(s.drop_last()[i] == s[i]);
            }
        }
        lemma_digits_value_nonneg(s.drop_last());
        assert(is_digit(s[s.len() - 1]));
    }
}

/// Parse a decimal integer the way `i64::from_str` does.
pub fn parse_i64(s: &Vec<char>) -> (r: Option<i64>)
    ensures
        r == spec_parse_i64(s@),
{
    let n = s.len();
    if n == 0 {
        return None;
    }
    let neg = s[0] == '-';
    let start: usize = if s[0] == '-' || s[0] == '+' {
        1
    } else {
        0
    };
    let ghost body = s@.skip(start as int);
    if start >= n {
        assert(body.len() == 0);
        return None;
    }
    let limit: u128 = 9223372036854775808;
    let mut acc: u128 = 0;
    let mut big = false;
    let mut i: usize = start;
    while i < n
        invariant
            start <= i <= n,
            n == s@.len(),
            start == (if s@[0] == '-' || s@[0] == '+' { 1int } else { 0int }),
            n > 0,
            body == s@.skip(start as int),
            all_digits(s@.subrange(start as int, i as int)),
            !big ==> acc == digits_value(s@.subrange(start as int, i as int)) && acc <= limit,
            big ==> digits_value(s@.subrange(start as int, i as int)) > limit,
            limit == 9223372036854775808,
        decreases n - i,
    {
        let c = s[i];
        let ghost pre = s@.subrange(start as int, i as int);
        let ghost next = s@.subrange(start as int, i + 1);
        assert(next.drop_last() =~= pre);
        assert(next.last() == c);
        if !('0' <= c && c <= '9') {
            assert(body[i - start] == c);
            assert(!is_digit(body[i - start]));
            assert(s@.skip(0) =~= s@);
            return None;
        }
        assert(all_digits(next)) by {
            assert forall|j: int| 0 <= j < next.len() implies is_digit(#[trigger] next[j]) by {
                if j < pre.len() {
                    assert(next[j] == pre[j]);
                }
            }
        }
        let d: u128 = (c as u32 - '0' as u32) as u128;
        assert(d == digit_value(c));
        if !big {
            let m = acc * 10 + d;
            if m > limit {
                big = true;
            } else {
                acc = m;
            }
        } else {
            proof {
                lemma_digits_value_nonneg(pre);
            }
        }
        i = i + 1;
    }
    assert(s@.subrange(start as int, n as int) =~= body);
    assert(s@.skip(0) =~= s@);
    if big {
        return None;
    }
    if neg {
        if acc == limit {
            Some(i64::MIN)
        } else {
            let m = acc as i64;
            Some(-m)
        }
    } else {
        if acc > 9223372036854775807 {
            None
        } else {
            Some(acc as i64)
        }
    }
}

/// The character of a digit below ten.
pub open spec fn digit_char(d: int) -> char {
    if d == 0 { '0' }
    else if d == 1 { '1' }
    else if d == 2 { '2' }
    else if d == 3 { '3' }
    else if d == 4 { '4' }
    else if d == 5 { '5' }
    else if d == 6 { '6' }
    else if d == 7 { '7' }
    else if d == 8 { '8' }
    else { '9' }
}

/// The decimal writing of a natural number, without leading zeros.
pub open spec fn nat_decimal(n: nat) -> Seq<char>
    decreases n,
{
    if n < 10 {
        seq![digit_char(n as int)]
    } else {
        nat_decimal(n / 10) + seq![digit_char((n % 10) as int)]
    }
}

/// The decimal writing of an integer, as `i64`'s `to_string` gives it.
pub open spec fn int_decimal(i: int) -> Seq<char> {
    if i < 0 {
        seq!['-'] + nat_decimal((-i) as nat)
    } else {
        nat_decimal(i as nat)
    }
}

fn digit_char_exec(d: u64) -> (c: char)
    requires
        d < 10,
    ensures
        c == digit_char(d as int),
{
    if d == 0 { '0' }
    else if d == 1 { '1' }
    else if d == 2 { '2' }
    else if d == 3 { '3' }
    else if d == 4 { '4' }
    else if d == 5 { '5' }
    else if d == 6 { '6' }
    else if d == 7 { '7' }
    else if d == 8 { '8' }
    else { '9' }
}

fn push_nat_decimal(n: u64, out: &mut Vec<char>)
    ensures
        final(out)@ == old(out)@ + nat_decimal(n as nat),
    decreases n,
{
    if n < 10 {
        out.push(digit_char_exec(n));
    } else {
        push_nat_decimal(n / 10, out);
        out.push(digit_char_exec(n % 10));
    }
}

/// The decimal writing of an `i64`.
pub fn i64_decimal(i: i64) -> (s: String)
    ensures
        s@ == int_decimal(i as int),
{
    let mut v: Vec<char> = Vec::new();
    if i < 0 {
        v.push('-');
        let m: u64 = if i == i64::MIN {
            9223372036854775808
        } else {
            (-i) as u64
        };
        push_nat_decimal(m, &mut v);
    } else {
        push_nat_decimal(i as u64, &mut v);
    }
    string_of(v.as_slice())
}

proof fn lemma_digit_char_value(d: int)
    requires
        0 <= d < 10,
    ensures
        digit_value(digit_char(d)) == d,
        is_digit(digit_char(d)),
{
}

proof fn lemma_nat_decimal_digits(n: nat)
    ensures
        nat_decimal(n).len() > 0,
        all_digits(nat_decimal(n)),
        digits_value(nat_decimal(n)) == n,
    decreases n,
{
    let d = nat_decimal(n);
    if n < 10 {
        lemma_digit_char_value(n as int);
        assert(d.drop_last() =~= Seq::<char>::empty());
        assert(digits_value(d.drop_last()) == 0);
        assert(digits_value(d) == digits_value(d.drop_last()) * 10 + digit_value(d.last()));
    } else {
        lemma_digit_char_value((n % 10) as int);
        assert(n == (n / 10) * 10 + n % 10) by (nonlinear_arith);
        lemma_nat_decimal_digits(n / 10);
        let hi = nat_decimal(n / 10);
        assert(d.drop_last() =~= hi);
        assert(d.last() == digit_char((n % 10) as int));
        assert(digits_value(d) == digits_value(d.drop_last()) * 10 + digit_value(d.last()));
        assert forall|i: int| 0 <= i < d.len() implies is_digit(#[trigger] d[i]) by {
            if i < hi.len() {
                assert(d[i] == hi[i]);
            }
        }
    }
}

/// Reading back the decimal writing of an `i64` gives the number: what
/// `i64_decimal` writes, `parse_i64` reads as the same number.
pub proof fn decimal_round_trip(i: i64)
    ensures
        spec_parse_i64(int_decimal(i as int)) == Some(i),
{
    let s = int_decimal(i as int);
    if i < 0 {
        let body = nat_decimal((-i) as nat);
        lemma_nat_decimal_digits((-i) as nat);
        assert(s.skip(1) =~= body);
    } else {
        lemma_nat_decimal_digits(i as nat);
        let d = nat_decimal(i as nat);
        assert(is_digit(d[0]));
    }
}

} // verus!

verus! {

/// Letter `c` in either case, for an ASCII lower-case letter `l`.
pub open spec fn same_letter(c: char, l: char) -> bool {
    c == l || c as int == l as int - 32
}

/// A word of the float grammar that names a special value: `inf`,
/// `infinity` or `nan`, in any mix of cases.
pub open spec fn is_special_float(b: Seq<char>) -> bool {
    ||| (b.len() == 3 && same_letter(b[0], 'i') && same_letter(b[1], 'n') && same_letter(b[2], 'f'))
    ||| (b.len() == 8 && same_letter(b[0], 'i') && same_letter(b[1], 'n') && same_letter(b[2], 'f')
        && same_letter(b[3], 'i') && same_letter(b[4], 'n') && same_letter(b[5], 'i')
        && same_letter(b[6], 't') && same_letter(b[7], 'y'))
    ||| (b.len() == 3 && same_letter(b[0], 'n') && same_letter(b[1], 'a') && same_letter(b[2], 'n'))
}

/// The exponent marker of the float grammar.
pub open spec fn is_exp_marker(c: char) -> bool {
    c == 'e' || c == 'E'
}

/// The part of a decimal number before its exponent: digits with at most
/// one `.`, and at least one digit.
pub open spec fn is_mantissa(m: Seq<char>) -> bool {
    &&& forall|i: int| 0 <= i < m.len() ==> is_digit(#[trigger] m[i]) || m[i] == '.'
    &&& forall|i: int, j: int| 0 <= i < j < m.len() && #[trigger] m[i] == '.' ==> #[trigger] m[j] != '.'
    &&& exists|i: int| 0 <= i < m.len() && is_digit(#[trigger] m[i])
}

/// An exponent of the float grammar, possibly empty: `e`, an optional sign,
/// one or more digits.
pub open spec fn is_exponent(x: Seq<char>) -> bool {
    ||| x.len() == 0
    ||| {
        &&& x.len() >= 2
        &&& is_exp_marker(x[0])
        &&& {
            let d = if x[1] == '+' || x[1] == '-' { x.skip(2) } else { x.skip(1) };
            d.len() > 0 && all_digits(d)
        }
    }
}

/// The strings that `f32::from_str` accepts, by the grammar that its
/// documentation gives: an optional sign, then `inf`, `infinity`, `nan` or
/// a decimal number with an optional exponent, letters in any case.
pub open spec fn is_float_literal(s: Seq<char>) -> bool {
    ||| is_special_float(unsigned_part(s))
    ||| exists|k: int| #[trigger] number_split(unsigned_part(s), k)
}

/// The characters after an optional leading sign.
pub open spec fn unsigned_part(s: Seq<char>) -> Seq<char> {
    if s.len() > 0 && (s[0] == '+' || s[0] == '-') { s.skip(1) } else { s }
}

/// `b` is a mantissa up to `k` and an exponent from `k` on.
pub open spec fn number_split(b: Seq<char>, k: int) -> bool {
    0 <= k <= b.len() && is_mantissa(b.take(k)) && is_exponent(b.skip(k))
}

fn letter_is(c: char, l: char) -> (r: bool)
    requires
        'a' <= l <= 'z',
    ensures
        r == same_letter(c, l),
{
    c == l || (c as u32) + 32 == (l as u32)
}

fn special_float_exec(b: &Vec<char>, start: usize) -> (r: bool)
    requires
        start <= b@.len(),
    ensures
        r == is_special_float(b@.skip(start as int)),
{
    let n = b.len() - start;
    let ghost w = b@.skip(start as int);
    if n == 3 {
        (letter_is(b[start], 'i') && letter_is(b[start + 1], 'n') && letter_is(b[start + 2], 'f'))
            || (letter_is(b[start], 'n') && letter_is(b[start + 1], 'a') && letter_is(
            b[start + 2],
            'n',
        ))
    } else if n == 8 {
        letter_is(b[start], 'i') && letter_is(b[start + 1], 'n') && letter_is(b[start + 2], 'f')
            && letter_is(b[start + 3], 'i') && letter_is(b[start + 4], 'n') && letter_is(
            b[start + 5],
            'i',
        ) && letter_is(b[start + 6], 't') && letter_is(b[start + 7], 'y')
    } else {
        false
    }
}

fn mantissa_ok(s: &Vec<char>, lo: usize, hi: usize) -> (r: bool)
    requires
        lo <= hi <= s@.len(),
    ensures
        r == is_mantissa(s@.subrange(lo as int, hi as int)),
{
    let ghost m = s@.subrange(lo as int, hi as int);
    let mut dots: usize = 0;
    let mut digits = false;
    let mut i: usize = lo;
    while i < hi
        invariant
            lo <= i <= hi <= s@.len(),
            m == s@.subrange(lo as int, hi as int),
            forall|j: int| 0 <= j < i - lo ==> is_digit(#[trigger] m[j]) || m[j] == '.',
            dots <= 1,
            dots == 0 ==> forall|j: int| 0 <= j < i - lo ==> #[trigger] m[j] != '.',
            dots == 1 ==> exists|j: int| 0 <= j < i - lo && #[trigger] m[j] == '.',
            forall|a: int, c: int|
                0 <= a < c < i - lo && #[trigger] m[a] == '.' ==> #[trigger] m[c] != '.',
            digits <==> exists|j: int| 0 <= j < i - lo && is_digit(#[trigger] m[j]),
        decreases hi - i,
    {
        let c = s[i];
        assert(m[i - lo] == c);
        if '0' <= c && c <= '9' {
            assert(is_digit(m[i - lo]));
            digits = true;
        } else if c == '.' {
            if dots == 1 {
                let ghost a = choose|a: int| 0 <= a < i - lo && #[trigger] m[a] == '.';
                assert(m[a] == '.' && m[i - lo] == '.');
                assert(!is_mantissa(m));
                return false;
            }
            assert(m[i - lo] == '.');
            dots = 1;
        } else {
            assert(!(is_digit(m[i - lo]) || m[i - lo] == '.'));
            return false;
        }
        i = i + 1;
    }
    digits
}

fn exponent_ok(s: &Vec<char>, k: usize) -> (r: bool)
    requires
        k <= s@.len(),
        k < s@.len() ==> is_exp_marker(s@[k as int]),
    ensures
        r == is_exponent(s@.skip(k as int)),
{
    let n = s.len();
    let ghost x = s@.skip(k as int);
    if k == n {
        assert(x.len() == 0);
        return true;
    }
    if k + 1 >= n {
        return false;
    }
    assert(x[0] == s@[k as int]);
    assert(x[1] == s@[k + 1]);
    let d0: usize = if s[k + 1] == '+' || s[k + 1] == '-' {
        k + 2
    } else {
        k + 1
    };
    let ghost d = if x[1] == '+' || x[1] == '-' { x.skip(2) } else { x.skip(1) };
    assert(d =~= s@.skip(d0 as int));
    if d0 >= n {
        return false;
    }
    let mut j: usize = d0;
    while j < n
        invariant
            d0 <= j <= n,
            n == s@.len(),
            d == s@.skip(d0 as int),
            x == s@.skip(k as int),
            x.len() >= 2,
            is_exp_marker(x[0]),
            d == (if x[1] == '+' || x[1] == '-' { x.skip(2) } else { x.skip(1) }),
            forall|q: int| d0 <= q < j ==> is_digit(#[trigger] s@[q]),
        decreases n - j,
    {
        if !('0' <= s[j] && s[j] <= '9') {
            assert(d[j - d0] == s@[j as int]);
            assert(!is_digit(d[j - d0]));
            return false;
        }
        j = j + 1;
    }
    assert forall|q: int| 0 <= q < d.len() implies is_digit(#[trigger] d[q]) by {
        assert(d[q] == s@[d0 + q]);
    }
    true
}

/// Whether `f32::from_str` would accept the characters: the grammar of
/// `is_float_literal`, checked.
#[verifier::spinoff_prover]
#[verifier::rlimit(40)]
pub fn float_literal_exec(s: &Vec<char>) -> (r: bool)
    ensures
        r == is_float_literal(s@),
{
    let n = s.len();
    let start: usize = if n > 0 && (s[0] == '+' || s[0] == '-') {
        1
    } else {
        0
    };
    let ghost b = s@.skip(start as int);
    assert(s@.skip(0) =~= s@);
    if special_float_exec(s, start) {
        return true;
    }
    let mut k: usize = start;
    while k < n && !(s[k] == 'e' || s[k] == 'E')
        invariant
            start <= k <= n,
            n == s@.len(),
            forall|j: int| start <= j < k ==> !is_exp_marker(#[trigger] s@[j]),
        decreases n - k,
    {
        k = k + 1;
    }
    let ghost kk = k - start;
    let mant_ok = mantissa_ok(s, start, k);
    let exp_ok = exponent_ok(s, k);
    assert(b.take(kk) =~= s@.subrange(start as int, k as int));
    assert(b.skip(kk) =~= s@.skip(k as int));
    assert(unsigned_part(s@) == b);
    if mant_ok && exp_ok {
        assert(is_mantissa(b.take(kk)) && is_exponent(b.skip(kk)));
        assert(number_split(b, kk));
        assert(is_float_literal(s@));
        true
    } else {
        assert forall|q: int| !#[trigger] number_split(b, q) by {
            if q < 0 || q > b.len() {
            } else if q < kk {
                if is_exponent(b.skip(q)) {
                    assert(b.skip(q)[0] == s@[start + q]);
                    assert(!is_exp_marker(s@[start + q]));
                }
            } else if q > kk {
                if is_mantissa(b.take(q)) {
                    assert(b.take(q)[kk] == s@[k as int]);
                }
            }
        }
        assert(!is_special_float(b));
        assert(!is_float_literal(s@));
        false
    }
}

} // verus!

verus! {

/// `char::is_whitespace`: the Unicode `White_Space` property.
pub open spec fn is_ws(c: char) -> bool {
    ||| '\u{9}' <= c <= '\u{d}'
    ||| c == ' '
    ||| c == '\u{85}'
    ||| c == '\u{a0}'
    ||| c == '\u{1680}'
    ||| '\u{2000}' <= c <= '\u{200a}'
    ||| c == '\u{2028}'
    ||| c == '\u{2029}'
    ||| c == '\u{202f}'
    ||| c == '\u{205f}'
    ||| c == '\u{3000}'
}

fn is_ws_exec(c: char) -> (r: bool)
    ensures
        r == is_ws(c),
{
    ('\u{9}' <= c && c <= '\u{d}') || c == ' ' || c == '\u{85}' || c == '\u{a0}' || c
        == '\u{1680}' || ('\u{2000}' <= c && c <= '\u{200a}') || c == '\u{2028}' || c
        == '\u{2029}' || c == '\u{202f}' || c == '\u{205f}' || c == '\u{3000}'
}

/// The characters with leading white space removed.
pub open spec fn trim_front(s: Seq<char>) -> Seq<char>
    decreases s.len(),
{
    if s.len() > 0 && is_ws(s[0]) {
        trim_front(s.drop_first())
    } else {
        s
    }
}

/// The characters with trailing white space removed.
pub open spec fn trim_back(s: Seq<char>) -> Seq<char>
    decreases s.len(),
{
    if s.len() > 0 && is_ws(s.last()) {
        trim_back(s.drop_last())
    } else {
        s
    }
}

/// `str::trim`: leading and trailing white space removed.
pub open spec fn spec_trim(s: Seq<char>) -> Seq<char> {
    trim_back(trim_front(s))
}

/// Remove leading and trailing white space, as `str::trim` does.
pub fn trim_chars(s: &Vec<char>) -> (r: Vec<char>)
    ensures
        r@ == spec_trim(s@),
{
    let n = s.len();
    let mut a: usize = 0;
    assert(s@.subrange(0, n as int) =~= s@);
    while a < n && is_ws_exec(s[a])
        invariant
            a <= n == s@.len(),
            trim_front(s@) == trim_front(s@.subrange(a as int, n as int)),
        decreases n - a,
    {
        assert(s@.subrange(a as int, n as int).drop_first() =~= s@.subrange(a + 1, n as int));
        a = a + 1;
    }
    let ghost f = s@.subrange(a as int, n as int);
    assert(trim_front(s@) == f) by {
        assert(s@.subrange(a as int, n as int) == f);
    }
    let mut b: usize = n;
    while b > a && is_ws_exec(s[b - 1])
        invariant
            a <= b <= n == s@.len(),
            f == s@.subrange(a as int, n as int),
            trim_back(f) == trim_back(s@.subrange(a as int, b as int)),
        decreases b,
    {
        assert(s@.subrange(a as int, b as int).drop_last() =~= s@.subrange(a as int, b - 1));
        b = b - 1;
    }
    let ghost t = s@.subrange(a as int, b as int);
    if b > a {
        assert(t.last() == s@[b - 1]);
    }
    assert(trim_back(t) == t);
    assert(trim_front(s@) == f);
    let mut r: Vec<char> = Vec::new();
    let mut i: usize = a;
    while i < b
        invariant
            a <= i <= b <= n == s@.len(),
            r@ == s@.subrange(a as int, i as int),
        decreases b - i,
    {
        r.push(s[i]);
        i = i + 1;
        assert(r@ =~= s@.subrange(a as int, i as int));
    }
    r
}

} // verus!
