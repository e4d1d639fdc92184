//! Decimal numerals: writing and reading `u64`, and the grammar of real numbers.

use crate::text::chars_of;
use vstd::prelude::*;
use vstd::string::*;

verus! {

/// The numeral of one decimal digit.
pub open spec fn digit_char(d: nat) -> char {
    (48 + d) as char
}

/// `c` is one of `0` to `9`.
pub open spec fn is_digit(c: char) -> bool {
    '0' <= c <= '9'
}

/// Every character of `s` is a decimal digit.
pub open spec fn all_digits(s: Seq<char>) -> bool {
    forall|i: int| 0 <= i < s.len() ==> is_digit(#[trigger] s[i])
}

/// The decimal numeral of `n`, without leading zeros.
pub open spec fn decimal(n: nat) -> Seq<char>
    decreases n,
{
    if n < 10 {
        seq![digit_char(n)]
    } else {
        decimal(n / 10).push(digit_char(n % 10))
    }
}

/// The number that a string of decimal digits stands for.
pub open spec fn decimal_value(s: Seq<char>) -> nat
    decreases s.len(),
{
    if s.len() == 0 {
        0
    } else {
        decimal_value(s.drop_last()) * 10 + (s.last() as u32 - 48) as nat
    }
}

/// `s` without one leading `+`.
pub open spec fn without_plus(s: Seq<char>) -> Seq<char> {
    if s.len() > 0 && s.first() == '+' {
        s.skip(1)
    } else {
        s
    }
}

/// The `u64` that `s` spells: decimal digits, at least one, after an optional `+`.
pub open spec fn u64_of(s: Seq<char>) -> Option<u64> {
    let digits = without_plus(s);
    if digits.len() > 0 && all_digits(digits) && decimal_value(digits) <= u64::MAX {
        Some(decimal_value(digits) as u64)
    } else {
        None
    }
}

/// Reading the numeral of a number gives the number back.
pub proof fn law_decimal_round_trip(n: u64)
    ensures
        u64_of(decimal(n as nat)) == Some(n),
{
    lemma_decimal(n as nat);
}

/// The numeral of `n` is made of digits, is not empty, and stands for `n`.
pub proof fn lemma_decimal(n: nat)
    ensures
        decimal(n).len() > 0,
        all_digits(decimal(n)),
        decimal_value(decimal(n)) == n,
    decreases n,
{
    if n < 10 {
        assert(decimal(n).drop_last() =~= Seq::empty());
        assert(decimal_value(decimal(n).drop_last()) == 0);
    } else {
        lemma_decimal(n / 10);
        let s = decimal(n);
        assert(s.drop_last() =~= decimal(n / 10));
        assert(s.last() == digit_char(n % 10));
    }
}

/// Two numbers with the same numeral are the same.
pub proof fn law_decimal_injective(a: nat, b: nat)
    requires
        decimal(a) == decimal(b),
    ensures
        a == b,
{
    lemma_decimal(a);
    lemma_decimal(b);
}

fn digit_text(d: u64) -> (t: &'static str)
    requires
        d < 10,
    ensures
        t@ == seq![digit_char(d as nat)],
{
    proof {
        reveal_strlit("0");
        reveal_strlit("1");
        reveal_strlit("2");
        reveal_strlit("3");
        reveal_strlit("4");
        reveal_strlit("5");
        reveal_strlit("6");
        reveal_strlit("7");
        reveal_strlit("8");
        reveal_strlit("9");
    }
    let t: &'static str = match d {
        0 => "0",
        1 => "1",
        2 => "2",
        3 => "3",
        4 => "4",
        5 => "5",
        6 => "6",
        7 => "7",
        8 => "8",
        _ => "9",
    };
    assert(t@ =~= seq![digit_char(d as nat)]);
    t
}

/// The decimal numeral of `n`.
pub fn number_text(n: u64) -> (t: String)
    ensures
        t@ == decimal(n as nat),
    decreases n,
{
    if n < 10 {
        digit_text(n).to_owned()
    } else {
        let mut t: String = number_text(n / 10);
        t.append(digit_text(n % 10));
        assert(t@ =~= decimal(n as nat));
        t
    }
}

proof fn lemma_decimal_value_prefix(s: Seq<char>, i: int)
    requires
        0 <= i <= s.len(),
    ensures
        decimal_value(s.take(i)) <= decimal_value(s),
    decreases s.len() - i,
{
    if i < s.len() {
        lemma_decimal_value_prefix(s, i + 1);
        assert(s.take(i + 1).drop_last() =~= s.take(i));
    } else {
        assert(s.take(i) =~= s);
    }
}

/// The `u64` that `s` spells, if it spells one.
pub fn parse_u64(s: &str) -> (n: Option<u64>)
    ensures
        n == u64_of(s@),
{
    let x: Vec<char> = chars_of(s);
    let mut from: usize = 0;
    if x.len() > 0 && x[0] == '+' {
        from = 1;
    }
    let ghost digits = without_plus(s@);
    assert(digits =~= s@.skip(from as int));
    if from == x.len() {
        return None;
    }
    let mut value: u64 = 0;
    let mut i: usize = from;
    assert(digits.take(0) =~= Seq::empty());
    while i < x.len()
        invariant
            from <= i <= x@.len(),
            x@ == s@,
            digits == s@.skip(from as int),
            digits == without_plus(s@),
            all_digits(digits.take(i - from)),
            value == decimal_value(digits.take(i - from)),
        decreases x@.len() - i,
    {
        let c: char = x[i];
        let ghost k = i - from;
        assert(digits[k] == c);
        if !('0' <= c && c <= '9') {
            return None;
        }
        let d: u64 = (c as u32 - 48) as u64;
        proof {
            assert(digits.take(k + 1).drop_last() =~= digits.take(k));
            assert(digits.take(k + 1).last() == c);
            assert forall|j: int| 0 <= j < k + 1 implies is_digit(
                #[trigger] digits.take(k + 1)[j],
            ) by {
                if j < k {
                    assert(digits.take(k)[j] == digits[j]);
                }
            }
        }
        match value.checked_mul(10) {
            Some(tens) => {
                match tens.checked_add(d) {
                    Some(sum) => {
                        value = sum;
                    },
                    None => {
                        proof {
                            lemma_decimal_value_prefix(digits, k + 1);
                        }
                        return None;
                    },
                }
            },
            None => {
                proof {
                    lemma_decimal_value_prefix(digits, k + 1);
                }
                return None;
            },
        }
        i = i + 1;
    }
    assert(digits.take(i - from) =~= digits);
    Some(value)
}

/// `s` without one leading sign.
pub open spec fn without_sign(s: Seq<char>) -> Seq<char> {
    if s.len() > 0 && (s.first() == '+' || s.first() == '-') {
        s.skip(1)
    } else {
        s
    }
}

/// `c` with an ASCII capital made small.
pub open spec fn ascii_lower(c: char) -> char {
    if 'A' <= c <= 'Z' {
        (c as u32 + 32) as char
    } else {
        c
    }
}

/// Digits with at most one point among them, and at least one digit.
pub open spec fn is_mantissa(m: Seq<char>) -> bool {
    ||| m.len() > 0 && all_digits(m)
    ||| m.len() > 1 && exists|dot: int|
        0 <= dot < m.len() && #[trigger] m[dot] == '.' && all_digits(m.take(dot)) && all_digits(
            m.skip(dot + 1),
        )
}

/// Nothing, or an `e`, an optional sign and at least one digit.
pub open spec fn is_exponent(e: Seq<char>) -> bool {
    e.len() > 0 ==> {
        &&& is_exponent_mark(e.first())
        &&& without_sign(e.skip(1)).len() > 0
        &&& all_digits(without_sign(e.skip(1)))
    }
}

/// `e` or `E`.
pub open spec fn is_exponent_mark(c: char) -> bool {
    c == 'e' || c == 'E'
}

/// A mantissa followed by an exponent.
pub open spec fn is_decimal_number(s: Seq<char>) -> bool {
    exists|k: int|
        0 <= k <= s.len() && is_mantissa(#[trigger] s.take(k)) && is_exponent(s.skip(k))
}

/// `inf`, `infinity` or `nan`, in any case.
pub open spec fn is_number_word(s: Seq<char>) -> bool {
    let lower = s.map_values(|c: char| ascii_lower(c));
    lower == "inf"@ || lower == "infinity"@ || lower == "nan"@
}

/// `s` spells a real number, an infinity or a not-a-number: the grammar by which a
/// double-precision number is read.
pub open spec fn is_real(s: Seq<char>) -> bool {
    is_number_word(without_sign(s)) || is_decimal_number(without_sign(s))
}

/// The characters from `a` up to `b` are all digits.
fn digits_between(x: &Vec<char>, a: usize, b: usize) -> (yes: bool)
    requires
        a <= b <= x@.len(),
    ensures
        yes == all_digits(x@.subrange(a as int, b as int)),
{
    let mut i: usize = a;
    while i < b
        invariant
            a <= i <= b <= x@.len(),
            forall|j: int| a <= j < i ==> is_digit(#[trigger] x@[j]),
        decreases b - i,
    {
        if !('0' <= x[i] && x[i] <= '9') {
            assert(x@.subrange(a as int, b as int)[i - a] == x@[i as int]);
            return false;
        }
        i = i + 1;
    }
    true
}

/// The index of the first `c` between `a` and `b`, or `b`.
fn find_between(x: &Vec<char>, a: usize, b: usize, c: char) -> (at: usize)
    requires
        a <= b <= x@.len(),
    ensures
        a <= at <= b,
        at < b ==> x@[at as int] == c,
        forall|j: int| a <= j < at ==> #[trigger] x@[j] != c,
{
    let mut i: usize = a;
    while i < b && x[i] != c
        invariant
            a <= i <= b <= x@.len(),
            forall|j: int| a <= j < i ==> #[trigger] x@[j] != c,
        decreases b - i,
    {
        i = i + 1;
    }
    i
}

fn mantissa_between(x: &Vec<char>, a: usize, b: usize) -> (yes: bool)
    requires
        a <= b <= x@.len(),
    ensures
        yes == is_mantissa(x@.subrange(a as int, b as int)),
{
    let ghost m = x@.subrange(a as int, b as int);
    if a == b {
        return false;
    }
    let dot: usize = find_between(x, a, b, '.');
    if dot == b {
        proof {
            assert forall|d: int| 0 <= d < m.len() implies #[trigger] m[d] != '.' by {
                assert(m[d] == x@[a + d]);
            }
        }
        return digits_between(x, a, b);
    }
    let head: bool = digits_between(x, a, dot);
    let tail: bool = digits_between(x, dot + 1, b);
    proof {
        let d = dot - a;
        assert(m[d] == '.');
        assert(!all_digits(m));
        assert(m.take(d) =~= x@.subrange(a as int, dot as int));
        assert(m.skip(d + 1) =~= x@.subrange(dot + 1, b as int));
        if is_mantissa(m) {
            let e = choose|e: int|
                0 <= e < m.len() && #[trigger] m[e] == '.' && all_digits(m.take(e)) && all_digits(
                    m.skip(e + 1),
                );
            if e < d {
                assert(x@[a + e] == '.');
            } else if e > d {
                assert(m.take(e)[d] == '.');
            }
        }
    }
    b - a > 1 && head && tail
}

fn exponent_between(x: &Vec<char>, a: usize, b: usize) -> (yes: bool)
    requires
        a <= b <= x@.len(),
    ensures
        yes == is_exponent(x@.subrange(a as int, b as int)),
{
    let ghost e = x@.subrange(a as int, b as int);
    if a == b {
        return true;
    }
    if x[a] != 'e' && x[a] != 'E' {
        return false;
    }
    let mut from: usize = a + 1;
    if from < b && (x[from] == '+' || x[from] == '-') {
        from = from + 1;
    }
    assert(without_sign(e.skip(1)) =~= x@.subrange(from as int, b as int));
    from < b && digits_between(x, from, b)
}

proof fn lemma_decimal_number_split(s: Seq<char>, k: int)
    requires
        0 <= k <= s.len(),
        forall|j: int| 0 <= j < k ==> !is_exponent_mark(#[trigger] s[j]),
        k < s.len() ==> is_exponent_mark(s[k]),
    ensures
        is_decimal_number(s) == (is_mantissa(s.take(k)) && is_exponent(s.skip(k))),
{
    if is_decimal_number(s) {
        let i = choose|i: int|
            0 <= i <= s.len() && is_mantissa(#[trigger] s.take(i)) && is_exponent(s.skip(i));
        if i < k {
            assert(s.skip(i)[0] == s[i]);
        } else if i > k {
            let m = s.take(i);
            assert(m[k] == s[k]);
            if !all_digits(m) {
                let dot = choose|dot: int|
                    0 <= dot < m.len() && #[trigger] m[dot] == '.' && all_digits(m.take(dot))
                        && all_digits(m.skip(dot + 1));
                if k < dot {
                    assert(m.take(dot)[k] == s[k]);
                } else if k > dot {
                    assert(m.skip(dot + 1)[k - dot - 1] == s[k]);
                }
            }
        }
    }
}

/// The text of `s` with ASCII capitals made small, compared with `word`.
fn same_ignoring_case(x: &Vec<char>, from: usize, word: &str) -> (same: bool)
    requires
        from <= x@.len(),
    ensures
        same == (x@.skip(from as int).map_values(|c: char| ascii_lower(c)) == word@),
{
    let w: Vec<char> = chars_of(word);
    let ghost lower = x@.skip(from as int).map_values(|c: char| ascii_lower(c));
    let n: usize = x.len();
    if n - from != w.len() {
        return false;
    }
    let mut i: usize = 0;
    while i < w.len()
        invariant
            i <= w@.len(),
            n == x@.len(),
            w@.len() == x@.len() - from,
            lower == x@.skip(from as int).map_values(|c: char| ascii_lower(c)),
            w@ == word@,
            forall|j: int| 0 <= j < i ==> #[trigger] lower[j] == w@[j],
        decreases w@.len() - i,
    {
        let c: char = x[from + i];
        let small: char = if 'A' <= c && c <= 'Z' {
            small_letter(c)
        } else {
            c
        };
        assert(lower[i as int] == small);
        if small != w[i] {
            return false;
        }
        i = i + 1;
    }
    assert(lower =~= word@);
    true
}

fn small_letter(c: char) -> (small: char)
    requires
        'A' <= c <= 'Z',
    ensures
        small == ascii_lower(c),
{
    let code: u8 = c as u8 + 32;
    code as char
}

/// True when `s` spells a real number, an infinity or a not-a-number.
pub fn is_real_text(s: &str) -> (yes: bool)
    ensures
        yes == is_real(s@),
{
    let x: Vec<char> = chars_of(s);
    let n: usize = x.len();
    let mut from: usize = 0;
    if n > 0 && (x[0] == '+' || x[0] == '-') {
        from = 1;
    }
    let ghost u = without_sign(s@);
    assert(u =~= x@.skip(from as int));
    if same_ignoring_case(&x, from, "inf") || same_ignoring_case(&x, from, "infinity")
        || same_ignoring_case(&x, from, "nan") {
        return true;
    }
    let mut k: usize = from;
    while k < n && x[k] != 'e' && x[k] != 'E'
        invariant
            from <= k <= n,
            n == x@.len(),
            forall|j: int| from <= j < k ==> !is_exponent_mark(#[trigger] x@[j]),
        decreases n - k,
    {
        k = k + 1;
    }
    proof {
        assert forall|j: int| 0 <= j < k - from implies !is_exponent_mark(#[trigger] u[j]) by {
            assert(u[j] == x@[from + j]);
        }
        lemma_decimal_number_split(u, k - from);
        assert(u.take(k - from) =~= x@.subrange(from as int, k as int));
        assert(u.skip(k - from) =~= x@.subrange(k as int, n as int));
    }
    mantissa_between(&x, from, k) && exponent_between(&x, k, n)
}

/// A numeral is written in tens: the numeral of ten times a number and a digit is its numeral with
/// the digit behind it, and that of a single digit is the digit.
pub proof fn law_numerals_are_decimal(n: nat, d: nat)
    requires
        d < 10,
    ensures
        decimal(d) == seq!["0123456789"@[d as int]],
        n > 0 ==> decimal(10 * n + d) == decimal(n).push("0123456789"@[d as int]),
{
    reveal_strlit("0123456789");
    assert(digit_char(d) == "0123456789"@[d as int]);
    if n > 0 {
        assert((10 * n + d) / 10 == n);
        assert((10 * n + d) % 10 == d);
    }
}

/// What is read as a number is the number that its digits stand for, in tens: one more digit makes
/// it ten times as much and the digit, as long as that fits. A plus sign in front changes nothing,
/// and nothing but digits is read.
pub proof fn law_digits_are_read_in_tens(s: Seq<char>, d: nat, i: int)
    requires
        d < 10,
    ensures
        u64_of(seq!["0123456789"@[d as int]]) == Some(d as u64),
        u64_of(s) matches Some(n) ==> u64_of(s.push("0123456789"@[d as int])) == (if 10 * n + d
            <= u64::MAX {
            Some((10 * n + d) as u64)
        } else {
            None
        }),
        s.len() > 0 && s[0] != '+' ==> u64_of(seq!['+'] + s) == u64_of(s),
        u64_of(s) is Some && 0 <= i < s.len() ==> '0' <= s[i] <= '9' || (i == 0 && s[i] == '+'
            && s.len() > 1),
{
    reveal_strlit("0123456789");
    let c = "0123456789"@[d as int];
    let one = seq![c];
    assert(one.drop_last() =~= Seq::empty());
    assert(decimal_value(one.drop_last()) == 0);
    assert(without_plus(one) =~= one);
    assert(all_digits(one));
    assert(decimal_value(one) == d);
    if u64_of(s) is Some {
        let digits = without_plus(s);
        assert(without_plus(s.push(c)) =~= digits.push(c));
        assert(digits.push(c).drop_last() =~= digits);
        assert(digits.push(c).last() == c);
        if 0 <= i < s.len() {
            if s[0] == '+' {
                if i > 0 {
                    assert(digits[i - 1] == s[i]);
                    assert(is_digit(digits[i - 1]));
                }
            } else {
                assert(is_digit(digits[i]));
            }
        }
    }
    if s.len() > 0 && s[0] != '+' {
        assert((seq!['+'] + s).skip(1) =~= s);
    }
}

/// Decimal numbers are real numbers, with or without a point and a sign, and a text without a
/// digit is none, but for the words that stand for infinity and for no number.
pub proof fn law_decimal_numbers_are_real(a: nat, b: nat, s: Seq<char>)
    ensures
        is_real(decimal(a)),
        is_real(decimal(a) + "."@ + decimal(b)),
        is_real("-"@ + decimal(a)),
        is_real(s) && (forall|i: int| 0 <= i < s.len() ==> !('0' <= #[trigger] s[i] <= '9'))
            ==> is_number_word(without_sign(s)),
{
    lemma_decimal(a);
    lemma_decimal(b);
    reveal_strlit(".");
    reveal_strlit("-");
    let x = decimal(a);
    let y = decimal(b);
    assert(is_digit(x[0]));
    lemma_mantissa_is_real(x);
    assert(without_sign(x) =~= x);
    let z = x + "."@ + y;
    assert(z[x.len() as int] == '.');
    assert(z.take(x.len() as int) =~= x);
    assert(z.skip(x.len() + 1int) =~= y);
    assert(is_mantissa(z));
    assert(z[0] == x[0]);
    assert(without_sign(z) =~= z);
    lemma_mantissa_is_real(z);
    assert(without_sign("-"@ + x) =~= x);
    if is_real(s) && is_decimal_number(without_sign(s)) {
        let u = without_sign(s);
        let k = choose|k: int|
            0 <= k <= u.len() && is_mantissa(#[trigger] u.take(k)) && is_exponent(u.skip(k));
        let m = u.take(k);
        if all_digits(m) {
            assert(is_digit(m[0]));
            assert(u[0] == m[0]);
            assert(s.contains(u[0])) by {
                if u.len() < s.len() {
                    assert(s[1] == u[0]);
                }
            }
            let i = s.index_of(u[0]);
            assert(s[i] == u[0]);
        } else {
            let dot = choose|dot: int|
                0 <= dot < m.len() && #[trigger] m[dot] == '.' && all_digits(m.take(dot))
                    && all_digits(m.skip(dot + 1));
            let off = s.len() - u.len();
            if dot > 0 {
                assert(is_digit(m.take(dot)[0]));
                assert(s[off] == u[0] && u[0] == m[0] && m[0] == m.take(dot)[0]);
            } else {
                assert(is_digit(m.skip(dot + 1)[0]));
                assert(s[off + dot + 1] == u[dot + 1] && u[dot + 1] == m[dot + 1]);
            }
        }
    }
}

proof fn lemma_mantissa_is_real(m: Seq<char>)
    requires
        is_mantissa(m),
    ensures
        is_decimal_number(m),
{
    assert(m.take(m.len() as int) =~= m);
    assert(is_mantissa(m.take(m.len() as int)));
    assert(m.skip(m.len() as int).len() == 0);
}

} // verus!
