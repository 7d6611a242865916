//! Plain decimal text: digit strings of unsigned integers, the integer part
//! of a decimal spelling, and the grammar that unsigned integer parsing accepts.
use vstd::prelude::*;

verus! {

/// `c` is one of the ASCII digits `0` to `9`.
pub open spec fn is_digit(c: char) -> bool {
    '0' <= c && c <= '9'
}

/// The number that the ASCII digit `c` stands for.
pub open spec fn digit_value(c: char) -> nat {
    (c as int - '0' as int) as nat
}

/// The ASCII digit for `d < 10`.
pub open spec fn digit_char(d: nat) -> char {
    (d + '0' as nat) as char
}

/// Every character of `s` is an ASCII digit.
pub open spec fn all_digits(s: Seq<char>) -> bool {
    forall|i: int| 0 <= i < s.len() ==> is_digit(#[trigger] s[i])
}

/// The number that a string of digits spells in base ten (most significant first).
pub open spec fn digits_value(s: Seq<char>) -> nat
    decreases s.len(),
{
    if s.len() == 0 {
        0
    } else {
        digits_value(s.drop_last()) * 10 + digit_value(s.last())
    }
}

/// The shortest base-ten spelling of `n`, without sign or leading zeros.
pub open spec fn decimal_digits(n: nat) -> Seq<char>
    decreases n,
{
    if n < 10 {
        seq![digit_char(n)]
    } else {
        decimal_digits(n / 10).push(digit_char(n % 10))
    }
}

/// Everything before the first `.` of `s`, or all of `s` when it holds none.
pub open spec fn integer_part(s: Seq<char>) -> Seq<char>
    decreases s.len(),
{
    if s.len() == 0 || s[0] == '.' {
        Seq::empty()
    } else {
        seq![s[0]] + integer_part(s.drop_first())
    }
}

/// `s` without one leading `-`.
pub open spec fn magnitude_text(s: Seq<char>) -> Seq<char> {
    if s.len() > 0 && s[0] == '-' {
        s.drop_first()
    } else {
        s
    }
}

/// The digits after the first `.` of `u` (none when it has no `.`).
pub open spec fn fraction_digits(u: Seq<char>) -> Seq<char> {
    let k = integer_part(u).len() as int;
    if k < u.len() {
        u.subrange(k + 1, u.len() as int)
    } else {
        Seq::empty()
    }
}

/// `s` is a plain decimal literal: an optional `-`, one or more digits, and
/// optionally a `.` followed by one or more digits.
pub open spec fn is_plain_decimal(s: Seq<char>) -> bool {
    let u = magnitude_text(s);
    let w = integer_part(u);
    &&& w.len() > 0
    &&& all_digits(w)
    &&& w.len() == u.len() || (w.len() + 1 < u.len() && all_digits(fraction_digits(u)))
}

/// The number of digits after the point of a plain decimal literal.
pub open spec fn plain_decimal_scale(s: Seq<char>) -> nat {
    fraction_digits(magnitude_text(s)).len()
}

/// The digits of a plain decimal literal read as one integer, with its sign:
/// the literal stands for this integer divided by `10^plain_decimal_scale(s)`.
pub open spec fn plain_decimal_coefficient(s: Seq<char>) -> int {
    let u = magnitude_text(s);
    let m = digits_value(integer_part(u) + fraction_digits(u)) as int;
    if s.len() > 0 && s[0] == '-' {
        -m
    } else {
        m
    }
}

/// Every character of `s` is a digit or one of `.`, `+`, `-`, `_`.
pub open spec fn decimal_chars_only(s: Seq<char>) -> bool {
    forall|i: int|
        0 <= i < s.len() ==> is_digit(#[trigger] s[i]) || s[i] == '.' || s[i] == '+' || s[i]
            == '-' || s[i] == '_'
}

/// The digits of an unsigned integer literal: `s` without one leading `+`.
pub open spec fn unsigned_body(s: Seq<char>) -> Seq<char> {
    if s.len() > 0 && s[0] == '+' {
        s.drop_first()
    } else {
        s
    }
}

/// What reading `s` as a `u64` gives: an optional `+`, then one or more
/// digits whose value fits in 64 bits; anything else is refused.
pub open spec fn parsed_u64(s: Seq<char>) -> Option<u64> {
    let body = unsigned_body(s);
    if body.len() > 0 && all_digits(body) && digits_value(body) <= u64::MAX {
        Some(digits_value(body) as u64)
    } else {
        None
    }
}

/// A prefix of a digit string never spells a larger number than the whole.
pub proof fn lemma_digits_value_prefix(s: Seq<char>, k: int)
    requires
        0 <= k <= s.len(),
        all_digits(s),
    ensures
        digits_value(s.take(k)) <= digits_value(s),
    decreases s.len() - k,
{
    if k < s.len() {
        lemma_digits_value_prefix(s, k + 1);
        let t = s.take(k + 1);
        assert(t.drop_last() =~= s.take(k));
        assert(t.last() == s[k]);
        assert(digits_value(t) == digits_value(t.drop_last()) * 10 + digit_value(t.last()));
    } else {
        assert(s.take(k) =~= s);
    }
}

/// The spelling of `n` is a non-empty string of digits that spells `n`.
pub proof fn lemma_decimal_digits_spell(n: nat)
    ensures
        decimal_digits(n).len() > 0,
        all_digits(decimal_digits(n)),
        digits_value(decimal_digits(n)) == n,
    decreases n,
{
    let s = decimal_digits(n);
    if n >= 10 {
        lemma_decimal_digits_spell(n / 10);
        assert(s.drop_last() =~= decimal_digits(n / 10));
        assert(s.last() == digit_char(n % 10));
        assert(digit_value(digit_char(n % 10)) == n % 10);
        assert(forall|i: int| 0 <= i < s.len() - 1 ==> s[i] == decimal_digits(n / 10)[i]);
        assert(digits_value(s) == digits_value(s.drop_last()) * 10 + digit_value(s.last()));
        assert(n == (n / 10) * 10 + n % 10);
    } else {
        assert(digit_value(digit_char(n)) == n);
        assert(s.drop_last() =~= Seq::<char>::empty());
        assert(digits_value(s) == digits_value(s.drop_last()) * 10 + digit_value(s.last()));
    }
}

/// A number below `10^k` (for `k >= 1`) is spelled with at most `k` digits.
pub proof fn lemma_decimal_digits_len(n: nat, k: nat)
    requires
        k >= 1,
        n < vstd::arithmetic::power::pow(10, k),
    ensures
        decimal_digits(n).len() <= k,
    decreases k,
{
    if n >= 10 {
        vstd::arithmetic::power::lemma_pow_positive(10, (k - 1) as nat);
        vstd::arithmetic::power::lemma_pow_adds(10, 1, (k - 1) as nat);
        vstd::arithmetic::power::lemma_pow1(10);
        let p = vstd::arithmetic::power::pow(10, (k - 1) as nat);
        assert(k - 1 >= 1) by {
            if k == 1 {
                assert(p == 1) by {
                    vstd::arithmetic::power::lemma_pow0(10);
                }
            }
        }
        assert(n / 10 < p) by (nonlinear_arith)
            requires
                n < 10 * p,
        ;
        lemma_decimal_digits_len(n / 10, (k - 1) as nat);
    }
}

/// Reading the spelling of `n` back as a `u64` gives `n` when it fits and
/// nothing otherwise; the spelling has no `.`.
pub proof fn lemma_decimal_digits_parse(n: nat)
    ensures
        integer_part(decimal_digits(n)) == decimal_digits(n),
        n <= u64::MAX ==> parsed_u64(decimal_digits(n)) == Some(n as u64),
        n > u64::MAX ==> parsed_u64(decimal_digits(n)) is None,
{
    let s = decimal_digits(n);
    lemma_decimal_digits_spell(n);
    assert(forall|j: int| 0 <= j < s.len() ==> s[j] != '.') by {
        assert forall|j: int| 0 <= j < s.len() implies s[j] != '.' by {
            assert(is_digit(s[j]));
        }
    }
    lemma_integer_part_is_prefix(s, s.len() as int);
    assert(s.take(s.len() as int) =~= s);
    assert(is_digit(s[0]));
    assert(unsigned_body(s) == s);
}

/// The integer part of `s` is its prefix up to the first `.`.
pub proof fn lemma_integer_part_is_prefix(s: Seq<char>, i: int)
    requires
        0 <= i <= s.len(),
        forall|j: int| 0 <= j < i ==> s[j] != '.',
        i == s.len() || s[i] == '.',
    ensures
        integer_part(s) =~= s.take(i),
    decreases s.len(),
{
    if s.len() > 0 && s[0] != '.' {
        lemma_integer_part_is_prefix(s.drop_first(), i - 1);
    }
}

/// The part of `s` before its first `.` (all of `s` when it has none).
pub fn integer_part_of(s: &str) -> (r: &str)
    ensures
        r@ == integer_part(s@),
{
    let n = s.unicode_len();
    let mut i: usize = 0;
    while i < n && s.get_char(i) != '.'
        invariant
            n == s@.len(),
            i <= n,
            forall|j: int| 0 <= j < i ==> s@[j] != '.',
        decreases n - i,
    {
        i = i + 1;
    }
    proof {
        lemma_integer_part_is_prefix(s@, i as int);
    }
    s.substring_char(0, i)
}

/// Reads `s` as an unsigned 64-bit integer, with the grammar of
/// `parsed_u64`: an optional `+` and then decimal digits that fit.
pub fn parse_u64(s: &str) -> (r: Option<u64>)
    ensures
        r == parsed_u64(s@),
{
    let n = s.unicode_len();
    let start: usize = if n > 0 && s.get_char(0) == '+' {
        1
    } else {
        0
    };
    let ghost body = unsigned_body(s@);
    assert(body =~= s@.subrange(start as int, n as int));
    if start == n {
        return None;
    }
    let mut value: u64 = 0;
    let mut i: usize = start;
    while i < n
        invariant
            n == s@.len(),
            start <= i <= n,
            start < n,
            body =~= s@.subrange(start as int, n as int),
            body == unsigned_body(s@),
            all_digits(body.take(i - start)),
            value as nat == digits_value(body.take(i - start)),
        decreases n - i,
    {
        let c = s.get_char(i);
        let k = i - start;
        assert(body[k as int] == c);
        if c < '0' || c > '9' {
            assert(!all_digits(body));
            return None;
        }
        let d: u64 = (c as u32 - '0' as u32) as u64;
        let ghost t = body.take(k + 1);
        assert(t.drop_last() =~= body.take(k as int));
        assert(digits_value(t) == digits_value(t.drop_last()) * 10 + digit_value(t.last()));
        match value.checked_mul(10) {
            None => {
                proof {
                    if all_digits(body) {
                        lemma_digits_value_prefix(body, k + 1);
                    }
                }
                return None;
            },
            Some(v) => match v.checked_add(d) {
                None => {
                    proof {
                        if all_digits(body) {
                            lemma_digits_value_prefix(body, k + 1);
                        }
                    }
                    return None;
                },
                Some(w) => {
                    value = w;
                },
            },
        }
        i = i + 1;
    }
    assert(body.take(n - start) =~= body);
    Some(value)
}

/// The one-character string of the ASCII digit `d`.
fn digit_str(d: u32) -> (s: &'static str)
    requires
        d < 10,
    ensures
        s@ == seq![digit_char(d as nat)],
{
    proof {
        reveal_strlit("0");
        reveal_strlit("1");
        reveal_strlit("2");
        reveal_strlit("3");
        reveal_strlit("4");
        reveal_strlit("5");
        reveal_strlit("6");
        reveal_strlit("7");
        reveal_strlit("8");
        reveal_strlit("9");
    }
    match d {
        0 => "0",
        1 => "1",
        2 => "2",
        3 => "3",
        4 => "4",
        5 => "5",
        6 => "6",
        7 => "7",
        8 => "8",
        _ => "9",
    }
}

/// Appends the base-ten spelling of `n` to `out`.
pub fn push_decimal_u32(out: &mut String, n: u32)
    ensures
        final(out)@ == old(out)@ + decimal_digits(n as nat),
    decreases n,
{
    if n >= 10 {
        push_decimal_u32(out, n / 10);
    }
    let d = n % 10;
    out.append(digit_str(d));
    proof {
        if n >= 10 {
            assert(decimal_digits(n as nat) == decimal_digits((n / 10) as nat).push(
                digit_char((n % 10) as nat),
            ));
        }
    }
    assert(final(out)@ =~= old(out)@ + decimal_digits(n as nat)) by {
        if n >= 10 {
            assert(decimal_digits(n as nat) =~= decimal_digits((n / 10) as nat) + seq![
                digit_char((n % 10) as nat),
            ]);
        }
    }
}

} // verus!
