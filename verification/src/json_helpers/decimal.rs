//! Decimal digits: the integer syntax the JSON forms read and write.
use vstd::prelude::*;

verus! {

/// Whether `c` is an ASCII decimal digit.
pub open spec fn is_digit(c: char) -> bool {
    '0' <= c && c <= '9'
}

/// The value of the decimal digit `c`.
pub open spec fn digit_value(c: char) -> int {
    c as int - '0' as int
}

/// The decimal digit whose value is `n`, for `0 <= n < 10`.
pub open spec fn digit_char(n: int) -> char {
    (n + '0' as int) as char
}

/// Whether every character of `s` is a decimal digit.
pub open spec fn all_digits(s: Seq<char>) -> bool {
    forall|i: int| 0 <= i < s.len() ==> is_digit(#[trigger] s[i])
}

/// The value of the decimal numeral `s`, most significant digit first.
pub open spec fn digits_value(s: Seq<char>) -> int
    decreases s.len(),
{
    if s.len() == 0 {
        0
    } else {
        10 * digits_value(s.drop_last()) + digit_value(s.last())
    }
}

/// `10` to the power `k`.
pub open spec fn pow10(k: nat) -> int
    decreases k,
{
    if k == 0 {
        1
    } else {
        10 * pow10((k - 1) as nat)
    }
}

/// A non-empty run of digits and its value.
pub open spec fn spec_parse_digits(s: Seq<char>) -> Option<int> {
    if s.len() > 0 && all_digits(s) {
        Some(digits_value(s))
    } else {
        None
    }
}

/// The value that Rust's integer parsing gives `s` for a signed type, before
/// the type's range is checked: an optional `+` or `-` and a non-empty run
/// of digits.
pub open spec fn spec_parse_signed(s: Seq<char>) -> Option<int> {
    if s.len() >= 2 && s[0] == '+' {
        spec_parse_digits(s.drop_first())
    } else if s.len() >= 2 && s[0] == '-' {
        match spec_parse_digits(s.drop_first()) {
            Some(v) => Some(-v),
            None => None,
        }
    } else {
        spec_parse_digits(s)
    }
}

/// The value that Rust's integer parsing gives `s` for an unsigned type,
/// before the type's range is checked: an optional `+` and a non-empty run
/// of digits.
pub open spec fn spec_parse_unsigned(s: Seq<char>) -> Option<int> {
    if s.len() >= 2 && s[0] == '+' {
        spec_parse_digits(s.drop_first())
    } else {
        spec_parse_digits(s)
    }
}

/// `s.parse::<i64>()`, as an option.
pub open spec fn spec_parse_i64(s: Seq<char>) -> Option<i64> {
    match spec_parse_signed(s) {
        Some(v) => if i64::MIN <= v <= i64::MAX {
            Some(v as i64)
        } else {
            None
        },
        None => None,
    }
}

/// `s.parse::<u8>()`, as an option.
pub open spec fn spec_parse_u8(s: Seq<char>) -> Option<u8> {
    match spec_parse_unsigned(s) {
        Some(v) => if 0 <= v <= u8::MAX {
            Some(v as u8)
        } else {
            None
        },
        None => None,
    }
}

/// The `w` low decimal digits of `n`, zero-padded: `format!("{n:0w$}")` for
/// `n < 10^w`.
pub open spec fn fixed_digits(n: nat, w: nat) -> Seq<char>
    decreases w,
{
    if w == 0 {
        Seq::empty()
    } else {
        fixed_digits(n / 10, (w - 1) as nat).push(digit_char((n % 10) as int))
    }
}

/// The decimal numeral of `n`, with no leading zero: `format!("{n}")`.
pub open spec fn dec_digits(n: nat) -> Seq<char>
    decreases n,
{
    if n < 10 {
        seq![digit_char(n as int)]
    } else {
        dec_digits(n / 10).push(digit_char((n % 10) as int))
    }
}

/// A digit character's value is the number it was made from.
pub proof fn lemma_digit_char(n: int)
    requires
        0 <= n < 10,
    ensures
        is_digit(digit_char(n)),
        digit_value(digit_char(n)) == n,
{
    assert((n + 48) as char as int == n + 48);
}

/// A numeral's value grows with every digit appended to it.
pub proof fn lemma_digits_value_prefix(s: Seq<char>, k: int)
    requires
        0 <= k <= s.len(),
        all_digits(s),
    ensures
        digits_value(s.subrange(0, k)) <= digits_value(s),
        digits_value(s) >= 0,
    decreases s.len(),
{
    if s.len() > 0 {
        assert(all_digits(s.drop_last()));
        lemma_digits_value_prefix(s.drop_last(), if k == s.len() { k - 1 } else { k });
        if k == s.len() {
            assert(s.subrange(0, k) =~= s);
        } else {
            assert(s.drop_last().subrange(0, k) =~= s.subrange(0, k));
        }
    }
}

/// Appending a digit to a numeral.
pub proof fn lemma_digits_value_push(s: Seq<char>, c: char)
    ensures
        digits_value(s.push(c)) == 10 * digits_value(s) + digit_value(c),
{
    assert(s.push(c).drop_last() =~= s);
}

/// The zero-padded numeral of `n` is `w` digits whose value is `n` modulo
/// `10^w`.
pub proof fn lemma_fixed_digits(n: nat, w: nat)
    ensures
        fixed_digits(n, w).len() == w,
        all_digits(fixed_digits(n, w)),
        digits_value(fixed_digits(n, w)) == n % (pow10(w) as nat),
        pow10(w) > 0,
    decreases w,
{
    if w > 0 {
        lemma_fixed_digits(n / 10, (w - 1) as nat);
        let p = pow10((w - 1) as nat);
        lemma_digits_value_push(fixed_digits(n / 10, (w - 1) as nat), digit_char((n % 10) as int));
        let ni = n as int;
        let q = ni / 10;
        vstd::arithmetic::div_mod::lemma_fundamental_div_mod(ni, 10);
        vstd::arithmetic::div_mod::lemma_fundamental_div_mod(q, p);
        vstd::arithmetic::div_mod::lemma_mod_bound(q, p);
        vstd::arithmetic::div_mod::lemma_mod_bound(ni, 10);
        let r = 10 * (q % p) + ni % 10;
        assert(ni == (q / p) * (10 * p) + r && 0 <= r < 10 * p) by (nonlinear_arith)
            requires
                ni == 10 * q + ni % 10,
                q == p * (q / p) + q % p,
                0 <= q % p < p,
                0 <= ni % 10 < 10,
                r == 10 * (q % p) + ni % 10,
        ;
        vstd::arithmetic::div_mod::lemma_fundamental_div_mod_converse(ni, 10 * p, q / p, r);
        lemma_digit_char((n % 10) as int);
        let s = fixed_digits(n, w);
        assert forall|i: int| 0 <= i < s.len() implies is_digit(#[trigger] s[i]) by {
            if i < w - 1 {
                assert(s[i] == fixed_digits(n / 10, (w - 1) as nat)[i]);
            }
        }
    }
}

/// The decimal numeral of `n` is a run of digits whose value is `n`.
pub proof fn lemma_dec_digits(n: nat)
    ensures
        dec_digits(n).len() >= 1,
        all_digits(dec_digits(n)),
        digits_value(dec_digits(n)) == n,
    decreases n,
{
    lemma_digit_char((n % 10) as int);
    if n < 10 {
        assert(seq![digit_char(n as int)].drop_last() =~= Seq::<char>::empty());
        assert(digits_value(Seq::<char>::empty()) == 0);
        lemma_digit_char(n as int);
    } else {
        lemma_dec_digits(n / 10);
        lemma_digits_value_push(dec_digits(n / 10), digit_char((n % 10) as int));
        let s = dec_digits(n);
        assert forall|i: int| 0 <= i < s.len() implies is_digit(#[trigger] s[i]) by {
            if i < s.len() - 1 {
                assert(s[i] == dec_digits(n / 10)[i]);
            }
        }
    }
}

/// The digit `n` as a character.
pub fn digit(n: u64) -> (c: char)
    requires
        n < 10,
    ensures
        c == digit_char(n as int),
        is_digit(c),
        digit_value(c) == n,
{
    ((n as u8) + 48u8) as char
}

/// Append the `w` low decimal digits of `n`, zero-padded.
pub fn push_fixed(out: &mut Vec<char>, n: u64, w: usize)
    ensures
        final(out)@ == old(out)@ + fixed_digits(n as nat, w as nat),
    decreases w,
{
    if w > 0 {
        push_fixed(out, n / 10, w - 1);
        out.push(digit(n % 10));
        assert(final(out)@ =~= old(out)@ + fixed_digits(n as nat, w as nat));
    } else {
        assert(final(out)@ =~= old(out)@ + fixed_digits(n as nat, w as nat));
    }
}

/// Append the decimal numeral of `n`.
pub fn push_dec(out: &mut Vec<char>, n: u64)
    ensures
        final(out)@ == old(out)@ + dec_digits(n as nat),
    decreases n,
{
    if n >= 10 {
        push_dec(out, n / 10);
    }
    out.push(digit(n % 10));
    assert(final(out)@ =~= old(out)@ + dec_digits(n as nat));
}

/// The value of the digits `cs[lo..hi]`, or `None` if the run is empty,
/// holds something other than a digit, or overflows a `u64`.
pub fn parse_digits(cs: &Vec<char>, lo: usize, hi: usize) -> (r: Option<u64>)
    requires
        lo <= hi <= cs@.len(),
    ensures
        r == (match spec_parse_digits(cs@.subrange(lo as int, hi as int)) {
            Some(v) => if v <= u64::MAX {
                Some(v as u64)
            } else {
                None
            },
            None => None,
        }),
        spec_parse_digits(cs@.subrange(lo as int, hi as int)) matches Some(v) ==> v >= 0,
{
    let ghost s = cs@.subrange(lo as int, hi as int);
    proof {
        if all_digits(s) {
            lemma_digits_value_prefix(s, 0);
        }
    }
    if lo == hi {
        return None;
    }
    let mut acc: u64 = 0;
    let mut overflow = false;
    let mut i: usize = lo;
    while i < hi
        invariant
            lo <= i <= hi <= cs@.len(),
            s == cs@.subrange(lo as int, hi as int),
            all_digits(cs@.subrange(lo as int, i as int)),
            !overflow ==> acc == digits_value(cs@.subrange(lo as int, i as int)),
            overflow ==> digits_value(cs@.subrange(lo as int, i as int)) > u64::MAX,
        decreases hi - i,
    {
        let c = cs[i];
        if !('0' <= c && c <= '9') {
            assert(!is_digit(s[i - lo]));
            return None;
        }
        let ghost prev = cs@.subrange(lo as int, i as int);
        assert(cs@.subrange(lo as int, i + 1) =~= prev.push(c));
        proof {
            lemma_digits_value_push(prev, c);
        }
        let d: u64 = (c as u32 - '0' as u32) as u64;
        if !overflow {
            if acc > (u64::MAX - d) / 10 {
                overflow = true;
            } else {
                acc = acc * 10 + d;
            }
        }
        assert(all_digits(cs@.subrange(lo as int, i + 1)));
        i = i + 1;
    }
    assert(cs@.subrange(lo as int, i as int) =~= s);
    if overflow {
        None
    } else {
        Some(acc)
    }
}

/// `cs[lo..hi].parse::<i64>()`, as an option.
pub fn parse_i64(cs: &Vec<char>, lo: usize, hi: usize) -> (r: Option<i64>)
    requires
        lo <= hi <= cs@.len(),
    ensures
        r == spec_parse_i64(cs@.subrange(lo as int, hi as int)),
{
    let ghost s = cs@.subrange(lo as int, hi as int);
    assert(hi > lo ==> s[0] == cs@[lo as int]);
    if hi - lo >= 2 && (cs[lo] == '+' || cs[lo] == '-') {
        assert(s.drop_first() =~= cs@.subrange(lo + 1, hi as int));
        let magnitude = parse_digits(cs, lo + 1, hi);
        match magnitude {
            None => {
                proof {
                    if let Some(v) = spec_parse_digits(s.drop_first()) {
                        assert(v > u64::MAX);
                    }
                }
                None
            },
            Some(v) => {
                if cs[lo] == '+' {
                    if v <= i64::MAX as u64 {
                        Some(v as i64)
                    } else {
                        None
                    }
                } else if v <= i64::MAX as u64 {
                    Some(-(v as i64))
                } else if v == i64::MAX as u64 + 1 {
                    Some(i64::MIN)
                } else {
                    None
                }
            },
        }
    } else {
        match parse_digits(cs, lo, hi) {
            None => {
                proof {
                    if let Some(v) = spec_parse_digits(s) {
                        assert(v > u64::MAX);
                    }
                }
                None
            },
            Some(v) => {
                if v <= i64::MAX as u64 {
                    Some(v as i64)
                } else {
                    None
                }
            },
        }
    }
}

/// `cs[lo..hi].parse::<u8>()`, as an option.
pub fn parse_u8(cs: &Vec<char>, lo: usize, hi: usize) -> (r: Option<u8>)
    requires
        lo <= hi <= cs@.len(),
    ensures
        r == spec_parse_u8(cs@.subrange(lo as int, hi as int)),
{
    let ghost s = cs@.subrange(lo as int, hi as int);
    assert(hi > lo ==> s[0] == cs@[lo as int]);
    let start: usize = if hi - lo >= 2 && cs[lo] == '+' {
        lo + 1
    } else {
        lo
    };
    if start != lo {
        assert(s.drop_first() =~= cs@.subrange(lo + 1, hi as int));
    } else {
        assert(s =~= cs@.subrange(start as int, hi as int));
    }
    match parse_digits(cs, start, hi) {
        None => {
            proof {
                let t = cs@.subrange(start as int, hi as int);
                if let Some(v) = spec_parse_digits(t) {
                    assert(v > u64::MAX);
                }
            }
            None
        },
        Some(v) => {
            if v <= 255 {
                Some(v as u8)
            } else {
                None
            }
        },
    }
}

/// Powers of ten are positive.
pub proof fn lemma_pow10_positive(k: nat)
    ensures
        pow10(k) > 0,
    decreases k,
{
    if k > 0 {
        lemma_pow10_positive((k - 1) as nat);
    }
}

/// `10^(a + b) == 10^a * 10^b`.
pub proof fn lemma_pow10_add(a: nat, b: nat)
    ensures
        pow10(a + b) == pow10(a) * pow10(b),
    decreases a,
{
    if a > 0 {
        lemma_pow10_add((a - 1) as nat, b);
        assert(pow10(a + b) == 10 * pow10((a - 1 + b) as nat));
        assert(10 * (pow10((a - 1) as nat) * pow10(b)) == (10 * pow10((a - 1) as nat)) * pow10(b))
            by (nonlinear_arith);
    }
}

/// `10^9`.
pub proof fn lemma_pow10_nine()
    ensures
        pow10(9) == 1_000_000_000,
        pow10(6) == 1_000_000,
        pow10(3) == 1_000,
{
    reveal_with_fuel(pow10, 10);
}

/// A run of `n` digits is below `10^n`.
pub proof fn lemma_digits_bound(s: Seq<char>)
    requires
        all_digits(s),
    ensures
        0 <= digits_value(s) < pow10(s.len()),
    decreases s.len(),
{
    if s.len() > 0 {
        assert(all_digits(s.drop_last()));
        lemma_digits_bound(s.drop_last());
        assert(is_digit(s[s.len() - 1]));
    }
}

/// `10^k` for `k <= 19`.
#[verifier::rlimit(50)]
#[verifier::spinoff_prover]
pub fn pow10_u64(k: usize) -> (r: u64)
    requires
        k <= 19,
    ensures
        r == pow10(k as nat),
{
    let mut r: u64 = 1;
    let mut i: usize = 0;
    while i < k
        invariant
            i <= k <= 19,
            r == pow10(i as nat),
        decreases k - i,
    {
        proof {
            lemma_pow10_add(i as nat, 1);
            lemma_pow10_add(i as nat, (19 - i) as nat);
            lemma_pow10_positive((18 - i) as nat);
            reveal_with_fuel(pow10, 20);
            assert(pow10(1) == 10);
        }
        assert(pow10(i as nat) * pow10((19 - i) as nat) == pow10(19));
        assert(r * 10 <= u64::MAX) by (nonlinear_arith)
            requires
                r * pow10((19 - i) as nat) == pow10(19),
                pow10((19 - i) as nat) >= 10,
                pow10(19) == 10_000_000_000_000_000_000,
        ;
        r = r * 10;
        i = i + 1;
    }
    r
}

} // verus!
