//! Decimal numerals: the mathematical reading and writing of base-10
//! integers, with verified executable parsing and rendering on top of it.
//!
//! Every string the crate emits or consumes that stands for an integer is
//! pinned, in contracts, to the spec functions of this module.
use vstd::prelude::*;
use vstd::string::StrSliceExecFns;
use vstd::string::StringExecFns;

verus! {

/// True of the ten ASCII digit characters.
pub open spec fn is_digit(c: char) -> bool {
    '0' <= c && c <= '9'
}

/// Numeric value of an ASCII digit character.
pub open spec fn digit_val(c: char) -> int {
    c as int - '0' as int
}

/// The ASCII digit character for a value in `0..10`.
pub open spec fn digit_char(d: int) -> char {
    if d == 0 {
        '0'
    } else if d == 1 {
        '1'
    } else if d == 2 {
        '2'
    } else if d == 3 {
        '3'
    } else if d == 4 {
        '4'
    } else if d == 5 {
        '5'
    } else if d == 6 {
        '6'
    } else if d == 7 {
        '7'
    } else if d == 8 {
        '8'
    } else {
        '9'
    }
}

/// True when every character of `s` is an ASCII digit.
pub open spec fn all_digits(s: Seq<char>) -> bool {
    forall|i: int| 0 <= i < s.len() ==> is_digit(#[trigger] s[i])
}

/// The integer a digit string stands for, most significant digit first.
pub open spec fn digits_val(s: Seq<char>) -> int
    decreases s.len(),
{
    if s.len() == 0 {
        0
    } else {
        digits_val(s.drop_last()) * 10 + digit_val(s.last())
    }
}

/// Ten to the `n`.
pub open spec fn pow10(n: nat) -> int
    decreases n,
{
    if n == 0 {
        1
    } else {
        10 * pow10((n - 1) as nat)
    }
}

/// The canonical decimal numeral of a non-negative integer: no sign, no
/// leading zero except for zero itself.
pub open spec fn dec_digits(n: nat) -> Seq<char>
    decreases n,
{
    if n < 10 {
        seq![digit_char(n as int)]
    } else {
        dec_digits(n / 10) + seq![digit_char((n % 10) as int)]
    }
}

/// The canonical decimal numeral of a signed integer.
pub open spec fn signed_dec(v: int) -> Seq<char> {
    if v < 0 {
        seq!['-'] + dec_digits((-v) as nat)
    } else {
        dec_digits(v as nat)
    }
}

/// The digit portion of an integer literal: the whole string, or the rest
/// after one leading `+` or `-`.
pub open spec fn int_literal_digits(s: Seq<char>) -> Seq<char> {
    if s.len() > 0 && (s[0] == '+' || s[0] == '-') {
        s.skip(1)
    } else {
        s
    }
}

/// True when `s` is a well-formed base-10 integer literal as `i64::from_str`
/// reads one: an optional single sign, then one or more digits.
pub open spec fn is_int_literal(s: Seq<char>) -> bool {
    int_literal_digits(s).len() > 0 && all_digits(int_literal_digits(s))
}

/// The signed value of a well-formed integer literal.
pub open spec fn int_literal_value(s: Seq<char>) -> int {
    if s.len() > 0 && s[0] == '-' {
        -digits_val(int_literal_digits(s))
    } else {
        digits_val(int_literal_digits(s))
    }
}

/// What [`parse_i64`] returns: the literal's value when it is well formed
/// and fits in an `i64`, and nothing otherwise.
pub open spec fn parse_i64_spec(s: Seq<char>) -> Option<i64> {
    if is_int_literal(s) && i64::MIN <= int_literal_value(s) <= i64::MAX {
        Some(int_literal_value(s) as i64)
    } else {
        None
    }
}

pub proof fn lemma_pow10_pos(n: nat)
    ensures
        pow10(n) >= 1,
    decreases n,
{
    if n > 0 {
        lemma_pow10_pos((n - 1) as nat);
    }
}

pub proof fn lemma_digits_val_bounds(s: Seq<char>)
    requires
        all_digits(s),
    ensures
        0 <= digits_val(s) < pow10(s.len()),
    decreases s.len(),
{
    if s.len() > 0 {
        assert(all_digits(s.drop_last()));
        lemma_digits_val_bounds(s.drop_last());
    }
}

/// Reading a digit string splits at any point: the prefix is scaled by ten
/// to the length of the suffix.
pub proof fn lemma_digits_val_append(a: Seq<char>, b: Seq<char>)
    ensures
        digits_val(a + b) == digits_val(a) * pow10(b.len()) + digits_val(b),
    decreases b.len(),
{
    if b.len() == 0 {
        assert(a + b =~= a);
    } else {
        lemma_digits_val_append(a, b.drop_last());
        assert((a + b).drop_last() =~= a + b.drop_last());
        assert((a + b).last() == b.last());
        assert(digits_val(a + b) == (digits_val(a) * pow10((b.len() - 1) as nat) + digits_val(
            b.drop_last(),
        )) * 10 + digit_val(b.last())) by {
            assert(digits_val(a + b) == digits_val((a + b).drop_last()) * 10 + digit_val(
                (a + b).last(),
            ));
        }
        assert(digits_val(a) * pow10((b.len() - 1) as nat) * 10 == digits_val(a) * pow10(b.len()))
            by (nonlinear_arith)
            requires
                pow10(b.len()) == 10 * pow10((b.len() - 1) as nat),
        ;
    }
}

/// A canonical digit string — no sign, no leading zero unless it is
/// exactly "0" — is reproduced by rendering its value.
pub proof fn lemma_dec_digits_inverse(s: Seq<char>)
    requires
        all_digits(s),
        s.len() >= 1,
        s[0] != '0' || s.len() == 1,
    ensures
        dec_digits(digits_val(s) as nat) == s,
    decreases s.len(),
{
    lemma_digits_val_bounds(s);
    let v = digits_val(s);
    if s.len() == 1 {
        assert(s.last() == s[0] && s.drop_last().len() == 0);
        assert(digits_val(s.drop_last()) == 0);
        assert(v == digit_val(s[0]));
        assert(digit_char(v) == s[0]);
        assert(seq![s[0]] =~= s);
    } else {
        let pre = s.drop_last();
        let d = digit_val(s.last());
        assert(all_digits(pre));
        assert(pre[0] == s[0]);
        lemma_digits_val_bounds(pre);
        // the prefix is nonzero, so v has at least two digits
        assert(digits_val(pre) >= 1) by {
            let first = s.subrange(0, 1);
            let rest = pre.subrange(1, pre.len() as int);
            assert(pre =~= first + rest);
            lemma_digits_val_append(first, rest);
            lemma_digits_val_bounds(rest);
            lemma_pow10_pos(rest.len());
            assert(first.len() == 1 && first.last() == s[0]);
            assert(first.drop_last().len() == 0);
            assert(digits_val(first.drop_last()) == 0);
            assert(digits_val(first) == digit_val(s[0]));
            assert(digit_val(s[0]) >= 1);
            assert(digits_val(first) * pow10(rest.len()) >= 1) by (nonlinear_arith)
                requires
                    digits_val(first) >= 1,
                    pow10(rest.len()) >= 1,
            ;
        }
        assert(v == digits_val(pre) * 10 + d);
        vstd::arithmetic::div_mod::lemma_fundamental_div_mod_converse(v, 10, digits_val(pre), d);
        assert(v / 10 == digits_val(pre) && v % 10 == d);
        assert(v >= 10);
        lemma_dec_digits_inverse(pre);
        assert(dec_digits(v as nat) == dec_digits((v / 10) as nat) + seq![digit_char(v % 10)]);
        assert(digit_char(d) == s.last());
        assert(dec_digits(v as nat) =~= s);
    }
}

/// A character that is no digit inside one subrange spoils every
/// enclosing subrange.
proof fn lemma_not_all_digits_sub(s: Seq<char>, a: int, b: int, c: int, d: int)
    requires
        0 <= c <= a <= b <= d <= s.len(),
        !all_digits(s.subrange(a, b)),
    ensures
        !all_digits(s.subrange(c, d)),
{
    let inner = s.subrange(a, b);
    let outer = s.subrange(c, d);
    let j = choose|j: int| 0 <= j < inner.len() && !is_digit(inner[j]);
    assert(inner[j] == s[a + j]);
    assert(outer[a + j - c] == s[a + j]);
    assert(!is_digit(outer[a + j - c]));
}

/// One exec digit as a one-character string slice.
fn digit_str(d: u8) -> (r: &'static str)
    requires
        d < 10,
    ensures
        r@ =~= seq![digit_char(d as int)],
{
    proof {
        reveal_strlit("0");
        reveal_strlit("1");
        reveal_strlit("2");
        reveal_strlit("3");
        reveal_strlit("4");
        reveal_strlit("5");
        reveal_strlit("6");
        reveal_strlit("7");
        reveal_strlit("8");
        reveal_strlit("9");
    }
    if d == 0 {
        "0"
    } else if d == 1 {
        "1"
    } else if d == 2 {
        "2"
    } else if d == 3 {
        "3"
    } else if d == 4 {
        "4"
    } else if d == 5 {
        "5"
    } else if d == 6 {
        "6"
    } else if d == 7 {
        "7"
    } else if d == 8 {
        "8"
    } else {
        "9"
    }
}

/// Appends the canonical decimal numeral of `n` to `out`.
pub fn push_dec_u128(out: &mut String, n: u128)
    ensures
        final(out)@ == old(out)@ + dec_digits(n as nat),
    decreases n,
{
    if n >= 10 {
        push_dec_u128(out, n / 10);
        let d: u8 = (n % 10) as u8;
        out.append(digit_str(d));
        proof {
            assert((n / 10) as nat == n as nat / 10);
            assert((n % 10) as int == n as nat % 10);
            assert(out@ =~= old(out)@ + dec_digits(n as nat));
        }
    } else {
        out.append(digit_str(n as u8));
        proof {
            assert(out@ =~= old(out)@ + dec_digits(n as nat));
        }
    }
}

/// The canonical decimal numeral of `n` as a fresh string.
pub fn u128_dec_string(n: u128) -> (r: String)
    ensures
        r@ == dec_digits(n as nat),
{
    let mut s = String::new();
    push_dec_u128(&mut s, n);
    proof {
        assert(s@ =~= dec_digits(n as nat));
    }
    s
}

/// The canonical decimal numeral of the signed value whose magnitude is
/// `mag` and whose sign is negative when `neg` holds.
pub fn signed_dec_string(neg: bool, mag: u128) -> (r: String)
    ensures
        r@ == signed_dec(if neg { -(mag as int) } else { mag as int }),
{
    if neg && mag > 0 {
        proof {
            reveal_strlit("-");
        }
        let mut s = String::from_str("-");
        push_dec_u128(&mut s, mag);
        proof {
            assert(s@ =~= seq!['-'] + dec_digits(mag as nat));
        }
        s
    } else {
        u128_dec_string(mag)
    }
}

/// A number rendered as exactly two digits, zero-padded.
pub open spec fn pad2(n: int) -> Seq<char> {
    seq![digit_char(n / 10), digit_char(n % 10)]
}

/// A number rendered as exactly four digits, zero-padded.
pub open spec fn pad4(n: int) -> Seq<char> {
    seq![
        digit_char(n / 1000),
        digit_char((n / 100) % 10),
        digit_char((n / 10) % 10),
        digit_char(n % 10),
    ]
}

/// A calendar year as civil formatting renders it: zero-padded to four
/// digits, with an explicit sign outside `0..=9999`.
pub open spec fn year_chars(y: int) -> Seq<char> {
    if y < 0 {
        seq!['-'] + (if -y > 9999 {
            dec_digits((-y) as nat)
        } else {
            pad4(-y)
        })
    } else if y > 9999 {
        seq!['+'] + dec_digits(y as nat)
    } else {
        pad4(y)
    }
}

/// Appends `n` as two zero-padded digits.
pub fn push_pad2(out: &mut String, n: u64)
    requires
        n < 100,
    ensures
        final(out)@ == old(out)@ + pad2(n as int),
{
    out.append(digit_str((n / 10) as u8));
    out.append(digit_str((n % 10) as u8));
    proof {
        assert(out@ =~= old(out)@ + pad2(n as int));
    }
}

/// Appends `n` as four zero-padded digits.
pub fn push_pad4(out: &mut String, n: u64)
    requires
        n < 10000,
    ensures
        final(out)@ == old(out)@ + pad4(n as int),
{
    out.append(digit_str((n / 1000) as u8));
    out.append(digit_str(((n / 100) % 10) as u8));
    out.append(digit_str(((n / 10) % 10) as u8));
    out.append(digit_str((n % 10) as u8));
    proof {
        assert(out@ =~= old(out)@ + pad4(n as int));
    }
}

/// Appends a calendar year as [`year_chars`] renders it.
pub fn push_year(out: &mut String, y: i64)
    requires
        -1000000 <= y <= 1000000,
    ensures
        final(out)@ == old(out)@ + year_chars(y as int),
{
    proof {
        reveal_strlit("-");
        reveal_strlit("+");
    }
    if y < 0 {
        out.append("-");
        let a: u64 = (-y) as u64;
        if a > 9999 {
            push_dec_u128(out, a as u128);
        } else {
            push_pad4(out, a);
        }
        proof {
            assert(out@ =~= old(out)@ + year_chars(y as int));
        }
    } else if y > 9999 {
        out.append("+");
        push_dec_u128(out, y as u128);
        proof {
            assert(out@ =~= old(out)@ + year_chars(y as int));
        }
    } else {
        push_pad4(out, y as u64);
        proof {
            assert(out@ =~= old(out)@ + year_chars(y as int));
        }
    }
}

/// Reads a base-10 `i64` exactly as `i64::from_str` does: an optional
/// sign, then one or more digits, rejecting anything else and any value
/// out of the `i64` range.
pub fn parse_i64(s: &str) -> (r: Option<i64>)
    ensures
        r == parse_i64_spec(s@),
{
    let n = s.unicode_len();
    if n == 0 {
        return None;
    }
    let c0 = s.get_char(0);
    let neg = c0 == '-';
    let start: usize = if c0 == '-' || c0 == '+' {
        1
    } else {
        0
    };
    if n == start {
        // a sign with no digits
        return None;
    }
    let cap: u128 = if neg {
        9223372036854775808
    } else {
        9223372036854775807
    };
    let ghost digits = int_literal_digits(s@);
    proof {
        assert(digits =~= s@.subrange(start as int, n as int));
    }
    let mut i = start;
    let mut mag: u128 = 0;
    while i < n
        invariant
            start <= i <= n,
            start < n,
            n == s@.len(),
            start == 0 || start == 1,
            c0 == s@[0int],
            neg == (c0 == '-'),
            cap == if neg { 0x8000000000000000u128 } else { 0x7FFFFFFFFFFFFFFFu128 },
            digits == int_literal_digits(s@),
            digits =~= s@.subrange(start as int, n as int),
            all_digits(s@.subrange(start as int, i as int)),
            mag == digits_val(s@.subrange(start as int, i as int)),
            mag <= cap,
            cap < 0x1_0000_0000_0000_0000u128,
        decreases n - i,
    {
        let c = s.get_char(i);
        let cu: u32 = c as u32;
        if cu < 48 || cu > 57 {
            proof {
                assert(c == s@[i as int]);
                assert('0' as int == 48 && '9' as int == 57);
                assert(!is_digit(s@[i as int]));
                assert(s@.subrange(i as int, i + 1 as int)[0] == s@[i as int]);
                assert(!all_digits(s@.subrange(i as int, i + 1 as int)));
                lemma_not_all_digits_sub(s@, i as int, i + 1 as int, start as int, n as int);
                assert(!is_int_literal(s@));
                assert(parse_i64_spec(s@) is None);
            }
            return None;
        }
        let d: u128 = (cu - 48) as u128;
        proof {
            assert(is_digit(s@[i as int]));
            assert(d == digit_val(s@[i as int]));
        }
        let next = mag * 10 + d;
        let ghost pref = s@.subrange(start as int, i as int);
        let ghost pref1 = s@.subrange(start as int, i + 1 as int);
        proof {
            assert(pref1 =~= pref.push(s@[i as int]));
            assert(pref1.drop_last() =~= pref);
            assert(digits_val(pref1) == mag * 10 + d);
            assert(all_digits(pref1));
        }
        if next > cap {
            // the value read so far already exceeds the i64 range
            proof {
                let rest = s@.subrange(i + 1 as int, n as int);
                assert(digits =~= pref1 + rest);
                if all_digits(rest) {
                    lemma_digits_val_append(pref1, rest);
                    lemma_digits_val_bounds(rest);
                    lemma_pow10_pos(rest.len());
                    assert(digits_val(pref1) * pow10(rest.len()) >= digits_val(pref1)) by (
                    nonlinear_arith)
                        requires
                            pow10(rest.len()) >= 1,
                            digits_val(pref1) >= 0,
                    ;
                    assert(digits_val(digits) == digits_val(pref1 + rest));
                    assert(digits_val(digits) >= digits_val(pref1));
                    assert(digits_val(digits) > cap);
                    assert(s@[0int] == c0);
                    if neg {
                        assert(int_literal_value(s@) == -digits_val(digits));
                        assert(int_literal_value(s@) < i64::MIN);
                    } else {
                        assert(int_literal_value(s@) == digits_val(digits));
                        assert(int_literal_value(s@) > i64::MAX);
                    }
                    assert(parse_i64_spec(s@) is None);
                } else {
                    lemma_not_all_digits_sub(s@, i + 1 as int, n as int, start as int, n as int);
                    assert(!is_int_literal(s@));
                    assert(parse_i64_spec(s@) is None);
                }
            }
            return None;
        }
        mag = next;
        i = i + 1;
    }
    proof {
        assert(s@.subrange(start as int, i as int) =~= digits);
        assert(is_int_literal(s@));
        assert(mag == digits_val(digits));
    }
    let v: i64 = if neg {
        (-(mag as i128)) as i64
    } else {
        mag as i64
    };
    proof {
        assert(v as int == int_literal_value(s@));
    }
    Some(v)
}

} // verus!
