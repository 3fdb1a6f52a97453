//! Decimal strings: the watermark and every numeric field of the wire
//! format are carried as base-ten text.  Parsing follows the standard
//! library's `u64` parser: an optional leading `'+'`, then one or more
//! ASCII digits, rejecting everything else and every overflowing value.

use vstd::prelude::*;

verus! {

/// Whether `c` is an ASCII decimal digit.
pub open spec fn is_dec_digit(c: char) -> bool {
    '0' as u32 <= c as u32 && c as u32 <= '9' as u32
}

/// The numeric value of an ASCII decimal digit.
pub open spec fn digit_value(c: char) -> int {
    c as u32 - '0' as u32
}

/// Whether every character of `s` is an ASCII decimal digit.
pub open spec fn all_dec_digits(s: Seq<char>) -> bool {
    forall|i: int| 0 <= i < s.len() ==> is_dec_digit(#[trigger] s[i])
}

/// The unbounded value of a digit string, most significant digit first.
pub open spec fn digits_val(s: Seq<char>) -> int
    decreases s.len(),
{
    if s.len() == 0 {
        0
    } else {
        digits_val(s.drop_last()) * 10 + digit_value(s.last())
    }
}

/// What `str::parse::<u64>` returns on `s`: `Some` exactly for an optional
/// leading `'+'` followed by one or more digits whose value fits in `u64`.
pub open spec fn spec_parse_u64(s: Seq<char>) -> Option<u64> {
    let digits = if s.len() > 0 && s[0] == '+' {
        s.drop_first()
    } else {
        s
    };
    if digits.len() > 0 && all_dec_digits(digits) && digits_val(digits) <= u64::MAX {
        Some(digits_val(digits) as u64)
    } else {
        None
    }
}

/// The digit character of a value below ten.
pub open spec fn digit_char(d: int) -> char {
    if d == 0 { '0' }
    else if d == 1 { '1' }
    else if d == 2 { '2' }
    else if d == 3 { '3' }
    else if d == 4 { '4' }
    else if d == 5 { '5' }
    else if d == 6 { '6' }
    else if d == 7 { '7' }
    else if d == 8 { '8' }
    else { '9' }
}

/// The canonical decimal rendering of `n`: no sign, no leading zero except
/// for the single digit of zero itself.
pub open spec fn u64_digits(n: u64) -> Seq<char>
    decreases n,
{
    if n < 10 {
        seq![digit_char(n as int)]
    } else {
        u64_digits(n / 10).push(digit_char((n % 10) as int))
    }
}

/// The digit character of a value below ten stands for that value.
pub proof fn lemma_digit_char_value(d: int)
    requires
        0 <= d < 10,
    ensures
        digit_value(digit_char(d)) == d,
        is_dec_digit(digit_char(d)),
        digit_char(d) != '+',
{
    if d == 0 {
        assert(digit_char(d) == '0');
    } else if d == 1 {
        assert(digit_char(d) == '1');
    } else if d == 2 {
        assert(digit_char(d) == '2');
    } else if d == 3 {
        assert(digit_char(d) == '3');
    } else if d == 4 {
        assert(digit_char(d) == '4');
    } else if d == 5 {
        assert(digit_char(d) == '5');
    } else if d == 6 {
        assert(digit_char(d) == '6');
    } else if d == 7 {
        assert(digit_char(d) == '7');
    } else if d == 8 {
        assert(digit_char(d) == '8');
    } else {
        assert(digit_char(d) == '9');
    }
}

/// A digit string has a non-negative value.
pub proof fn lemma_digits_val_nonneg(s: Seq<char>)
    requires
        all_dec_digits(s),
    ensures
        digits_val(s) >= 0,
    decreases s.len(),
{
    if s.len() > 0 {
        assert(all_dec_digits(s.drop_last()));
        lemma_digits_val_nonneg(s.drop_last());
    }
}

/// Extending a digit string never shrinks its value: every prefix of `s`
/// is worth no more than `s` itself.
pub proof fn lemma_digits_val_prefix_le(s: Seq<char>, i: int)
    requires
        all_dec_digits(s),
        0 <= i <= s.len(),
    ensures
        digits_val(s.subrange(0, i)) <= digits_val(s),
    decreases s.len() - i,
{
    if i < s.len() {
        let a = s.subrange(0, i);
        let b = s.subrange(0, i + 1);
        assert(b.drop_last() =~= a);
        assert(all_dec_digits(a));
        lemma_digits_val_nonneg(a);
        assert(digits_val(b) == digits_val(a) * 10 + digit_value(s[i]));
        lemma_digits_val_prefix_le(s, i + 1);
    } else {
        assert(s.subrange(0, i) =~= s);
    }
}

/// Parse `s` as the standard library's `u64` parser would.
pub fn parse_u64(s: &str) -> (r: Option<u64>)
    ensures
        r == spec_parse_u64(s@),
{
    let len = s.unicode_len();
    let start: usize = if len > 0 && s.get_char(0) == '+' { 1 } else { 0 };
    let ghost digits = if s@.len() > 0 && s@[0] == '+' { s@.drop_first() } else { s@ };
    proof {
        assert(digits =~= s@.subrange(start as int, len as int));
    }
    if len == start {
        return None;
    }
    let mut acc: u64 = 0;
    let mut i: usize = start;
    while i < len
        invariant
            start <= i <= len,
            start <= 1,
            len == s@.len(),
            digits == s@.subrange(start as int, len as int),
            digits == (if s@.len() > 0 && s@[0] == '+' { s@.drop_first() } else { s@ }),
            all_dec_digits(s@.subrange(start as int, i as int)),
            acc == digits_val(s@.subrange(start as int, i as int)),
        decreases len - i,
    {
        let c = s.get_char(i);
        let v = c as u32;
        if v < 48 || v > 57 {
            proof {
                assert(!is_dec_digit(s@[i as int]));
                assert(!all_dec_digits(digits)) by {
                    assert(digits[i - start] == s@[i as int]);
                }
            }
            return None;
        }
        let d = (v - 48) as u64;
        proof {
            assert(s@.subrange(start as int, i + 1).drop_last() =~= s@.subrange(
                start as int,
                i as int,
            ));
            assert(s@.subrange(start as int, i + 1).last() == s@[i as int]);
        }
        if acc > (u64::MAX - d) / 10 {
            proof {
                let grown = s@.subrange(start as int, i + 1);
                assert(acc * 10 + d > u64::MAX) by (nonlinear_arith)
                    requires
                        acc > (u64::MAX - d) / 10,
                        d < 10,
                ;
                assert(digits_val(grown) == acc * 10 + d);
                if all_dec_digits(digits) {
                    assert(grown =~= digits.subrange(0, i + 1 - start));
                    lemma_digits_val_prefix_le(digits, i + 1 - start);
                    assert(digits_val(digits) > u64::MAX);
                }
            }
            return None;
        }
        proof {
            assert(acc * 10 + d <= u64::MAX) by (nonlinear_arith)
                requires
                    acc <= (u64::MAX - d) / 10,
                    d < 10,
            ;
        }
        acc = acc * 10 + d;
        i = i + 1;
    }
    proof {
        assert(s@.subrange(start as int, len as int) =~= digits);
        lemma_digits_val_nonneg(digits);
    }
    Some(acc)
}

/// The digit character of `d`, executable twin of `digit_char`.
pub fn digit_char_of(d: u64) -> (c: char)
    requires
        d < 10,
    ensures
        c == digit_char(d as int),
{
    match d {
        0 => '0',
        1 => '1',
        2 => '2',
        3 => '3',
        4 => '4',
        5 => '5',
        6 => '6',
        7 => '7',
        8 => '8',
        _ => '9',
    }
}

/// Relies on `String::push`: appends exactly the one character given.
#[verifier::external_body]
pub(crate) fn push_char(s: &mut String, c: char)
    ensures
        final(s)@ == old(s)@.push(c),
{
    s.push(c);
}

/// Render `n` in decimal.
pub fn format_u64(n: u64) -> (r: String)
    ensures
        r@ == u64_digits(n),
    decreases n,
{
    if n < 10 {
        let mut s = String::new();
        push_char(&mut s, digit_char_of(n));
        proof {
            assert(s@ =~= u64_digits(n));
        }
        s
    } else {
        let mut s = format_u64(n / 10);
        push_char(&mut s, digit_char_of(n % 10));
        s
    }
}

/// Every character of a canonical decimal rendering is a digit, and the
/// rendering never starts with a sign.
pub proof fn lemma_u64_digits_are_digits(n: u64)
    ensures
        u64_digits(n).len() > 0,
        all_dec_digits(u64_digits(n)),
        u64_digits(n)[0] != '+',
    decreases n,
{
    if n < 10 {
        lemma_digit_char_value(n as int);
    } else {
        lemma_u64_digits_are_digits(n / 10);
        lemma_digit_char_value((n % 10) as int);
        assert(all_dec_digits(u64_digits(n))) by {
            let s = u64_digits(n);
            let p = u64_digits(n / 10);
            assert(forall|i: int| 0 <= i < p.len() ==> s[i] == #[trigger] p[i]);
            assert(is_dec_digit(s[s.len() - 1]));
        }
    }
}

/// Rendering then parsing is the identity: the canonical decimal string of
/// `n` parses back to exactly `n`.
pub proof fn lemma_u64_round_trip(n: u64)
    ensures
        spec_parse_u64(u64_digits(n)) == Some(n),
{
    lemma_u64_digits_are_digits(n);
    lemma_u64_digits_val(n);
}

/// The value of the canonical decimal rendering of `n` is `n`.
pub proof fn lemma_u64_digits_val(n: u64)
    ensures
        digits_val(u64_digits(n)) == n,
    decreases n,
{
    if n < 10 {
        lemma_digit_char_value(n as int);
        assert(u64_digits(n).drop_last() =~= Seq::<char>::empty());
        assert(digits_val(u64_digits(n).drop_last()) == 0);
        assert(u64_digits(n).last() == digit_char(n as int));
    } else {
        lemma_u64_digits_val(n / 10);
        lemma_digit_char_value((n % 10) as int);
        assert(u64_digits(n).drop_last() =~= u64_digits(n / 10));
        assert(u64_digits(n).last() == digit_char((n % 10) as int));
    }
}

} // verus!

