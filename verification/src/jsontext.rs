//! JSON text primitives: escaping of string contents, and a parser for the
//! canonical form the library itself writes.  The encoder escapes the
//! quote, the backslash, and control characters — the five with short
//! escapes as `\b \t \n \f \r`, the rest as `\u00XX`, byte for byte what
//! common JSON serializers emit, since the collector verifies signatures
//! over these exact bytes; the parser accepts exactly those escapes, so
//! that parsing what was encoded is provably the identity.

use vstd::prelude::*;

use crate::numstr::{is_dec_digit, digits_val, u64_digits};

verus! {

/// Whether `c` must be escaped inside a JSON string: the quote, the
/// backslash, and the control range use an escape sequence.
pub open spec fn is_control(c: char) -> bool {
    (c as u32) < 32
}

/// The lower-case hexadecimal digit of a value below sixteen.
pub open spec fn hex_char(d: int) -> char {
    if d == 0 { '0' }
    else if d == 1 { '1' }
    else if d == 2 { '2' }
    else if d == 3 { '3' }
    else if d == 4 { '4' }
    else if d == 5 { '5' }
    else if d == 6 { '6' }
    else if d == 7 { '7' }
    else if d == 8 { '8' }
    else if d == 9 { '9' }
    else if d == 10 { 'a' }
    else if d == 11 { 'b' }
    else if d == 12 { 'c' }
    else if d == 13 { 'd' }
    else if d == 14 { 'e' }
    else { 'f' }
}

/// Whether `c` is a lower-case hexadecimal digit.
pub open spec fn is_hex_digit(c: char) -> bool {
    ('0' as u32 <= c as u32 && c as u32 <= '9' as u32) || ('a' as u32 <= c as u32 && c as u32
        <= 'f' as u32)
}

/// The numeric value of a lower-case hexadecimal digit.
pub open spec fn hex_value(c: char) -> int {
    if '0' as u32 <= c as u32 && c as u32 <= '9' as u32 {
        c as u32 - '0' as u32
    } else {
        c as u32 - 'a' as u32 + 10
    }
}

/// The hexadecimal digit of a value below sixteen stands for that value.
pub proof fn lemma_hex_char_value(d: int)
    requires
        0 <= d < 16,
    ensures
        hex_value(hex_char(d)) == d,
        is_hex_digit(hex_char(d)),
{
}

/// Whether `c` names one of the five short control escapes.
pub open spec fn is_short_escape(c: char) -> bool {
    c == 'b' || c == 't' || c == 'n' || c == 'f' || c == 'r'
}

/// The control character a short escape stands for.
pub open spec fn short_escape_char(c: char) -> char {
    if c == 'b' {
        '\u{0008}'
    } else if c == 't' {
        '\u{0009}'
    } else if c == 'n' {
        '\u{000a}'
    } else if c == 'f' {
        '\u{000c}'
    } else {
        '\u{000d}'
    }
}

/// How one character is written inside a JSON string: the quote and the
/// backslash escaped, the five controls with short escapes, every other
/// control as `\u00XX` — the bytes a JSON serializer on the collector's
/// side produces for the same text.
pub open spec fn esc_char(c: char) -> Seq<char> {
    if c == '"' {
        seq!['\\', '"']
    } else if c == '\\' {
        seq!['\\', '\\']
    } else if c == '\u{0008}' {
        seq!['\\', 'b']
    } else if c == '\u{0009}' {
        seq!['\\', 't']
    } else if c == '\u{000a}' {
        seq!['\\', 'n']
    } else if c == '\u{000c}' {
        seq!['\\', 'f']
    } else if c == '\u{000d}' {
        seq!['\\', 'r']
    } else if is_control(c) {
        seq!['\\', 'u', '0', '0', hex_char(c as u32 as int / 16), hex_char(c as u32 as int % 16)]
    } else {
        seq![c]
    }
}

/// The escaped form of a whole string content.
pub open spec fn escape_str(s: Seq<char>) -> Seq<char>
    decreases s.len(),
{
    if s.len() == 0 {
        Seq::empty()
    } else {
        esc_char(s.first()) + escape_str(s.drop_first())
    }
}

/// A quoted JSON string: the escaped content between two quotes.
pub open spec fn quote_str(s: Seq<char>) -> Seq<char> {
    seq!['"'] + escape_str(s) + seq!['"']
}

/// Escaping one more character appends its escape sequence.
pub proof fn lemma_escape_snoc(s: Seq<char>, c: char)
    ensures
        escape_str(s.push(c)) == escape_str(s) + esc_char(c),
    decreases s.len(),
{
    if s.len() == 0 {
        assert(s.push(c).first() == c);
        assert(s.push(c).drop_first() =~= Seq::<char>::empty());
        assert(escape_str(s.push(c).drop_first()) == Seq::<char>::empty());
        assert(escape_str(s) == Seq::<char>::empty());
        assert(escape_str(s.push(c)) =~= escape_str(s) + esc_char(c));
    } else {
        assert(s.push(c).drop_first() =~= s.drop_first().push(c));
        lemma_escape_snoc(s.drop_first(), c);
        assert(escape_str(s.push(c)) =~= escape_str(s) + esc_char(c));
    }
}

/// The lower-case hexadecimal digit of `d`, executable twin of `hex_char`.
fn hex_char_of(d: u32) -> (c: char)
    requires
        d < 16,
    ensures
        c == hex_char(d as int),
{
    match d {
        0 => '0',
        1 => '1',
        2 => '2',
        3 => '3',
        4 => '4',
        5 => '5',
        6 => '6',
        7 => '7',
        8 => '8',
        9 => '9',
        10 => 'a',
        11 => 'b',
        12 => 'c',
        13 => 'd',
        14 => 'e',
        _ => 'f',
    }
}

/// Append the escaped form of one character.
fn escape_char_into(out: &mut String, c: char)
    ensures
        final(out)@ == old(out)@ + esc_char(c),
{
    if c == '"' {
        crate::numstr::push_char(out, '\\');
        crate::numstr::push_char(out, '"');
        proof {
            assert(out@ =~= old(out)@ + esc_char(c));
        }
    } else if c == '\\' {
        crate::numstr::push_char(out, '\\');
        crate::numstr::push_char(out, '\\');
        proof {
            assert(out@ =~= old(out)@ + esc_char(c));
        }
    } else {
        let v = c as u32;
        if v == 8 || v == 9 || v == 10 || v == 12 || v == 13 {
            let short = match v {
                8 => 'b',
                9 => 't',
                10 => 'n',
                12 => 'f',
                _ => 'r',
            };
            crate::numstr::push_char(out, '\\');
            crate::numstr::push_char(out, short);
            proof {
                vstd::utf8::char_u32_cast(c, c as u32);
                assert(out@ =~= old(out)@ + esc_char(c));
            }
        } else if v < 32 {
            crate::numstr::push_char(out, '\\');
            crate::numstr::push_char(out, 'u');
            crate::numstr::push_char(out, '0');
            crate::numstr::push_char(out, '0');
            crate::numstr::push_char(out, hex_char_of(v / 16));
            crate::numstr::push_char(out, hex_char_of(v % 16));
            proof {
                assert(out@ =~= old(out)@ + esc_char(c));
            }
        } else {
            crate::numstr::push_char(out, c);
            proof {
                assert(out@ =~= old(out)@ + esc_char(c));
            }
        }
    }
}

/// Append the quoted, escaped form of `s`.
pub fn append_quoted(out: &mut String, s: &str)
    ensures
        final(out)@ == old(out)@ + quote_str(s@),
{
    crate::numstr::push_char(out, '"');
    let len = s.unicode_len();
    let mut i: usize = 0;
    while i < len
        invariant
            i <= len,
            len == s@.len(),
            out@ == old(out)@ + seq!['"'] + escape_str(s@.take(i as int)),
        decreases len - i,
    {
        let c = s.get_char(i);
        proof {
            assert(s@.take(i + 1).drop_last() =~= s@.take(i as int));
            assert(s@.take(i + 1) =~= s@.take(i as int).push(s@[i as int]));
            lemma_escape_snoc(s@.take(i as int), s@[i as int]);
        }
        escape_char_into(out, c);
        i = i + 1;
    }
    crate::numstr::push_char(out, '"');
    proof {
        assert(s@.take(len as int) =~= s@);
        assert(out@ =~= old(out)@ + quote_str(s@));
    }
}

/// What the strict parser yields for the inside of a JSON string starting
/// at `i` (the opening quote already consumed): the decoded content and
/// the index just past the closing quote.
pub open spec fn parse_string_body(s: Seq<char>, i: int) -> Option<(Seq<char>, int)>
    decreases s.len() - i,
{
    if i < 0 || i >= s.len() {
        None
    } else if s[i] == '"' {
        Some((Seq::empty(), i + 1))
    } else if s[i] == '\\' {
        if i + 1 < s.len() && (s[i + 1] == '"' || s[i + 1] == '\\') {
            match parse_string_body(s, i + 2) {
                Some(p) => Some((seq![s[i + 1]] + p.0, p.1)),
                None => None,
            }
        } else if i + 1 < s.len() && is_short_escape(s[i + 1]) {
            match parse_string_body(s, i + 2) {
                Some(p) => Some((seq![short_escape_char(s[i + 1])] + p.0, p.1)),
                None => None,
            }
        } else if i + 5 < s.len() && s[i + 1] == 'u' && s[i + 2] == '0' && s[i + 3] == '0'
            && is_hex_digit(s[i + 4]) && is_hex_digit(s[i + 5]) {
            let code = 16 * hex_value(s[i + 4]) + hex_value(s[i + 5]);
            match parse_string_body(s, i + 6) {
                Some(p) => Some((seq![(code as u8) as char] + p.0, p.1)),
                None => None,
            }
        } else {
            None
        }
    } else if is_control(s[i]) {
        None
    } else {
        match parse_string_body(s, i + 1) {
            Some(p) => Some((seq![s[i]] + p.0, p.1)),
            None => None,
        }
    }
}

/// A parsed string body ends past where it began and within the input.
pub proof fn lemma_parse_string_body_bounds(s: Seq<char>, i: int)
    ensures
        parse_string_body(s, i) matches Some(p) ==> i < p.1 <= s.len(),
    decreases s.len() - i,
{
    if 0 <= i < s.len() {
        if s[i] == '"' {
        } else if s[i] == '\\' {
            if i + 1 < s.len() && (s[i + 1] == '"' || s[i + 1] == '\\') {
                lemma_parse_string_body_bounds(s, i + 2);
            } else if i + 1 < s.len() && is_short_escape(s[i + 1]) {
                lemma_parse_string_body_bounds(s, i + 2);
            } else if i + 5 < s.len() && s[i + 1] == 'u' && s[i + 2] == '0' && s[i + 3] == '0'
                && is_hex_digit(s[i + 4]) && is_hex_digit(s[i + 5]) {
                lemma_parse_string_body_bounds(s, i + 6);
            }
        } else if is_control(s[i]) {
        } else {
            lemma_parse_string_body_bounds(s, i + 1);
        }
    }
}

/// The value of a lower-case hexadecimal digit, when it is one.
fn hex_digit_value(c: char) -> (r: Option<u32>)
    ensures
        r is Some <==> is_hex_digit(c),
        r matches Some(v) ==> v == hex_value(c) && v < 16,
{
    let v = c as u32;
    if 48 <= v && v <= 57 {
        Some(v - 48)
    } else if 97 <= v && v <= 102 {
        Some(v - 97 + 10)
    } else {
        None
    }
}

/// Decode a JSON string body starting at `start` (the opening quote
/// already consumed), exactly as `parse_string_body` describes.
pub fn parse_string_chunk(s: &str, start: usize) -> (r: Option<(String, usize)>)
    requires
        start <= s@.len(),
    ensures
        match parse_string_body(s@, start as int) {
            Some(p) => r matches Some(q) && q.0@ == p.0 && q.1 == p.1,
            None => r is None,
        },
{
    let len = s.unicode_len();
    let mut i: usize = start;
    let mut out = String::new();
    loop
        invariant
            start <= i <= len,
            len == s@.len(),
            parse_string_body(s@, start as int) == (match parse_string_body(s@, i as int) {
                Some(p) => Some((out@ + p.0, p.1)),
                None => None::<(Seq<char>, int)>,
            }),
        decreases len - i,
    {
        if i >= len {
            return None;
        }
        let c = s.get_char(i);
        if c == '"' {
            proof {
                assert(out@ + Seq::<char>::empty() =~= out@);
            }
            return Some((out, i + 1));
        } else if c == '\\' {
            if i + 1 < len {
                let c2 = s.get_char(i + 1);
                if c2 == '"' || c2 == '\\' {
                    let ghost prev = out@;
                    crate::numstr::push_char(&mut out, c2);
                    proof {
                        assert(out@ =~= prev + seq![s@[i + 1]]);
                        if let Some(p) = parse_string_body(s@, i + 2) {
                            assert(prev + (seq![s@[i + 1]] + p.0) =~= out@ + p.0);
                        }
                    }
                    i = i + 2;
                } else if c2 == 'b' || c2 == 't' || c2 == 'n' || c2 == 'f' || c2 == 'r' {
                    let decoded = match c2 {
                        'b' => '\u{0008}',
                        't' => '\u{0009}',
                        'n' => '\u{000a}',
                        'f' => '\u{000c}',
                        _ => '\u{000d}',
                    };
                    let ghost prev = out@;
                    crate::numstr::push_char(&mut out, decoded);
                    proof {
                        assert(decoded == short_escape_char(s@[i + 1]));
                        assert(out@ =~= prev + seq![decoded]);
                        if let Some(p) = parse_string_body(s@, i + 2) {
                            assert(prev + (seq![decoded] + p.0) =~= out@ + p.0);
                        }
                    }
                    i = i + 2;
                } else if c2 == 'u' && len - i > 5 {
                    let c3 = s.get_char(i + 2);
                    let c4 = s.get_char(i + 3);
                    let h1 = match hex_digit_value(s.get_char(i + 4)) {
                        Some(v) => v,
                        None => {
                            return None;
                        },
                    };
                    let h2 = match hex_digit_value(s.get_char(i + 5)) {
                        Some(v) => v,
                        None => {
                            return None;
                        },
                    };
                    if c3 == '0' && c4 == '0' {
                        let code = 16 * h1 + h2;
                        let decoded = (code as u8) as char;
                        let ghost prev = out@;
                        crate::numstr::push_char(&mut out, decoded);
                        proof {
                            assert(out@ =~= prev + seq![decoded]);
                            if let Some(p) = parse_string_body(s@, i + 6) {
                                assert(prev + (seq![decoded] + p.0) =~= out@ + p.0);
                            }
                        }
                        i = i + 6;
                    } else {
                        return None;
                    }
                } else {
                    return None;
                }
            } else {
                return None;
            }
        } else {
            let v = c as u32;
            if v < 32 {
                return None;
            }
            let ghost prev = out@;
            crate::numstr::push_char(&mut out, c);
            proof {
                assert(out@ =~= prev + seq![s@[i as int]]);
                if let Some(p) = parse_string_body(s@, i + 1) {
                    assert(prev + (seq![s@[i as int]] + p.0) =~= out@ + p.0);
                }
            }
            i = i + 1;
        }
    }
}

/// Parsing an escaped content followed by a closing quote recovers the
/// content exactly and stops just past the quote.
pub proof fn lemma_parse_escaped(s: Seq<char>, x: Seq<char>, i: int)
    requires
        0 <= i,
        i + escape_str(x).len() + 1 <= s.len(),
        s.subrange(i, i + escape_str(x).len() + 1) == escape_str(x) + seq!['"'],
    ensures
        parse_string_body(s, i) == Some((x, i + escape_str(x).len() + 1)),
    decreases x.len(),
{
    let n = escape_str(x).len() as int;
    let whole = escape_str(x) + seq!['"'];
    if x.len() == 0 {
        assert(escape_str(x) == Seq::<char>::empty());
        assert(s.subrange(i, i + n + 1)[0] == s[i + 0]);
        assert(s[i] == '"');
        assert(x =~= Seq::<char>::empty());
    } else {
        let c = x.first();
        let e = esc_char(c);
        let rest = escape_str(x.drop_first());
        assert(escape_str(x) == e + rest);
        let j = i + e.len();
        assert forall|k: int|
            0 <= k < rest.len() + 1 implies s.subrange(j, j + rest.len() + 1)[k] == (rest
            + seq!['"'])[k] by {
            assert(s.subrange(j, j + rest.len() + 1)[k] == s[j + k]);
            assert(s.subrange(i, i + n + 1)[e.len() + k] == s[i + (e.len() as int + k)]);
            assert(whole[e.len() + k] == (rest + seq!['"'])[k]);
        }
        assert(s.subrange(j, j + rest.len() + 1) =~= rest + seq!['"']);
        lemma_parse_escaped(s, x.drop_first(), j);
        assert forall|k: int| 0 <= k < e.len() implies s[i + k] == e[k] by {
            assert(s.subrange(i, i + n + 1)[k] == s[i + k]);
            assert(whole[k] == e[k]);
        }
        if c == '"' {
            assert(s[i + 0] == e[0] && s[i + 1] == e[1]);
            assert(s[i] == '\\' && s[i + 1] == '"');
            assert(seq![s[i + 1]] + x.drop_first() =~= x);
        } else if c == '\\' {
            assert(s[i + 0] == e[0] && s[i + 1] == e[1]);
            assert(s[i] == '\\' && s[i + 1] == '\\');
            assert(seq![s[i + 1]] + x.drop_first() =~= x);
        } else if c == '\u{0008}' || c == '\u{0009}' || c == '\u{000a}' || c == '\u{000c}'
            || c == '\u{000d}' {
            assert(s[i + 0] == e[0] && s[i + 1] == e[1]);
            assert(s[i] == '\\');
            assert(is_short_escape(s[i + 1]));
            assert(short_escape_char(s[i + 1]) == c);
            assert(seq![short_escape_char(s[i + 1])] + x.drop_first() =~= x);
        } else if is_control(c) {
            let v = c as u32 as int;
            lemma_hex_char_value(v / 16);
            lemma_hex_char_value(v % 16);
            assert(s[i + 0] == e[0] && s[i + 1] == e[1] && s[i + 2] == e[2] && s[i + 3] == e[3]
                && s[i + 4] == e[4] && s[i + 5] == e[5]);
            assert(s[i] == '\\' && s[i + 1] == 'u' && s[i + 2] == '0' && s[i + 3] == '0');
            assert(s[i + 4] == hex_char(v / 16) && s[i + 5] == hex_char(v % 16));
            assert(16 * hex_value(s[i + 4]) + hex_value(s[i + 5]) == v);
            let code = 16 * hex_value(s[i + 4]) + hex_value(s[i + 5]);
            let decoded = (code as u8) as char;
            assert((decoded as u32) == v);
            vstd::utf8::char_u32_cast(c, c as u32);
            vstd::utf8::char_u32_cast(decoded, decoded as u32);
            assert(decoded == c);
            assert(seq![decoded] + x.drop_first() =~= x);
        } else {
            assert(s[i + 0] == e[0]);
            assert(s[i] == c);
            assert(seq![s[i]] + x.drop_first() =~= x);
        }
    }
}

/// Whether `lit` occurs verbatim at position `i` of `s`.
pub open spec fn matches_at(s: Seq<char>, i: int, lit: Seq<char>) -> bool {
    0 <= i && i + lit.len() <= s.len() && s.subrange(i, i + lit.len()) == lit
}

/// Match `lit` at `start`, yielding the position just past it.
pub fn expect_lit(s: &str, start: usize, lit: &str) -> (r: Option<usize>)
    requires
        start <= s@.len(),
    ensures
        r is Some <==> matches_at(s@, start as int, lit@),
        r matches Some(k) ==> k == start + lit@.len(),
{
    let len = s.unicode_len();
    let llen = lit.unicode_len();
    if llen > len - start {
        return None;
    }
    let mut j: usize = 0;
    while j < llen
        invariant
            j <= llen,
            len == s@.len(),
            llen == lit@.len(),
            start + llen <= len,
            forall|k: int| 0 <= k < j ==> s@[start + k] == lit@[k],
        decreases llen - j,
    {
        let a = s.get_char(start + j);
        let b = lit.get_char(j);
        if a != b {
            proof {
                assert(!matches_at(s@, start as int, lit@)) by {
                    if matches_at(s@, start as int, lit@) {
                        assert(s@.subrange(start as int, start + llen)[j as int] == s@[start + j]);
                    }
                }
            }
            return None;
        }
        j = j + 1;
    }
    proof {
        assert forall|k: int|
            0 <= k < llen implies s@.subrange(start as int, start + llen)[k] == lit@[k] by {
            assert(s@.subrange(start as int, start + llen)[k] == s@[start + k]);
        }
        assert(s@.subrange(start as int, start + llen) =~= lit@);
    }
    Some(start + llen)
}

/// The end of the digit run beginning at `i`.
pub open spec fn digits_end(s: Seq<char>, i: int) -> int
    decreases s.len() - i,
{
    if 0 <= i && i < s.len() && is_dec_digit(s[i]) {
        digits_end(s, i + 1)
    } else {
        i
    }
}

/// What a digit run at `i` ends at, characterized without recursion.
pub proof fn lemma_digits_end_run(s: Seq<char>, i: int, e: int)
    requires
        0 <= i <= e <= s.len(),
        forall|k: int| i <= k < e ==> is_dec_digit(#[trigger] s[k]),
        e == s.len() || !is_dec_digit(s[e]),
    ensures
        digits_end(s, i) == e,
    decreases e - i,
{
    if i < e {
        lemma_digits_end_run(s, i + 1, e);
    }
}

/// Digit-run bounds and contents.
pub proof fn lemma_digits_end_facts(s: Seq<char>, i: int)
    requires
        0 <= i <= s.len(),
    ensures
        i <= digits_end(s, i) <= s.len(),
        forall|k: int| i <= k < digits_end(s, i) ==> is_dec_digit(#[trigger] s[k]),
        digits_end(s, i) == s.len() || !is_dec_digit(s[digits_end(s, i)]),
    decreases s.len() - i,
{
    if i < s.len() && is_dec_digit(s[i]) {
        lemma_digits_end_facts(s, i + 1);
    }
}

/// What the strict parser yields for a decimal number at `i`: its value
/// and the position just past its digits.
pub open spec fn parse_number_at(s: Seq<char>, i: int) -> Option<(u64, int)> {
    let e = digits_end(s, i);
    if e > i && digits_val(s.subrange(i, e)) <= u64::MAX {
        Some((digits_val(s.subrange(i, e)) as u64, e))
    } else {
        None
    }
}

/// Parsing the canonical rendering of `n` recovers `n`, provided the text
/// goes on with something other than a digit.
pub proof fn lemma_parse_number(s: Seq<char>, n: u64, i: int)
    requires
        0 <= i,
        i + u64_digits(n).len() <= s.len(),
        s.subrange(i, i + u64_digits(n).len()) == u64_digits(n),
        i + u64_digits(n).len() == s.len() || !is_dec_digit(s[i + u64_digits(n).len()]),
    ensures
        parse_number_at(s, i) == Some((n, i + u64_digits(n).len())),
{
    let d = u64_digits(n);
    crate::numstr::lemma_u64_digits_are_digits(n);
    crate::numstr::lemma_u64_digits_val(n);
    assert forall|k: int| i <= k < i + d.len() implies is_dec_digit(#[trigger] s[k]) by {
        assert(s.subrange(i, i + d.len())[k - i] == s[k]);
    }
    lemma_digits_end_run(s, i, i + d.len());
}

/// Read a decimal number at `start`, exactly as `parse_number_at`
/// describes.
pub fn parse_number(s: &str, start: usize) -> (r: Option<(u64, usize)>)
    requires
        start <= s@.len(),
    ensures
        match parse_number_at(s@, start as int) {
            Some(p) => r matches Some(q) && q.0 == p.0 && q.1 == p.1,
            None => r is None,
        },
{
    let len = s.unicode_len();
    let mut i: usize = start;
    let mut acc: u64 = 0;
    loop
        invariant
            start <= i <= len,
            len == s@.len(),
            forall|k: int| start <= k < i ==> is_dec_digit(#[trigger] s@[k]),
            acc == digits_val(s@.subrange(start as int, i as int)),
        decreases len - i,
    {
        let c = if i < len {
            Some(s.get_char(i))
        } else {
            None
        };
        let d: u64 = match c {
            Some(ch) => {
                let v = ch as u32;
                if v < 48 || v > 57 {
                    proof {
                        lemma_digits_end_run(s@, start as int, i as int);
                        crate::numstr::lemma_digits_val_nonneg(
                            s@.subrange(start as int, i as int),
                        );
                    }
                    if i == start {
                        return None;
                    }
                    return Some((acc, i));
                }
                (v - 48) as u64
            },
            None => {
                proof {
                    lemma_digits_end_run(s@, start as int, i as int);
                    crate::numstr::lemma_digits_val_nonneg(s@.subrange(start as int, i as int));
                }
                if i == start {
                    return None;
                }
                return Some((acc, i));
            },
        };
        proof {
            assert(s@.subrange(start as int, i + 1).drop_last() =~= s@.subrange(
                start as int,
                i as int,
            ));
            assert(s@.subrange(start as int, i + 1).last() == s@[i as int]);
        }
        if acc > (u64::MAX - d) / 10 {
            proof {
                assert(acc * 10 + d > u64::MAX) by (nonlinear_arith)
                    requires
                        acc > (u64::MAX - d) / 10,
                        d < 10,
                ;
                lemma_digits_end_facts(s@, i + 1);
                let e = digits_end(s@, i + 1);
                lemma_digits_end_run(s@, start as int, e);
                let run = s@.subrange(start as int, e);
                assert(forall|k: int| 0 <= k < run.len() ==> is_dec_digit(#[trigger] run[k]));
                assert(s@.subrange(start as int, i + 1) =~= run.subrange(0, i + 1 - start));
                crate::numstr::lemma_digits_val_prefix_le(run, i + 1 - start);
            }
            return None;
        }
        proof {
            assert(acc * 10 + d <= u64::MAX) by (nonlinear_arith)
                requires
                    acc <= (u64::MAX - d) / 10,
                    d < 10,
            ;
        }
        acc = acc * 10 + d;
        i = i + 1;
    }
}

/// What the strict parser yields for a quoted string at `i`: the decoded
/// content and the position just past the closing quote.
pub open spec fn parse_quoted_at(s: Seq<char>, i: int) -> Option<(Seq<char>, int)> {
    if 0 <= i && i < s.len() && s[i] == '"' {
        parse_string_body(s, i + 1)
    } else {
        None
    }
}

/// Read a quoted string at `start`, exactly as `parse_quoted_at` describes.
pub fn parse_quoted(s: &str, start: usize) -> (r: Option<(String, usize)>)
    requires
        start <= s@.len(),
    ensures
        match parse_quoted_at(s@, start as int) {
            Some(p) => r matches Some(q) && q.0@ == p.0 && q.1 == p.1,
            None => r is None,
        },
{
    let len = s.unicode_len();
    if start < len && s.get_char(start) == '"' {
        parse_string_chunk(s, start + 1)
    } else {
        None
    }
}

/// Parsing the quoted, escaped form of `x` recovers `x`.
pub proof fn lemma_parse_quoted(s: Seq<char>, x: Seq<char>, i: int)
    requires
        0 <= i,
        i + quote_str(x).len() <= s.len(),
        s.subrange(i, i + quote_str(x).len()) == quote_str(x),
    ensures
        parse_quoted_at(s, i) == Some((x, i + quote_str(x).len())),
{
    let q = quote_str(x);
    assert(s.subrange(i, i + q.len())[0] == s[i]);
    assert(q[0] == '"');
    assert forall|k: int|
        0 <= k < escape_str(x).len() + 1 implies s.subrange(i + 1, i + 1 + escape_str(x).len()
        + 1)[k] == (escape_str(x) + seq!['"'])[k] by {
        assert(s.subrange(i + 1, i + 1 + escape_str(x).len() + 1)[k] == s[i + 1 + k]);
        assert(s.subrange(i, i + q.len())[1 + k] == s[i + (1 + k)]);
        assert(q[1 + k] == (escape_str(x) + seq!['"'])[k]);
    }
    assert(s.subrange(i + 1, i + 1 + escape_str(x).len() + 1) =~= escape_str(x) + seq!['"']);
    lemma_parse_escaped(s, x, i + 1);
}

/// The comma-separated quoted items of a JSON string array.
pub open spec fn encode_items(items: Seq<Seq<char>>) -> Seq<char>
    decreases items.len(),
{
    if items.len() == 0 {
        Seq::empty()
    } else if items.len() == 1 {
        quote_str(items.first())
    } else {
        quote_str(items.first()) + seq![','] + encode_items(items.drop_first())
    }
}

/// A JSON array of strings: the bracketed, comma-separated quoted items.
pub open spec fn encode_str_array(items: Seq<Seq<char>>) -> Seq<char> {
    seq!['['] + encode_items(items) + seq![']']
}

/// Encoding one more item appends a comma (when needed) and its quoted form.
pub proof fn lemma_encode_items_snoc(items: Seq<Seq<char>>, y: Seq<char>)
    ensures
        encode_items(items.push(y)) == if items.len() == 0 {
            quote_str(y)
        } else {
            encode_items(items) + seq![','] + quote_str(y)
        },
    decreases items.len(),
{
    if items.len() == 0 {
        assert(items.push(y).len() == 1);
        assert(items.push(y).first() == y);
    } else {
        assert(items.push(y).first() == items.first());
        assert(items.push(y).drop_first() =~= items.drop_first().push(y));
        lemma_encode_items_snoc(items.drop_first(), y);
        if items.len() == 1 {
            assert(encode_items(items.push(y)) =~= encode_items(items) + seq![','] + quote_str(
                y,
            ));
        } else {
            assert(encode_items(items.push(y)) =~= encode_items(items) + seq![','] + quote_str(
                y,
            ));
        }
    }
}

/// What the strict parser yields for the items of a non-empty string
/// array at `i` (`i` standing on the first quote): the decoded items and
/// the position just past the closing bracket.
pub open spec fn parse_array_items(s: Seq<char>, i: int) -> Option<(Seq<Seq<char>>, int)>
    decreases s.len() - i,
{
    if i < 0 || i >= s.len() || s[i] != '"' {
        None
    } else {
        match parse_string_body(s, i + 1) {
            Some(p) => {
                let k = p.1;
                if k < s.len() && s[k] == ']' {
                    Some((seq![p.0], k + 1))
                } else if k < s.len() && s[k] == ',' && k + 1 > i {
                    match parse_array_items(s, k + 1) {
                        Some(q) => Some((seq![p.0] + q.0, q.1)),
                        None => None,
                    }
                } else {
                    None
                }
            },
            None => None,
        }
    }
}

/// What the strict parser yields for a string array at `i`.
pub open spec fn parse_str_array(s: Seq<char>, i: int) -> Option<(Seq<Seq<char>>, int)> {
    if 0 <= i && i + 1 < s.len() && s[i] == '[' {
        if s[i + 1] == ']' {
            Some((Seq::empty(), i + 2))
        } else {
            parse_array_items(s, i + 1)
        }
    } else {
        None
    }
}

/// Parsing encoded items followed by a closing bracket recovers the items.
proof fn lemma_parse_items(s: Seq<char>, items: Seq<Seq<char>>, i: int)
    requires
        items.len() > 0,
        0 <= i,
        i + encode_items(items).len() + 1 <= s.len(),
        s.subrange(i, i + encode_items(items).len() + 1) == encode_items(items) + seq![']'],
    ensures
        parse_array_items(s, i) == Some((items, i + encode_items(items).len() + 1)),
    decreases items.len(),
{
    let enc = encode_items(items);
    let whole = enc + seq![']'];
    let x = items.first();
    let q = quote_str(x);
    assert forall|j: int| 0 <= j < whole.len() implies s[i + j] == whole[j] by {
        assert(s.subrange(i, i + enc.len() + 1)[j] == s[i + j]);
    }
    assert(s[i + 0] == whole[0]);
    assert(whole[0] == q[0]);
    assert(s[i] == '"');
    assert forall|k: int|
        0 <= k < escape_str(x).len() + 1 implies s.subrange(i + 1, i + 1 + escape_str(x).len()
        + 1)[k] == (escape_str(x) + seq!['"'])[k] by {
        assert(s.subrange(i + 1, i + 1 + escape_str(x).len() + 1)[k] == s[i + (1 + k)]);
        assert(whole[1 + k] == q[1 + k]);
        assert(q[1 + k] == (escape_str(x) + seq!['"'])[k]);
    }
    assert(s.subrange(i + 1, i + 1 + escape_str(x).len() + 1) =~= escape_str(x) + seq!['"']);
    lemma_parse_escaped(s, x, i + 1);
    let k = i + q.len();
    assert(parse_string_body(s, i + 1) == Some((x, k)));
    if items.len() == 1 {
        assert(enc == q);
        assert(s[i + q.len() as int] == whole[q.len() as int]);
        assert(whole[q.len() as int] == ']');
        assert(seq![x] =~= items);
    } else {
        let tail = encode_items(items.drop_first());
        assert(enc == q + seq![','] + tail);
        assert(s[i + q.len() as int] == whole[q.len() as int]);
        assert(whole[q.len() as int] == ',');
        assert(s[k] == ',');
        assert forall|j: int|
            0 <= j < tail.len() + 1 implies s.subrange(k + 1, k + 1 + tail.len() + 1)[j] == (tail
            + seq![']'])[j] by {
            assert(s.subrange(k + 1, k + 1 + tail.len() + 1)[j] == s[i + (q.len() + 1 + j)]);
            assert(whole[q.len() + 1 + j] == (tail + seq![']'])[j]);
        }
        assert(s.subrange(k + 1, k + 1 + tail.len() + 1) =~= tail + seq![']']);
        lemma_parse_items(s, items.drop_first(), k + 1);
        assert(seq![x] + items.drop_first() =~= items);
    }
}

/// Parsing the encoded form of a string array recovers the items exactly.
pub proof fn lemma_parse_str_array(s: Seq<char>, items: Seq<Seq<char>>, i: int)
    requires
        0 <= i,
        i + encode_str_array(items).len() <= s.len(),
        s.subrange(i, i + encode_str_array(items).len()) == encode_str_array(items),
    ensures
        parse_str_array(s, i) == Some((items, i + encode_str_array(items).len())),
{
    let enc = encode_str_array(items);
    assert forall|j: int| 0 <= j < enc.len() implies s[i + j] == enc[j] by {
        assert(s.subrange(i, i + enc.len())[j] == s[i + j]);
    }
    assert(s[i + 0] == enc[0]);
    assert(s[i] == '[');
    if items.len() == 0 {
        assert(encode_items(items) == Seq::<char>::empty());
        assert(s[i + 1] == enc[1]);
        assert(enc[1] == ']');
        assert(Seq::<Seq<char>>::empty() =~= items);
    } else {
        assert(s[i + 1] == enc[1]);
        assert(enc[1] == encode_items(items)[0]);
        assert(encode_items(items)[0] == quote_str(items.first())[0]);
        assert(s[i + 1] == '"');
        assert forall|j: int|
            0 <= j < encode_items(items).len() + 1 implies s.subrange(
            i + 1,
            i + 1 + encode_items(items).len() + 1,
        )[j] == (encode_items(items) + seq![']'])[j] by {
            assert(s.subrange(i + 1, i + 1 + encode_items(items).len() + 1)[j] == s[i + (1 + j)]);
            assert(enc[1 + j] == (encode_items(items) + seq![']'])[j]);
        }
        assert(s.subrange(i + 1, i + 1 + encode_items(items).len() + 1) =~= encode_items(items)
            + seq![']']);
        lemma_parse_items(s, items, i + 1);
    }
}

/// Append the encoded form of a string array.
pub fn append_str_array(out: &mut String, items: &Vec<String>)
    ensures
        final(out)@ == old(out)@ + encode_str_array(items.deep_view()),
{
    crate::numstr::push_char(out, '[');
    let ghost dv = items.deep_view();
    let mut i: usize = 0;
    while i < items.len()
        invariant
            i <= items.len(),
            dv == items.deep_view(),
            dv.len() == items@.len(),
            out@ == old(out)@ + seq!['['] + encode_items(dv.take(i as int)),
        decreases items.len() - i,
    {
        proof {
            assert(dv.take(i + 1) =~= dv.take(i as int).push(dv[i as int]));
            lemma_encode_items_snoc(dv.take(i as int), dv[i as int]);
            assert(dv[i as int] == items@[i as int]@);
        }
        if i > 0 {
            crate::numstr::push_char(out, ',');
        } else {
            proof {
                assert(dv.take(0int).len() == 0);
                assert(encode_items(dv.take(0int)) == Seq::<char>::empty());
            }
        }
        append_quoted(out, items[i].as_str());
        proof {
            assert(out@ =~= old(out)@ + seq!['['] + encode_items(dv.take(i + 1)));
        }
        i = i + 1;
    }
    crate::numstr::push_char(out, ']');
    proof {
        assert(dv.take(items@.len() as int) =~= dv);
        assert(out@ =~= old(out)@ + encode_str_array(dv));
    }
}

/// Read a string array at `start`, exactly as `parse_str_array` describes.
pub fn parse_string_array(s: &str, start: usize) -> (r: Option<(Vec<String>, usize)>)
    requires
        start <= s@.len(),
    ensures
        match parse_str_array(s@, start as int) {
            Some(p) => r matches Some(q) && q.0.deep_view() == p.0 && q.1 == p.1,
            None => r is None,
        },
{
    let len = s.unicode_len();
    if len - start < 2 || s.get_char(start) != '[' {
        return None;
    }
    if s.get_char(start + 1) == ']' {
        let empty: Vec<String> = Vec::new();
        proof {
            assert(empty.deep_view() =~= Seq::<Seq<char>>::empty());
        }
        return Some((empty, start + 2));
    }
    let mut items: Vec<String> = Vec::new();
    let mut i: usize = start + 1;
    loop
        invariant
            start + 1 <= i <= len,
            len == s@.len(),
            parse_str_array(s@, start as int) == parse_array_items(s@, (start + 1) as int),
            parse_array_items(s@, (start + 1) as int) == (match parse_array_items(
                s@,
                i as int,
            ) {
                Some(p) => Some((items.deep_view() + p.0, p.1)),
                None => None::<(Seq<Seq<char>>, int)>,
            }),
        decreases len - i,
    {
        if i >= len {
            return None;
        }
        if s.get_char(i) != '"' {
            return None;
        }
        let chunk = match parse_string_chunk(s, i + 1) {
            Some(c) => c,
            None => {
                return None;
            },
        };
        let content = chunk.0;
        let k = chunk.1;
        proof {
            lemma_parse_string_body_bounds(s@, i + 1);
        }
        let ghost old_items = items.deep_view();
        items.push(content);
        proof {
            assert(items.deep_view() =~= old_items.push(items@[items@.len() - 1]@));
        }
        if k >= len {
            return None;
        }
        let c = s.get_char(k);
        if c == ']' {
            proof {
                assert(items.deep_view() =~= old_items + seq![items@[items@.len() - 1]@]);
            }
            return Some((items, k + 1));
        } else if c == ',' {
            proof {
                if let Some(q) = parse_array_items(s@, k + 1) {
                    assert(old_items + (seq![items@[items@.len() - 1]@] + q.0) =~= items.deep_view()
                        + q.0);
                }
            }
            i = k + 1;
        } else {
            return None;
        }
    }
}

/// A parsed item list ends past where it began and within the input.
pub proof fn lemma_parse_array_items_bounds(s: Seq<char>, i: int)
    ensures
        parse_array_items(s, i) matches Some(p) ==> i < p.1 <= s.len(),
    decreases s.len() - i,
{
    if 0 <= i && i < s.len() && s[i] == '"' {
        lemma_parse_string_body_bounds(s, i + 1);
        match parse_string_body(s, i + 1) {
            Some(p) => {
                let k = p.1;
                if k < s.len() && s[k] == ']' {
                } else if k < s.len() && s[k] == ',' && k + 1 > i {
                    lemma_parse_array_items_bounds(s, k + 1);
                }
            },
            None => {},
        }
    }
}

/// A parsed string array ends past where it began and within the input.
pub proof fn lemma_parse_str_array_bounds(s: Seq<char>, i: int)
    ensures
        parse_str_array(s, i) matches Some(p) ==> i < p.1 <= s.len(),
{
    if 0 <= i && i + 1 < s.len() && s[i] == '[' && s[i + 1] != ']' {
        lemma_parse_array_items_bounds(s, i + 1);
    }
}

/// A literal match at `i`, yielding the position just past it.
pub open spec fn parse_lit_at(s: Seq<char>, i: int, lit: Seq<char>) -> Option<int> {
    if matches_at(s, i, lit) {
        Some(i + lit.len() as int)
    } else {
        None
    }
}

/// The offset of the `k`-th piece inside the concatenation of `pieces`.
pub open spec fn cat_offset(pieces: Seq<Seq<char>>, k: int) -> int
    decreases k,
{
    if k <= 0 {
        0
    } else {
        cat_offset(pieces, k - 1) + pieces[k - 1].len()
    }
}

/// Offsets shift by the first piece's length when that piece is dropped.
pub proof fn lemma_cat_offset_shift(pieces: Seq<Seq<char>>, k: int)
    requires
        1 <= k <= pieces.len(),
    ensures
        cat_offset(pieces, k) == pieces[0].len() + cat_offset(pieces.drop_first(), k - 1),
    decreases k,
{
    if k == 1 {
        assert(cat_offset(pieces, 0) == 0);
        assert(cat_offset(pieces.drop_first(), 0) == 0);
    } else {
        lemma_cat_offset_shift(pieces, k - 1);
        assert(pieces.drop_first()[k - 2] == pieces[k - 1]);
        assert(cat_offset(pieces.drop_first(), k - 1) == cat_offset(pieces.drop_first(), k - 2)
            + pieces.drop_first()[k - 2].len());
    }
}

/// The offset past the last piece is the length of the concatenation.
pub proof fn lemma_cat_total_len(pieces: Seq<Seq<char>>)
    ensures
        cat_offset(pieces, pieces.len() as int) == pieces.flatten().len(),
    decreases pieces.len(),
{
    if pieces.len() > 0 {
        lemma_cat_total_len(pieces.drop_first());
        lemma_cat_offset_shift(pieces, pieces.len() as int);
    }
}

/// Every piece occurs verbatim at its offset inside the concatenation.
pub proof fn lemma_flatten_piece(pieces: Seq<Seq<char>>, k: int)
    requires
        0 <= k < pieces.len(),
    ensures
        matches_at(pieces.flatten(), cat_offset(pieces, k), pieces[k]),
    decreases k,
{
    let s = pieces.flatten();
    let rest = pieces.drop_first().flatten();
    assert(s == pieces.first() + rest);
    if k == 0 {
        assert forall|j: int|
            0 <= j < pieces[0].len() implies s.subrange(0, pieces[0].len() as int)[j]
            == pieces[0][j] by {
            assert(s.subrange(0, pieces[0].len() as int)[j] == s[j]);
            assert(s[j] == (pieces.first() + rest)[j]);
        }
        assert(s.subrange(0, pieces[0].len() as int) =~= pieces[0]);
    } else {
        lemma_flatten_piece(pieces.drop_first(), k - 1);
        lemma_cat_offset_shift(pieces, k);
        let off = cat_offset(pieces.drop_first(), k - 1);
        let piece = pieces.drop_first()[k - 1];
        assert(piece == pieces[k]);
        let lo = pieces[0].len() + off;
        assert forall|j: int|
            0 <= j < piece.len() implies s.subrange(lo as int, lo + piece.len())[j] == piece[j] by {
            assert(s.subrange(lo as int, lo + piece.len())[j] == s[lo + j]);
            assert(s[lo + j] == (pieces.first() + rest)[lo + j]);
            assert(rest[off + j] == rest.subrange(off, off + piece.len())[j]);
        }
        assert(s.subrange(lo as int, lo + piece.len()) =~= piece);
    }
}

} // verus!

