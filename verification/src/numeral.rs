//! Decimal and hexadecimal numerals: parsing as the standard library's
//! `from_str_radix` does it, and decimal formatting as `Display` does it.

use vstd::prelude::*;

verus! {

/// The value of `c` as a digit in base `radix` (letters of either case count
/// from ten upwards), or `None` where `c` is no such digit.
pub open spec fn char_digit(c: char, radix: nat) -> Option<nat> {
    let v = c as int;
    let d: int = if 48 <= v <= 57 {
        v - 48
    } else if 97 <= v <= 122 {
        v - 87
    } else if 65 <= v <= 90 {
        v - 55
    } else {
        radix as int
    };
    if d < radix {
        Some(d as nat)
    } else {
        None
    }
}

/// The value of a string of digits in base `radix`, most significant first;
/// `None` when some character is not a digit. The empty string has value zero.
pub open spec fn digits_value(s: Seq<char>, radix: nat) -> Option<nat>
    decreases s.len(),
{
    if s.len() == 0 {
        Some(0)
    } else {
        match (digits_value(s.drop_last(), radix), char_digit(s.last(), radix)) {
            (Some(v), Some(d)) => Some(v * radix + d),
            _ => None,
        }
    }
}

/// What `from_str_radix` gives for `s`: an optional `+` (or, for a signed
/// type, `-`) followed by at least one digit, whose value lies in `min..=max`.
pub open spec fn spec_from_str_radix(s: Seq<char>, radix: nat, signed: bool, min: int, max: int) -> Option<int> {
    if s.len() == 0 {
        None
    } else if (s[0] == '+' || s[0] == '-') && s.len() == 1 {
        None
    } else {
        let negative = signed && s[0] == '-';
        let digits = if s[0] == '+' || negative { s.drop_first() } else { s };
        match digits_value(digits, radix) {
            Some(v) => {
                let value = if negative { -(v as int) } else { v as int };
                if min <= value <= max {
                    Some(value)
                } else {
                    None
                }
            },
            None => None,
        }
    }
}

/// The characters of `s`, in order.
pub fn chars_of(s: &str) -> (r: Vec<char>)
    ensures
        r@ == s@,
{
    let mut r: Vec<char> = Vec::new();
    broadcast use vstd::string::group_string_axioms;
    for c in it: s.chars()
        invariant
            it.seq() == s@,
            r@ == s@.take(it.index() as int),
    {
        r.push(c);
    }
    assert(r@ == s@);
    r
}

/// Every prefix of a string of digits is a string of digits, of no greater value.
pub proof fn lemma_digits_prefix(s: Seq<char>, k: int, radix: nat)
    requires
        0 <= k <= s.len(),
        radix >= 1,
        digits_value(s, radix) is Some,
    ensures
        digits_value(s.take(k), radix) is Some,
        digits_value(s.take(k), radix)->0 <= digits_value(s, radix)->0,
    decreases s.len(),
{
    if k == s.len() {
        assert(s.take(k) =~= s);
    } else {
        let t = s.drop_last();
        assert(t.take(k) =~= s.take(k));
        lemma_digits_prefix(t, k, radix);
        let v = digits_value(t, radix)->0;
        let d = char_digit(s.last(), radix)->0;
        assert(v <= v * radix + d) by (nonlinear_arith)
            requires radix >= 1;
    }
}

/// Extending a string of digits by one character.
proof fn lemma_digits_step(s: Seq<char>, i: int, radix: nat)
    requires
        0 <= i < s.len(),
    ensures
        digits_value(s.take(i + 1), radix) == (match (digits_value(s.take(i), radix), char_digit(s[i], radix)) {
            (Some(v), Some(d)) => Some(v * radix + d),
            _ => None,
        }),
{
    assert(s.take(i + 1).drop_last() =~= s.take(i));
}

/// Exec counterpart of `char_digit`.
fn digit_of(c: char, radix: u32) -> (r: Option<u32>)
    requires
        2 <= radix <= 36,
    ensures
        match r {
            Some(d) => char_digit(c, radix as nat) == Some(d as nat),
            None => char_digit(c, radix as nat) is None,
        },
{
    let v = c as u32;
    let d: u32 = if 48 <= v && v <= 57 {
        v - 48
    } else if 97 <= v && v <= 122 {
        v - 87
    } else if 65 <= v && v <= 90 {
        v - 55
    } else {
        radix
    };
    if d < radix {
        Some(d)
    } else {
        None
    }
}

/// `from_str_radix` on a sequence of characters, for bounds `min..=max`.
#[verifier::loop_isolation(false)]
fn parse_radix(cs: &Vec<char>, radix: u32, signed: bool, min: i128, max: i128) -> (r: Option<i128>)
    requires
        2 <= radix <= 36,
        -0x1_0000_0000_0000_0000 <= min <= 0 <= max <= 0x1_0000_0000_0000_0000,
    ensures
        match r {
            Some(v) => spec_from_str_radix(cs@, radix as nat, signed, min as int, max as int) == Some(v as int),
            None => spec_from_str_radix(cs@, radix as nat, signed, min as int, max as int) is None,
        },
{
    let n = cs.len();
    if n == 0 {
        return None;
    }
    let first = cs[0];
    if (first == '+' || first == '-') && n == 1 {
        return None;
    }
    let negative = signed && first == '-';
    let start: usize = if first == '+' || negative { 1 } else { 0 };
    let limit: u128 = if negative { (-min) as u128 } else { max as u128 };
    let ghost digits = if first == '+' || negative { cs@.drop_first() } else { cs@ };
    assert(digits =~= cs@.subrange(start as int, n as int));
    assert(digits.take(0) =~= Seq::<char>::empty());
    let mut acc: u128 = 0;
    let mut i: usize = start;
    while i < n
        invariant
            start <= i <= n,
            n == cs@.len(),
            2 <= radix <= 36,
            limit <= 0x1_0000_0000_0000_0000,
            digits =~= cs@.subrange(start as int, n as int),
            digits_value(digits.take(i - start), radix as nat) == Some(acc as nat),
            acc <= limit,
        decreases n - i,
    {
        proof {
            lemma_digits_step(digits, i - start, radix as nat);
        }
        match digit_of(cs[i], radix) {
            None => {
                proof {
                    if digits_value(digits, radix as nat) is Some {
                        lemma_digits_prefix(digits, i - start + 1, radix as nat);
                    }
                }
                return None;
            },
            Some(d) => {
                assert(acc * radix <= 0x1_0000_0000_0000_0000 * 36) by (nonlinear_arith)
                    requires
                        acc <= 0x1_0000_0000_0000_0000,
                        radix <= 36,
                ;
                let next = acc * (radix as u128) + (d as u128);
                if next > limit {
                    proof {
                        if digits_value(digits, radix as nat) is Some {
                            lemma_digits_prefix(digits, i - start + 1, radix as nat);
                        }
                    }
                    return None;
                }
                acc = next;
                i = i + 1;
            },
        }
    }
    assert(digits.take(n - start) =~= digits);
    if negative {
        Some(-(acc as i128))
    } else {
        Some(acc as i128)
    }
}

/// What `str::parse::<u16>` gives for `s`.
pub open spec fn spec_parse_u16(s: Seq<char>) -> Option<u16> {
    match spec_from_str_radix(s, 10, false, 0, 0xffff) {
        Some(v) => Some(v as u16),
        None => None,
    }
}

/// What `i64::from_str_radix(s, 16)` gives for `s`.
pub open spec fn spec_parse_i64_hex(s: Seq<char>) -> Option<i64> {
    match spec_from_str_radix(s, 16, true, i64::MIN as int, i64::MAX as int) {
        Some(v) => Some(v as i64),
        None => None,
    }
}

/// Parses a decimal `u16` (an optional `+`, then ASCII digits), `None` on any
/// other text or on a value above `u16::MAX`.
pub fn parse_u16_decimal(s: &str) -> (r: Option<u16>)
    ensures
        r == spec_parse_u16(s@),
{
    let cs = chars_of(s);
    match parse_radix(&cs, 10, false, 0, 0xffff) {
        Some(v) => Some(v as u16),
        None => None,
    }
}

/// Parses a signed hexadecimal `i64` (an optional `+` or `-`, then digits
/// `0-9`, `a-f`, `A-F`), `None` on any other text or on a value out of range.
pub fn parse_i64_hex(s: &str) -> (r: Option<i64>)
    ensures
        r == spec_parse_i64_hex(s@),
{
    let cs = chars_of(s);
    match parse_radix(&cs, 16, true, i64::MIN as i128, i64::MAX as i128) {
        Some(v) => Some(v as i64),
        None => None,
    }
}

/// The character of the decimal digit `d`.
pub open spec fn digit_char(d: nat) -> char {
    (48 + d) as char
}

/// The decimal numeral of `n`, without sign or leading zeros (`0` for zero),
/// as `Display` writes an unsigned integer.
pub open spec fn decimal_text(n: nat) -> Seq<char>
    decreases n,
{
    if n < 10 {
        seq![digit_char(n)]
    } else {
        decimal_text(n / 10).push(digit_char(n % 10))
    }
}

fn digit_str(d: u64) -> (r: &'static str)
    requires
        d < 10,
    ensures
        r@ == seq![digit_char(d as nat)],
{
    match d {
        0 => {
            proof { reveal_strlit("0"); }
            "0"
        },
        1 => {
            proof { reveal_strlit("1"); }
            "1"
        },
        2 => {
            proof { reveal_strlit("2"); }
            "2"
        },
        3 => {
            proof { reveal_strlit("3"); }
            "3"
        },
        4 => {
            proof { reveal_strlit("4"); }
            "4"
        },
        5 => {
            proof { reveal_strlit("5"); }
            "5"
        },
        6 => {
            proof { reveal_strlit("6"); }
            "6"
        },
        7 => {
            proof { reveal_strlit("7"); }
            "7"
        },
        8 => {
            proof { reveal_strlit("8"); }
            "8"
        },
        _ => {
            proof { reveal_strlit("9"); }
            "9"
        },
    }
}

/// Appends the decimal numeral of `n` to `out`.
pub fn push_decimal(out: &mut String, n: u64)
    ensures
        final(out)@ == old(out)@ + decimal_text(n as nat),
    decreases n,
{
    if n >= 10 {
        push_decimal(out, n / 10);
    }
    out.append(digit_str(n % 10));
}

/// The decimal numeral of `v` as `Display` writes a signed integer: a minus
/// sign before the numeral of its magnitude when it is negative.
pub open spec fn signed_decimal_text(v: int) -> Seq<char> {
    if v < 0 {
        seq!['-'] + decimal_text((-v) as nat)
    } else {
        decimal_text(v as nat)
    }
}

/// Appends the decimal numeral of the signed `v` to `out`.
pub fn push_signed_decimal(out: &mut String, v: i64)
    ensures
        final(out)@ == old(out)@ + signed_decimal_text(v as int),
{
    if v < 0 {
        proof {
            reveal_strlit("-");
        }
        out.append("-");
        let magnitude = (0i128 - v as i128) as u64;
        push_decimal(out, magnitude);
        assert(final(out)@ =~= old(out)@ + signed_decimal_text(v as int));
    } else {
        push_decimal(out, v as u64);
    }
}

/// The decimal numeral of `n` is a nonempty string of digits of value `n`.
pub proof fn lemma_decimal_text_value(n: nat)
    ensures
        decimal_text(n).len() >= 1,
        digits_value(decimal_text(n), 10) == Some(n),
        char_digit(decimal_text(n)[0], 10) is Some,
    decreases n,
{
    let d = n % 10;
    assert((48 + d) as char as int == 48 + d);
    assert(char_digit(digit_char(d), 10) == Some(d));
    let t = decimal_text(n);
    if n < 10 {
        assert(t.drop_last() =~= Seq::<char>::empty());
        assert(digits_value(t.drop_last(), 10) == Some(0nat));
        assert(t.last() == digit_char(d));
    } else {
        lemma_decimal_text_value(n / 10);
        assert(t.drop_last() =~= decimal_text(n / 10));
        assert(t.last() == digit_char(d));
        assert(n == (n / 10) * 10 + d);
        assert(t[0] == decimal_text(n / 10)[0]);
    }
}

/// Parsing the decimal numeral of a `u16` gives the number back.
pub proof fn lemma_parse_u16_of_decimal_text(n: u16)
    ensures
        spec_parse_u16(decimal_text(n as nat)) == Some(n),
{
    lemma_decimal_text_value(n as nat);
}

/// A one-character hexadecimal numeral reads as the value of its digit.
proof fn lemma_single_hex_digit(c: char)
    requires
        char_digit(c, 16) is Some,
    ensures
        spec_parse_i64_hex(seq![c]) == Some(char_digit(c, 16)->0 as i64),
{
    let t = seq![c];
    assert(t[0] == c);
    assert(('+' as int) == 43 && ('-' as int) == 45);
    assert(c != '+' && c != '-');
    assert(t.drop_last() =~= Seq::<char>::empty());
    assert(t.last() == c);
    assert(digits_value(t.drop_last(), 16) == Some(0nat));
    assert(digits_value(t, 16) == Some(char_digit(c, 16)->0));
}

/// A one-character decimal numeral reads as the value of its digit.
proof fn lemma_single_decimal_digit(c: char)
    requires
        char_digit(c, 10) is Some,
    ensures
        spec_parse_u16(seq![c]) == Some(char_digit(c, 10)->0 as u16),
{
    let t = seq![c];
    assert(t[0] == c);
    assert(('+' as int) == 43 && ('-' as int) == 45);
    assert(c != '+' && c != '-');
    assert(t.drop_last() =~= Seq::<char>::empty());
    assert(t.last() == c);
    assert(digits_value(t.drop_last(), 10) == Some(0nat));
    assert(digits_value(t, 10) == Some(char_digit(c, 10)->0));
}

/// The digit characters of `0123456789abcdef` and `0123456789ABCDEF` have the
/// values of their positions.
proof fn lemma_hex_char_value(d: int)
    requires
        0 <= d < 16,
    ensures
        char_digit("0123456789abcdef"@[d], 16) == Some(d as nat),
        char_digit("0123456789ABCDEF"@[d], 16) == Some(d as nat),
{
    reveal_strlit("0123456789abcdef");
    reveal_strlit("0123456789ABCDEF");
    if d == 0 {
        assert("0123456789abcdef"@[d] == '0' && "0123456789ABCDEF"@[d] == '0');
    } else if d == 1 {
        assert("0123456789abcdef"@[d] == '1' && "0123456789ABCDEF"@[d] == '1');
    } else if d == 2 {
        assert("0123456789abcdef"@[d] == '2' && "0123456789ABCDEF"@[d] == '2');
    } else if d == 3 {
        assert("0123456789abcdef"@[d] == '3' && "0123456789ABCDEF"@[d] == '3');
    } else if d == 4 {
        assert("0123456789abcdef"@[d] == '4' && "0123456789ABCDEF"@[d] == '4');
    } else if d == 5 {
        assert("0123456789abcdef"@[d] == '5' && "0123456789ABCDEF"@[d] == '5');
    } else if d == 6 {
        assert("0123456789abcdef"@[d] == '6' && "0123456789ABCDEF"@[d] == '6');
    } else if d == 7 {
        assert("0123456789abcdef"@[d] == '7' && "0123456789ABCDEF"@[d] == '7');
    } else if d == 8 {
        assert("0123456789abcdef"@[d] == '8' && "0123456789ABCDEF"@[d] == '8');
    } else if d == 9 {
        assert("0123456789abcdef"@[d] == '9' && "0123456789ABCDEF"@[d] == '9');
    } else if d == 10 {
        assert("0123456789abcdef"@[d] == 'a' && "0123456789ABCDEF"@[d] == 'A');
    } else if d == 11 {
        assert("0123456789abcdef"@[d] == 'b' && "0123456789ABCDEF"@[d] == 'B');
    } else if d == 12 {
        assert("0123456789abcdef"@[d] == 'c' && "0123456789ABCDEF"@[d] == 'C');
    } else if d == 13 {
        assert("0123456789abcdef"@[d] == 'd' && "0123456789ABCDEF"@[d] == 'D');
    } else if d == 14 {
        assert("0123456789abcdef"@[d] == 'e' && "0123456789ABCDEF"@[d] == 'E');
    } else if d == 15 {
        assert("0123456789abcdef"@[d] == 'f' && "0123456789ABCDEF"@[d] == 'F');
    }
}

/// Each hexadecimal digit, in lower and in upper case, reads as its value.
pub proof fn lemma_hex_digit_values()
    ensures
        forall|d: int|
            0 <= d < 16 ==> spec_parse_i64_hex(seq!["0123456789abcdef"@[d]]) == Some(d as i64)
                && spec_parse_i64_hex(seq!["0123456789ABCDEF"@[d]]) == Some(d as i64),
{
    assert forall|d: int| 0 <= d < 16 implies spec_parse_i64_hex(seq!["0123456789abcdef"@[d]]) == Some(
        d as i64,
    ) && spec_parse_i64_hex(seq!["0123456789ABCDEF"@[d]]) == Some(d as i64) by {
        lemma_hex_char_value(d);
        lemma_single_hex_digit("0123456789abcdef"@[d]);
        lemma_single_hex_digit("0123456789ABCDEF"@[d]);
    }
}

/// Appending the digit `d` to a hexadecimal numeral without sign multiplies
/// its value by sixteen and adds `d`, while the result fits an `i64`.
pub proof fn lemma_hex_append_digit(s: Seq<char>, v: i64, d: int)
    requires
        s.len() > 0,
        s[0] != '+' && s[0] != '-',
        spec_parse_i64_hex(s) == Some(v),
        0 <= d < 16,
        v * 16 + d <= i64::MAX,
    ensures
        spec_parse_i64_hex(s.push("0123456789abcdef"@[d])) == Some((v * 16 + d) as i64),
        spec_parse_i64_hex(s.push("0123456789ABCDEF"@[d])) == Some((v * 16 + d) as i64),
{
    lemma_hex_char_value(d);
    let lo = s.push("0123456789abcdef"@[d]);
    let up = s.push("0123456789ABCDEF"@[d]);
    assert(lo.drop_last() =~= s);
    assert(up.drop_last() =~= s);
    assert(lo[0] == s[0] && up[0] == s[0]);
}

/// Each decimal digit reads as its value.
pub proof fn lemma_decimal_digit_values()
    ensures
        forall|d: int| 0 <= d < 10 ==> spec_parse_u16(seq!["0123456789"@[d]]) == Some(d as u16),
{
    reveal_strlit("0123456789");
    assert forall|d: int| 0 <= d < 10 implies spec_parse_u16(seq!["0123456789"@[d]]) == Some(
        d as u16,
    ) by {
        let t = seq!["0123456789"@[d]];
        if d == 0 {
            assert(t[0] == '0');
        } else if d == 1 {
            assert(t[0] == '1');
        } else if d == 2 {
            assert(t[0] == '2');
        } else if d == 3 {
            assert(t[0] == '3');
        } else if d == 4 {
            assert(t[0] == '4');
        } else if d == 5 {
            assert(t[0] == '5');
        } else if d == 6 {
            assert(t[0] == '6');
        } else if d == 7 {
            assert(t[0] == '7');
        } else if d == 8 {
            assert(t[0] == '8');
        } else if d == 9 {
            assert(t[0] == '9');
        }
        lemma_single_decimal_digit(t[0]);
    }
}

/// The decimal numeral of a number above `u16::MAX` does not read as a `u16`.
pub proof fn lemma_parse_u16_refuses_large(n: nat)
    requires
        n > 0xffff,
    ensures
        spec_parse_u16(decimal_text(n)) is None,
{
    lemma_decimal_text_value(n);
}

/// A sign in front of a hexadecimal numeral without sign keeps (`+`) or
/// negates (`-`) its value.
pub proof fn lemma_hex_sign(s: Seq<char>, v: i64)
    requires
        s.len() > 0,
        s[0] != '+' && s[0] != '-',
        spec_parse_i64_hex(s) == Some(v),
    ensures
        spec_parse_i64_hex(seq!['+'] + s) == Some(v),
        spec_parse_i64_hex(seq!['-'] + s) == Some((-v) as i64),
{
    assert((seq!['+'] + s).drop_first() =~= s);
    assert((seq!['-'] + s).drop_first() =~= s);
    assert((seq!['+'] + s)[0] == '+');
    assert((seq!['-'] + s)[0] == '-');
}

} // verus!
