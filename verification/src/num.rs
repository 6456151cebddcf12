//! Unsigned integers written in decimal or hexadecimal, read and printed the
//! way `str::parse::<usize>`, `usize::from_str_radix` and `{}` / `{:x}` do.
use vstd::prelude::*;
use crate::text::{chars_of, is_ws, no_ws, push_char};

verus! {

/// The value of `c` as a digit in base `radix` (up to 16), if it is one.
pub open spec fn digit_value(c: char, radix: nat) -> Option<nat> {
    let u = c as u32 as int;
    if 48 <= u <= 57 && u - 48 < radix {
        Some((u - 48) as nat)
    } else if 97 <= u <= 102 && u - 87 < radix {
        Some((u - 87) as nat)
    } else if 65 <= u <= 70 && u - 55 < radix {
        Some((u - 55) as nat)
    } else {
        None
    }
}

/// The value of the digits `s` in base `radix`; `None` when one is not a digit.
pub open spec fn digits_value(s: Seq<char>, radix: nat) -> Option<nat>
    decreases s.len(),
{
    if s.len() == 0 {
        Some(0)
    } else {
        match (digits_value(s.drop_last(), radix), digit_value(s.last(), radix)) {
            (Some(v), Some(d)) => Some(v * radix + d),
            _ => None,
        }
    }
}

/// The digits that a number text holds: a leading `+` is dropped when digits follow it.
pub open spec fn unsigned_digits(s: Seq<char>) -> Seq<char> {
    if s.len() > 1 && s[0] == '+' {
        s.drop_first()
    } else {
        s
    }
}

/// The value of an unsigned number text in base `radix`, without a bound.
pub open spec fn unsigned_value(s: Seq<char>, radix: nat) -> Option<nat> {
    let d = unsigned_digits(s);
    if d.len() == 0 {
        None
    } else {
        digits_value(d, radix)
    }
}

/// What `usize::from_str_radix(s, radix)` gives, as an `Option`.
pub open spec fn parse_usize_radix(s: Seq<char>, radix: nat) -> Option<usize> {
    match unsigned_value(s, radix) {
        Some(n) => if n <= usize::MAX {
            Some(n as usize)
        } else {
            None
        },
        None => None,
    }
}

/// What `s.parse::<usize>().ok()` gives.
pub open spec fn parse_usize_spec(s: Seq<char>) -> Option<usize> {
    parse_usize_radix(s, 10)
}

/// The digit character for `d` (below 16), lower case.
pub open spec fn digit_char(d: nat) -> char {
    if d < 10 {
        (48 + d) as char
    } else {
        (87 + d) as char
    }
}

/// `n` written in base `radix` with no leading zeros (a single `0` for zero),
/// lower-case letters above nine.
pub open spec fn radix_text(n: nat, radix: nat) -> Seq<char>
    recommends
        2 <= radix <= 16,
    decreases n,
    when 2 <= radix
{
    if n < radix {
        seq![digit_char(n)]
    } else {
        proof {
            assert(n / radix < n) by (nonlinear_arith)
                requires
                    n >= radix,
                    radix >= 2,
            ;
        }
        radix_text(n / radix, radix).push(digit_char(n % radix))
    }
}

/// `n` in decimal, as `{}` prints it.
pub open spec fn decimal(n: nat) -> Seq<char> {
    radix_text(n, 10)
}

/// `n` in lower-case hexadecimal without padding, as `{:x}` prints it.
pub open spec fn hex(n: nat) -> Seq<char> {
    radix_text(n, 16)
}

fn digit_char_exec(d: u32) -> (c: char)
    requires
        d < 16,
    ensures
        c == digit_char(d as nat),
{
    if d < 10 {
        char_from_u32_ascii(48 + d)
    } else {
        char_from_u32_ascii(87 + d)
    }
}

/// The character with the given ASCII code.
fn char_from_u32_ascii(u: u32) -> (c: char)
    requires
        u < 128,
    ensures
        c == u as char,
{
    let b: u8 = u as u8;
    b as char
}

/// Appends `n`, written in base `radix`, to `s`.
fn push_radix(s: &mut String, n: u64, radix: u64)
    requires
        2 <= radix <= 16,
    ensures
        final(s)@ == old(s)@ + radix_text(n as nat, radix as nat),
    decreases n,
{
    let ghost s0 = s@;
    if n >= radix {
        assert(n / radix < n) by (nonlinear_arith)
            requires
                n >= radix,
                radix >= 2,
        ;
        push_radix(s, n / radix, radix);
    }
    let d = (n % radix) as u32;
    let c = digit_char_exec(d);
    push_char(s, c);
    proof {
        let t = radix_text(n as nat, radix as nat);
        assert(d as nat == (n % radix) as nat);
        if n < radix {
            assert(n % radix == n) by (nonlinear_arith)
                requires
                    n < radix,
            ;
            assert(t == seq![digit_char(n as nat)]);
            assert(s@ == s0 + t);
        } else {
            let q = radix_text((n / radix) as nat, radix as nat);
            assert(t == q.push(digit_char((n % radix) as nat)));
            assert(s@ == (s0 + q).push(c));
            assert((s0 + q).push(c) == s0 + q.push(c));
        }
    }
}

/// `n` in decimal.
pub fn decimal_string(n: usize) -> (s: String)
    ensures
        s@ == decimal(n as nat),
{
    let mut s = String::new();
    push_radix(&mut s, n as u64, 10);
    s
}

/// Appends `n` in decimal to `s`.
pub fn push_decimal(s: &mut String, n: usize)
    ensures
        final(s)@ == old(s)@ + decimal(n as nat),
{
    push_radix(s, n as u64, 10);
}

/// Appends the 64-bit `n` in decimal to `s`.
pub fn push_decimal_u64(s: &mut String, n: u64)
    ensures
        final(s)@ == old(s)@ + decimal(n as nat),
{
    push_radix(s, n, 10);
}

/// Appends `n` in lower-case hexadecimal to `s`.
pub fn push_hex(s: &mut String, n: usize)
    ensures
        final(s)@ == old(s)@ + hex(n as nat),
{
    push_radix(s, n as u64, 16);
}

fn digit_value_exec(c: char, radix: u32) -> (r: Option<u32>)
    requires
        2 <= radix <= 16,
    ensures
        match r {
            Some(d) => digit_value(c, radix as nat) == Some(d as nat) && d < radix,
            None => digit_value(c, radix as nat) is None,
        },
{
    let u = c as u32;
    if 48 <= u && u <= 57 && u - 48 < radix {
        Some(u - 48)
    } else if 97 <= u && u <= 102 && u - 87 < radix {
        Some(u - 87)
    } else if 65 <= u && u <= 70 && u - 55 < radix {
        Some(u - 55)
    } else {
        None
    }
}

/// The value of an unsigned number text `s` in base `radix`, when it fits a `usize`.
pub fn parse_radix(s: &Vec<char>, radix: u32) -> (r: Option<usize>)
    requires
        2 <= radix <= 16,
    ensures
        r == parse_usize_radix(s@, radix as nat),
{
    let start: usize = if s.len() > 1 && s[0] == '+' {
        1
    } else {
        0
    };
    let ghost d = unsigned_digits(s@);
    assert(d == s@.skip(start as int));
    if start == s.len() {
        return None;
    }
    let mut value: usize = 0;
    let mut too_big = false;
    let mut i = start;
    while i < s.len()
        invariant
            2 <= radix <= 16,
            start <= i <= s.len(),
            d == s@.skip(start as int),
            d == unsigned_digits(s@),
            !too_big ==> digits_value(d.take(i - start), radix as nat) == Some(value as nat),
            too_big ==> match digits_value(d.take(i - start), radix as nat) {
                Some(v) => v > usize::MAX,
                None => true,
            },
        decreases s.len() - i,
    {
        let ghost k = (i - start) as int;
        assert(d.take(k + 1).drop_last() == d.take(k));
        assert(d.take(k + 1).last() == s@[i as int]);
        let dv = digit_value_exec(s[i], radix);
        match dv {
            None => {
                proof {
                    assert(digits_value(d.take(k + 1), radix as nat) is None);
                    lemma_digits_none_extends(d, radix as nat, k + 1);
                    assert(d.len() > 0);
                    assert(digits_value(d, radix as nat) is None);
                    assert(unsigned_value(s@, radix as nat) is None);
                }
                return None;
            },
            Some(dig) => {
                if !too_big {
                    let r = radix as usize;
                    if value > (usize::MAX - dig as usize) / r {
                        too_big = true;
                        proof {
                            let v = value as nat;
                            assert(v * r + dig > usize::MAX) by (nonlinear_arith)
                                requires
                                    v > (usize::MAX - dig) / (r as int),
                                    r >= 2,
                                    dig < r,
                            ;
                        }
                    } else {
                        proof {
                            let v = value as nat;
                            assert(v * r + dig <= usize::MAX) by (nonlinear_arith)
                                requires
                                    v <= (usize::MAX - dig) / (r as int),
                                    r >= 2,
                                    dig < r,
                            ;
                        }
                        value = value * r + dig as usize;
                    }
                } else {
                    proof {
                        match digits_value(d.take(k), radix as nat) {
                            Some(v) => {
                                let r = radix as nat;
                                assert(v * r + dig as nat > usize::MAX) by (nonlinear_arith)
                                    requires
                                        v > usize::MAX,
                                        r >= 2,
                                ;
                            },
                            None => {},
                        }
                    }
                }
            },
        }
        i = i + 1;
    }
    assert(d.take((s.len() - start) as int) == d);
    if too_big {
        None
    } else {
        Some(value)
    }
}

/// Once a prefix holds a non-digit, so does every longer prefix.
proof fn lemma_digits_none_extends(d: Seq<char>, radix: nat, k: int)
    requires
        0 <= k <= d.len(),
        digits_value(d.take(k), radix) is None,
    ensures
        digits_value(d, radix) is None,
    decreases d.len() - k,
{
    if k < d.len() {
        assert(d.take(k + 1).drop_last() == d.take(k));
        lemma_digits_none_extends(d, radix, k + 1);
    } else {
        assert(d.take(k) == d);
    }
}

/// `s.parse::<usize>().ok()`.
pub fn parse_usize(s: &str) -> (r: Option<usize>)
    ensures
        r == parse_usize_spec(s@),
{
    let v = chars_of(s);
    parse_radix(&v, 10)
}

/// `usize::from_str_radix(s, 16).ok()`.
pub fn parse_hex_usize(s: &str) -> (r: Option<usize>)
    ensures
        r == parse_usize_radix(s@, 16),
{
    let v = chars_of(s);
    parse_radix(&v, 16)
}

// ---------------------------------------------------------------------------
// Laws.
// ---------------------------------------------------------------------------
pub proof fn lemma_radix_text_digits(n: nat, radix: nat)
    requires
        2 <= radix <= 16,
    ensures
        radix_text(n, radix).len() > 0,
        digits_value(radix_text(n, radix), radix) == Some(n),
        forall|i: int|
            0 <= i < radix_text(n, radix).len() ==> digit_value(
                #[trigger] radix_text(n, radix)[i],
                radix,
            ) is Some,
    decreases n,
{
    let t = radix_text(n, radix);
    if n < radix {
        let e: Seq<char> = seq![];
        assert(t == seq![digit_char(n)]);
        assert(t.drop_last() == e);
        assert(digit_value(digit_char(n), radix) == Some(n));
        assert(digits_value(e, radix) == Some(0nat));
        assert(0 * radix + n == n) by (nonlinear_arith);
    } else {
        lemma_radix_text_digits(n / radix, radix);
        let q = n / radix;
        let m = n % radix;
        assert(t == radix_text(q, radix).push(digit_char(m)));
        assert(t.drop_last() == radix_text(q, radix));
        assert(digit_value(digit_char(m), radix) == Some(m));
        assert(q * radix + m == n) by (nonlinear_arith)
            requires
                q == n / radix,
                m == n % radix,
                radix > 0,
        ;
        assert forall|i: int| 0 <= i < t.len() implies digit_value(#[trigger] t[i], radix) is Some by {
            if i < t.len() - 1 {
                assert(t[i] == radix_text(q, radix)[i]);
            }
        }
    }
}

/// A printed number holds at least one character and no whitespace.
pub proof fn lemma_decimal_word(n: nat)
    ensures
        decimal(n).len() > 0,
        no_ws(decimal(n)),
{
    lemma_radix_text_digits(n, 10);
    assert forall|i: int| 0 <= i < decimal(n).len() implies !#[trigger] is_ws(decimal(n)[i]) by {
        assert(digit_value(decimal(n)[i], 10) is Some);
    }
}

/// Reading back a printed number gives the number: for every `n`, the decimal
/// text of `n` parses to `n`, and so does its hexadecimal text in base 16.
pub proof fn law_print_parse_roundtrip(n: usize)
    ensures
        parse_usize_spec(decimal(n as nat)) == Some(n),
        parse_usize_radix(hex(n as nat), 16) == Some(n),
{
    lemma_radix_text_digits(n as nat, 10);
    lemma_radix_text_digits(n as nat, 16);
    assert(digit_value(decimal(n as nat)[0], 10) is Some);
    assert(digit_value(hex(n as nat)[0], 16) is Some);
}

} // verus!
