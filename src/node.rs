//! Node identifiers: a `u32` written as `!` and eight lowercase hex digits.

use vstd::prelude::*;

use crate::text::{chars_of, string_of};

verus! {

/// The value of one hex digit of either case.
pub open spec fn hex_digit_value(c: char) -> Option<nat> {
    if '0' <= c && c <= '9' {
        Some((c as nat - '0' as nat) as nat)
    } else if 'a' <= c && c <= 'f' {
        Some((c as nat - 'a' as nat + 10) as nat)
    } else if 'A' <= c && c <= 'F' {
        Some((c as nat - 'A' as nat + 10) as nat)
    } else {
        None
    }
}

/// The number that a string of hex digits spells, most significant first.
pub open spec fn hex_digits_value(s: Seq<char>) -> Option<nat>
    decreases s.len(),
{
    if s.len() == 0 {
        Some(0)
    } else {
        match (hex_digits_value(s.drop_last()), hex_digit_value(s.last())) {
            (Some(high), Some(d)) => Some(high * 16 + d),
            _ => None,
        }
    }
}

/// How `u32::from_str_radix(s, 16)` reads a string: an optional `+`, then at
/// least one hex digit.
pub open spec fn hex_u32_value(s: Seq<char>) -> Option<nat> {
    let digits = if s.len() > 0 && s[0] == '+' { s.drop_first() } else { s };
    if digits.len() == 0 {
        None
    } else {
        match hex_digits_value(digits) {
            Some(v) if v < 0x1_0000_0000 => Some(v),
            _ => None,
        }
    }
}

/// The number a node id stands for: an optional `!`, then exactly eight
/// characters that read as a hex number.
pub open spec fn node_id_value(id: Seq<char>) -> Option<nat> {
    let body = if id.len() > 0 && id[0] == '!' { id.drop_first() } else { id };
    if body.len() == 8 {
        hex_u32_value(body)
    } else {
        None
    }
}

/// The lowercase hex digit for a value below 16.
pub open spec fn hex_char(d: nat) -> char {
    if d < 10 {
        (d + '0' as nat) as char
    } else {
        (d - 10 + 'a' as nat) as char
    }
}

/// The last `k` hex digits of `n`, zero-padded, most significant first.
pub open spec fn hex_fixed(n: nat, k: nat) -> Seq<char>
    decreases k,
{
    if k == 0 {
        Seq::empty()
    } else {
        hex_fixed(n / 16, (k - 1) as nat).push(hex_char(n % 16))
    }
}

/// The canonical text of a node number: `!` and eight lowercase hex digits.
pub open spec fn node_id_text(n: nat) -> Seq<char> {
    seq!['!'] + hex_fixed(n, 8)
}

proof fn lemma_hex_digits_bound(s: Seq<char>)
    requires
        hex_digits_value(s) is Some,
    ensures
        hex_digits_value(s).unwrap() < pow16(s.len()),
    decreases s.len(),
{
    if s.len() > 0 {
        lemma_hex_digits_bound(s.drop_last());
        let high = hex_digits_value(s.drop_last()).unwrap();
        let p = pow16((s.len() - 1) as nat);
        assert(high * 16 + 16 <= p * 16) by (nonlinear_arith)
            requires high < p;
    }
}

/// Sixteen to the power `k`.
pub open spec fn pow16(k: nat) -> nat
    decreases k,
{
    if k == 0 { 1 } else { 16 * pow16((k - 1) as nat) }
}

fn digit_value(c: char) -> (r: Option<u32>)
    ensures
        r matches Some(d) ==> hex_digit_value(c) == Some(d as nat),
        r is None ==> hex_digit_value(c) is None,
{
    if '0' <= c && c <= '9' {
        Some((c as u32) - ('0' as u32))
    } else if 'a' <= c && c <= 'f' {
        Some((c as u32) - ('a' as u32) + 10)
    } else if 'A' <= c && c <= 'F' {
        Some((c as u32) - ('A' as u32) + 10)
    } else {
        None
    }
}

/// Convert a node id like `12345678` or `!abcdef12` to its number.
pub fn hex_id_to_num(node_id: &str) -> (r: Option<u32>)
    ensures
        r matches Some(n) ==> node_id_value(node_id@) == Some(n as nat),
        r is None ==> node_id_value(node_id@) is None,
{
    let chars = chars_of(node_id);
    let mut start: usize = 0;
    if chars.len() > 0 && chars[0] == '!' {
        start = 1;
    }
    if chars.len() - start != 8 {
        return None;
    }
    let ghost body = chars@.subrange(start as int, chars.len() as int);
    assert(body == (if chars@.len() > 0 && chars@[0] == '!' { chars@.drop_first() } else { chars@ }));
    if chars[start] == '+' {
        start = start + 1;
    }
    let ghost digits = chars@.subrange(start as int, chars.len() as int);
    assert(digits == (if body.len() > 0 && body[0] == '+' { body.drop_first() } else { body }));
    let mut value: u32 = 0;
    let mut i: usize = start;
    while i < chars.len()
        invariant
            start <= i <= chars.len(),
            chars.len() - start <= 8,
            hex_digits_value(chars@.subrange(start as int, i as int)) == Some(value as nat),
            value < pow16((i - start) as nat),
            digits == chars@.subrange(start as int, chars.len() as int),
            node_id_value(node_id@) == hex_u32_value(body),
            hex_u32_value(body) == (if digits.len() == 0 {
                None
            } else {
                match hex_digits_value(digits) {
                    Some(v) if v < 0x1_0000_0000 => Some(v),
                    _ => None,
                }
            }),
        decreases chars.len() - i,
    {
        let ghost before = chars@.subrange(start as int, i as int);
        let ghost after = chars@.subrange(start as int, i + 1);
        assert(after.drop_last() == before);
        match digit_value(chars[i]) {
            None => {
                proof {
                    assert(after == digits.subrange(0, after.len() as int));
                    lemma_none_extends(after, digits);
                }
                return None;
            },
            Some(d) => {
                let ghost k = (i - start) as nat;
                assert(pow16(k) <= pow16(7)) by {
                    lemma_pow16_mono(k, 7);
                }
                assert(pow16(7) == 0x1000_0000) by {
                    reveal_with_fuel(pow16, 8);
                }
                assert(value * 16 + d < 16 * pow16(k)) by (nonlinear_arith)
                    requires value < pow16(k), d < 16;
                value = value * 16 + d;
                i = i + 1;
            },
        }
    }
    assert(chars@.subrange(start as int, chars.len() as int) == digits);
    if start == chars.len() {
        return None;
    }
    Some(value)
}

proof fn lemma_pow16_mono(a: nat, b: nat)
    requires
        a <= b,
    ensures
        pow16(a) <= pow16(b),
    decreases b,
{
    if a < b {
        lemma_pow16_mono(a, (b - 1) as nat);
    }
}

/// Once a prefix fails to read as hex digits, every extension fails too.
proof fn lemma_none_extends(prefix: Seq<char>, s: Seq<char>)
    requires
        hex_digits_value(prefix) is None,
        prefix.len() <= s.len(),
        prefix == s.subrange(0, prefix.len() as int),
    ensures
        hex_digits_value(s) is None,
    decreases s.len(),
{
    if prefix.len() < s.len() {
        assert(s.drop_last().subrange(0, prefix.len() as int) == prefix);
        lemma_none_extends(prefix, s.drop_last());
    } else {
        assert(prefix == s);
    }
}

fn hex_char_exec(d: u32) -> (r: char)
    requires
        d < 16,
    ensures
        r == hex_char(d as nat),
{
    if d < 10 {
        ((d + ('0' as u32)) as u8) as char
    } else {
        ((d - 10 + ('a' as u32)) as u8) as char
    }
}

fn hex_fixed_exec(n: u32, k: u32) -> (r: Vec<char>)
    ensures
        r@ == hex_fixed(n as nat, k as nat),
    decreases k,
{
    if k == 0 {
        Vec::new()
    } else {
        let mut v = hex_fixed_exec(n / 16, k - 1);
        v.push(hex_char_exec(n % 16));
        v
    }
}

/// Convert a node number to its canonical `!abcdef12` form.
pub fn num_id_to_hex(node_num: u32) -> (r: String)
    ensures
        r@ == node_id_text(node_num as nat),
{
    let mut v = vec!['!'];
    let digits = hex_fixed_exec(node_num, 8);
    v.append(&mut digits.clone());
    string_of(&v)
}

/// Convert a node id of either case, with or without the leading `!`, to its
/// canonical form.
pub fn canonical_node_id(node_id: &str) -> (r: Option<String>)
    ensures
        r matches Some(s) ==> node_id_value(node_id@) matches Some(n) && s@ == node_id_text(n),
        r is None ==> node_id_value(node_id@) is None,
{
    match hex_id_to_num(node_id) {
        Some(n) => Some(num_id_to_hex(n)),
        None => None,
    }
}


/// The hex digits of `n`, most significant first, without leading zeros.
pub open spec fn hex_digits(n: nat) -> Seq<char>
    decreases n,
{
    if n < 16 {
        seq![hex_char(n)]
    } else {
        hex_digits(n / 16).push(hex_char(n % 16))
    }
}

fn hex_digits_exec(n: u32) -> (r: Vec<char>)
    ensures
        r@ == hex_digits(n as nat),
    decreases n,
{
    if n < 16 {
        vec![hex_char_exec(n)]
    } else {
        let mut v = hex_digits_exec(n / 16);
        v.push(hex_char_exec(n % 16));
        v
    }
}

/// A node number as `!` and its hex digits, without padding.
pub fn hex_node(node_num: u32) -> (r: String)
    ensures
        r@ == seq!['!'] + hex_digits(node_num as nat),
{
    let mut v = vec!['!'];
    let mut digits = hex_digits_exec(node_num);
    v.append(&mut digits);
    string_of(&v)
}

} // verus!
