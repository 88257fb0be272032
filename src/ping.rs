//! Answering a ping with a pong in the same case.

use vstd::prelude::*;

use crate::text::{chars_of, string_of};

verus! {

/// Whether `char::is_uppercase` holds of a character.
pub uninterp spec fn upper_case(c: char) -> bool;

/// Relies on `char::is_uppercase`: whether the character has the Unicode
/// `Uppercase` property, which among ASCII characters exactly `A` to `Z` have.
#[verifier::external_body]
fn is_upper(c: char) -> (r: bool)
    ensures
        r == upper_case(c),
        (c as u32) < 0x80 ==> (r <==> ('A' <= c && c <= 'Z')),
{
    c.is_uppercase()
}

/// "pong", each letter upper case where the input's letter at the same place
/// is upper case, and lower case otherwise or where the input is shorter.
pub open spec fn pong_for(input: Seq<char>) -> Seq<char> {
    Seq::new(
        4,
        |i: int|
            if i < input.len() && upper_case(input[i]) {
                seq!['P', 'O', 'N', 'G'][i]
            } else {
                seq!['p', 'o', 'n', 'g'][i]
            },
    )
}

/// Transform "ping" into "pong" preserving the case pattern of the input.
pub fn pong_with_case(input: &str) -> (r: String)
    ensures
        r@ == pong_for(input@),
{
    let chars = chars_of(input);
    let lower = ['p', 'o', 'n', 'g'];
    let upper = ['P', 'O', 'N', 'G'];
    let mut out: Vec<char> = Vec::new();
    let mut i: usize = 0;
    while i < 4
        invariant
            i <= 4,
            chars@ == input@,
            lower@ == seq!['p', 'o', 'n', 'g'],
            upper@ == seq!['P', 'O', 'N', 'G'],
            out@ == pong_for(input@).subrange(0, i as int),
        decreases 4 - i,
    {
        let c = if i < chars.len() && is_upper(chars[i]) {
            upper[i]
        } else {
            lower[i]
        };
        out.push(c);
        assert(out@ =~= pong_for(input@).subrange(0, i + 1));
        i = i + 1;
    }
    assert(pong_for(input@).subrange(0, 4) == pong_for(input@));
    string_of(&out)
}

} // verus!
