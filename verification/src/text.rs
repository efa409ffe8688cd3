//! Taking the first character off an input.
//!
//! A `&str` holds its characters in UTF-8, so the remainder after one
//! character starts as many bytes into the input as that character's
//! encoding is long.

use vstd::prelude::*;
use vstd::string::StrSliceExecFns;
use vstd::utf8::{
    char_is_scalar, encode_scalar, encode_utf8, encode_utf8_decode_utf8, encode_utf8_first_scalar,
    encode_utf8_valid_utf8, is_char_boundary, length_of_first_scalar, pop_first_scalar,
};

verus! {

/// The number of bytes that the UTF-8 encoding of `c` takes.
fn utf8_width(c: char) -> (n: usize)
    ensures
        n == encode_scalar(c as u32).len(),
        1 <= n <= 4,
{
    proof {
        char_is_scalar(c);
    }
    let v = c as u32;
    if v < 0x80 {
        1
    } else if v < 0x800 {
        2
    } else if v < 0x10000 {
        3
    } else {
        4
    }
}

/// The encoding of a nonempty text can be cut after its first character, and
/// what follows the cut is the encoding of the other characters.
proof fn lemma_cut_after_first(s: Seq<char>)
    requires
        s.len() > 0,
    ensures
        is_char_boundary(encode_utf8(s), encode_scalar(s[0] as u32).len() as int),
        encode_scalar(s[0] as u32).len() <= encode_utf8(s).len(),
        encode_utf8(s).subrange(
            encode_scalar(s[0] as u32).len() as int,
            encode_utf8(s).len() as int,
        ) == encode_utf8(s.skip(1)),
{
    let bytes = encode_utf8(s);
    let width = encode_scalar(s[0] as u32).len() as int;
    assert(s.drop_first() =~= s.skip(1));
    assert(bytes == encode_scalar(s[0] as u32) + encode_utf8(s.skip(1)));
    assert(bytes.subrange(width, bytes.len() as int) =~= encode_utf8(s.skip(1)));
    encode_utf8_first_scalar(s);
    encode_utf8_valid_utf8(s);
    encode_utf8_valid_utf8(s.skip(1));
    assert(length_of_first_scalar(bytes) == width);
    assert(pop_first_scalar(bytes) =~= encode_utf8(s.skip(1)));
    assert(is_char_boundary(pop_first_scalar(bytes), 0));
    assert(is_char_boundary(bytes, width)) by {
        reveal_with_fuel(is_char_boundary, 2);
    }
}

/// Two texts with the same encoding are the same text.
proof fn lemma_encoding_is_injective(a: Seq<char>, b: Seq<char>)
    requires
        encode_utf8(a) == encode_utf8(b),
    ensures
        a == b,
{
    encode_utf8_decode_utf8(a);
    encode_utf8_decode_utf8(b);
}

/// The first character of `inp` and the rest of `inp`, or `None` where `inp`
/// is empty.
pub fn split_first<'a>(inp: &'a str) -> (r: Option<(char, &'a str)>)
    ensures
        match r {
            Some((c, rest)) => inp@.len() > 0 && c == inp@[0] && rest@ == inp@.skip(1),
            None => inp@.len() == 0,
        },
{
    if inp.is_empty() {
        None
    } else {
        let c = inp.get_char(0);
        let width = utf8_width(c);
        proof {
            lemma_cut_after_first(inp@);
        }
        let (_, rest) = inp.split_at(width);
        proof {
            lemma_encoding_is_injective(rest@, inp@.skip(1));
        }
        Some((c, rest))
    }
}

} // verus!
