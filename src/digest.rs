//! Content digests of files and their lowercase hexadecimal rendering.

use vstd::prelude::*;

verus! {

/// The MD5 digest of `data`, read as a big-endian 128-bit integer.
pub uninterp spec fn md5_of(data: Seq<u8>) -> u128;

/// Relies on `md5::compute`: the digest of the bytes, a function of the bytes alone.
#[verifier::external_body]
fn md5_compute(data: &[u8]) -> (r: u128)
    ensures
        r == md5_of(data@),
{
    u128::from_be_bytes(md5::compute(data).0)
}

/// Relies on `String`'s `FromIterator<char>`: the string holds the characters in order.
#[verifier::external_body]
pub(crate) fn string_from_chars(chars: &Vec<char>) -> (r: String)
    ensures
        r@ == chars@,
{
    chars.iter().collect()
}

/// The digest of a file's content.
pub fn file_digest(contents: &[u8]) -> (r: u128)
    ensures
        r == md5_of(contents@),
{
    md5_compute(contents)
}

/// The lowercase hexadecimal digits, by value.
pub open spec fn hex_alphabet() -> Seq<char> {
    seq!['0', '1', '2', '3', '4', '5', '6', '7', '8', '9', 'a', 'b', 'c', 'd', 'e', 'f']
}

/// The last `n` hexadecimal digits of `v`, most significant first.
pub open spec fn hex_digits(v: nat, n: nat) -> Seq<char>
    decreases n,
{
    if n == 0 {
        Seq::empty()
    } else {
        hex_digits(v / 16, (n - 1) as nat).push(hex_alphabet()[(v % 16) as int])
    }
}

/// A digest rendered as 32 lowercase hexadecimal digits.
pub open spec fn digest_text(d: u128) -> Seq<char> {
    hex_digits(d as nat, 32)
}

fn hex_char(v: u128) -> (c: char)
    requires
        v < 16,
    ensures
        c == hex_alphabet()[v as int],
{
    match v {
        0 => '0',
        1 => '1',
        2 => '2',
        3 => '3',
        4 => '4',
        5 => '5',
        6 => '6',
        7 => '7',
        8 => '8',
        9 => '9',
        10 => 'a',
        11 => 'b',
        12 => 'c',
        13 => 'd',
        14 => 'e',
        _ => 'f',
    }
}

fn push_hex_digits(v: u128, n: usize, out: &mut Vec<char>)
    ensures
        final(out)@ == old(out)@ + hex_digits(v as nat, n as nat),
    decreases n,
{
    if n > 0 {
        push_hex_digits(v / 16, n - 1, out);
        out.push(hex_char(v % 16));
        assert(final(out)@ =~= old(out)@ + hex_digits(v as nat, n as nat));
    }
}

/// Renders a digest as 32 lowercase hexadecimal digits, leading zeros kept.
pub fn digest_hex(d: u128) -> (r: String)
    ensures
        r@ == digest_text(d),
        r@.len() == 32,
{
    let mut chars: Vec<char> = Vec::new();
    push_hex_digits(d, 32, &mut chars);
    proof {
        lemma_hex_digits_len(d as nat, 32);
    }
    string_from_chars(&chars)
}

/// `hex_digits` yields exactly `n` characters.
pub proof fn lemma_hex_digits_len(v: nat, n: nat)
    ensures
        hex_digits(v, n).len() == n,
    decreases n,
{
    if n > 0 {
        lemma_hex_digits_len(v / 16, (n - 1) as nat);
    }
}

} // verus!
