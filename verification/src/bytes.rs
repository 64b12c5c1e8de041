//! Byte-string encodings: lowercase hex, and standard base64.

use base64::prelude::{Engine as _, BASE64_STANDARD};
use vstd::prelude::*;

use crate::text::chars_to_string;

verus! {

/// The lowercase hex digit for `d`.
pub open spec fn hex_digit(d: nat) -> char {
    if d == 0 {
        '0'
    } else if d == 1 {
        '1'
    } else if d == 2 {
        '2'
    } else if d == 3 {
        '3'
    } else if d == 4 {
        '4'
    } else if d == 5 {
        '5'
    } else if d == 6 {
        '6'
    } else if d == 7 {
        '7'
    } else if d == 8 {
        '8'
    } else if d == 9 {
        '9'
    } else if d == 10 {
        'a'
    } else if d == 11 {
        'b'
    } else if d == 12 {
        'c'
    } else if d == 13 {
        'd'
    } else if d == 14 {
        'e'
    } else {
        'f'
    }
}

/// The lowercase hex encoding of a byte string: two digits per byte, high
/// nibble first.
pub open spec fn hex_of(bytes: Seq<u8>) -> Seq<char>
    decreases bytes.len(),
{
    if bytes.len() == 0 {
        Seq::empty()
    } else {
        seq![hex_digit((bytes[0] / 16) as nat), hex_digit((bytes[0] % 16) as nat)] + hex_of(
            bytes.drop_first(),
        )
    }
}

pub proof fn lemma_hex_of_len(bytes: Seq<u8>)
    ensures
        hex_of(bytes).len() == 2 * bytes.len(),
    decreases bytes.len(),
{
    if bytes.len() > 0 {
        lemma_hex_of_len(bytes.drop_first());
    }
}

fn hex_digit_exec(d: u8) -> (c: char)
    requires
        d < 16,
    ensures
        c == hex_digit(d as nat),
{
    match d {
        0 => '0',
        1 => '1',
        2 => '2',
        3 => '3',
        4 => '4',
        5 => '5',
        6 => '6',
        7 => '7',
        8 => '8',
        9 => '9',
        10 => 'a',
        11 => 'b',
        12 => 'c',
        13 => 'd',
        14 => 'e',
        _ => 'f',
    }
}

/// Encode a byte string as lowercase hex.
pub fn to_hex(bytes: &[u8]) -> (r: String)
    ensures
        r@ == hex_of(bytes@),
        r@.len() == 2 * bytes@.len(),
{
    let n = bytes.len();
    let mut out: Vec<char> = Vec::new();
    let mut i: usize = 0;
    proof {
        assert(bytes@.skip(0) =~= bytes@);
        assert(out@ + hex_of(bytes@) =~= hex_of(bytes@));
    }
    while i < n
        invariant
            i <= n,
            n == bytes@.len(),
            hex_of(bytes@) == out@ + hex_of(bytes@.skip(i as int)),
        decreases n - i,
    {
        let b = bytes[i];
        proof {
            let rest = bytes@.skip(i as int);
            assert(rest[0] == bytes@[i as int]);
            assert(rest.drop_first() =~= bytes@.skip(i as int + 1));
        }
        let ghost before = out@;
        out.push(hex_digit_exec(b / 16));
        out.push(hex_digit_exec(b % 16));
        proof {
            assert(out@ =~= before + seq![
                hex_digit((b / 16) as nat),
                hex_digit((b % 16) as nat),
            ]);
            assert(out@ + hex_of(bytes@.skip(i as int + 1)) =~= before + hex_of(
                bytes@.skip(i as int),
            ));
        }
        i += 1;
    }
    proof {
        assert(out@ + hex_of(bytes@.skip(n as int)) =~= out@);
        lemma_hex_of_len(bytes@);
    }
    chars_to_string(&out)
}

/// What base64's standard engine produces for a byte string; the encoding
/// depends on the input bytes alone.
pub uninterp spec fn base64_of(bytes: Seq<u8>) -> Seq<char>;

/// Relies on base64's `BASE64_STANDARD.encode`: the standard alphabet with
/// padding, four output characters for every group of three input bytes.
#[verifier::external_body]
pub fn to_base64(bytes: &[u8]) -> (r: String)
    requires
        bytes@.len() <= 0x1000_0000,
    ensures
        r@ == base64_of(bytes@),
        r@.len() == ((bytes@.len() + 2) / 3) * 4,
{
    BASE64_STANDARD.encode(bytes)
}

} // verus!
