//! Content fingerprints.
//!
//! A fingerprint is a deterministic 64-bit digest (FNV-1a) of a block's
//! literal content: no trimming or whitespace collapsing happens before
//! hashing.  Byte-identical content always produces the same fingerprint,
//! so a fingerprint is an identity for content, not for a block — a book
//! may repeat itself.

use vstd::prelude::*;

use crate::content::Block;
use crate::text::chars_of;

verus! {

/// The FNV-1a 64-bit offset basis.
pub open spec fn fp_init() -> u64 {
    0xcbf29ce484222325u64
}

/// The FNV-1a 64-bit prime.
pub open spec fn fp_prime() -> u64 {
    0x100000001b3u64
}

/// One round of the hash: fold one character into the running state.
pub open spec fn fp_step(h: u64, c: char) -> u64 {
    vstd::wrapping::u64_specs::wrapping_mul(h ^ ((c as u32) as u64), fp_prime())
}

pub open spec fn spec_fingerprint_from(s: Seq<char>, h: u64) -> u64
    decreases s.len(),
{
    if s.len() == 0 {
        h
    } else {
        spec_fingerprint_from(s.drop_first(), fp_step(h, s[0]))
    }
}

/// The fingerprint of `s`: the FNV-1a hash of its characters in order.
pub open spec fn spec_fingerprint(s: Seq<char>) -> u64 {
    spec_fingerprint_from(s, fp_init())
}

/// Compute the fingerprint of literal content.
pub fn fingerprint(content: &str) -> (r: u64)
    ensures
        r == spec_fingerprint(content@),
{
    let v = chars_of(content);
    let n = v.len();
    let mut h: u64 = 0xcbf29ce484222325u64;
    let mut i: usize = 0;
    proof {
        assert(v@.skip(0) =~= v@);
    }
    while i < n
        invariant
            i <= n,
            n == v@.len(),
            spec_fingerprint(content@) == spec_fingerprint_from(v@.skip(i as int), h),
        decreases n - i,
    {
        proof {
            let rest = v@.skip(i as int);
            assert(rest[0] == v@[i as int]);
            assert(rest.drop_first() =~= v@.skip(i as int + 1));
        }
        let c = v[i];
        h = (h ^ ((c as u32) as u64)).wrapping_mul(0x100000001b3u64);
        i += 1;
    }
    h
}

/// The fingerprint of a block's content.
pub fn block_fingerprint(b: &Block) -> (r: u64)
    ensures
        r == spec_fingerprint(b@.content),
{
    fingerprint(b.content.as_str())
}

} // verus!
