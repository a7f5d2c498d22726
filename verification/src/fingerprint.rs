//! Item fingerprinting: a 64-bit FNV-1a hash over a text's characters.
//! The hash is a pure function of the character sequence, so equal texts
//! always carry equal fingerprints.

use vstd::prelude::*;

verus! {

/// FNV-1a 64-bit offset basis.
pub const FNV_OFFSET_BASIS: u64 = 0xcbf2_9ce4_8422_2325;

/// FNV-1a 64-bit prime.
pub const FNV_PRIME: u64 = 0x0000_0100_0000_01b3;

/// One FNV-1a step: fold a byte into the running hash.
pub open spec fn fnv_step(h: u64, b: u8) -> u64 {
    vstd::wrapping::u64_specs::wrapping_mul(h ^ (b as u64), FNV_PRIME)
}

/// Folds a character into the hash as the four little-endian bytes of its
/// code point.
pub open spec fn fnv_char(h: u64, c: char) -> u64 {
    let u = c as u32;
    fnv_step(
        fnv_step(fnv_step(fnv_step(h, (u & 0xff) as u8), ((u >> 8) & 0xff) as u8), ((u >> 16)
            & 0xff) as u8),
        ((u >> 24) & 0xff) as u8,
    )
}

/// Folds a whole character sequence into the hash, front to back.
pub open spec fn fnv_chars(h: u64, s: Seq<char>) -> u64
    decreases s.len(),
{
    if s.len() == 0 {
        h
    } else {
        fnv_chars(fnv_char(h, s[0]), s.drop_first())
    }
}

/// The fingerprint of a text.
pub open spec fn spec_fingerprint(s: Seq<char>) -> u64 {
    fnv_chars(FNV_OFFSET_BASIS, s)
}

fn byte_of(u: u32, k: u32) -> (r: u8)
    requires
        k == 0 || k == 8 || k == 16 || k == 24,
    ensures
        r == ((u >> k) & 0xff) as u8,
{
    let v = (u >> k) & 0xff;
    assert((u >> k) & 0xff < 256) by (bit_vector);
    v as u8
}

fn fnv_step_exec(h: u64, b: u8) -> (r: u64)
    ensures
        r == fnv_step(h, b),
{
    (h ^ (b as u64)).wrapping_mul(FNV_PRIME)
}

/// Computes the fingerprint of a text.
pub fn fingerprint(s: &str) -> (r: u64)
    ensures
        r == spec_fingerprint(s@),
{
    let n = s.unicode_len();
    let mut h: u64 = FNV_OFFSET_BASIS;
    let mut i: usize = 0;
    proof {
        assert(s@.subrange(0, n as int) =~= s@);
    }
    while i < n
        invariant
            0 <= i <= n,
            n == s@.len(),
            spec_fingerprint(s@) == fnv_chars(h, s@.subrange(i as int, n as int)),
        decreases n - i,
    {
        let c = s.get_char(i);
        let u = c as u32;
        let mut g = fnv_step_exec(h, byte_of(u, 0));
        g = fnv_step_exec(g, byte_of(u, 8));
        g = fnv_step_exec(g, byte_of(u, 16));
        g = fnv_step_exec(g, byte_of(u, 24));
        proof {
            let rest = s@.subrange(i as int, n as int);
            assert(rest[0] == s@[i as int]);
            assert(rest.drop_first() =~= s@.subrange(i + 1, n as int));
            assert(u >> 0u32 == u) by (bit_vector);
            assert(g == fnv_char(h, s@[i as int]));
        }
        h = g;
        i = i + 1;
    }
    proof {
        assert(s@.subrange(n as int, n as int) =~= Seq::<char>::empty());
    }
    h
}

/// Fingerprinting is idempotent: two texts with the same characters always
/// receive the same fingerprint, however often it is recomputed.
pub proof fn lemma_fingerprint_deterministic(a: Seq<char>, b: Seq<char>)
    requires
        a == b,
    ensures
        spec_fingerprint(a) == spec_fingerprint(b),
{
}

} // verus!
