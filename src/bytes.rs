//! Little-endian byte layouts of fixed-width integers, as mathematical objects.
use vstd::arithmetic::div_mod::{lemma_fundamental_div_mod, lemma_mod_breakdown};
use vstd::prelude::*;

verus! {

/// Number of distinct values that `n` bytes can hold: `256^n`.
pub open spec fn byte_range(n: nat) -> nat
    decreases n,
{
    if n == 0 {
        1
    } else {
        256 * byte_range((n - 1) as nat)
    }
}

/// The `n` little-endian bytes of `u`, keeping only its low `8 * n` bits.
pub open spec fn le_bytes(u: nat, n: nat) -> Seq<u8>
    decreases n,
{
    if n == 0 {
        Seq::empty()
    } else {
        seq![(u % 256) as u8] + le_bytes(u / 256, (n - 1) as nat)
    }
}

/// The unsigned value that a little-endian byte sequence denotes.
pub open spec fn le_value(s: Seq<u8>) -> nat
    decreases s.len(),
{
    if s.len() == 0 {
        0
    } else {
        s[0] as nat + 256 * le_value(s.drop_first())
    }
}

/// Two's-complement wrap of `v` into `n` bytes: `v` modulo `256^n`.
pub open spec fn wrap(v: int, n: nat) -> nat {
    (v % (byte_range(n) as int)) as nat
}

/// The signed value of an unsigned `n`-byte pattern `u`, read as two's complement.
pub open spec fn signed(u: nat, n: nat) -> int {
    if 2 * u >= byte_range(n) {
        u - byte_range(n)
    } else {
        u as int
    }
}

/// Whether `v` is representable as a signed `n`-byte integer.
pub open spec fn fits_signed(v: int, n: nat) -> bool {
    -(byte_range(n) as int) <= 2 * v < byte_range(n) as int
}

/// The `n`-byte little-endian two's-complement encoding of `v`.
pub open spec fn int_bytes(v: int, n: nat) -> Seq<u8> {
    le_bytes(wrap(v, n), n)
}

pub proof fn lemma_byte_range_pos(n: nat)
    ensures
        byte_range(n) >= 1,
    decreases n,
{
    if n > 0 {
        lemma_byte_range_pos((n - 1) as nat);
    }
}

pub proof fn lemma_byte_range_small()
    ensures
        byte_range(1) == 0x100,
        byte_range(2) == 0x1_0000,
        byte_range(4) == 0x1_0000_0000,
{
    reveal_with_fuel(byte_range, 5);
}

pub proof fn lemma_le_bytes_len(u: nat, n: nat)
    ensures
        #[trigger] le_bytes(u, n).len() == n,
    decreases n,
{
    if n > 0 {
        lemma_le_bytes_len(u / 256, (n - 1) as nat);
    }
}

/// Reading back the bytes of `u` gives `u` modulo `256^n`.
pub proof fn lemma_le_value_of_bytes(u: nat, n: nat)
    ensures
        le_value(le_bytes(u, n)) == u % byte_range(n),
    decreases n,
{
    if n == 0 {
    } else {
        let m = (n - 1) as nat;
        let s = le_bytes(u, n);
        lemma_le_bytes_len(u / 256, m);
        assert(s.drop_first() =~= le_bytes(u / 256, m));
        lemma_le_value_of_bytes(u / 256, m);
        lemma_byte_range_pos(m);
        lemma_mod_breakdown(u as int, 256, byte_range(m) as int);
    }
}

/// A byte sequence is the encoding of its own value.
pub proof fn lemma_bytes_of_le_value(s: Seq<u8>)
    ensures
        le_bytes(le_value(s), s.len()) == s,
        le_value(s) < byte_range(s.len()),
    decreases s.len(),
{
    if s.len() > 0 {
        let rest = s.drop_first();
        lemma_bytes_of_le_value(rest);
        let v = le_value(s);
        assert(v % 256 == s[0] as nat && v / 256 == le_value(rest)) by {
            lemma_fundamental_div_mod(v as int, 256);
        }
        assert(le_bytes(v, s.len()) =~= s);
    }
}

/// Wrapping a representable signed value and reading it back is the identity.
pub proof fn lemma_signed_wrap(v: int, n: nat)
    requires
        fits_signed(v, n),
    ensures
        signed(wrap(v, n), n) == v,
{
    let r = byte_range(n) as int;
    lemma_byte_range_pos(n);
    if v >= 0 {
        assert(v % r == v) by {
            vstd::arithmetic::div_mod::lemma_small_mod(v as nat, r as nat);
        }
    } else {
        assert((v + r) % r == v + r) by {
            vstd::arithmetic::div_mod::lemma_small_mod((v + r) as nat, r as nat);
        }
        assert(v % r == (v + r) % r) by {
            vstd::arithmetic::div_mod::lemma_mod_add_multiples_vanish(v, r);
        }
    }
}

/// The value that an `n`-byte pattern denotes when read as two's complement is representable.
pub proof fn lemma_signed_fits(u: nat, n: nat)
    requires
        u < byte_range(n),
        n > 0,
    ensures
        fits_signed(signed(u, n), n),
        wrap(signed(u, n), n) == u,
{
    let r = byte_range(n) as int;
    lemma_byte_range_pos(n);
    vstd::arithmetic::div_mod::lemma_small_mod(u, r as nat);
    if 2 * u >= r {
        vstd::arithmetic::div_mod::lemma_mod_add_multiples_vanish(u - r, r);
    }
}

} // verus!
