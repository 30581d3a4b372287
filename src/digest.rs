//! Short, filesystem-safe fingerprints of byte content, used to derive cache
//! keys from text of any length.
use std::hash::BuildHasher;
use std::hash::Hash;
use std::hash::Hasher;
use vstd::prelude::*;
use crate::text::hex_digit;
use crate::text::hex_fixed;
use crate::text::is_upper_hex;
use crate::text::push_hex;
use crate::text::string_of;

verus! {

/// The 64-bit XXH3 hash (seed 0, default secret) of a byte slice fed through
/// `Hash for [u8]`: its length prefix, then its bytes.
pub uninterp spec fn xxh3_slice_hash(b: Seq<u8>) -> u64;

/// Relies on twox_hash's `Xxh3Hash64` with its default state, which depends on
/// nothing but the bytes written to it. `Hash for [u8]` writes the length as a
/// native-endian `usize` first, so the value is fixed for one build target.
#[verifier::external_body]
fn xxh3_of(bytes: &[u8]) -> (r: u64)
    ensures
        r == xxh3_slice_hash(bytes@),
{
    let mut hasher = std::hash::BuildHasherDefault::<twox_hash::Xxh3Hash64>::default().build_hasher();
    bytes.hash(&mut hasher);
    hasher.finish()
}

/// The marker that opens every digest.
pub open spec fn digest_marker() -> char {
    'x'
}

/// The text of a digest with hash `h`: the marker, then 16 upper-case hex digits.
pub open spec fn digest_text(h: u64) -> Seq<char> {
    seq![digest_marker()] + hex_fixed(h as nat, 16)
}

/// The digest of the bytes `b`.
pub open spec fn digest_spec(b: Seq<u8>) -> Seq<char> {
    digest_text(xxh3_slice_hash(b))
}

pub proof fn lemma_hex_fixed_shape(v: nat, n: nat)
    ensures
        hex_fixed(v, n).len() == n,
        forall|i: int| 0 <= i < n ==> is_upper_hex(#[trigger] hex_fixed(v, n)[i]),
    decreases n,
{
    if n > 0 {
        lemma_hex_fixed_shape(v / 16, (n - 1) as nat);
        let d = (v % 16) as int;
        assert(is_upper_hex(hex_digit(d)));
        assert forall|i: int| 0 <= i < n implies is_upper_hex(#[trigger] hex_fixed(v, n)[i]) by {
            if i < n - 1 {
                assert(hex_fixed(v, n)[i] == hex_fixed(v / 16, (n - 1) as nat)[i]);
            }
        }
    }
}

/// Every digest is 17 characters: the marker, then 16 upper-case hex digits.
pub proof fn lemma_digest_shape(h: u64)
    ensures
        digest_text(h).len() == 17,
        digest_text(h)[0] == digest_marker(),
        forall|i: int| 1 <= i < 17 ==> is_upper_hex(#[trigger] digest_text(h)[i]),
{
    lemma_hex_fixed_shape(h as nat, 16);
    assert forall|i: int| 1 <= i < 17 implies is_upper_hex(#[trigger] digest_text(h)[i]) by {
        assert(digest_text(h)[i] == hex_fixed(h as nat, 16)[i - 1]);
    }
}

pub open spec fn pow16(n: nat) -> nat
    decreases n,
{
    if n == 0 { 1 } else { 16 * pow16((n - 1) as nat) }
}

proof fn lemma_pow16_pos(n: nat)
    ensures
        pow16(n) > 0,
    decreases n,
{
    if n > 0 {
        lemma_pow16_pos((n - 1) as nat);
    }
}

proof fn lemma_hex_fixed_injective(a: nat, b: nat, n: nat)
    requires
        hex_fixed(a, n) == hex_fixed(b, n),
    ensures
        a % pow16(n) == b % pow16(n),
    decreases n,
{
    if n > 0 {
        let m = (n - 1) as nat;
        assert(hex_fixed(a / 16, m) =~= hex_fixed(a, n).drop_last());
        assert(hex_fixed(b / 16, m) =~= hex_fixed(b, n).drop_last());
        assert(hex_fixed(a, n).last() == hex_digit((a % 16) as int));
        assert(hex_fixed(b, n).last() == hex_digit((b % 16) as int));
        assert(hex_digit((a % 16) as int) == hex_digit((b % 16) as int));
        assert(a % 16 == b % 16);
        lemma_hex_fixed_injective(a / 16, b / 16, m);
        lemma_pow16_pos(m);
        let p = pow16(m);
        vstd::arithmetic::div_mod::lemma_mod_breakdown(a as int, 16, p as int);
        vstd::arithmetic::div_mod::lemma_mod_breakdown(b as int, 16, p as int);
    }
}

/// Distinct hashes give distinct digests: the hex digits spell the whole hash.
pub proof fn lemma_digest_text_injective(h1: u64, h2: u64)
    ensures
        digest_text(h1) == digest_text(h2) <==> h1 == h2,
{
    if digest_text(h1) == digest_text(h2) {
        assert(hex_fixed(h1 as nat, 16) =~= digest_text(h1).drop_first());
        assert(hex_fixed(h2 as nat, 16) =~= digest_text(h2).drop_first());
        lemma_hex_fixed_injective(h1 as nat, h2 as nat, 16);
        reveal_with_fuel(pow16, 17);
        assert(pow16(16) == 0x1_0000_0000_0000_0000);
        vstd::arithmetic::div_mod::lemma_small_mod(h1 as nat, pow16(16));
        vstd::arithmetic::div_mod::lemma_small_mod(h2 as nat, pow16(16));
    }
}

/// Renders a hash as a digest.
pub fn digest_of_hash(h: u64) -> (r: String)
    ensures
        r@ == digest_text(h),
{
    let mut out: Vec<char> = Vec::new();
    out.push('x');
    push_hex(h, 16, &mut out);
    assert(out@ =~= digest_text(h));
    string_of(&out)
}

/// The digest of `bytes`: a marker character, then the 64-bit XXH3 hash of the
/// bytes as 16 upper-case hex digits.
pub fn digest(bytes: &[u8]) -> (r: String)
    ensures
        r@ == digest_spec(bytes@),
        r@.len() == 17,
        r@[0] == digest_marker(),
        forall|i: int| 1 <= i < 17 ==> is_upper_hex(#[trigger] r@[i]),
{
    let h = xxh3_of(bytes);
    proof {
        lemma_digest_shape(h);
    }
    digest_of_hash(h)
}

/// The digest depends on the bytes alone: equal inputs give equal digests,
/// each of the same fixed shape, and two inputs share a digest exactly when
/// their hashes collide.
pub proof fn lemma_digest_deterministic(a: Seq<u8>, b: Seq<u8>)
    ensures
        a == b ==> digest_spec(a) == digest_spec(b),
        digest_spec(a) == digest_spec(b) <==> xxh3_slice_hash(a) == xxh3_slice_hash(b),
        digest_spec(a).len() == 17,
        digest_spec(a)[0] == digest_marker(),
{
    lemma_digest_shape(xxh3_slice_hash(a));
    lemma_digest_text_injective(xxh3_slice_hash(a), xxh3_slice_hash(b));
}

} // verus!
