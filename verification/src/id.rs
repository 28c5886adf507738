//! Document identifiers and storage-key derivation.
//!
//! A `DocumentId` is an opaque, fixed-width (128-bit) identifier issued at
//! ingestion from caller-supplied entropy. Its `StorageKey` is derived by a
//! pure, deterministic and collision-free function, so any process can
//! resolve any identifier without shared state. A key renders to an ASCII
//! path (`"ss/hhhhhhhhhhhhhhhhllllllllllllllll"`) for physical backends.

use vstd::prelude::*;

verus! {

/// Opaque, globally unique identifier of one immutable document.
///
/// Fixed width: two 64-bit halves of random entropy. Once issued by a
/// successful store, an identifier maps to exactly one byte sequence.
#[derive(Clone, Copy, Debug, PartialEq, Eq, Hash, Structural)]
pub struct DocumentId {
    pub hi: u64,
    pub lo: u64,
}

impl DocumentId {
    /// Builds an identifier from fresh entropy supplied by the caller.
    pub fn from_entropy(hi: u64, lo: u64) -> (id: DocumentId)
        ensures
            id == (DocumentId { hi, lo }),
    {
        DocumentId { hi, lo }
    }
}

/// Backend address of one document, derived deterministically from its id.
///
/// The shard byte (the top byte of `hi`) spreads objects over 256 prefixes;
/// the two halves keep the derivation collision-free.
#[derive(Clone, Copy, Debug, PartialEq, Eq, Hash, Structural)]
pub struct StorageKey {
    pub shard: u8,
    pub hi: u64,
    pub lo: u64,
}

/// The key-derivation function, as a mathematical function.
pub open spec fn spec_key_of(id: DocumentId) -> StorageKey {
    StorageKey { shard: (id.hi >> 56) as u8, hi: id.hi, lo: id.lo }
}

/// Derives the storage key of an identifier. Pure and deterministic:
/// identical across processes, so no node needs sticky routing.
pub fn key_of(id: &DocumentId) -> (k: StorageKey)
    ensures
        k == spec_key_of(*id),
{
    StorageKey { shard: (id.hi >> 56) as u8, hi: id.hi, lo: id.lo }
}

/// Key derivation is collision-free: distinct identifiers always receive
/// distinct storage keys.
pub proof fn lemma_key_derivation_injective(a: DocumentId, b: DocumentId)
    ensures
        spec_key_of(a) == spec_key_of(b) ==> a == b,
{
}

/// The ASCII hex digit of a nibble.
pub open spec fn hex_digit(n: int) -> u8 {
    if n < 10 {
        (48 + n) as u8
    } else {
        (87 + n) as u8
    }
}

/// The low `digits` nibbles of `v` as big-endian ASCII hex.
pub open spec fn hex_of(v: int, digits: nat) -> Seq<u8>
    decreases digits,
{
    if digits == 0 {
        Seq::empty()
    } else {
        hex_of(v / 16, (digits - 1) as nat).push(hex_digit(v % 16))
    }
}

/// A hex rendering has one byte per nibble.
pub proof fn lemma_hex_len(v: int, digits: nat)
    ensures
        hex_of(v, digits).len() == digits,
    decreases digits,
{
    if digits > 0 {
        lemma_hex_len(v / 16, (digits - 1) as nat);
    }
}

/// The nibble value of an ASCII hex digit.
pub open spec fn hex_val(b: u8) -> int {
    if b < 58 {
        b - 48
    } else {
        b - 87
    }
}

/// The number a big-endian hex rendering denotes.
pub open spec fn unhex(s: Seq<u8>) -> int
    decreases s.len(),
{
    if s.len() == 0 {
        0
    } else {
        unhex(s.drop_last()) * 16 + hex_val(s.last())
    }
}

/// Sixteen to the power `digits`.
pub open spec fn pow16(digits: nat) -> int
    decreases digits,
{
    if digits == 0 {
        1
    } else {
        16 * pow16((digits - 1) as nat)
    }
}

proof fn lemma_pow16_pos(digits: nat)
    ensures
        pow16(digits) > 0,
    decreases digits,
{
    if digits > 0 {
        lemma_pow16_pos((digits - 1) as nat);
    }
}

/// Decoding inverts encoding: the rendering of `v` denotes `v`, reduced
/// to the rendered width.
pub proof fn lemma_unhex_hex(v: int, digits: nat)
    requires
        0 <= v,
    ensures
        unhex(hex_of(v, digits)) == v % pow16(digits),
    decreases digits,
{
    if digits == 0 {
        assert(v % 1 == 0) by {
            vstd::arithmetic::div_mod::lemma_small_mod(0, 1);
            vstd::arithmetic::div_mod::lemma_mod_self_0(1);
            vstd::arithmetic::div_mod::lemma_fundamental_div_mod(v, 1);
        }
    } else {
        let d = (digits - 1) as nat;
        let q = hex_of(v / 16, d);
        lemma_unhex_hex(v / 16, d);
        assert(q.push(hex_digit(v % 16)).drop_last() =~= q);
        assert(hex_val(hex_digit(v % 16)) == v % 16);
        lemma_pow16_pos(d);
        vstd::arithmetic::div_mod::lemma_mod_breakdown(v, 16, pow16(d));
    }
}

/// Sixteen nibbles cover every 64-bit value.
proof fn lemma_pow16_16()
    ensures
        pow16(16) == 0x10000000000000000,
{
    reveal_with_fuel(pow16, 17);
}

/// Two nibbles cover every byte.
proof fn lemma_pow16_2()
    ensures
        pow16(2) == 0x100,
{
    reveal_with_fuel(pow16, 3);
}

/// Hex rendering of a full 64-bit word is injective.
pub proof fn lemma_hex_injective_u64(a: u64, b: u64)
    requires
        hex_of(a as int, 16) == hex_of(b as int, 16),
    ensures
        a == b,
{
    lemma_unhex_hex(a as int, 16);
    lemma_unhex_hex(b as int, 16);
    lemma_pow16_16();
    vstd::arithmetic::div_mod::lemma_small_mod(a as nat, 0x10000000000000000);
    vstd::arithmetic::div_mod::lemma_small_mod(b as nat, 0x10000000000000000);
}

/// Hex rendering of a byte is injective.
pub proof fn lemma_hex_injective_u8(a: u8, b: u8)
    requires
        hex_of(a as int, 2) == hex_of(b as int, 2),
    ensures
        a == b,
{
    lemma_unhex_hex(a as int, 2);
    lemma_unhex_hex(b as int, 2);
    lemma_pow16_2();
    vstd::arithmetic::div_mod::lemma_small_mod(a as nat, 0x100);
    vstd::arithmetic::div_mod::lemma_small_mod(b as nat, 0x100);
}

/// The ASCII path a key addresses on a physical backend:
/// `"ss/hhhhhhhhhhhhhhhhllllllllllllllll"` — the shard prefix, a
/// separator, then the two halves of the identifier, all in hex.
pub open spec fn spec_path_of(k: StorageKey) -> Seq<u8> {
    hex_of(k.shard as int, 2) + seq![47u8] + hex_of(k.hi as int, 16) + hex_of(k.lo as int, 16)
}

/// Appends the low `digits` nibbles of `v` in big-endian ASCII hex.
fn push_hex(v: u64, digits: usize, out: &mut Vec<u8>)
    requires
        digits <= 16,
    ensures
        final(out)@ == old(out)@ + hex_of(v as int, digits as nat),
    decreases digits,
{
    if digits == 0 {
        proof {
            assert(old(out)@ + hex_of(v as int, 0) =~= old(out)@);
        }
        return;
    }
    push_hex(v / 16, digits - 1, out);
    let d: u64 = v % 16;
    let b: u8 = if d < 10 {
        (48 + d) as u8
    } else {
        (87 + d) as u8
    };
    out.push(b);
    proof {
        assert(b == hex_digit((v as int) % 16));
        assert((v / 16) as int == (v as int) / 16);
        assert(old(out)@ + hex_of(v as int, digits as nat) =~= (old(out)@ + hex_of(
            (v as int) / 16,
            (digits - 1) as nat,
        )).push(b));
    }
}

impl StorageKey {
    /// Renders the key as its backend path, in ASCII.
    pub fn render_path(&self) -> (p: Vec<u8>)
        ensures
            p@ == spec_path_of(*self),
    {
        let mut out: Vec<u8> = Vec::new();
        push_hex(self.shard as u64, 2, &mut out);
        out.push(47);
        let ghost prefix = out@;
        proof {
            assert(prefix =~= hex_of(self.shard as int, 2) + seq![47u8]);
        }
        push_hex(self.hi, 16, &mut out);
        push_hex(self.lo, 16, &mut out);
        proof {
            assert(out@ =~= spec_path_of(*self));
        }
        out
    }
}

/// Path rendering is collision-free: distinct keys render to distinct
/// backend paths, so no two documents ever share a physical location.
pub proof fn lemma_path_injective(a: StorageKey, b: StorageKey)
    requires
        spec_path_of(a) == spec_path_of(b),
    ensures
        a == b,
{
    lemma_hex_len(a.shard as int, 2);
    lemma_hex_len(a.hi as int, 16);
    lemma_hex_len(a.lo as int, 16);
    lemma_hex_len(b.shard as int, 2);
    lemma_hex_len(b.hi as int, 16);
    lemma_hex_len(b.lo as int, 16);
    let pa = spec_path_of(a);
    let pb = spec_path_of(b);
    assert(pa.subrange(0, 2) =~= hex_of(a.shard as int, 2));
    assert(pa.subrange(3, 19) =~= hex_of(a.hi as int, 16));
    assert(pa.subrange(19, 35) =~= hex_of(a.lo as int, 16));
    assert(pb.subrange(0, 2) =~= hex_of(b.shard as int, 2));
    assert(pb.subrange(3, 19) =~= hex_of(b.hi as int, 16));
    assert(pb.subrange(19, 35) =~= hex_of(b.lo as int, 16));
    lemma_hex_injective_u8(a.shard, b.shard);
    lemma_hex_injective_u64(a.hi, b.hi);
    lemma_hex_injective_u64(a.lo, b.lo);
}

/// End to end, addressing is collision-free: two distinct identifiers
/// never resolve to the same physical path, so no document can overwrite
/// or shadow another on any backend.
pub proof fn lemma_distinct_ids_distinct_paths(a: DocumentId, b: DocumentId)
    requires
        a != b,
    ensures
        spec_path_of(spec_key_of(a)) != spec_path_of(spec_key_of(b)),
{
    if spec_path_of(spec_key_of(a)) == spec_path_of(spec_key_of(b)) {
        lemma_path_injective(spec_key_of(a), spec_key_of(b));
    }
}

} // verus!
