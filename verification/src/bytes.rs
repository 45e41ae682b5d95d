//! Byte-string helpers shared by the tree, the verifier and the vault.
use vstd::prelude::*;

verus! {

/// Whether two byte strings are equal.
pub fn bytes_equal(a: &[u8], b: &[u8]) -> (equal: bool)
    ensures
        equal == (a@ == b@),
{
    if a.len() != b.len() {
        return false;
    }
    let mut i: usize = 0;
    while i < a.len()
        invariant
            a@.len() == b@.len(),
            0 <= i <= a@.len(),
            forall|j: int| 0 <= j < i ==> a@[j] == b@[j],
        decreases a@.len() - i,
    {
        if a[i] != b[i] {
            return false;
        }
        i = i + 1;
    }
    assert(a@ =~= b@);
    true
}

/// The views of a list of 32-byte strings.
pub open spec fn hash_views(hashes: Seq<[u8; 32]>) -> Seq<Seq<u8>> {
    hashes.map_values(|h: [u8; 32]| h@)
}

/// The set of the 32-byte strings held in `hashes`.
pub open spec fn hash_set(hashes: Seq<[u8; 32]>) -> Set<Seq<u8>> {
    Set::new(|h: Seq<u8>| exists|i: int| 0 <= i < hashes.len() && #[trigger] hashes[i]@ == h)
}

/// Appending a hash adds it to the set of hashes held.
pub proof fn lemma_hash_set_push(hashes: Seq<[u8; 32]>, h: [u8; 32])
    ensures
        hash_set(hashes.push(h)) == hash_set(hashes).insert(h@),
{
    let longer = hashes.push(h);
    assert forall|r: Seq<u8>| #[trigger] hash_set(longer).contains(r) <==> hash_set(hashes).insert(h@).contains(r) by {
        if hash_set(hashes).contains(r) {
            let i = choose|i: int| 0 <= i < hashes.len() && #[trigger] hashes[i]@ == r;
            assert(longer[i] == hashes[i]);
        }
        if r == h@ {
            assert(longer[hashes.len() as int] == h);
        }
        if hash_set(longer).contains(r) {
            let i = choose|i: int| 0 <= i < longer.len() && #[trigger] longer[i]@ == r;
            if i < hashes.len() {
                assert(longer[i] == hashes[i]);
            }
        }
    }
    assert(hash_set(longer) =~= hash_set(hashes).insert(h@));
}

/// `256^width`.
pub open spec fn pow256(width: nat) -> nat
    decreases width,
{
    if width == 0 {
        1
    } else {
        256 * pow256((width - 1) as nat)
    }
}

/// The number whose big-endian encoding is `bytes`.
pub open spec fn be_value(bytes: Seq<u8>) -> nat
    decreases bytes.len(),
{
    if bytes.len() == 0 {
        0
    } else {
        be_value(bytes.drop_last()) * 256 + bytes.last() as nat
    }
}

/// The `width`-byte big-endian encoding of a value below `256^width` has
/// `width` bytes and decodes back to the value; so two such values with the
/// same encoding are equal.
pub proof fn lemma_be_bytes_roundtrip(value: nat, width: nat)
    requires
        value < pow256(width),
    ensures
        be_bytes(value, width).len() == width,
        be_value(be_bytes(value, width)) == value,
    decreases width,
{
    if width > 0 {
        let w1 = (width - 1) as nat;
        assert(value / 256 < pow256(w1)) by (nonlinear_arith)
            requires
                value < 256 * pow256(w1),
        ;
        lemma_be_bytes_roundtrip(value / 256, w1);
        let bytes = be_bytes(value, width);
        assert(bytes.drop_last() =~= be_bytes(value / 256, w1));
        assert(bytes.last() == value % 256);
        assert((value / 256) * 256 + value % 256 == value) by (nonlinear_arith);
    }
}

/// `256^16` is `2^128`.
pub proof fn lemma_pow256_16()
    ensures
        pow256(16) == 0x1_0000_0000_0000_0000_0000_0000_0000_0000,
{
    reveal_with_fuel(pow256, 17);
}

/// Whether `h` is among `hashes`.
pub fn contains_hash(hashes: &Vec<[u8; 32]>, h: &[u8; 32]) -> (found: bool)
    ensures
        found == hash_set(hashes@).contains(h@),
{
    let mut i: usize = 0;
    while i < hashes.len()
        invariant
            0 <= i <= hashes@.len(),
            forall|j: int| 0 <= j < i ==> hashes@[j]@ != h@,
        decreases hashes@.len() - i,
    {
        let candidate = &hashes[i];
        if bytes_equal(candidate, h) {
            assert(hashes@[i as int]@ == h@);
            return true;
        }
        i = i + 1;
    }
    false
}

/// The `width`-byte big-endian encoding of `value` (the low `width` bytes).
pub open spec fn be_bytes(value: nat, width: nat) -> Seq<u8>
    decreases width,
{
    if width == 0 {
        Seq::empty()
    } else {
        be_bytes(value / 256, (width - 1) as nat).push((value % 256) as u8)
    }
}

/// The `width`-byte big-endian encoding of `value`.
pub fn u128_be_bytes(value: u128, width: usize) -> (bytes: Vec<u8>)
    ensures
        bytes@ == be_bytes(value as nat, width as nat),
    decreases width,
{
    if width == 0 {
        Vec::new()
    } else {
        let mut bytes = u128_be_bytes(value / 256, width - 1);
        bytes.push((value % 256) as u8);
        bytes
    }
}

/// Appends the bytes of `tail` to `bytes`.
pub fn append_bytes(bytes: &mut Vec<u8>, tail: &[u8])
    ensures
        final(bytes)@ == old(bytes)@ + tail@,
{
    let ghost start = bytes@;
    for i in 0..tail.len()
        invariant
            bytes@ == start + tail@.take(i as int),
    {
        bytes.push(tail[i]);
        assert(tail@.take(i + 1) == tail@.take(i as int).push(tail@[i as int]));
    }
    assert(tail@.take(tail@.len() as int) == tail@);
}

} // verus!
