//! Byte strings: little-endian numbers, equality and the lexicographic order.

use vstd::prelude::*;

verus! {

broadcast use vstd::array::group_array_axioms;

/// The low 16 bits of `x`, least significant byte first.
pub open spec fn le16(x: int) -> Seq<u8> {
    seq![(x % 256) as u8, (x / 256 % 256) as u8]
}

/// The low 32 bits of `x`, least significant byte first.
pub open spec fn le32(x: int) -> Seq<u8> {
    seq![
        (x % 256) as u8,
        (x / 256 % 256) as u8,
        (x / 65536 % 256) as u8,
        (x / 16777216 % 256) as u8,
    ]
}

/// The number that two bytes at `p` of `d` stand for, least significant byte first.
pub open spec fn le16_at(d: Seq<u8>, p: int) -> int {
    d[p] + 256 * d[p + 1]
}

/// The number that four bytes at `p` of `d` stand for, least significant byte first.
pub open spec fn le32_at(d: Seq<u8>, p: int) -> int {
    d[p] + 256 * d[p + 1] + 65536 * d[p + 2] + 16777216 * d[p + 3]
}

/// A 16-bit number takes two bytes, the low one first; of a larger number the low 16 bits are kept.
pub proof fn le16_is_little_endian(x: int)
    requires
        0 <= x,
    ensures
        le16(x).len() == 2,
        le16(x)[0] as int + 256 * (le16(x)[1] as int) == x % 65536,
{
    assert(x % 65536 == x % 256 + 256 * (x / 256 % 256));
}

/// A 32-bit number takes four bytes, the lowest one first; of a larger number the low 32 bits are
/// kept.
pub proof fn le32_is_little_endian(x: int)
    requires
        0 <= x,
    ensures
        le32(x).len() == 4,
        le32(x)[0] as int + 256 * (le32(x)[1] as int) + 65536 * (le32(x)[2] as int) + 16777216 * (le32(x)[3] as int) == x
            % 4294967296,
{
    let low = x % 256 + 256 * (x / 256 % 256) + 65536 * (x / 65536 % 256) + 16777216 * (x / 16777216 % 256);
    let high = x / 4294967296;
    assert(x == x % 256 + 256 * (x / 256));
    assert(x / 256 == x / 256 % 256 + 256 * (x / 65536));
    assert(x / 65536 == x / 65536 % 256 + 256 * (x / 16777216));
    assert(x / 16777216 == x / 16777216 % 256 + 256 * high);
    assert(x == high * 4294967296 + low);
    vstd::arithmetic::div_mod::lemma_fundamental_div_mod_converse(x, 4294967296, high, low);
}

/// Whatever two bytes are read as, written again it is these bytes.
pub proof fn le16_writes_back(d: Seq<u8>, p: int)
    requires
        0 <= p,
        p + 2 <= d.len(),
    ensures
        0 <= le16_at(d, p) < 65536,
        le16(le16_at(d, p)) == d.subrange(p, p + 2),
{
    let x = le16_at(d, p);
    assert(x % 256 == d[p] as int && x / 256 % 256 == d[p + 1] as int);
    assert(le16(x) =~= d.subrange(p, p + 2));
}

/// Whatever four bytes are read as, written again it is these bytes.
pub proof fn le32_writes_back(d: Seq<u8>, p: int)
    requires
        0 <= p,
        p + 4 <= d.len(),
    ensures
        0 <= le32_at(d, p) <= u32::MAX,
        le32(le32_at(d, p)) == d.subrange(p, p + 4),
{
    let x = le32_at(d, p);
    assert(x % 256 == d[p] as int && x / 256 % 256 == d[p + 1] as int);
    assert(x / 65536 % 256 == d[p + 2] as int && x / 16777216 % 256 == d[p + 3] as int);
    assert(le32(x) =~= d.subrange(p, p + 4));
}

/// Reading back a written 16-bit number gives the number.
pub proof fn le16_reads_back(d: Seq<u8>, p: int, x: int)
    requires
        0 <= p,
        p + 2 <= d.len(),
        d.subrange(p, p + 2) == le16(x),
        0 <= x < 65536,
    ensures
        le16_at(d, p) == x,
{
    assert(d[p] == d.subrange(p, p + 2)[0]);
    assert(d[p + 1] == d.subrange(p, p + 2)[1]);
}

/// Reading back a written 32-bit number gives the number.
pub proof fn le32_reads_back(d: Seq<u8>, p: int, x: int)
    requires
        0 <= p,
        p + 4 <= d.len(),
        d.subrange(p, p + 4) == le32(x),
        0 <= x <= u32::MAX,
    ensures
        le32_at(d, p) == x,
{
    let s = d.subrange(p, p + 4);
    assert(d[p] == s[0] && d[p + 1] == s[1] && d[p + 2] == s[2] && d[p + 3] == s[3]);
    assert(x == x % 256 + 256 * (x / 256));
    assert(x / 256 == x / 256 % 256 + 256 * (x / 65536));
    assert(x / 65536 == x / 65536 % 256 + 256 * (x / 16777216));
}

/// Appends the low 16 bits of `x`.
pub fn push_le16(out: &mut Vec<u8>, x: usize)
    ensures
        final(out)@ == old(out)@ + le16(x as int),
{
    out.push((x % 256) as u8);
    out.push((x / 256 % 256) as u8);
}

/// Appends `x` as four bytes.
pub fn push_le32(out: &mut Vec<u8>, x: u32)
    ensures
        final(out)@ == old(out)@ + le32(x as int),
{
    out.push((x % 256) as u8);
    out.push((x / 256 % 256) as u8);
    out.push((x / 65536 % 256) as u8);
    out.push((x / 16777216 % 256) as u8);
}

/// Reads the two bytes at `p`.
pub fn read_le16(d: &[u8], p: usize) -> (x: usize)
    requires
        p + 2 <= d@.len(),
    ensures
        x == le16_at(d@, p as int),
        x <= 65535,
{
    d[p] as usize + 256 * (d[p + 1] as usize)
}

/// Reads the four bytes at `p`.
pub fn read_le32(d: &[u8], p: usize) -> (x: u32)
    requires
        p + 4 <= d@.len(),
    ensures
        x == le32_at(d@, p as int),
{
    d[p] as u32 + 256 * (d[p + 1] as u32) + 65536 * (d[p + 2] as u32) + 16777216 * (d[p + 3] as u32)
}

/// A copy of `d[from..to]`.
pub fn slice_of(d: &[u8], from: usize, to: usize) -> (r: Vec<u8>)
    requires
        from <= to <= d@.len(),
    ensures
        r@ == d@.subrange(from as int, to as int),
{
    vstd::slice::slice_to_vec(vstd::slice::slice_subrange(d, from, to))
}

/// The bytes of `a` followed by those of `b`.
pub fn concat(a: &[u8], b: &[u8]) -> (r: Vec<u8>)
    ensures
        r@ == a@ + b@,
{
    let mut r = vstd::slice::slice_to_vec(a);
    r.extend_from_slice(b);
    r
}

/// A 32-byte string as an array.
pub fn to_array32(s: &[u8]) -> (r: [u8; 32])
    requires
        s@.len() == 32,
    ensures
        r@ == s@,
{
    let mut r = [0u8; 32];
    let mut i: usize = 0;
    while i < 32
        invariant
            i <= 32,
            s@.len() == 32,
            forall|j: int| 0 <= j < i ==> r@[j] == s@[j],
        decreases 32 - i,
    {
        r[i] = s[i];
        i = i + 1;
    }
    assert(r@ =~= s@);
    r
}

/// A 12-byte string as an array.
pub fn to_array12(s: &[u8]) -> (r: [u8; 12])
    requires
        s@.len() == 12,
    ensures
        r@ == s@,
{
    let mut r = [0u8; 12];
    let mut i: usize = 0;
    while i < 12
        invariant
            i <= 12,
            s@.len() == 12,
            forall|j: int| 0 <= j < i ==> r@[j] == s@[j],
        decreases 12 - i,
    {
        r[i] = s[i];
        i = i + 1;
    }
    assert(r@ =~= s@);
    r
}

/// Whether two byte strings are equal.
pub fn same(a: &[u8], b: &[u8]) -> (r: bool)
    ensures
        r == (a@ == b@),
{
    if a.len() != b.len() {
        return false;
    }
    let mut i: usize = 0;
    while i < a.len()
        invariant
            i <= a@.len(),
            a@.len() == b@.len(),
            forall|j: int| 0 <= j < i ==> a@[j] == b@[j],
        decreases a@.len() - i,
    {
        if a[i] != b[i] {
            return false;
        }
        i = i + 1;
    }
    assert(a@ =~= b@);
    true
}

/// The lexicographic order on byte strings.
pub open spec fn precedes(a: Seq<u8>, b: Seq<u8>) -> bool
    decreases a.len(),
{
    if b.len() == 0 {
        false
    } else if a.len() == 0 {
        true
    } else {
        a[0] < b[0] || (a[0] == b[0] && precedes(a.drop_first(), b.drop_first()))
    }
}

/// No byte string precedes itself.
pub proof fn precedes_irreflexive(a: Seq<u8>)
    ensures
        !precedes(a, a),
    decreases a.len(),
{
    if a.len() > 0 {
        precedes_irreflexive(a.drop_first());
    }
}

/// The order is transitive.
pub proof fn precedes_transitive(a: Seq<u8>, b: Seq<u8>, c: Seq<u8>)
    requires
        precedes(a, b),
        precedes(b, c),
    ensures
        precedes(a, c),
    decreases a.len(),
{
    if a.len() > 0 && a[0] == b[0] && b[0] == c[0] {
        precedes_transitive(a.drop_first(), b.drop_first(), c.drop_first());
    }
}

/// Of two different byte strings exactly one precedes the other.
pub proof fn precedes_total(a: Seq<u8>, b: Seq<u8>)
    ensures
        a != b ==> (precedes(a, b) <==> !precedes(b, a)),
        a == b ==> !precedes(a, b) && !precedes(b, a),
    decreases a.len(),
{
    if a.len() == 0 || b.len() == 0 {
        if a.len() == b.len() {
            assert(a =~= b);
        }
    } else {
        precedes_total(a.drop_first(), b.drop_first());
        if a[0] == b[0] && a.drop_first() == b.drop_first() {
            assert(a =~= seq![a[0]] + a.drop_first());
            assert(b =~= seq![b[0]] + b.drop_first());
        }
    }
}

/// The first byte in which two byte strings differ decides their order, and a byte string precedes
/// those that continue it.
pub proof fn first_difference_decides(a: Seq<u8>, b: Seq<u8>, k: int)
    requires
        0 <= k <= a.len(),
        k < b.len(),
        forall|j: int| 0 <= j < k ==> a[j] == b[j],
        k < a.len() ==> a[k] != b[k],
    ensures
        precedes(a, b) <==> k == a.len() || a[k] < b[k],
{
    precedes_skips_equal_prefix(a, b, k);
}

proof fn precedes_skips_equal_prefix(a: Seq<u8>, b: Seq<u8>, k: int)
    requires
        0 <= k <= a.len(),
        k <= b.len(),
        forall|j: int| 0 <= j < k ==> a[j] == b[j],
    ensures
        precedes(a, b) == precedes(a.skip(k), b.skip(k)),
    decreases k,
{
    if k == 0 {
        assert(a.skip(0) =~= a);
        assert(b.skip(0) =~= b);
    } else {
        precedes_skips_equal_prefix(a, b, k - 1);
        assert(a.skip(k - 1).drop_first() =~= a.skip(k));
        assert(b.skip(k - 1).drop_first() =~= b.skip(k));
    }
}

/// Whether `a` precedes `b`.
pub fn less(a: &[u8], b: &[u8]) -> (r: bool)
    ensures
        r == precedes(a@, b@),
{
    let mut i: usize = 0;
    while i < a.len() && i < b.len()
        invariant
            i <= a@.len(),
            i <= b@.len(),
            forall|j: int| 0 <= j < i ==> a@[j] == b@[j],
        decreases a@.len() - i,
    {
        if a[i] != b[i] {
            proof {
                precedes_skips_equal_prefix(a@, b@, i as int);
            }
            return a[i] < b[i];
        }
        i = i + 1;
    }
    proof {
        precedes_skips_equal_prefix(a@, b@, i as int);
    }
    a.len() < b.len()
}

} // verus!
