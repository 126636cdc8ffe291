//! Byte-level encodings shared by every wire format of the library.

use vstd::prelude::*;

verus! {

/// The little-endian encoding of a 32-bit word.
pub open spec fn le32(v: u32) -> Seq<u8> {
    seq![v as u8, (v >> 8) as u8, (v >> 16) as u8, (v >> 24) as u8]
}

/// The 32-bit word whose little-endian encoding starts `s`.
pub open spec fn from_le32(s: Seq<u8>) -> u32 {
    (s[0] as u32) | ((s[1] as u32) << 8) | ((s[2] as u32) << 16) | ((s[3] as u32) << 24)
}

/// The little-endian encoding of a 64-bit word.
pub open spec fn le64(v: u64) -> Seq<u8> {
    seq![
        v as u8,
        (v >> 8) as u8,
        (v >> 16) as u8,
        (v >> 24) as u8,
        (v >> 32) as u8,
        (v >> 40) as u8,
        (v >> 48) as u8,
        (v >> 56) as u8,
    ]
}

/// The big-endian encoding of a 32-bit word.
pub open spec fn be32(v: u32) -> Seq<u8> {
    seq![(v >> 24) as u8, (v >> 16) as u8, (v >> 8) as u8, v as u8]
}

/// The 32-bit word whose big-endian encoding starts `s`.
pub open spec fn from_be32(s: Seq<u8>) -> u32 {
    ((s[0] as u32) << 24) | ((s[1] as u32) << 16) | ((s[2] as u32) << 8) | (s[3] as u32)
}

/// The big-endian encoding of a 64-bit word.
pub open spec fn be64(v: u64) -> Seq<u8> {
    seq![
        (v >> 56) as u8,
        (v >> 48) as u8,
        (v >> 40) as u8,
        (v >> 32) as u8,
        (v >> 24) as u8,
        (v >> 16) as u8,
        (v >> 8) as u8,
        v as u8,
    ]
}

/// The 64-bit word whose big-endian encoding starts `s`.
pub open spec fn from_be64(s: Seq<u8>) -> u64 {
    ((s[0] as u64) << 56) | ((s[1] as u64) << 48) | ((s[2] as u64) << 40) | ((s[3] as u64) << 32)
        | ((s[4] as u64) << 24) | ((s[5] as u64) << 16) | ((s[6] as u64) << 8) | (s[7] as u64)
}

/// Decoding the little-endian encoding of a 32-bit word gives the word back.
pub proof fn lemma_le32_round_trip(v: u32)
    ensures
        from_le32(le32(v)) == v,
{
    assert(((v as u8) as u32) | (((v >> 8) as u8) as u32) << 8 | (((v >> 16) as u8) as u32) << 16
        | (((v >> 24) as u8) as u32) << 24 == v) by (bit_vector);
}

/// Decoding the big-endian encoding of a 32-bit word gives the word back.
pub proof fn lemma_be32_round_trip(v: u32)
    ensures
        from_be32(be32(v)) == v,
{
    assert((((v >> 24) as u8) as u32) << 24 | (((v >> 16) as u8) as u32) << 16 | (((v
        >> 8) as u8) as u32) << 8 | ((v as u8) as u32) == v) by (bit_vector);
}

/// Decoding the big-endian encoding of a 64-bit word gives the word back.
pub proof fn lemma_be64_round_trip(v: u64)
    ensures
        from_be64(be64(v)) == v,
{
    assert((((v >> 56) as u8) as u64) << 56 | (((v >> 48) as u8) as u64) << 48 | (((v
        >> 40) as u8) as u64) << 40 | (((v >> 32) as u8) as u64) << 32 | (((v
        >> 24) as u8) as u64) << 24 | (((v >> 16) as u8) as u64) << 16 | (((v
        >> 8) as u8) as u64) << 8 | ((v as u8) as u64) == v) by (bit_vector);
}

/// Different bytes spell different 32-bit words.
pub proof fn lemma_from_be32_injective(x: Seq<u8>, y: Seq<u8>)
    requires
        x.len() == 4,
        y.len() == 4,
        from_be32(x) == from_be32(y),
    ensures
        x == y,
{
    let (a, b, c, d) = (x[0], x[1], x[2], x[3]);
    let (e, f, g, h) = (y[0], y[1], y[2], y[3]);
    assert(a == e && b == f && c == g && d == h) by (bit_vector)
        requires
            ((a as u32) << 24) | ((b as u32) << 16) | ((c as u32) << 8) | (d as u32) == ((
            e as u32) << 24) | ((f as u32) << 16) | ((g as u32) << 8) | (h as u32),
    ;
    assert(x =~= y);
}

/// Whether a byte string comes after another in the order of bytes.
pub open spec fn comes_after(a: Seq<u8>, b: Seq<u8>) -> bool {
    exists|i: int| #[trigger] differ_at(a, b, i) && a[i] > b[i]
}

/// Whether two byte strings differ at a place and agree before it.
pub open spec fn differ_at(a: Seq<u8>, b: Seq<u8>, i: int) -> bool {
    &&& 0 <= i < a.len()
    &&& i < b.len()
    &&& a[i] != b[i]
    &&& a.take(i) == b.take(i)
}

/// Two byte strings differ first at one place only.
pub proof fn lemma_differ_once(a: Seq<u8>, b: Seq<u8>, i: int, k: int)
    requires
        differ_at(a, b, i),
        differ_at(a, b, k),
    ensures
        i == k,
{
    if i < k {
        assert(a.take(k)[i] == b.take(k)[i]);
    } else if k < i {
        assert(a.take(i)[k] == b.take(i)[k]);
    }
}

/// Two byte strings that are not the same, up to a place, differ somewhere first.
pub proof fn lemma_some_difference(a: Seq<u8>, b: Seq<u8>, n: int)
    requires
        a.len() == b.len(),
        0 <= n <= a.len(),
        a.take(n) != b.take(n),
    ensures
        exists|i: int| differ_at(a, b, i),
    decreases n,
{
    if n == 0 {
        assert(a.take(0) =~= b.take(0));
    } else if a.take(n - 1) == b.take(n - 1) {
        assert(a.take(n) =~= a.take(n - 1).push(a[n - 1]));
        assert(b.take(n) =~= b.take(n - 1).push(b[n - 1]));
        assert(differ_at(a, b, n - 1));
    } else {
        lemma_some_difference(a, b, n - 1);
    }
}

/// Of two byte strings at most one comes after the other.
pub proof fn lemma_order_is_one_way(a: Seq<u8>, b: Seq<u8>)
    ensures
        !(comes_after(a, b) && comes_after(b, a)),
        !comes_after(a, a),
{
    if comes_after(a, b) && comes_after(b, a) {
        let i = choose|i: int| #[trigger] differ_at(a, b, i) && a[i] > b[i];
        let k = choose|k: int| #[trigger] differ_at(b, a, k) && b[k] > a[k];
        assert(differ_at(a, b, k));
        lemma_differ_once(a, b, i, k);
    }
}

/// What follows decides nothing once byte strings of one length differ.
pub proof fn lemma_order_by_front(a: Seq<u8>, b: Seq<u8>, c: Seq<u8>, d: Seq<u8>)
    requires
        a.len() == b.len(),
        comes_after(a, b),
    ensures
        comes_after(a + c, b + d),
{
    let i = choose|i: int| #[trigger] differ_at(a, b, i) && a[i] > b[i];
    assert((a + c).take(i) =~= a.take(i));
    assert((b + d).take(i) =~= b.take(i));
    assert(differ_at(a + c, b + d, i));
}

/// Byte strings with the same front are in the order of what follows.
pub proof fn lemma_order_by_back(a: Seq<u8>, c: Seq<u8>, d: Seq<u8>)
    requires
        comes_after(c, d),
    ensures
        comes_after(a + c, a + d),
{
    let i = choose|i: int| #[trigger] differ_at(c, d, i) && c[i] > d[i];
    let k = a.len() + i;
    assert((a + c).take(k) =~= a + c.take(i));
    assert((a + d).take(k) =~= a + d.take(i));
    assert(differ_at(a + c, a + d, k));
}

proof fn lemma_after_at(a: Seq<u8>, b: Seq<u8>, i: int)
    requires
        0 <= i < a.len(),
        a.len() == b.len(),
        a[i] > b[i],
        forall|k: int| 0 <= k < i ==> a[k] == b[k],
    ensures
        comes_after(a, b),
{
    assert(a.take(i) =~= b.take(i));
    assert(differ_at(a, b, i));
}

/// The big-endian encodings of 32-bit words are in the order of the words.
pub proof fn lemma_be32_order(x: u32, y: u32)
    requires
        x < y,
    ensures
        comes_after(be32(y), be32(x)),
{
    let (a, b) = (be32(y), be32(x));
    assert((y >> 24) as u8 > (x >> 24) as u8 || ((y >> 24) as u8 == (x >> 24) as u8 && ((y
        >> 16) as u8 > (x >> 16) as u8 || ((y >> 16) as u8 == (x >> 16) as u8 && ((y >> 8) as u8
        > (x >> 8) as u8 || ((y >> 8) as u8 == (x >> 8) as u8 && y as u8 > x as u8)))))) by (bit_vector)
        requires
            x < y,
    ;
    let i: int = if a[0] > b[0] {
        0
    } else if a[1] > b[1] {
        1
    } else if a[2] > b[2] {
        2
    } else {
        3
    };
    lemma_after_at(a, b, i);
}

/// The big-endian encodings of 64-bit words are in the order of the words.
pub proof fn lemma_be64_order(x: u64, y: u64)
    requires
        x < y,
    ensures
        comes_after(be64(y), be64(x)),
{
    let (xh, xl) = ((x >> 32) as u32, x as u32);
    let (yh, yl) = ((y >> 32) as u32, y as u32);
    assert(xh < yh || (xh == yh && xl < yl)) by (bit_vector)
        requires
            x < y,
            xh == (x >> 32) as u32,
            xl == x as u32,
            yh == (y >> 32) as u32,
            yl == y as u32,
    ;
    lemma_be64_halves(x);
    lemma_be64_halves(y);
    if xh < yh {
        lemma_be32_order(xh, yh);
        lemma_order_by_front(be32(yh), be32(xh), be32(yl), be32(xl));
    } else {
        lemma_be32_order(xl, yl);
        lemma_order_by_back(be32(xh), be32(yl), be32(xl));
    }
}

proof fn lemma_be64_halves(x: u64)
    ensures
        be64(x) == be32((x >> 32) as u32) + be32(x as u32),
{
    let (h, l) = ((x >> 32) as u32, x as u32);
    assert((x >> 56) as u8 == (h >> 24) as u8 && (x >> 48) as u8 == (h >> 16) as u8 && (x
        >> 40) as u8 == (h >> 8) as u8 && (x >> 32) as u8 == h as u8 && (x >> 24) as u8 == (l
        >> 24) as u8 && (x >> 16) as u8 == (l >> 16) as u8 && (x >> 8) as u8 == (l >> 8) as u8
        && x as u8 == l as u8) by (bit_vector)
        requires
            h == (x >> 32) as u32,
            l == x as u32,
    ;
    assert(be64(x) =~= be32(h) + be32(l));
}

/// Encodes a 32-bit word, least significant byte first.
pub fn u32_to_le(v: u32) -> (r: [u8; 4])
    ensures
        r@ == le32(v),
{
    let r = [v as u8, (v >> 8) as u8, (v >> 16) as u8, (v >> 24) as u8];
    assert(r@ =~= le32(v));
    r
}

/// Decodes the first four bytes of `s`, least significant byte first.
pub fn u32_from_le(s: &[u8]) -> (r: u32)
    requires
        s@.len() >= 4,
    ensures
        r == from_le32(s@),
{
    (s[0] as u32) | ((s[1] as u32) << 8) | ((s[2] as u32) << 16) | ((s[3] as u32) << 24)
}

/// Encodes a 64-bit word, least significant byte first.
pub fn u64_to_le(v: u64) -> (r: [u8; 8])
    ensures
        r@ == le64(v),
{
    let r = [
        v as u8,
        (v >> 8) as u8,
        (v >> 16) as u8,
        (v >> 24) as u8,
        (v >> 32) as u8,
        (v >> 40) as u8,
        (v >> 48) as u8,
        (v >> 56) as u8,
    ];
    assert(r@ =~= le64(v));
    r
}

/// Encodes a 64-bit word, most significant byte first.
pub fn u64_to_be(v: u64) -> (r: [u8; 8])
    ensures
        r@ == be64(v),
{
    let r = [
        (v >> 56) as u8,
        (v >> 48) as u8,
        (v >> 40) as u8,
        (v >> 32) as u8,
        (v >> 24) as u8,
        (v >> 16) as u8,
        (v >> 8) as u8,
        v as u8,
    ];
    assert(r@ =~= be64(v));
    r
}

/// Whether two byte strings are equal.
pub fn same_bytes(a: &[u8], b: &[u8]) -> (r: bool)
    ensures
        r == (a@ == b@),
{
    if a.len() != b.len() {
        return false;
    }
    let mut i: usize = 0;
    while i < a.len()
        invariant
            i <= a@.len(),
            a@.len() == b@.len(),
            forall|j: int| 0 <= j < i ==> a@[j] == b@[j],
        decreases a@.len() - i,
    {
        if a[i] != b[i] {
            return false;
        }
        i = i + 1;
    }
    assert(a@ =~= b@);
    true
}

/// Copies a byte range into an array of exactly the requested size.
pub fn take_array<const N: usize>(s: &[u8], from: usize) -> (r: [u8; N])
    requires
        from + N <= s@.len(),
    ensures
        r@ == s@.subrange(from as int, from + N),
{
    let mut r = [0u8; N];
    let len: usize = s.len();
    let mut i: usize = 0;
    while i < N
        invariant
            i <= N,
            from + N <= len == s@.len(),
            forall|j: int| 0 <= j < i ==> r@[j] == s@[from + j],
        decreases N - i,
    {
        r[i] = s[from + i];
        i = i + 1;
    }
    assert(r@ =~= s@.subrange(from as int, from + N));
    r
}

/// Overwrites `out[from..]` with `src`.
pub fn put_bytes(out: &mut [u8], from: usize, src: &[u8])
    requires
        from + src@.len() <= old(out)@.len(),
    ensures
        final(out)@ == old(out)@.subrange(0, from as int) + src@ + old(out)@.subrange(
            from + src@.len(),
            old(out)@.len() as int,
        ),
{
    let ghost start = out@;
    let len: usize = out.len();
    let mut i: usize = 0;
    while i < src.len()
        invariant
            i <= src@.len(),
            from + src@.len() <= len == start.len(),
            out@.len() == start.len(),
            forall|j: int| 0 <= j < i ==> out@[from + j] == src@[j],
            forall|j: int|
                0 <= j < start.len() && !(from <= j < from + i) ==> out@[j] == start[j],
        decreases src@.len() - i,
    {
        out[from + i] = src[i];
        i = i + 1;
    }
    assert(out@ =~= start.subrange(0, from as int) + src@ + start.subrange(
        from + src@.len(),
        start.len() as int,
    )) by {
        assert forall|k: int| from <= k < from + src@.len() implies out@[k] == src@[k - from] by {
            assert(out@[from + (k - from)] == src@[k - from]);
        }
    }
}

} // verus!
