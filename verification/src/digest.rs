//! MD5 (RFC 1321), as POP3 APOP (RFC 1939 §7) uses it, and lower-case hex.
//!
//! The digest is specified round by round over 32-bit words, with the same wrapping
//! additions, rotations and boolean functions the RFC gives; the executable code follows the
//! specification block by block.
use vstd::prelude::*;

verus! {

/// The 64 additive constants `floor(abs(sin(i + 1)) * 2^32)`.
pub open spec fn md5_k() -> Seq<u32> {
    seq![
        0xd76aa478u32, 0xe8c7b756, 0x242070db, 0xc1bdceee, 0xf57c0faf, 0x4787c62a, 0xa8304613,
        0xfd469501, 0x698098d8, 0x8b44f7af, 0xffff5bb1, 0x895cd7be, 0x6b901122, 0xfd987193,
        0xa679438e, 0x49b40821, 0xf61e2562, 0xc040b340, 0x265e5a51, 0xe9b6c7aa, 0xd62f105d,
        0x02441453, 0xd8a1e681, 0xe7d3fbc8, 0x21e1cde6, 0xc33707d6, 0xf4d50d87, 0x455a14ed,
        0xa9e3e905, 0xfcefa3f8, 0x676f02d9, 0x8d2a4c8a, 0xfffa3942, 0x8771f681, 0x6d9d6122,
        0xfde5380c, 0xa4beea44, 0x4bdecfa9, 0xf6bb4b60, 0xbebfbc70, 0x289b7ec6, 0xeaa127fa,
        0xd4ef3085, 0x04881d05, 0xd9d4d039, 0xe6db99e5, 0x1fa27cf8, 0xc4ac5665, 0xf4292244,
        0x432aff97, 0xab9423a7, 0xfc93a039, 0x655b59c3, 0x8f0ccc92, 0xffeff47d, 0x85845dd1,
        0x6fa87e4f, 0xfe2ce6e0, 0xa3014314, 0x4e0811a1, 0xf7537e82, 0xbd3af235, 0x2ad7d2bb,
        0xeb86d391,
    ]
}

/// The rotation amount of round `i` (four per quarter, repeated).
pub open spec fn md5_shift(i: int) -> u32 {
    let q = i / 16;
    let j = i % 4;
    if q == 0 {
        if j == 0 { 7 } else if j == 1 { 12 } else if j == 2 { 17 } else { 22 }
    } else if q == 1 {
        if j == 0 { 5 } else if j == 1 { 9 } else if j == 2 { 14 } else { 20 }
    } else if q == 2 {
        if j == 0 { 4 } else if j == 1 { 11 } else if j == 2 { 16 } else { 23 }
    } else {
        if j == 0 { 6 } else if j == 1 { 10 } else if j == 2 { 15 } else { 21 }
    }
}

/// Rotate a word left by `c` bits (0 < c < 32).
pub open spec fn rotl(x: u32, c: u32) -> u32 {
    (x << c) | (x >> ((32 - c) as u32))
}

/// The boolean function of round `i` (F, G, H, I by quarter).
pub open spec fn md5_fun(i: int, b: u32, c: u32, d: u32) -> u32 {
    if i < 16 {
        (b & c) | (!b & d)
    } else if i < 32 {
        (d & b) | (!d & c)
    } else if i < 48 {
        b ^ c ^ d
    } else {
        c ^ (b | !d)
    }
}

/// The message word that round `i` reads.
pub open spec fn md5_index(i: int) -> int {
    if i < 16 {
        i
    } else if i < 32 {
        (5 * i + 1) % 16
    } else if i < 48 {
        (3 * i + 5) % 16
    } else {
        (7 * i) % 16
    }
}

/// Word `g` of a block, little-endian.
pub open spec fn le_word(blk: Seq<u8>, g: int) -> u32 {
    (blk[4 * g] as u32) | ((blk[4 * g + 1] as u32) << 8u32) | ((blk[4 * g + 2] as u32) << 16u32) | ((
    blk[4 * g + 3] as u32) << 24u32)
}

/// The four state words.
pub type Md5State = (u32, u32, u32, u32);

/// One round of the compression function.
pub open spec fn md5_round(s: Md5State, blk: Seq<u8>, i: int) -> Md5State {
    let f = md5_fun(i, s.1, s.2, s.3).wrapping_add(s.0).wrapping_add(md5_k()[i]).wrapping_add(
        le_word(blk, md5_index(i)),
    );
    (s.3, s.1.wrapping_add(rotl(f, md5_shift(i))), s.1, s.2)
}

/// The state after the first `n` rounds over a block.
pub open spec fn md5_rounds(s: Md5State, blk: Seq<u8>, n: nat) -> Md5State
    decreases n,
{
    if n == 0 {
        s
    } else {
        md5_round(md5_rounds(s, blk, (n - 1) as nat), blk, n - 1)
    }
}

/// One 64-byte block folded into the state.
pub open spec fn md5_compress(s: Md5State, blk: Seq<u8>) -> Md5State {
    let r = md5_rounds(s, blk, 64);
    (s.0.wrapping_add(r.0), s.1.wrapping_add(r.1), s.2.wrapping_add(r.2), s.3.wrapping_add(r.3))
}

/// The initial state.
pub open spec fn md5_init() -> Md5State {
    (0x67452301u32, 0xefcdab89u32, 0x98badcfeu32, 0x10325476u32)
}

/// The little-endian bytes of a 64-bit value.
pub open spec fn le64(n: u64) -> Seq<u8> {
    Seq::new(8, |i: int| ((n >> (8 * i) as u64) & 0xff) as u8)
}

/// The little-endian bytes of a 32-bit value.
pub open spec fn le32(n: u32) -> Seq<u8> {
    Seq::new(4, |i: int| ((n >> (8 * i) as u32) & 0xff) as u8)
}

/// The number of zero bytes after the `0x80` marker that bring the length to 56 modulo 64.
pub open spec fn md5_zeros(len: nat) -> nat {
    ((119 - (len % 64)) % 64) as nat
}

/// The padded message: the data, `0x80`, zeros, and the bit length modulo 2^64.
pub open spec fn md5_padded(m: Seq<u8>) -> Seq<u8> {
    m + seq![0x80u8] + Seq::new(md5_zeros(m.len()), |i: int| 0u8) + le64(
        ((m.len() * 8) % 0x1_0000_0000_0000_0000) as u64,
    )
}

/// The state after the first `k` blocks of a padded message.
pub open spec fn md5_blocks(p: Seq<u8>, k: nat) -> Md5State
    decreases k,
{
    if k == 0 {
        md5_init()
    } else {
        md5_compress(md5_blocks(p, (k - 1) as nat), p.subrange(64 * (k - 1), 64 * k as int))
    }
}

/// The MD5 digest of a message: the final state's words, little-endian.
pub open spec fn md5_spec(m: Seq<u8>) -> Seq<u8> {
    let p = md5_padded(m);
    let s = md5_blocks(p, p.len() / 64);
    le32(s.0) + le32(s.1) + le32(s.2) + le32(s.3)
}

fn k_table() -> (r: Vec<u32>)
    ensures
        r@ == md5_k(),
{
    let r: Vec<u32> = vec![
        0xd76aa478u32, 0xe8c7b756, 0x242070db, 0xc1bdceee, 0xf57c0faf, 0x4787c62a, 0xa8304613,
        0xfd469501, 0x698098d8, 0x8b44f7af, 0xffff5bb1, 0x895cd7be, 0x6b901122, 0xfd987193,
        0xa679438e, 0x49b40821, 0xf61e2562, 0xc040b340, 0x265e5a51, 0xe9b6c7aa, 0xd62f105d,
        0x02441453, 0xd8a1e681, 0xe7d3fbc8, 0x21e1cde6, 0xc33707d6, 0xf4d50d87, 0x455a14ed,
        0xa9e3e905, 0xfcefa3f8, 0x676f02d9, 0x8d2a4c8a, 0xfffa3942, 0x8771f681, 0x6d9d6122,
        0xfde5380c, 0xa4beea44, 0x4bdecfa9, 0xf6bb4b60, 0xbebfbc70, 0x289b7ec6, 0xeaa127fa,
        0xd4ef3085, 0x04881d05, 0xd9d4d039, 0xe6db99e5, 0x1fa27cf8, 0xc4ac5665, 0xf4292244,
        0x432aff97, 0xab9423a7, 0xfc93a039, 0x655b59c3, 0x8f0ccc92, 0xffeff47d, 0x85845dd1,
        0x6fa87e4f, 0xfe2ce6e0, 0xa3014314, 0x4e0811a1, 0xf7537e82, 0xbd3af235, 0x2ad7d2bb,
        0xeb86d391,
    ];
    assert(r@ =~= md5_k());
    r
}

fn shift_at(i: usize) -> (r: u32)
    requires
        i < 64,
    ensures
        r == md5_shift(i as int),
        0 < r < 32,
{
    let q = i / 16;
    let j = i % 4;
    if q == 0 {
        if j == 0 { 7 } else if j == 1 { 12 } else if j == 2 { 17 } else { 22 }
    } else if q == 1 {
        if j == 0 { 5 } else if j == 1 { 9 } else if j == 2 { 14 } else { 20 }
    } else if q == 2 {
        if j == 0 { 4 } else if j == 1 { 11 } else if j == 2 { 16 } else { 23 }
    } else {
        if j == 0 { 6 } else if j == 1 { 10 } else if j == 2 { 15 } else { 21 }
    }
}

fn word_at(p: &[u8], off: usize, g: usize) -> (r: u32)
    requires
        off + 64 <= p@.len(),
        g < 16,
    ensures
        r == le_word(p@.subrange(off as int, off + 64), g as int),
{
    let ghost blk = p@.subrange(off as int, off + 64);
    let n = p.len();
    let o = off + 4 * g;
    assert(blk[4 * g as int] == p@[o as int]);
    assert(blk[4 * g + 1] == p@[o + 1]);
    assert(blk[4 * g + 2] == p@[o + 2]);
    assert(blk[4 * g + 3] == p@[o + 3]);
    (p[o] as u32) | ((p[o + 1] as u32) << 8u32) | ((p[o + 2] as u32) << 16u32) | ((p[o + 3] as u32)
        << 24u32)
}

fn compress(s: (u32, u32, u32, u32), p: &[u8], off: usize, k: &Vec<u32>) -> (r: (u32, u32, u32, u32))
    requires
        off + 64 <= p@.len(),
        k@ == md5_k(),
    ensures
        r == md5_compress(s, p@.subrange(off as int, off + 64)),
{
    let ghost blk = p@.subrange(off as int, off + 64);
    let mut a = s.0;
    let mut b = s.1;
    let mut c = s.2;
    let mut d = s.3;
    let mut i: usize = 0;
    while i < 64
        invariant
            i <= 64,
            off + 64 <= p@.len(),
            k@ == md5_k(),
            blk == p@.subrange(off as int, off + 64),
            (a, b, c, d) == md5_rounds(s, blk, i as nat),
        decreases 64 - i,
    {
        let f = if i < 16 {
            (b & c) | (!b & d)
        } else if i < 32 {
            (d & b) | (!d & c)
        } else if i < 48 {
            b ^ c ^ d
        } else {
            c ^ (b | !d)
        };
        let g = if i < 16 {
            i
        } else if i < 32 {
            (5 * i + 1) % 16
        } else if i < 48 {
            (3 * i + 5) % 16
        } else {
            (7 * i) % 16
        };
        let sh = shift_at(i);
        let f2 = f.wrapping_add(a).wrapping_add(k[i]).wrapping_add(word_at(p, off, g));
        let nb = b.wrapping_add((f2 << sh) | (f2 >> (32 - sh)));
        a = d;
        d = c;
        c = b;
        b = nb;
        i += 1;
    }
    (s.0.wrapping_add(a), s.1.wrapping_add(b), s.2.wrapping_add(c), s.3.wrapping_add(d))
}

fn push_le32(out: &mut Vec<u8>, n: u32)
    ensures
        final(out)@ == old(out)@ + le32(n),
{
    let mut j: u32 = 0;
    while j < 4
        invariant
            j <= 4,
            out@ == old(out)@ + le32(n).take(j as int),
        decreases 4 - j,
    {
        assert((n >> (8 * j)) & 0xff <= 0xff) by (bit_vector);
        out.push(((n >> (8 * j)) & 0xff) as u8);
        assert(le32(n).take(j + 1) =~= le32(n).take(j as int).push(((n >> (8 * j)) & 0xff) as u8));
        j += 1;
    }
    assert(le32(n).take(4) =~= le32(n));
}

/// The MD5 digest of `data` (16 bytes).
pub fn md5(data: &[u8]) -> (r: Vec<u8>)
    ensures
        r@ == md5_spec(data@),
{
    let k = k_table();
    let mut p: Vec<u8> = Vec::new();
    crate::bytes::push_all(&mut p, data);
    p.push(0x80);
    let zeros: usize = (119 - data.len() % 64) % 64;
    assert(zeros == md5_zeros(data@.len()));
    let mut z: usize = 0;
    while z < zeros
        invariant
            z <= zeros,
            zeros == md5_zeros(data@.len()),
            p@ == data@ + seq![0x80u8] + Seq::new(z as nat, |i: int| 0u8),
        decreases zeros - z,
    {
        p.push(0);
        assert(p@ =~= data@ + seq![0x80u8] + Seq::new((z + 1) as nat, |i: int| 0u8));
        z += 1;
    }
    let bits: u64 = (data.len() as u64).wrapping_mul(8);
    assert(bits == ((data@.len() * 8) % 0x1_0000_0000_0000_0000) as u64);
    let mut j: u64 = 0;
    let ghost base = p@;
    while j < 8
        invariant
            j <= 8,
            p@ == base + le64(bits).take(j as int),
        decreases 8 - j,
    {
        assert((bits >> (8 * j)) & 0xff <= 0xff) by (bit_vector);
        p.push(((bits >> (8 * j)) & 0xff) as u8);
        assert(le64(bits).take(j + 1) =~= le64(bits).take(j as int).push(((bits >> (8 * j)) & 0xff) as u8));
        j += 1;
    }
    assert(le64(bits).take(8) =~= le64(bits));
    let ghost padded = md5_padded(data@);
    assert(p@ =~= padded);
    assert(padded.len() % 64 == 0);
    let plen = p.len();
    let nblocks = plen / 64;
    let mut st: (u32, u32, u32, u32) = (0x67452301u32, 0xefcdab89u32, 0x98badcfeu32, 0x10325476u32);
    let mut b: usize = 0;
    while b < nblocks
        invariant
            b <= nblocks,
            nblocks == p@.len() / 64,
            plen == p@.len(),
            p@ == padded,
            k@ == md5_k(),
            st == md5_blocks(padded, b as nat),
        decreases nblocks - b,
    {
        assert(64 * b + 64 <= p@.len()) by (nonlinear_arith)
            requires
                b < nblocks,
                nblocks == p@.len() / 64,
        ;
        st = compress(st, p.as_slice(), 64 * b, &k);
        b += 1;
    }
    let mut out: Vec<u8> = Vec::new();
    push_le32(&mut out, st.0);
    push_le32(&mut out, st.1);
    push_le32(&mut out, st.2);
    push_le32(&mut out, st.3);
    assert(out@ =~= le32(st.0) + le32(st.1) + le32(st.2) + le32(st.3));
    out
}

/// Two lower-case hex digits per byte, most significant first.
pub open spec fn hex_spec(b: Seq<u8>) -> Seq<u8>
    decreases b.len(),
{
    if b.len() == 0 {
        seq![]
    } else {
        hex_spec(b.drop_last()) + seq![
            crate::json::hex_lower(b.last() / 16),
            crate::json::hex_lower(b.last() % 16),
        ]
    }
}

/// Lower-case hex of `data`.
pub fn hex(data: &[u8]) -> (r: String)
    ensures
        crate::bytes::utf8(r@) == hex_spec(data@),
{
    let mut out: Vec<u8> = Vec::new();
    let mut i: usize = 0;
    while i < data.len()
        invariant
            i <= data@.len(),
            out@ == hex_spec(data@.take(i as int)),
            forall|j: int| 0 <= j < out@.len() ==> out@[j] < 128,
        decreases data@.len() - i,
    {
        let b = data[i];
        let hi = b / 16;
        let lo = b % 16;
        out.push(if hi < 10 { 48 + hi } else { 87 + hi });
        out.push(if lo < 10 { 48 + lo } else { 87 + lo });
        assert(data@.take(i + 1).drop_last() =~= data@.take(i as int));
        i += 1;
    }
    assert(data@.take(data@.len() as int) =~= data@);
    crate::text::ascii_string(out)
}

} // verus!
