//! SHA-256, over whole inputs and piece by piece.

use vstd::prelude::*;

use crate::hex::{hex_encode, hex_text};

verus! {

/// The round constants.
pub const SHA256_K: [u32; 64] = [
    0x428a_2f98, 0x7137_4491, 0xb5c0_fbcf, 0xe9b5_dba5, 0x3956_c25b, 0x59f1_11f1, 0x923f_82a4, 0xab1c_5ed5,
    0xd807_aa98, 0x1283_5b01, 0x2431_85be, 0x550c_7dc3, 0x72be_5d74, 0x80de_b1fe, 0x9bdc_06a7, 0xc19b_f174,
    0xe49b_69c1, 0xefbe_4786, 0x0fc1_9dc6, 0x240c_a1cc, 0x2de9_2c6f, 0x4a74_84aa, 0x5cb0_a9dc, 0x76f9_88da,
    0x983e_5152, 0xa831_c66d, 0xb003_27c8, 0xbf59_7fc7, 0xc6e0_0bf3, 0xd5a7_9147, 0x06ca_6351, 0x1429_2967,
    0x27b7_0a85, 0x2e1b_2138, 0x4d2c_6dfc, 0x5338_0d13, 0x650a_7354, 0x766a_0abb, 0x81c2_c92e, 0x9272_2c85,
    0xa2bf_e8a1, 0xa81a_664b, 0xc24b_8b70, 0xc76c_51a3, 0xd192_e819, 0xd699_0624, 0xf40e_3585, 0x106a_a070,
    0x19a4_c116, 0x1e37_6c08, 0x2748_774c, 0x34b0_bcb5, 0x391c_0cb3, 0x4ed8_aa4a, 0x5b9c_ca4f, 0x682e_6ff3,
    0x748f_82ee, 0x78a5_636f, 0x84c8_7814, 0x8cc7_0208, 0x90be_fffa, 0xa450_6ceb, 0xbef9_a3f7, 0xc671_78f2,
];

/// The bits of `x` rotated to the right by `n` places.
pub open spec fn rotr(x: u32, n: u32) -> u32 {
    (x >> n) | (x << ((32 - n) as u32))
}

/// Rotates the bits of `x` to the right by `n` places.
fn rotate_right(x: u32, n: u32) -> (r: u32)
    requires
        0 < n < 32,
    ensures
        r == rotr(x, n),
{
    (x >> n) | (x << (32 - n))
}

/// The big-endian word at position `i` of a block.
pub open spec fn block_word(block: Seq<u8>, i: int) -> u32 {
    ((block[4 * i] as u32) << 24u32) | ((block[4 * i + 1] as u32) << 16u32) | ((block[4 * i
        + 2] as u32) << 8u32) | (block[4 * i + 3] as u32)
}

/// The message schedule of a block.
pub open spec fn schedule(block: Seq<u8>, i: nat) -> u32
    decreases i,
{
    if i < 16 {
        block_word(block, i as int)
    } else {
        let w15 = schedule(block, (i - 15) as nat);
        let w2 = schedule(block, (i - 2) as nat);
        let s0 = rotr(w15, 7) ^ rotr(w15, 18) ^ (w15 >> 3u32);
        let s1 = rotr(w2, 17) ^ rotr(w2, 19) ^ (w2 >> 10u32);
        schedule(block, (i - 16) as nat).wrapping_add(s0).wrapping_add(
            schedule(block, (i - 7) as nat),
        ).wrapping_add(s1)
    }
}

/// The eight working words of the compression function.
pub struct Working {
    /// First word.
    pub a: u32,
    /// Second word.
    pub b: u32,
    /// Third word.
    pub c: u32,
    /// Fourth word.
    pub d: u32,
    /// Fifth word.
    pub e: u32,
    /// Sixth word.
    pub f: u32,
    /// Seventh word.
    pub g: u32,
    /// Eighth word.
    pub h: u32,
}

/// One round with the round constant `k` and the schedule word `w`.
pub open spec fn round(s: Working, k: u32, w: u32) -> Working {
    let s1 = rotr(s.e, 6) ^ rotr(s.e, 11) ^ rotr(s.e, 25);
    let ch = (s.e & s.f) ^ ((!s.e) & s.g);
    let temp1 = s.h.wrapping_add(s1).wrapping_add(ch).wrapping_add(k).wrapping_add(w);
    let s0 = rotr(s.a, 2) ^ rotr(s.a, 13) ^ rotr(s.a, 22);
    let maj = (s.a & s.b) ^ (s.a & s.c) ^ (s.b & s.c);
    let temp2 = s0.wrapping_add(maj);
    Working {
        a: temp1.wrapping_add(temp2),
        b: s.a,
        c: s.b,
        d: s.c,
        e: s.d.wrapping_add(temp1),
        f: s.e,
        g: s.f,
        h: s.g,
    }
}

/// The working words after `n` rounds on a block.
pub open spec fn rounds(start: Working, block: Seq<u8>, n: nat) -> Working
    decreases n,
{
    if n == 0 {
        start
    } else {
        round(
            rounds(start, block, (n - 1) as nat),
            SHA256_K@[n - 1],
            schedule(block, (n - 1) as nat),
        )
    }
}

/// The working words that a chaining value starts with.
pub open spec fn working(h: Seq<u32>) -> Working {
    Working { a: h[0], b: h[1], c: h[2], d: h[3], e: h[4], f: h[5], g: h[6], h: h[7] }
}

/// The chaining value after one more block.
#[verifier::opaque]
pub open spec fn compressed(h: Seq<u32>, block: Seq<u8>) -> Seq<u32> {
    let s = rounds(working(h), block, 64);
    seq![
        h[0].wrapping_add(s.a),
        h[1].wrapping_add(s.b),
        h[2].wrapping_add(s.c),
        h[3].wrapping_add(s.d),
        h[4].wrapping_add(s.e),
        h[5].wrapping_add(s.f),
        h[6].wrapping_add(s.g),
        h[7].wrapping_add(s.h),
    ]
}

/// The initial chaining value.
pub open spec fn initial() -> Seq<u32> {
    seq![
        0x6a09_e667u32,
        0xbb67_ae85u32,
        0x3c6e_f372u32,
        0xa54f_f53au32,
        0x510e_527fu32,
        0x9b05_688cu32,
        0x1f83_d9abu32,
        0x5be0_cd19u32,
    ]
}

/// The chaining value after all whole blocks of `data`.
pub open spec fn absorbed(data: Seq<u8>) -> Seq<u32>
    decreases data.len(),
{
    if data.len() < 64 {
        initial()
    } else {
        let whole = data.len() - data.len() % 64;
        let before = whole - 64;
        compressed(absorbed(data.take(before)), data.subrange(before, whole as int))
    }
}

/// A 64-bit number as big-endian bytes.
pub open spec fn be_bytes(n: u64) -> Seq<u8> {
    seq![
        (n >> 56u64) as u8,
        (n >> 48u64) as u8,
        (n >> 40u64) as u8,
        (n >> 32u64) as u8,
        (n >> 24u64) as u8,
        (n >> 16u64) as u8,
        (n >> 8u64) as u8,
        n as u8,
    ]
}

/// The number of zero bytes between the end mark and the length of a padded message.
pub open spec fn zero_padding(len: nat) -> nat {
    if len % 64 < 56 {
        (55 - len % 64) as nat
    } else {
        (119 - len % 64) as nat
    }
}

/// The length of a message as it is counted: a counter of 128 bits that stays at its
/// greatest value.
pub open spec fn counted_length(len: nat) -> nat {
    if len < u128::MAX {
        len
    } else {
        u128::MAX as nat
    }
}

/// The length of a message in bits, modulo 2^64.
pub open spec fn bit_length(len: nat) -> u64 {
    ((counted_length(len) * 8) % 0x1_0000_0000_0000_0000) as u64
}

/// A message with its end mark, zeros up to a block boundary, and its length.
#[verifier::opaque]
pub open spec fn padded(message: Seq<u8>) -> Seq<u8> {
    message + seq![0x80u8] + Seq::new(zero_padding(message.len()), |i: int| 0u8) + be_bytes(
        bit_length(message.len()),
    )
}

/// The four bytes of a word, most significant first.
pub open spec fn word_bytes(w: u32) -> Seq<u8> {
    seq![(w >> 24u32) as u8, (w >> 16u32) as u8, (w >> 8u32) as u8, w as u8]
}

/// The bytes of a chaining value.
pub open spec fn chain_bytes(h: Seq<u32>) -> Seq<u8>
    decreases h.len(),
{
    if h.len() == 0 {
        Seq::empty()
    } else {
        chain_bytes(h.drop_last()) + word_bytes(h.last())
    }
}

/// The SHA-256 digest of a message.
pub open spec fn sha256(message: Seq<u8>) -> Seq<u8> {
    chain_bytes(absorbed(padded(message)))
}

/// Mixes one block into the chaining value.
pub fn sha256_compress(h: &mut [u32; 8], chunk: &[u8])
    requires
        chunk@.len() == 64,
    ensures
        final(h)@ == compressed(old(h)@, chunk@),
{
    let mut w: Vec<u32> = Vec::new();
    for index in 0..16usize
        invariant
            chunk@.len() == 64,
            w@.len() == index,
            forall|j: int| 0 <= j < index ==> w@[j] == schedule(chunk@, j as nat),
    {
        let offset: usize = index * 4;
        let word: u32 = ((chunk[offset] as u32) << 24u32) | ((chunk[offset + 1] as u32) << 16u32) | ((
        chunk[offset + 2] as u32) << 8u32) | (chunk[offset + 3] as u32);
        w.push(word);
    }
    for index in 16..64usize
        invariant
            chunk@.len() == 64,
            w@.len() == index,
            forall|j: int| 0 <= j < index ==> w@[j] == schedule(chunk@, j as nat),
    {
        let w15: u32 = w[index - 15];
        let w2: u32 = w[index - 2];
        let s0: u32 = rotate_right(w15, 7) ^ rotate_right(w15, 18) ^ (w15 >> 3u32);
        let s1: u32 = rotate_right(w2, 17) ^ rotate_right(w2, 19) ^ (w2 >> 10u32);
        let word: u32 = w[index - 16].wrapping_add(s0).wrapping_add(w[index - 7]).wrapping_add(s1);
        assert(word == schedule(chunk@, index as nat));
        w.push(word);
    }
    let ghost start = working(h@);
    let mut a: u32 = h[0];
    let mut b: u32 = h[1];
    let mut c: u32 = h[2];
    let mut d: u32 = h[3];
    let mut e: u32 = h[4];
    let mut f: u32 = h[5];
    let mut g: u32 = h[6];
    let mut hh: u32 = h[7];
    for index in 0..64usize
        invariant
            w@.len() == 64,
            forall|j: int| 0 <= j < 64 ==> w@[j] == schedule(chunk@, j as nat),
            (Working { a, b, c, d, e, f, g, h: hh }) == rounds(start, chunk@, index as nat),
    {
        let s1: u32 = rotate_right(e, 6) ^ rotate_right(e, 11) ^ rotate_right(e, 25);
        let ch: u32 = (e & f) ^ ((!e) & g);
        let temp1: u32 = hh.wrapping_add(s1).wrapping_add(ch).wrapping_add(SHA256_K[index]).wrapping_add(
            w[index],
        );
        let s0: u32 = rotate_right(a, 2) ^ rotate_right(a, 13) ^ rotate_right(a, 22);
        let maj: u32 = (a & b) ^ (a & c) ^ (b & c);
        let temp2: u32 = s0.wrapping_add(maj);
        hh = g;
        g = f;
        f = e;
        e = d.wrapping_add(temp1);
        d = c;
        c = b;
        b = a;
        a = temp1.wrapping_add(temp2);
    }
    let ghost before = h@;
    h[0] = h[0].wrapping_add(a);
    h[1] = h[1].wrapping_add(b);
    h[2] = h[2].wrapping_add(c);
    h[3] = h[3].wrapping_add(d);
    h[4] = h[4].wrapping_add(e);
    h[5] = h[5].wrapping_add(f);
    h[6] = h[6].wrapping_add(g);
    h[7] = h[7].wrapping_add(hh);
    proof {
        reveal(compressed);
        assert(h@ =~= compressed(before, chunk@));
    }
}

proof fn lemma_absorbed_tail(data: Seq<u8>, tail: Seq<u8>)
    requires
        data.len() % 64 == 0,
        tail.len() < 64,
    ensures
        absorbed(data + tail) == absorbed(data),
{
    let all = data + tail;
    if data.len() >= 64 {
        let whole = data.len() as int;
        assert(all.len() - all.len() % 64 == whole);
        assert(all.take(whole - 64) =~= data.take(whole - 64));
        assert(all.subrange(whole - 64, whole) =~= data.subrange(whole - 64, whole));
    }
}

proof fn lemma_absorbed_block(data: Seq<u8>, block: Seq<u8>)
    requires
        data.len() % 64 == 0,
        block.len() == 64,
    ensures
        absorbed(data + block) == compressed(absorbed(data), block),
{
    let all = data + block;
    assert(all.take(data.len() as int) =~= data);
    assert(all.subrange(data.len() as int, all.len() as int) =~= block);
}

proof fn lemma_absorbed_len(data: Seq<u8>)
    ensures
        absorbed(data).len() == 8,
{
    reveal(compressed);
}

/// A SHA-256 computation in progress; its view is the message fed to it so far.
pub struct Sha256 {
    h: [u32; 8],
    buffer: [u8; 64],
    buffer_len: usize,
    total_len: u128,
    message: Ghost<Seq<u8>>,
}

impl View for Sha256 {
    type V = Seq<u8>;

    closed spec fn view(&self) -> Seq<u8> {
        self.message@
    }
}

impl Sha256 {
    /// Whether the state belongs to the message.
    pub closed spec fn wf(&self) -> bool {
        let m = self.message@;
        &&& self.buffer_len < 64
        &&& self.buffer_len == m.len() % 64
        &&& self.buffer@.take(self.buffer_len as int) == m.skip(m.len() - self.buffer_len)
        &&& self.h@ == absorbed(m)
        &&& self.total_len == counted_length(m.len())
    }

    /// A computation on the empty message.
    pub fn new() -> (r: Self)
        ensures
            r.wf(),
            r@ == Seq::<u8>::empty(),
    {
        let h: [u32; 8] = [
            0x6a09_e667,
            0xbb67_ae85,
            0x3c6e_f372,
            0xa54f_f53a,
            0x510e_527f,
            0x9b05_688c,
            0x1f83_d9ab,
            0x5be0_cd19,
        ];
        let buffer: [u8; 64] = [0;64];
        let r = Sha256 { h, buffer, buffer_len: 0, total_len: 0, message: Ghost(Seq::empty()) };
        proof {
            assert(h@ =~= initial());
            assert(r.buffer@.take(0) =~= Seq::<u8>::empty());
            assert(Seq::<u8>::empty().skip(0) =~= Seq::<u8>::empty());
        }
        r
    }

    /// Feeds one byte.
    fn feed(&mut self, byte: u8)
        requires
            old(self).wf(),
        ensures
            final(self).wf(),
            final(self)@ == old(self)@.push(byte),
    {
        let ghost m = self.message@;
        let ghost n = m.push(byte);
        let ghost kept = self.buffer_len as int;
        let ghost whole = m.take(m.len() - kept);
        proof {
            assert(whole + m.skip(m.len() - kept) =~= m);
            lemma_absorbed_tail(whole, m.skip(m.len() - kept));
        }
        let at: usize = self.buffer_len;
        let ghost buffered = self.buffer@;
        self.buffer[at] = byte;
        if self.total_len < u128::MAX {
            self.total_len = self.total_len + 1;
        }
        self.message = Ghost(n);
        let ghost tail = m.skip(m.len() - kept).push(byte);
        assert(self.buffer@.take(kept + 1) =~= buffered.take(kept).push(byte));
        assert(n =~= whole + tail);
        if at + 1 == 64 {
            assert(self.buffer@ =~= tail);
            sha256_compress(&mut self.h, self.buffer.as_slice());
            self.buffer_len = 0;
            proof {
                lemma_absorbed_block(whole, tail);
                assert(self.buffer@.take(0) =~= n.skip(n.len() as int));
            }
        } else {
            self.buffer_len = at + 1;
            proof {
                lemma_absorbed_tail(whole, tail);
                assert(n.skip(n.len() - (kept + 1)) =~= tail);
            }
        }
    }

    /// Feeds more bytes: the message grows by them.
    pub fn update(&mut self, input: &[u8])
        requires
            old(self).wf(),
        ensures
            final(self).wf(),
            final(self)@ == old(self)@ + input@,
    {
        let ghost before = self@;
        assert(before + input@.take(0) =~= before);
        for i in 0..input.len()
            invariant
                self.wf(),
                self@ == before + input@.take(i as int),
        {
            self.feed(input[i]);
            assert(before + input@.take(i + 1) =~= (before + input@.take(i as int)).push(
                input@[i as int],
            ));
        }
        assert(input@.take(input@.len() as int) =~= input@);
    }

    /// The bytes of the message that do not fill a block yet.
    fn pending(&self) -> (r: Vec<u8>)
        requires
            self.wf(),
        ensures
            r@ == self@.skip(self@.len() - self@.len() % 64),
            r@.len() == self@.len() % 64,
    {
        let mut block: Vec<u8> = Vec::new();
        let mut i: usize = 0;
        while i < self.buffer_len
            invariant
                i <= self.buffer_len < 64,
                block@ == self.buffer@.take(i as int),
            decreases self.buffer_len - i,
        {
            block.push(self.buffer[i]);
            i = i + 1;
            assert(block@ =~= self.buffer@.take(i as int));
        }
        block
    }

    /// The length of the message in bits, modulo 2^64.
    fn bit_len(&self) -> (r: u64)
        requires
            self.wf(),
        ensures
            r == bit_length(self@.len()),
    {
        let total: u128 = self.total_len;
        let low: u64 = (total % 0x2000_0000_0000_0000) as u64;
        proof {
            let t = total as int;
            let q = t / 0x2000_0000_0000_0000;
            assert(t * 8 == q * 0x1_0000_0000_0000_0000 + low * 8);
            vstd::arithmetic::div_mod::lemma_fundamental_div_mod_converse(
                t * 8,
                0x1_0000_0000_0000_0000,
                q,
                low * 8,
            );
        }
        low * 8
    }

    /// The chaining value after the padded message.
    #[verifier::spinoff_prover]
    fn finish(self) -> (r: [u32; 8])
        requires
            self.wf(),
        ensures
            r@ == absorbed(padded(self@)),
    {
        let ghost m = self@;
        let ghost kept = (m.len() % 64) as int;
        let ghost whole = m.take(m.len() - kept);
        let ghost rest = m.skip(m.len() - kept);
        proof {
            assert(whole + rest =~= m);
            lemma_absorbed_tail(whole, rest);
        }
        let bit_len: u64 = self.bit_len();
        let mut block = self.pending();
        let mut h: [u32; 8] = self.h;
        block.push(0x80);
        let ghost marked = block@;
        let ghost mut done = whole;
        if block.len() > 56 {
            push_zeros(&mut block, 64);
            sha256_compress(&mut h, block.as_slice());
            proof {
                lemma_absorbed_block(whole, block@);
                done = whole + block@;
            }
            block = Vec::new();
        }
        push_zeros(&mut block, 56);
        push_be(&mut block, bit_len);
        sha256_compress(&mut h, block.as_slice());
        proof {
            lemma_absorbed_block(done, block@);
            lemma_padding(m, whole, marked, done, block@, bit_len);
        }
        h
    }

    /// The digest of the message in hexadecimal.
    pub fn finish_hex(self) -> (r: String)
        requires
            self.wf(),
        ensures
            r@ == hex_text(sha256(self@)),
    {
        let h: [u32; 8] = self.finish();
        let mut bytes: Vec<u8> = Vec::new();
        for k in 0..8usize
            invariant
                bytes@ == chain_bytes(h@.take(k as int)),
        {
            let w: u32 = h[k];
            bytes.push((w >> 24u32) as u8);
            bytes.push((w >> 16u32) as u8);
            bytes.push((w >> 8u32) as u8);
            bytes.push(w as u8);
            proof {
                assert(h@.take(k + 1).drop_last() =~= h@.take(k as int));
                assert(bytes@ =~= chain_bytes(h@.take(k as int)) + word_bytes(w));
            }
        }
        assert(h@.take(8) =~= h@);
        hex_encode(bytes.as_slice())
    }
}

/// `n` zero bytes.
pub open spec fn zeros(n: nat) -> Seq<u8> {
    Seq::new(n, |i: int| 0u8)
}

/// Appends zero bytes up to the given length.
fn push_zeros(block: &mut Vec<u8>, len: usize)
    requires
        old(block)@.len() <= len,
    ensures
        final(block)@ == old(block)@ + zeros((len - old(block)@.len()) as nat),
        final(block)@.len() == len,
{
    let ghost base = block@;
    assert(base + zeros(0) =~= base);
    while block.len() < len
        invariant
            base.len() <= block.len() <= len,
            block@ == base + zeros((block@.len() - base.len()) as nat),
        decreases len - block.len(),
    {
        block.push(0);
        assert(block@ =~= base + zeros((block@.len() - base.len()) as nat));
    }
}

/// Appends the eight bytes of a number, most significant first.
fn push_be(block: &mut Vec<u8>, n: u64)
    ensures
        final(block)@ == old(block)@ + be_bytes(n),
{
    let ghost before = block@;
    block.push((n >> 56u64) as u8);
    block.push((n >> 48u64) as u8);
    block.push((n >> 40u64) as u8);
    block.push((n >> 32u64) as u8);
    block.push((n >> 24u64) as u8);
    block.push((n >> 16u64) as u8);
    block.push((n >> 8u64) as u8);
    block.push(n as u8);
    assert(block@ =~= before + be_bytes(n));
}

proof fn lemma_padding(
    m: Seq<u8>,
    whole: Seq<u8>,
    marked: Seq<u8>,
    done: Seq<u8>,
    block: Seq<u8>,
    bits: u64,
)
    requires
        whole == m.take(m.len() - m.len() % 64),
        marked == m.skip(m.len() - m.len() % 64).push(0x80u8),
        bits == bit_length(m.len()),
        if marked.len() > 56 {
            done == whole + (marked + zeros((64 - marked.len()) as nat)) && block == zeros(56)
                + be_bytes(bits)
        } else {
            done == whole && block == marked + zeros((56 - marked.len()) as nat) + be_bytes(bits)
        },
    ensures
        done + block == padded(m),
{
    reveal(padded);
    let z = zero_padding(m.len());
    assert(whole + marked =~= m + seq![0x80u8]);
    if marked.len() > 56 {
        assert(zeros((64 - marked.len()) as nat) + zeros(56) =~= zeros(z));
        assert(done + block =~= (whole + marked) + (zeros((64 - marked.len()) as nat) + zeros(56))
            + be_bytes(bits));
    } else {
        assert(done + block =~= (whole + marked) + zeros(z) + be_bytes(bits));
    }
    assert(zeros(z) =~= Seq::new(z, |i: int| 0u8));
}

/// The SHA-256 digest of the bytes, in hexadecimal.
pub fn sha256_hex(input: &[u8]) -> (r: String)
    ensures
        r@ == hex_text(sha256(input@)),
{
    let mut hasher = Sha256::new();
    hasher.update(input);
    assert(Seq::<u8>::empty() + input@ =~= input@);
    hasher.finish_hex()
}

/// The digest of a text, in hexadecimal: that of its UTF-8 encoding.
pub open spec fn text_digest(value: Seq<char>) -> Seq<char> {
    hex_text(sha256(vstd::utf8::encode_utf8(value)))
}

/// The SHA-256 digest of a text, in hexadecimal.
pub fn sha256_text(value: &str) -> (r: String)
    ensures
        r@ == text_digest(value@),
{
    sha256_hex(value.as_bytes())
}

/// Feeding two pieces one after the other is feeding their concatenation, whatever
/// was fed before: the state that either way belongs to has the same digest. Where
/// nothing was fed before, it is the digest of the two pieces together. It is written
/// in sixty-four lower-case hexadecimal digits.
pub proof fn law_digest_is_incremental(
    start: Sha256,
    first: Seq<u8>,
    second: Seq<u8>,
    stepwise: Sha256,
    at_once: Sha256,
)
    requires
        start.wf(),
        stepwise.wf(),
        at_once.wf(),
        stepwise@ == (start@ + first) + second,
        at_once@ == start@ + (first + second),
    ensures
        hex_text(sha256(stepwise@)) == hex_text(sha256(at_once@)),
        start@.len() == 0 ==> hex_text(sha256(stepwise@)) == hex_text(sha256(first + second)),
        hex_text(sha256(stepwise@)).len() == 64,
        forall|i: int|
            0 <= i < 64 ==> crate::hex::is_lower_hex(#[trigger] hex_text(sha256(stepwise@))[i]),
{
    assert(stepwise@ =~= at_once@);
    if start@.len() == 0 {
        assert(at_once@ =~= first + second);
    }
    law_digest_length(stepwise@);
    crate::hex::lemma_hex_is_lower(sha256(stepwise@));
}

/// A digest text has sixty-four characters.
pub proof fn law_digest_length(message: Seq<u8>)
    ensures
        sha256(message).len() == 32,
        hex_text(sha256(message)).len() == 64,
{
    let h = absorbed(padded(message));
    lemma_absorbed_len(padded(message));
    lemma_chain_len(h);
    crate::hex::lemma_hex_len(sha256(message));
}

proof fn lemma_chain_len(h: Seq<u32>)
    ensures
        chain_bytes(h).len() == 4 * h.len(),
    decreases h.len(),
{
    if h.len() > 0 {
        lemma_chain_len(h.drop_last());
    }
}

} // verus!
