//! The streaming SM3 digest engine, verified against [`crate::sm3_spec`].

use vstd::prelude::*;

use crate::sm3_constant::SM3_BUFFER_BYTE_LENGTH;
use crate::sm3_constant::SM3_DATA_BYTE_MAX_LENGTH;
use crate::sm3_constant::SM3_DIGEST_BYTE_LENGTH;
use crate::sm3_spec;

verus! {

/// Left rotation of a 32-bit word by `n` bit positions.
#[inline(always)]
fn rotl32(x: u32, n: u32) -> (r: u32)
    requires
        n < 32,
    ensures
        r == sm3_spec::rotl(x, n),
{
    if n == 0 {
        x
    } else {
        (x << n) | (x >> (32 - n))
    }
}

/// Boolean function of rounds 0..16.
#[inline(always)]
fn ff_0_16(x: u32, y: u32, z: u32) -> (r: u32)
    ensures
        forall|j: int| 0 <= j < 16 ==> r == sm3_spec::ff(j, x, y, z),
{
    x ^ y ^ z
}

/// Boolean function of rounds 16..64: majority, in a three-operation form.
#[inline(always)]
fn ff_16_64(x: u32, y: u32, z: u32) -> (r: u32)
    ensures
        forall|j: int| 16 <= j < 64 ==> r == sm3_spec::ff(j, x, y, z),
{
    let r = (x & y) | ((x | y) & z);
    proof {
        assert((x & y) | ((x | y) & z) == (x & y) | (x & z) | (y & z)) by (bit_vector);
    }
    r
}

/// Boolean function of rounds 0..16.
#[inline(always)]
fn gg_0_16(x: u32, y: u32, z: u32) -> (r: u32)
    ensures
        forall|j: int| 0 <= j < 16 ==> r == sm3_spec::gg(j, x, y, z),
{
    x ^ y ^ z
}

/// Boolean function of rounds 16..64: choice, in a three-operation form.
#[inline(always)]
fn gg_16_64(x: u32, y: u32, z: u32) -> (r: u32)
    ensures
        forall|j: int| 16 <= j < 64 ==> r == sm3_spec::gg(j, x, y, z),
{
    let r = z ^ (x & (y ^ z));
    proof {
        assert(z ^ (x & (y ^ z)) == (x & y) | ((!x) & z)) by (bit_vector);
    }
    r
}

/// The permutation `P0`.
#[inline(always)]
fn p_0(x: u32) -> (r: u32)
    ensures
        r == sm3_spec::p0(x),
{
    x ^ rotl32(x, 9) ^ rotl32(x, 17)
}

/// The permutation `P1`.
#[inline(always)]
fn p_1(x: u32) -> (r: u32)
    ensures
        r == sm3_spec::p1(x),
{
    x ^ rotl32(x, 15) ^ rotl32(x, 23)
}

/// One step of the message-schedule recurrence, on the five earlier words it
/// draws from.
#[inline(always)]
fn expand(a: u32, b: u32, c: u32, d: u32, e: u32) -> (r: u32)
    ensures
        r == sm3_spec::p1(a ^ b ^ sm3_spec::rotl(c, 15)) ^ sm3_spec::rotl(d, 7) ^ e,
{
    p_1(a ^ b ^ rotl32(c, 15)) ^ rotl32(d, 7) ^ e
}

/// The additive constant of round `j`.
#[inline(always)]
fn round_t(j: usize) -> (t: u32)
    requires
        j < 64,
    ensures
        t == sm3_spec::round_constant(j as int),
{
    if j < 16 {
        rotl32(0x79cc4519, (j % 32) as u32)
    } else {
        rotl32(0x7a879d8a, (j % 32) as u32)
    }
}

/// Big-endian word `i` of a 64-byte block.
#[inline(always)]
fn big_endian_word(buffer: &[u8], i: usize) -> (w: u32)
    requires
        buffer@.len() == 64,
        i < 16,
    ensures
        w == sm3_spec::message_word(buffer@, i as int),
{
    proof {
        reveal_with_fuel(sm3_spec::message_word, 1);
    }
    ((buffer[4 * i] as u32) << 24) | ((buffer[4 * i + 1] as u32) << 16) | ((buffer[4 * i + 2]
        as u32) << 8) | (buffer[4 * i + 3] as u32)
}

/// Serialize one state word as four big-endian bytes into the digest output,
/// at word position `index`.
#[inline(always)]
fn fill_to_bytes(digest_bytes: &mut [u8; SM3_DIGEST_BYTE_LENGTH], x: u32, index: usize)
    requires
        index < 8,
    ensures
        forall|i: int|
            0 <= i < 32 && !(4 * index <= i < 4 * index + 4) ==> final(digest_bytes)@[i] == old(
                digest_bytes,
            )@[i],
        final(digest_bytes)@[4 * index as int] == sm3_spec::word_bytes(x)[0],
        final(digest_bytes)@[4 * index as int + 1] == sm3_spec::word_bytes(x)[1],
        final(digest_bytes)@[4 * index as int + 2] == sm3_spec::word_bytes(x)[2],
        final(digest_bytes)@[4 * index as int + 3] == sm3_spec::word_bytes(x)[3],
{
    let word_0 = #[verifier::truncate] ((x >> 24u32) as u8);
    let word_1 = #[verifier::truncate] ((x >> 16u32) as u8);
    let word_2 = #[verifier::truncate] ((x >> 8u32) as u8);
    let word_3 = #[verifier::truncate] (x as u8);
    digest_bytes[index * 4 + 0] = word_0;
    digest_bytes[index * 4 + 1] = word_1;
    digest_bytes[index * 4 + 2] = word_2;
    digest_bytes[index * 4 + 3] = word_3;
}

/// A 64-byte block of zeros.
fn zero_block() -> (buffer: Vec<u8>)
    ensures
        buffer@.len() == 64,
        forall|i: int| 0 <= i < 64 ==> buffer@[i] == 0u8,
{
    let mut buffer: Vec<u8> = Vec::with_capacity(SM3_BUFFER_BYTE_LENGTH);
    let mut i: usize = 0;
    while i < SM3_BUFFER_BYTE_LENGTH
        invariant
            i <= 64,
            buffer@.len() == i,
            forall|k: int| 0 <= k < i ==> buffer@[k] == 0u8,
        decreases 64 - i,
    {
        buffer.push(0u8);
        i += 1;
    }
    buffer
}

/// Write the 64-bit bit-length into the last eight bytes of the final
/// block, big-endian.
#[inline(always)]
fn put_data_length(buffer: &mut Vec<u8>, length: u64)
    requires
        old(buffer)@.len() == 64,
    ensures
        final(buffer)@.len() == 64,
        forall|i: int| 0 <= i < 56 ==> final(buffer)@[i] == old(buffer)@[i],
        final(buffer)@.subrange(56, 64) == sm3_spec::length_bytes(length),
{
    buffer[SM3_BUFFER_BYTE_LENGTH - 1] = #[verifier::truncate] (length as u8);
    buffer[SM3_BUFFER_BYTE_LENGTH - 2] = #[verifier::truncate] ((length >> 8u64) as u8);
    buffer[SM3_BUFFER_BYTE_LENGTH - 3] = #[verifier::truncate] ((length >> 16u64) as u8);
    buffer[SM3_BUFFER_BYTE_LENGTH - 4] = #[verifier::truncate] ((length >> 24u64) as u8);
    buffer[SM3_BUFFER_BYTE_LENGTH - 5] = #[verifier::truncate] ((length >> 32u64) as u8);
    buffer[SM3_BUFFER_BYTE_LENGTH - 6] = #[verifier::truncate] ((length >> 40u64) as u8);
    buffer[SM3_BUFFER_BYTE_LENGTH - 7] = #[verifier::truncate] ((length >> 48u64) as u8);
    buffer[SM3_BUFFER_BYTE_LENGTH - 8] = #[verifier::truncate] ((length >> 56u64) as u8);
    proof {
        assert(buffer@.subrange(56, 64) =~= sm3_spec::length_bytes(length));
    }
}

/// The streaming digest state: the eight running state words, the count of
/// bits consumed so far, and the 0–63 input bytes not yet forming a block.
///
/// The ghost field `pushed` records every byte handed to [`Self::push_data`];
/// [`Self::wf`] ties the concrete fields to it.
pub struct SM3Digest {
    pub a: u32,
    pub b: u32,
    pub c: u32,
    pub d: u32,
    pub e: u32,
    pub f: u32,
    pub g: u32,
    pub h: u32,
    pub total_length: u64,
    pub remains_data: Vec<u8>,
    pub pushed: Ghost<Seq<u8>>,
}

impl SM3Digest {
    /// The eight state words in order.
    pub open spec fn words(&self) -> Seq<u32> {
        seq![self.a, self.b, self.c, self.d, self.e, self.f, self.g, self.h]
    }

    /// Well-formedness while the stream is still open: the bit counter is
    /// eight times the bytes pushed, the remainder holds the bytes past the
    /// last full block, and the state words are the block chain over the
    /// full-block prefix of everything pushed.
    pub open spec fn wf(&self) -> bool {
        let msg = self.pushed@;
        let full = msg.len() - (msg.len() % 64);
        &&& self.total_length == 8 * msg.len()
        &&& self.remains_data@ == msg.skip(full as int)
        &&& self.words() == sm3_spec::chain(msg.take(full as int))
    }

    /// A fresh digest state: the fixed initial state words, an empty
    /// remainder, and a zero bit counter.
    pub fn new() -> (instance: SM3Digest)
        ensures
            instance.wf(),
            instance.pushed@ == Seq::<u8>::empty(),
    {
        let instance = SM3Digest {
            a: 0x7380166f,
            b: 0x4914b2b9,
            c: 0x172442d7,
            d: 0xda8a0600,
            e: 0xa96f30bc,
            f: 0x163138aa,
            g: 0xe38dee4d,
            h: 0xb0fb0e4e,
            total_length: 0,
            remains_data: Vec::new(),
            pushed: Ghost(Seq::empty()),
        };
        proof {
            let msg = instance.pushed@;
            assert(msg.skip(0) =~= Seq::<u8>::empty());
            assert(msg.take(0) =~= Seq::<u8>::empty());
            assert(instance.words() =~= sm3_spec::iv());
        }
        instance
    }

    /// The current state words serialized as the 32-byte digest. After
    /// [`Self::compute_digest`] this is the SM3 digest of everything pushed;
    /// the state is not changed, so repeated reads return the same bytes.
    pub fn get_digest_bytes(&mut self) -> (digest_bytes: [u8; SM3_DIGEST_BYTE_LENGTH])
        ensures
            *final(self) == *old(self),
            digest_bytes@ == sm3_spec::state_bytes(old(self).words()),
    {
        let mut digest_bytes = [0u8; SM3_DIGEST_BYTE_LENGTH];
        fill_to_bytes(&mut digest_bytes, self.a, 0);
        fill_to_bytes(&mut digest_bytes, self.b, 1);
        fill_to_bytes(&mut digest_bytes, self.c, 2);
        fill_to_bytes(&mut digest_bytes, self.d, 3);
        fill_to_bytes(&mut digest_bytes, self.e, 4);
        fill_to_bytes(&mut digest_bytes, self.f, 5);
        fill_to_bytes(&mut digest_bytes, self.g, 6);
        fill_to_bytes(&mut digest_bytes, self.h, 7);
        proof {
            let ws = self.words();
            assert forall|i: int| 0 <= i < 32 implies digest_bytes@[i] == sm3_spec::state_bytes(
                ws,
            )[i] by {
                vstd::arithmetic::div_mod::lemma_fundamental_div_mod(i, 4);
            }
            assert(digest_bytes@ =~= sm3_spec::state_bytes(ws));
        }
        digest_bytes
    }

    /// One round of the compression function on the eight working registers.
    #[inline(always)]
    fn compression_round(j: usize, regs: (u32, u32, u32, u32, u32, u32, u32, u32), wj: u32, wj4: u32) -> (r: (
        u32,
        u32,
        u32,
        u32,
        u32,
        u32,
        u32,
        u32,
    ))
        requires
            j < 64,
        ensures
            seq![r.0, r.1, r.2, r.3, r.4, r.5, r.6, r.7] == sm3_spec::round(
                seq![regs.0, regs.1, regs.2, regs.3, regs.4, regs.5, regs.6, regs.7],
                j as int,
                wj,
                wj4,
            ),
    {
        let (a, b, c, d, e, f, g, h) = regs;
        let a12 = rotl32(a, 12);
        let tj = round_t(j);
        let ss1 = rotl32(a12.wrapping_add(e).wrapping_add(tj), 7);
        let ss2 = ss1 ^ a12;
        let ffv = if j < 16 {
            ff_0_16(a, b, c)
        } else {
            ff_16_64(a, b, c)
        };
        let ggv = if j < 16 {
            gg_0_16(e, f, g)
        } else {
            gg_16_64(e, f, g)
        };
        let tt1 = ffv.wrapping_add(d).wrapping_add(ss2).wrapping_add(wj ^ wj4);
        let tt2 = ggv.wrapping_add(h).wrapping_add(ss1).wrapping_add(wj);
        let out = (tt1, a, rotl32(b, 9), c, p_0(tt2), e, rotl32(f, 19), g);
        proof {
            reveal(sm3_spec::round);
            assert(seq![out.0, out.1, out.2, out.3, out.4, out.5, out.6, out.7]
                =~= sm3_spec::round(
                seq![regs.0, regs.1, regs.2, regs.3, regs.4, regs.5, regs.6, regs.7],
                j as int,
                wj,
                wj4,
            ));
        }
        out
    }

    /// One compression step over a 64-byte block.
    #[verifier::rlimit(100)]
    fn update(&mut self, buffer: &[u8])
        requires
            buffer@.len() == 64,
        ensures
            final(self).words() == sm3_spec::compress(old(self).words(), buffer@),
            final(self).total_length == old(self).total_length,
            final(self).remains_data@ == old(self).remains_data@,
            final(self).pushed == old(self).pushed,
    {
        let ghost init = self.words();
        let mut a = self.a;
        let mut b = self.b;
        let mut c = self.c;
        let mut d = self.d;
        let mut e = self.e;
        let mut f = self.f;
        let mut g = self.g;
        let mut h = self.h;
        let mut w: Vec<u32> = Vec::with_capacity(16);
        let mut i: usize = 0;
        while i < 16
            invariant
                i <= 16,
                buffer@.len() == 64,
                w@.len() == i,
                forall|t: int|
                    0 <= t < i ==> #[trigger] sm3_spec::message_word(buffer@, t) == w@[t % 16],
            decreases 16 - i,
        {
            w.push(big_endian_word(buffer, i));
            i += 1;
        }
        let mut j: usize = 0;
        while j < 64
            invariant
                j <= 64,
                buffer@.len() == 64,
                w@.len() == 16,
                forall|t: int|
                    j <= t < j + 16 ==> #[trigger] sm3_spec::message_word(buffer@, t) == w@[t
                        % 16],
                seq![a, b, c, d, e, f, g, h] == sm3_spec::rounds(init, buffer@, j as int),
            decreases 64 - j,
        {
            let ghost jj = j as int;
            let wj = w[j % 16];
            let wj4 = w[(j + 4) % 16];
            proof {
                assert(sm3_spec::message_word(buffer@, jj) == w@[jj % 16]);
                assert(sm3_spec::message_word(buffer@, jj + 4) == w@[(jj + 4) % 16]);
            }
            let (na, nb, nc, nd, ne, nf, ng, nh) = Self::compression_round(
                j,
                (a, b, c, d, e, f, g, h),
                wj,
                wj4,
            );
            let w3 = w[(j + 3) % 16];
            let w7 = w[(j + 7) % 16];
            let w10 = w[(j + 10) % 16];
            let w13 = w[(j + 13) % 16];
            proof {
                assert(sm3_spec::message_word(buffer@, jj + 3) == w@[(jj + 3) % 16]);
                assert(sm3_spec::message_word(buffer@, jj + 7) == w@[(jj + 7) % 16]);
                assert(sm3_spec::message_word(buffer@, jj + 10) == w@[(jj + 10) % 16]);
                assert(sm3_spec::message_word(buffer@, jj + 13) == w@[(jj + 13) % 16]);
            }
            let nw = expand(wj, w7, w13, w3, w10);
            w[j % 16] = nw;
            proof {
                reveal_with_fuel(sm3_spec::message_word, 1);
                assert(sm3_spec::message_word(buffer@, jj + 16) == nw);
            }
            a = na;
            b = nb;
            c = nc;
            d = nd;
            e = ne;
            f = nf;
            g = ng;
            h = nh;
            proof {
                assert(sm3_spec::rounds(init, buffer@, jj + 1) == sm3_spec::round(
                    sm3_spec::rounds(init, buffer@, jj),
                    jj,
                    sm3_spec::message_word(buffer@, jj),
                    sm3_spec::message_word(buffer@, jj + 4),
                ));
                assert(seq![a, b, c, d, e, f, g, h] == sm3_spec::rounds(init, buffer@, jj + 1));
            }
            j += 1;
        }
        self.a = self.a ^ a;
        self.b = self.b ^ b;
        self.c = self.c ^ c;
        self.d = self.d ^ d;
        self.e = self.e ^ e;
        self.f = self.f ^ f;
        self.g = self.g ^ g;
        self.h = self.h ^ h;
        proof {
            assert(self.words() =~= sm3_spec::compress(old(self).words(), buffer@));
        }
    }

    /// Feed more input. Any chunk size is accepted: the remainder buffer is
    /// first filled to a whole block, then full 64-byte strides of `data` are
    /// compressed directly, and the tail below one block is kept back.
    pub fn push_data(&mut self, data: &[u8])
        requires
            old(self).wf(),
            8 * (old(self).pushed@.len() + data@.len()) <= u64::MAX,
        ensures
            final(self).wf(),
            final(self).pushed@ == old(self).pushed@ + data@,
    {
        let ghost old_msg = self.pushed@;
        let ghost new_msg = old_msg + data@;
        let ghost old_len = old_msg.len() as int;
        let ghost d_len = data@.len() as int;
        let ghost r0 = old_len % 64;
        let ghost full0 = old_len - r0;
        proof {
            vstd::arithmetic::div_mod::lemma_fundamental_div_mod(old_len, 64);
            vstd::arithmetic::div_mod::lemma_fundamental_div_mod_converse_mod(
                full0,
                64,
                old_len / 64,
                0,
            );
            assert(new_msg.take(full0) =~= old_msg.take(full0));
        }
        let data_length = (data.len() as u64) * 8;
        self.total_length = self.total_length + data_length;
        self.pushed = Ghost(new_msg);
        let remains_data_length = self.remains_data.len();
        let mut offset: usize = 0;
        if remains_data_length > 0 && data.len() >= SM3_BUFFER_BYTE_LENGTH
            - remains_data_length {
            offset = SM3_BUFFER_BYTE_LENGTH - remains_data_length;
            let mut buffer = zero_block();
            let mut i: usize = 0;
            while i < remains_data_length
                invariant
                    i <= remains_data_length,
                    remains_data_length == self.remains_data@.len(),
                    remains_data_length < 64,
                    self.remains_data@ == old_msg.skip(full0),
                    self.words() == old(self).words(),
                    self.pushed@ == new_msg,
                    self.total_length == 8 * new_msg.len(),
                    buffer@.len() == 64,
                    forall|k: int| 0 <= k < i ==> buffer@[k] == self.remains_data@[k],
                decreases remains_data_length - i,
            {
                buffer[i] = self.remains_data[i];
                i += 1;
            }
            self.remains_data.clear();
            let mut i2: usize = remains_data_length;
            while i2 < SM3_BUFFER_BYTE_LENGTH
                invariant
                    remains_data_length <= i2 <= 64,
                    remains_data_length == r0,
                    old_len == old_msg.len(),
                    0 <= full0 <= old_len,
                    offset == 64 - remains_data_length,
                    offset <= data@.len(),
                    self.words() == old(self).words(),
                    self.pushed@ == new_msg,
                    self.total_length == 8 * new_msg.len(),
                    self.remains_data@.len() == 0,
                    buffer@.len() == 64,
                    forall|k: int| 0 <= k < remains_data_length ==> buffer@[k] == old_msg.skip(
                        full0,
                    )[k],
                    forall|k: int|
                        remains_data_length <= k < i2 ==> buffer@[k] == data@[k
                            - remains_data_length],
                decreases 64 - i2,
            {
                buffer[i2] = data[i2 - remains_data_length];
                i2 += 1;
            }
            proof {
                assert forall|m: int| 0 <= m < 64 implies buffer@[m] == new_msg[full0 + m] by {
                    if m < r0 {
                        assert(old_msg.skip(full0)[m] == old_msg[full0 + m]);
                        assert(new_msg[full0 + m] == old_msg[full0 + m]);
                    } else {
                        assert(new_msg[full0 + m] == data@[full0 + m - old_len]);
                    }
                }
                assert(buffer@ =~= new_msg.subrange(full0, full0 + 64));
                assert(new_msg.take(full0) + new_msg.subrange(full0, full0 + 64)
                    =~= new_msg.take(full0 + 64));
                assert(self.words() == sm3_spec::chain(new_msg.take(full0)));
                sm3_spec::lemma_chain_snoc(new_msg.take(full0), buffer@);
            }
            self.update(buffer.as_slice());
            proof {
                vstd::arithmetic::div_mod::lemma_fundamental_div_mod_converse_mod(
                    full0 + 64,
                    64,
                    old_len / 64 + 1,
                    0,
                );
            }
        }
        let ghost base: int = if offset > 0 {
            full0 + 64
        } else {
            full0
        };
        proof {
            assert(self.words() == sm3_spec::chain(new_msg.take(base)));
            assert(base % 64 == 0);
        }
        let buffer_count = (data.len() - offset) / SM3_BUFFER_BYTE_LENGTH;
        proof {
            vstd::arithmetic::div_mod::lemma_fundamental_div_mod(d_len - offset, 64);
            assert(64 * (buffer_count as int) <= d_len - offset < 64 * (buffer_count as int)
                + 64);
        }
        let mut i: usize = 0;
        while i < buffer_count
            invariant
                i <= buffer_count,
                d_len == data@.len(),
                d_len <= usize::MAX,
                offset <= d_len,
                new_msg == old_msg + data@,
                old_len == old_msg.len(),
                r0 == old_len % 64,
                full0 == old_len - r0,
                0 <= r0 < 64,
                offset > 0 ==> base == old_len + offset && r0 > 0,
                offset == 0 ==> base == full0,
                offset == 0 && r0 > 0 ==> d_len < 64 - r0,
                r0 == 0 ==> offset == 0,
                base % 64 == 0,
                64 * (buffer_count as int) <= d_len - offset < 64 * (buffer_count as int) + 64,
                self.words() == sm3_spec::chain(new_msg.take(base + 64 * i)),
                self.pushed@ == new_msg,
                self.total_length == 8 * new_msg.len(),
                offset > 0 ==> self.remains_data@.len() == 0,
                offset == 0 ==> self.remains_data@ == old_msg.skip(full0),
            decreases buffer_count - i,
        {
            proof {
                if offset == 0 && r0 > 0 {
                    assert(64 * (buffer_count as int) < 64);
                    assert(buffer_count == 0);
                    assert(false);
                }
                assert(base == old_len + offset);
                assert((i as int) * 64 + 64 <= 64 * (buffer_count as int));
                assert(offset + (i as int) * 64 + 64 <= d_len);
            }
            let start = offset + i * SM3_BUFFER_BYTE_LENGTH;
            let block = vstd::slice::slice_subrange(data, start, start + SM3_BUFFER_BYTE_LENGTH);
            proof {
                let p = base + 64 * (i as int);
                assert forall|m: int| 0 <= m < 64 implies block@[m] == new_msg[p + m] by {
                    assert(block@[m] == data@[start + m]);
                    assert(new_msg[p + m] == data@[p + m - old_len]);
                }
                assert(new_msg.take(p) + block@ =~= new_msg.take(p + 64));
                vstd::arithmetic::div_mod::lemma_fundamental_div_mod(base, 64);
                vstd::arithmetic::div_mod::lemma_fundamental_div_mod_converse_mod(
                    p,
                    64,
                    base / 64 + i,
                    0,
                );
                sm3_spec::lemma_chain_snoc(new_msg.take(p), block@);
            }
            self.update(block);
            i += 1;
        }
        let ghost processed = base + 64 * (buffer_count as int);
        let mut k = offset + buffer_count * SM3_BUFFER_BYTE_LENGTH;
        let ghost tail_start = k as int;
        proof {
            if offset == 0 && r0 > 0 {
                assert(buffer_count == 0);
            }
            assert(self.remains_data@ =~= new_msg.subrange(processed, old_len + tail_start));
        }
        while k < data.len()
            invariant
                tail_start <= k <= data@.len(),
                d_len == data@.len(),
                tail_start == offset + 64 * (buffer_count as int),
                new_msg == old_msg + data@,
                old_len == old_msg.len(),
                processed == base + 64 * (buffer_count as int),
                0 <= processed <= old_len + tail_start,
                base % 64 == 0,
                self.words() == sm3_spec::chain(new_msg.take(processed)),
                self.pushed@ == new_msg,
                self.total_length == 8 * new_msg.len(),
                self.remains_data@ == new_msg.subrange(processed, old_len + k),
            decreases d_len - k,
        {
            let ghost pre = self.remains_data@;
            self.remains_data.push(data[k]);
            proof {
                assert(data@[k as int] == new_msg[old_len + k]);
                assert(pre.push(new_msg[old_len + k]) =~= new_msg.subrange(
                    processed,
                    old_len + k + 1,
                ));
            }
            k += 1;
        }
        proof {
            let new_len = new_msg.len() as int;
            let tail_count = new_len - processed;
            assert(0 <= tail_count < 64);
            vstd::arithmetic::div_mod::lemma_fundamental_div_mod(base, 64);
            vstd::arithmetic::div_mod::lemma_fundamental_div_mod_converse_div(
                processed,
                64,
                base / 64 + buffer_count,
                0,
            );
            vstd::arithmetic::div_mod::lemma_fundamental_div_mod_converse_mod(
                new_len,
                64,
                base / 64 + buffer_count,
                tail_count,
            );
            assert(new_len % 64 == tail_count);
            assert(new_msg.skip((new_msg.len() - new_msg.len() % 64) as int) =~= new_msg.subrange(
                processed,
                old_len + d_len,
            ));
            assert(self.wf());
        }
    }

    /// Close the stream: append the standard padding and compress the final
    /// block or blocks. Afterwards the state words are the SM3 hash of
    /// everything pushed, ready to be read by [`Self::get_digest_bytes`].
    pub fn compute_digest(&mut self)
        requires
            old(self).wf(),
        ensures
            final(self).words() == sm3_spec::sm3_words(old(self).pushed@),
            final(self).remains_data@.len() == 0,
            final(self).pushed == old(self).pushed,
    {
        let ghost msg = self.pushed@;
        let ghost len = msg.len() as int;
        let ghost r = len % 64;
        let ghost full = len - r;
        let ghost prefix = msg.take(full);
        proof {
            vstd::arithmetic::div_mod::lemma_fundamental_div_mod(len, 64);
            vstd::arithmetic::div_mod::lemma_fundamental_div_mod_converse_mod(
                full,
                64,
                len / 64,
                0,
            );
        }
        let remains_data_length = self.remains_data.len();
        let min_padding_byte_length = remains_data_length + SM3_DATA_BYTE_MAX_LENGTH + 1;
        let mut buffer = zero_block();
        let mut i: usize = 0;
        while i < remains_data_length
            invariant
                *self == *old(self),
                i <= remains_data_length,
                remains_data_length == self.remains_data@.len(),
                remains_data_length < 64,
                buffer@.len() == 64,
                forall|k: int| 0 <= k < i ==> buffer@[k] == self.remains_data@[k],
                forall|k: int| i <= k < 64 ==> buffer@[k] == 0u8,
            decreases remains_data_length - i,
        {
            buffer[i] = self.remains_data[i];
            i += 1;
        }
        self.remains_data.clear();
        buffer[remains_data_length] = 0x80;
        let ghost tail = msg.skip(full);
        if min_padding_byte_length > SM3_BUFFER_BYTE_LENGTH {
            proof {
                vstd::arithmetic::div_mod::lemma_fundamental_div_mod_converse_mod(
                    len + 9,
                    64,
                    len / 64 + 1,
                    r - 55,
                );
                vstd::arithmetic::div_mod::lemma_small_mod((119 - r) as nat, 64);
                assert(sm3_spec::zero_pad_len(msg.len()) == 119 - r);
            }
            self.update(buffer.as_slice());
            let mut buffer2 = zero_block();
            put_data_length(&mut buffer2, self.total_length);
            self.update(buffer2.as_slice());
            proof {
                assert forall|k: int|
                    0 <= k < full + 128 implies (sm3_spec::padded(msg))[k] == (prefix + buffer@
                    + buffer2@)[k] by {
                    if full + 120 <= k {
                        assert(buffer2@[k - full - 64] == buffer2@.subrange(56, 64)[k - full
                            - 120]);
                    }
                }
                assert(sm3_spec::padded(msg) =~= prefix + buffer@ + buffer2@);
                sm3_spec::lemma_chain_snoc(prefix, buffer@);
                vstd::arithmetic::div_mod::lemma_fundamental_div_mod_converse_mod(
                    full + 64,
                    64,
                    len / 64 + 1,
                    0,
                );
                sm3_spec::lemma_chain_snoc(prefix + buffer@, buffer2@);
                assert((prefix + buffer@ + buffer2@).take(full) =~= prefix);
                assert(self.words() == sm3_spec::sm3_words(msg));
            }
        } else {
            proof {
                if r == 55 {
                    vstd::arithmetic::div_mod::lemma_fundamental_div_mod_converse_mod(
                        len + 9,
                        64,
                        len / 64 + 1,
                        0,
                    );
                    vstd::arithmetic::div_mod::lemma_small_mod(0, 64);
                } else {
                    vstd::arithmetic::div_mod::lemma_fundamental_div_mod_converse_mod(
                        len + 9,
                        64,
                        len / 64,
                        r + 9,
                    );
                    vstd::arithmetic::div_mod::lemma_small_mod((55 - r) as nat, 64);
                }
                assert(sm3_spec::zero_pad_len(msg.len()) == 55 - r);
            }
            put_data_length(&mut buffer, self.total_length);
            self.update(buffer.as_slice());
            proof {
                assert forall|k: int|
                    0 <= k < full + 64 implies (sm3_spec::padded(msg))[k] == (prefix
                    + buffer@)[k] by {
                    if full + 56 <= k {
                        assert(buffer@[k - full] == buffer@.subrange(56, 64)[k - full - 56]);
                    }
                }
                assert(sm3_spec::padded(msg) =~= prefix + buffer@);
                sm3_spec::lemma_chain_snoc(prefix, buffer@);
                assert(self.words() == sm3_spec::sm3_words(msg));
            }
        }
    }
}

} // verus!
