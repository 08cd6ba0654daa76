//! Mathematical definition of the SM3 hash.
//!
//! Everything here is specification: the compression function over one
//! 64-byte block, the message-schedule recurrence, the padding that closes a
//! message, and the digest of an arbitrary byte sequence. The executable
//! engine in [`crate::sm3_digest`] is proved against these definitions.

use vstd::prelude::*;

verus! {

/// Left rotation of a 32-bit word by `n` bit positions.
pub open spec fn rotl(x: u32, n: u32) -> u32
    recommends
        n < 32,
{
    if n == 0 {
        x
    } else {
        (x << n) | (x >> ((32 - n) as u32))
    }
}

/// Boolean function of the first sixteen rounds (plain XOR) and of the
/// remaining rounds (bitwise majority).
pub open spec fn ff(j: int, x: u32, y: u32, z: u32) -> u32
    recommends
        0 <= j < 64,
{
    if j < 16 {
        x ^ y ^ z
    } else {
        (x & y) | (x & z) | (y & z)
    }
}

/// Boolean function of the first sixteen rounds (plain XOR) and of the
/// remaining rounds (bitwise choice).
pub open spec fn gg(j: int, x: u32, y: u32, z: u32) -> u32
    recommends
        0 <= j < 64,
{
    if j < 16 {
        x ^ y ^ z
    } else {
        (x & y) | ((!x) & z)
    }
}

/// Permutation applied to the register fed back into `E` each round.
pub open spec fn p0(x: u32) -> u32 {
    x ^ rotl(x, 9) ^ rotl(x, 17)
}

/// Permutation applied inside the message-schedule recurrence.
pub open spec fn p1(x: u32) -> u32 {
    x ^ rotl(x, 15) ^ rotl(x, 23)
}

/// Additive round constant of round `j`: one of two base words, rotated by
/// the round index.
pub open spec fn round_constant(j: int) -> u32
    recommends
        0 <= j < 64,
{
    if j < 16 {
        rotl(0x79cc4519u32, (j % 32) as u32)
    } else {
        rotl(0x7a879d8au32, (j % 32) as u32)
    }
}

/// Big-endian 32-bit word from four bytes.
pub open spec fn word_from_bytes(b0: u8, b1: u8, b2: u8, b3: u8) -> u32 {
    ((b0 as u32) << 24u32) | ((b1 as u32) << 16u32) | ((b2 as u32) << 8u32) | (b3 as u32)
}

/// Word `j` of the message schedule of one 64-byte block: for `j < 16` the
/// block's own big-endian words, beyond that the standard recurrence
/// `W[j] = P1(W[j-16] ^ W[j-9] ^ (W[j-3] <<< 15)) ^ (W[j-13] <<< 7) ^ W[j-6]`.
#[verifier::opaque]
pub open spec fn message_word(block: Seq<u8>, j: int) -> u32
    recommends
        block.len() == 64,
        0 <= j,
    decreases j,
{
    if j < 16 {
        word_from_bytes(block[4 * j], block[4 * j + 1], block[4 * j + 2], block[4 * j + 3])
    } else {
        p1(
            message_word(block, j - 16) ^ message_word(block, j - 9) ^ rotl(
                message_word(block, j - 3),
                15,
            ),
        ) ^ rotl(message_word(block, j - 13), 7) ^ message_word(block, j - 6)
    }
}

/// One round of the compression function on the eight working registers
/// `r = [A, B, C, D, E, F, G, H]`, given the schedule words `W[j]` and
/// `W[j + 4]`.
#[verifier::opaque]
pub open spec fn round(r: Seq<u32>, j: int, w: u32, w4: u32) -> Seq<u32>
    recommends
        r.len() == 8,
        0 <= j < 64,
{
    let a12 = rotl(r[0], 12);
    let ss1 = rotl(a12.wrapping_add(r[4]).wrapping_add(round_constant(j)), 7);
    let ss2 = ss1 ^ a12;
    let tt1 = ff(j, r[0], r[1], r[2]).wrapping_add(r[3]).wrapping_add(ss2).wrapping_add(w ^ w4);
    let tt2 = gg(j, r[4], r[5], r[6]).wrapping_add(r[7]).wrapping_add(ss1).wrapping_add(w);
    seq![tt1, r[0], rotl(r[1], 9), r[2], p0(tt2), r[4], rotl(r[5], 19), r[6]]
}

/// The registers after the first `j` rounds on one block.
pub open spec fn rounds(init: Seq<u32>, block: Seq<u8>, j: int) -> Seq<u32>
    recommends
        init.len() == 8,
        block.len() == 64,
        0 <= j <= 64,
    decreases j,
{
    if j <= 0 {
        init
    } else {
        round(
            rounds(init, block, j - 1),
            j - 1,
            message_word(block, j - 1),
            message_word(block, j + 3),
        )
    }
}

/// The compression function: 64 rounds, then the old state XORed in
/// word-by-word.
pub open spec fn compress(state: Seq<u32>, block: Seq<u8>) -> Seq<u32>
    recommends
        state.len() == 8,
        block.len() == 64,
{
    let fin = rounds(state, block, 64);
    Seq::new(8, |i: int| state[i] ^ fin[i])
}

/// The fixed initial state.
pub open spec fn iv() -> Seq<u32> {
    seq![
        0x7380166fu32,
        0x4914b2b9u32,
        0x172442d7u32,
        0xda8a0600u32,
        0xa96f30bcu32,
        0x163138aau32,
        0xe38dee4du32,
        0xb0fb0e4eu32,
    ]
}

/// The state after compressing a whole number of 64-byte blocks, starting
/// from the initial state.
pub open spec fn chain(blocks: Seq<u8>) -> Seq<u32>
    recommends
        blocks.len() % 64 == 0,
    decreases blocks.len(),
{
    if blocks.len() < 64 {
        iv()
    } else {
        compress(chain(blocks.take(blocks.len() - 64)), blocks.skip(blocks.len() - 64))
    }
}

/// How many zero bytes stand between the `0x80` marker and the 8-byte
/// length field, so that the padded message is a whole number of blocks.
pub open spec fn zero_pad_len(len: nat) -> nat {
    ((64 - ((len + 9) % 64)) % 64) as nat
}

/// The 64-bit bit-length, big-endian.
pub open spec fn length_bytes(bits: u64) -> Seq<u8> {
    seq![
        (bits >> 56u64) as u8,
        (bits >> 48u64) as u8,
        (bits >> 40u64) as u8,
        (bits >> 32u64) as u8,
        (bits >> 24u64) as u8,
        (bits >> 16u64) as u8,
        (bits >> 8u64) as u8,
        bits as u8,
    ]
}

/// The message closed by the standard padding: a `0x80` byte, zeros, and the
/// bit-length of the message as a big-endian 64-bit integer.
pub open spec fn padded(msg: Seq<u8>) -> Seq<u8>
    recommends
        8 * msg.len() <= u64::MAX,
{
    msg + seq![0x80u8] + Seq::new(zero_pad_len(msg.len()), |i: int| 0u8) + length_bytes(
        (8 * msg.len()) as u64,
    )
}

/// The eight state words of the finished hash.
pub open spec fn sm3_words(msg: Seq<u8>) -> Seq<u32> {
    chain(padded(msg))
}

/// One state word serialized as four big-endian bytes.
pub open spec fn word_bytes(w: u32) -> Seq<u8> {
    seq![(w >> 24u32) as u8, (w >> 16u32) as u8, (w >> 8u32) as u8, w as u8]
}

/// The eight state words serialized in order, each as four big-endian bytes.
pub open spec fn state_bytes(words: Seq<u32>) -> Seq<u8>
    recommends
        words.len() == 8,
{
    Seq::new(32, |i: int| word_bytes(words[i / 4])[i % 4])
}

/// The SM3 digest of a byte sequence: 32 bytes.
pub open spec fn sm3_digest(msg: Seq<u8>) -> Seq<u8> {
    state_bytes(sm3_words(msg))
}

/// Appending one 64-byte block to a whole number of blocks extends the
/// chain by exactly one compression.
pub proof fn lemma_chain_snoc(blocks: Seq<u8>, block: Seq<u8>)
    requires
        blocks.len() % 64 == 0,
        block.len() == 64,
    ensures
        chain(blocks + block) == compress(chain(blocks), block),
{
    let all = blocks + block;
    assert(all.take(all.len() - 64) =~= blocks);
    assert(all.skip(all.len() - 64) =~= block);
}

/// The concatenation of a sequence of chunks, in order.
pub open spec fn concat_chunks(chunks: Seq<Seq<u8>>) -> Seq<u8>
    decreases chunks.len(),
{
    if chunks.len() == 0 {
        Seq::empty()
    } else {
        concat_chunks(chunks.drop_last()) + chunks.last()
    }
}

/// Chunking invariance: the digest is a function of the concatenated bytes
/// alone. However an input is split into chunks, any two chunkings with the
/// same concatenation have the same digest. Together with `push_data`'s
/// contract — each call appends its chunk to the bytes consumed — this says
/// the streaming engine's result does not depend on chunk boundaries.
pub proof fn lemma_chunking_invariance(chunks_a: Seq<Seq<u8>>, chunks_b: Seq<Seq<u8>>)
    requires
        concat_chunks(chunks_a) == concat_chunks(chunks_b),
    ensures
        sm3_digest(concat_chunks(chunks_a)) == sm3_digest(concat_chunks(chunks_b)),
{
}

/// The shape of the padded message: it is a whole number of blocks — one
/// block more than the full blocks of the message when the tail leaves room
/// for the marker byte and the length field (tail at most 55 bytes), two
/// more otherwise; it starts with the message itself, followed by the `0x80`
/// marker; and its last eight bytes are the message's bit-length, big-endian.
pub proof fn lemma_padding_shape(msg: Seq<u8>)
    requires
        8 * msg.len() <= u64::MAX,
    ensures
        padded(msg).len() % 64 == 0,
        msg.len() % 64 <= 55 ==> padded(msg).len() == msg.len() - msg.len() % 64 + 64,
        msg.len() % 64 >= 56 ==> padded(msg).len() == msg.len() - msg.len() % 64 + 128,
        padded(msg).take(msg.len() as int) == msg,
        padded(msg)[msg.len() as int] == 0x80,
        padded(msg).skip(padded(msg).len() - 8) == length_bytes((8 * msg.len()) as u64),
{
    let len = msg.len() as int;
    let r = len % 64;
    vstd::arithmetic::div_mod::lemma_fundamental_div_mod(len, 64);
    if r == 55 {
        vstd::arithmetic::div_mod::lemma_fundamental_div_mod_converse_mod(
            len + 9,
            64,
            len / 64 + 1,
            0,
        );
        vstd::arithmetic::div_mod::lemma_small_mod(0, 64);
    } else if r <= 54 {
        vstd::arithmetic::div_mod::lemma_fundamental_div_mod_converse_mod(
            len + 9,
            64,
            len / 64,
            r + 9,
        );
        vstd::arithmetic::div_mod::lemma_small_mod((55 - r) as nat, 64);
    } else {
        vstd::arithmetic::div_mod::lemma_fundamental_div_mod_converse_mod(
            len + 9,
            64,
            len / 64 + 1,
            r - 55,
        );
        vstd::arithmetic::div_mod::lemma_small_mod((119 - r) as nat, 64);
    }
    if r <= 55 {
        vstd::arithmetic::div_mod::lemma_fundamental_div_mod_converse_mod(
            len - r + 64,
            64,
            len / 64 + 1,
            0,
        );
    } else {
        vstd::arithmetic::div_mod::lemma_fundamental_div_mod_converse_mod(
            len - r + 128,
            64,
            len / 64 + 2,
            0,
        );
    }
    assert(padded(msg).take(len) =~= msg);
    assert(padded(msg).skip(padded(msg).len() - 8) =~= length_bytes((8 * msg.len()) as u64));
}

/// One hexadecimal digit; `base` is the code of the letter digit `10`
/// (`'a'` or `'A'`).
pub open spec fn hex_digit(v: u8, base: u8) -> char
    recommends
        v < 16,
        base == 97 || base == 65,
{
    if v < 10 {
        ((48 + v) as u8) as char
    } else {
        ((base + v - 10) as u8) as char
    }
}

/// Hexadecimal rendering of a byte sequence, two digits per byte, most
/// significant nibble first.
pub open spec fn hex_string(data: Seq<u8>, base: u8) -> Seq<char>
    recommends
        base == 97 || base == 65,
{
    Seq::new(
        2 * data.len(),
        |i: int|
            if i % 2 == 0 {
                hex_digit(data[i / 2] / 16, base)
            } else {
                hex_digit(data[i / 2] % 16, base)
            },
    )
}

} // verus!
