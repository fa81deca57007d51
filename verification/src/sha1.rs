//! The SHA-1 digest, computed chunk by chunk over the padded message.
use vstd::prelude::*;

use crate::endian::{spec_u32_be, spec_u32_bytes, spec_u64_bytes, u32_from_be_bytes};

verus! {

pub const HASH_0_INIT: u32 = 0x67452301;

pub const HASH_1_INIT: u32 = 0xEFCDAB89;

pub const HASH_2_INIT: u32 = 0x98BADCFE;

pub const HASH_3_INIT: u32 = 0x10325476;

pub const HASH_4_INIT: u32 = 0xC3D2E1F0;

/// Addition of two words modulo 2^32.
pub open spec fn w_add(a: u32, b: u32) -> u32 {
    vstd::wrapping::u32_specs::wrapping_add(a, b)
}

/// Rotation of a word left by `n` bits.
pub open spec fn spec_rotl(x: u32, n: u32) -> u32
    recommends
        0 < n < 32,
{
    (x << n) | (x >> ((32 - n) as u32))
}

/// Zero bytes appended after the 0x80 marker, so that the message length
/// becomes 56 modulo 64 before the eight length bytes are added.
pub open spec fn pad_zero_count(len: nat) -> nat {
    let r = (len + 1) % 64;
    if r <= 56 {
        (56 - r) as nat
    } else {
        (120 - r) as nat
    }
}

/// The padded message: the message, a 0x80 marker, zero bytes up to
/// 56 modulo 64, and the bit length as eight big-endian bytes.
pub open spec fn spec_pad(msg: Seq<u8>) -> Seq<u8> {
    msg + seq![0x80u8] + Seq::new(pad_zero_count(msg.len()), |i: int| 0u8) + spec_u64_bytes(
        (msg.len() * 8) as u64,
    )
}

/// The padded message is a whole number of 64-byte chunks.
pub proof fn lemma_pad_len(msg: Seq<u8>)
    ensures
        spec_pad(msg).len() == msg.len() + 1 + pad_zero_count(msg.len()) + 8,
        spec_pad(msg).len() % 64 == 0,
{
    let len = msg.len();
    let r = (len + 1) % 64;
    let q = (len + 1) / 64;
    let total = spec_pad(msg).len();
    if r <= 56 {
        assert(total == 64 * q + 64);
        assert((64 * q + 64) % 64 == 0) by (nonlinear_arith);
    } else {
        assert(total == 64 * q + 128);
        assert((64 * q + 128) % 64 == 0) by (nonlinear_arith);
    }
}

/// The `i`th word of the message schedule for one 64-byte chunk.
pub open spec fn schedule_word(chunk: Seq<u8>, i: int) -> u32
    recommends
        chunk.len() == 64,
        0 <= i < 80,
    decreases i,
{
    if i < 16 {
        spec_u32_be(chunk[4 * i], chunk[4 * i + 1], chunk[4 * i + 2], chunk[4 * i + 3])
    } else {
        spec_rotl(
            schedule_word(chunk, i - 3) ^ schedule_word(chunk, i - 8) ^ schedule_word(chunk, i - 14)
                ^ schedule_word(chunk, i - 16),
            1,
        )
    }
}

/// The round function and round constant for round `i`.
pub open spec fn round_mix(i: int, b: u32, c: u32, d: u32) -> (u32, u32) {
    if i < 20 {
        ((b & c) | ((!b) & d), 0x5A827999u32)
    } else if i < 40 {
        (b ^ c ^ d, 0x6ED9EBA1u32)
    } else if i < 60 {
        ((b & c) | (b & d) | (c & d), 0x8F1BBCDCu32)
    } else {
        (b ^ c ^ d, 0xCA62C1D6u32)
    }
}

/// The working state after running rounds `i` to 79 of one chunk.
pub open spec fn spec_rounds(chunk: Seq<u8>, i: int, st: (u32, u32, u32, u32, u32)) -> (
    u32,
    u32,
    u32,
    u32,
    u32,
)
    decreases 80 - i,
{
    if i < 0 || i >= 80 {
        st
    } else {
        let (a, b, c, d, e) = st;
        let (f, k) = round_mix(i, b, c, d);
        let temp = w_add(w_add(w_add(w_add(spec_rotl(a, 5), f), e), k), schedule_word(chunk, i));
        spec_rounds(chunk, i + 1, (temp, a, spec_rotl(b, 30), c, d))
    }
}

/// The hash state after absorbing one 64-byte chunk.
pub open spec fn spec_process_chunk(h: (u32, u32, u32, u32, u32), chunk: Seq<u8>) -> (
    u32,
    u32,
    u32,
    u32,
    u32,
) {
    let (a, b, c, d, e) = spec_rounds(chunk, 0, h);
    (w_add(h.0, a), w_add(h.1, b), w_add(h.2, c), w_add(h.3, d), w_add(h.4, e))
}

/// The hash state after absorbing every chunk from byte `pos` onward.
pub open spec fn spec_process_from(
    h: (u32, u32, u32, u32, u32),
    padded: Seq<u8>,
    pos: int,
) -> (u32, u32, u32, u32, u32)
    decreases padded.len() - pos,
{
    if pos < 0 || pos + 64 > padded.len() {
        h
    } else {
        spec_process_from(spec_process_chunk(h, padded.subrange(pos, pos + 64)), padded, pos + 64)
    }
}

/// The 20-byte SHA-1 digest of a byte sequence.
pub open spec fn digest(msg: Seq<u8>) -> Seq<u8> {
    let h = spec_process_from(
        (HASH_0_INIT, HASH_1_INIT, HASH_2_INIT, HASH_3_INIT, HASH_4_INIT),
        spec_pad(msg),
        0,
    );
    spec_u32_bytes(h.0) + spec_u32_bytes(h.1) + spec_u32_bytes(h.2) + spec_u32_bytes(h.3)
        + spec_u32_bytes(h.4)
}

/// The digest always holds exactly 20 bytes.
pub proof fn lemma_digest_len(msg: Seq<u8>)
    ensures
        digest(msg).len() == 20,
{
}

fn add_wrap(a: u32, b: u32) -> (r: u32)
    ensures
        r == w_add(a, b),
{
    a.wrapping_add(b)
}

fn rotl(x: u32, n: u32) -> (r: u32)
    requires
        0 < n < 32,
    ensures
        r == spec_rotl(x, n),
{
    (x << n) | (x >> (32 - n))
}

/// Computes the 20-byte SHA-1 digest of a byte sequence.
pub fn calculate_sha1(message: &[u8]) -> (hash: Vec<u8>)
    requires
        message@.len() * 8 <= u64::MAX,
    ensures
        hash@ == digest(message@),
        hash@.len() == 20,
{
    let len = message.len();
    // Build the padded message.
    let mut m: Vec<u8> = Vec::new();
    let mut i: usize = 0;
    while i < len
        invariant
            i <= len,
            len == message@.len(),
            m@ == message@.take(i as int),
        decreases len - i,
    {
        m.push(message[i]);
        proof {
            assert(message@.take(i + 1) =~= message@.take(i as int).push(message@[i as int]));
        }
        i = i + 1;
    }
    proof {
        assert(m@ =~= message@);
    }
    m.push(0x80);
    let r = m.len() % 64;
    let zeros = if r <= 56 {
        56 - r
    } else {
        120 - r
    };
    proof {
        assert(zeros == pad_zero_count(message@.len()));
    }
    let mut z: usize = 0;
    while z < zeros
        invariant
            z <= zeros,
            m@ == message@ + seq![0x80u8] + Seq::new(z as nat, |k: int| 0u8),
        decreases zeros - z,
    {
        m.push(0);
        proof {
            assert(Seq::new((z + 1) as nat, |k: int| 0u8) =~= Seq::new(z as nat, |k: int| 0u8).push(
                0u8,
            ));
            assert((message@ + seq![0x80u8] + Seq::new(z as nat, |k: int| 0u8)).push(0u8) =~= message@
                + seq![0x80u8] + Seq::new((z + 1) as nat, |k: int| 0u8));
        }
        z = z + 1;
    }
    let bit_len: u64 = (len as u64) * 8;
    m.push(((bit_len >> 56) & 0xFF) as u8);
    m.push(((bit_len >> 48) & 0xFF) as u8);
    m.push(((bit_len >> 40) & 0xFF) as u8);
    m.push(((bit_len >> 32) & 0xFF) as u8);
    m.push(((bit_len >> 24) & 0xFF) as u8);
    m.push(((bit_len >> 16) & 0xFF) as u8);
    m.push(((bit_len >> 8) & 0xFF) as u8);
    m.push((bit_len & 0xFF) as u8);
    proof {
        assert(m@ =~= spec_pad(message@));
        lemma_pad_len(message@);
    }
    let ghost padded = m@;
    let ghost init_h = (HASH_0_INIT, HASH_1_INIT, HASH_2_INIT, HASH_3_INIT, HASH_4_INIT);
    let mut h0 = HASH_0_INIT;
    let mut h1 = HASH_1_INIT;
    let mut h2 = HASH_2_INIT;
    let mut h3 = HASH_3_INIT;
    let mut h4 = HASH_4_INIT;
    let mut pos: usize = 0;
    while pos < m.len()
        invariant
            m@ == padded,
            padded.len() % 64 == 0,
            pos % 64 == 0,
            pos <= padded.len(),
            spec_process_from(init_h, padded, 0) == spec_process_from(
                (h0, h1, h2, h3, h4),
                padded,
                pos as int,
            ),
        decreases padded.len() - pos,
    {
        proof {
            assert((padded.len() - pos) % 64 == 0) by (nonlinear_arith)
                requires
                    padded.len() % 64 == 0,
                    pos % 64 == 0,
                    pos <= padded.len(),
            ;
            assert(padded.len() - pos >= 64) by (nonlinear_arith)
                requires
                    (padded.len() - pos) % 64 == 0,
                    padded.len() - pos > 0,
            ;
        }
        let ghost chunk = padded.subrange(pos as int, pos as int + 64);
        let mlen = m.len();
        // The message schedule.
        let mut words: Vec<u32> = Vec::new();
        let mut j: usize = 0;
        while j < 16
            invariant
                j <= 16,
                words@.len() == j,
                m@ == padded,
                mlen == padded.len(),
                pos + 64 <= mlen,
                chunk == padded.subrange(pos as int, pos as int + 64),
                forall|t: int| 0 <= t < j ==> words@[t] == schedule_word(chunk, t),
            decreases 16 - j,
        {
            let base = pos + 4 * j;
            let w = u32_from_be_bytes(m[base], m[base + 1], m[base + 2], m[base + 3]);
            words.push(w);
            proof {
                assert(chunk[4 * j as int] == padded[pos + 4 * j]);
                assert(chunk[4 * j as int + 1] == padded[pos + 4 * j + 1]);
                assert(chunk[4 * j as int + 2] == padded[pos + 4 * j + 2]);
                assert(chunk[4 * j as int + 3] == padded[pos + 4 * j + 3]);
                assert(words@[j as int] == schedule_word(chunk, j as int));
            }
            j = j + 1;
        }
        while j < 80
            invariant
                16 <= j <= 80,
                words@.len() == j,
                m@ == padded,
                mlen == padded.len(),
                pos + 64 <= mlen,
                chunk == padded.subrange(pos as int, pos as int + 64),
                forall|t: int| 0 <= t < j ==> words@[t] == schedule_word(chunk, t),
            decreases 80 - j,
        {
            let x = words[j - 3] ^ words[j - 8] ^ words[j - 14] ^ words[j - 16];
            proof {
                assert(words@[j - 3] == schedule_word(chunk, j as int - 3));
                assert(words@[j - 8] == schedule_word(chunk, j as int - 8));
                assert(words@[j - 14] == schedule_word(chunk, j as int - 14));
                assert(words@[j - 16] == schedule_word(chunk, j as int - 16));
            }
            let w = rotl(x, 1);
            words.push(w);
            proof {
                assert(words@[j as int] == schedule_word(chunk, j as int));
            }
            j = j + 1;
        }
        // The eighty rounds.
        let mut a = h0;
        let mut b = h1;
        let mut c = h2;
        let mut d = h3;
        let mut e = h4;
        let mut rd: usize = 0;
        while rd < 80
            invariant
                rd <= 80,
                words@.len() == 80,
                chunk == padded.subrange(pos as int, pos as int + 64),
                forall|t: int| 0 <= t < 80 ==> words@[t] == schedule_word(chunk, t),
                spec_rounds(chunk, 0, (h0, h1, h2, h3, h4)) == spec_rounds(
                    chunk,
                    rd as int,
                    (a, b, c, d, e),
                ),
            decreases 80 - rd,
        {
            let (f, k): (u32, u32) = if rd < 20 {
                ((b & c) | ((!b) & d), 0x5A827999)
            } else if rd < 40 {
                (b ^ c ^ d, 0x6ED9EBA1)
            } else if rd < 60 {
                ((b & c) | (b & d) | (c & d), 0x8F1BBCDC)
            } else {
                (b ^ c ^ d, 0xCA62C1D6)
            };
            let temp = add_wrap(add_wrap(add_wrap(add_wrap(rotl(a, 5), f), e), k), words[rd]);
            proof {
                assert((f, k) == round_mix(rd as int, b, c, d));
                assert(spec_rounds(chunk, rd as int, (a, b, c, d, e)) == spec_rounds(
                    chunk,
                    rd + 1,
                    (temp, a, spec_rotl(b, 30), c, d),
                ));
            }
            e = d;
            d = c;
            c = rotl(b, 30);
            b = a;
            a = temp;
            rd = rd + 1;
        }
        proof {
            assert(spec_rounds(chunk, 80, (a, b, c, d, e)) == (a, b, c, d, e));
        }
        let ghost h_before = (h0, h1, h2, h3, h4);
        h0 = add_wrap(h0, a);
        h1 = add_wrap(h1, b);
        h2 = add_wrap(h2, c);
        h3 = add_wrap(h3, d);
        h4 = add_wrap(h4, e);
        proof {
            assert(spec_process_chunk(h_before, chunk) == (h0, h1, h2, h3, h4));
            assert(spec_process_from(h_before, padded, pos as int) == spec_process_from(
                (h0, h1, h2, h3, h4),
                padded,
                pos as int + 64,
            ));
        }
        pos = pos + 64;
    }
    proof {
        assert(spec_process_from((h0, h1, h2, h3, h4), padded, pos as int) == (h0, h1, h2, h3, h4));
    }
    let mut hash: Vec<u8> = Vec::new();
    hash.push(((h0 >> 24) & 0xFF) as u8);
    hash.push(((h0 >> 16) & 0xFF) as u8);
    hash.push(((h0 >> 8) & 0xFF) as u8);
    hash.push((h0 & 0xFF) as u8);
    hash.push(((h1 >> 24) & 0xFF) as u8);
    hash.push(((h1 >> 16) & 0xFF) as u8);
    hash.push(((h1 >> 8) & 0xFF) as u8);
    hash.push((h1 & 0xFF) as u8);
    hash.push(((h2 >> 24) & 0xFF) as u8);
    hash.push(((h2 >> 16) & 0xFF) as u8);
    hash.push(((h2 >> 8) & 0xFF) as u8);
    hash.push((h2 & 0xFF) as u8);
    hash.push(((h3 >> 24) & 0xFF) as u8);
    hash.push(((h3 >> 16) & 0xFF) as u8);
    hash.push(((h3 >> 8) & 0xFF) as u8);
    hash.push((h3 & 0xFF) as u8);
    hash.push(((h4 >> 24) & 0xFF) as u8);
    hash.push(((h4 >> 16) & 0xFF) as u8);
    hash.push(((h4 >> 8) & 0xFF) as u8);
    hash.push((h4 & 0xFF) as u8);
    proof {
        assert(hash@ =~= digest(message@));
    }
    hash
}

} // verus!
