//! Canonical base64 encoding with `=` padding.
use vstd::prelude::*;

verus! {

/// The base64 alphabet: the character standing for a six-bit group.
pub open spec fn sextet_char(sextet: u8) -> char
    recommends
        sextet < 64,
{
    if sextet <= 25 {
        ((sextet + 65) as u8) as char  // 'A'..='Z'
    } else if sextet <= 51 {
        ((sextet + 71) as u8) as char  // 'a'..='z'
    } else if sextet <= 61 {
        ((sextet - 4) as u8) as char  // '0'..='9'
    } else if sextet == 62 {
        '+'
    } else {
        '/'
    }
}

/// The four output characters for one input group of one, two or three bytes.
pub open spec fn encode_chunk(chunk: Seq<u8>) -> Seq<char>
    recommends
        1 <= chunk.len() <= 3,
{
    let b0 = chunk[0];
    if chunk.len() == 1 {
        seq![sextet_char(b0 >> 2), sextet_char(0x30 & (b0 << 4)), '=', '=']
    } else if chunk.len() == 2 {
        let b1 = chunk[1];
        seq![
            sextet_char(b0 >> 2),
            sextet_char((0x30 & (b0 << 4)) | (b1 >> 4)),
            sextet_char(0x3F & (b1 << 2)),
            '=',
        ]
    } else {
        let b1 = chunk[1];
        let b2 = chunk[2];
        seq![
            sextet_char(b0 >> 2),
            sextet_char((0x30 & (b0 << 4)) | (b1 >> 4)),
            sextet_char(0x3F & ((b1 << 2) | (b2 >> 6))),
            sextet_char(0x3F & b2),
        ]
    }
}

/// The base64 text of a byte sequence: four characters for every three-byte
/// group, with a final short group padded by `=`.
pub open spec fn spec_encode(bytes: Seq<u8>) -> Seq<char>
    decreases bytes.len(),
{
    if bytes.len() == 0 {
        Seq::empty()
    } else if bytes.len() <= 3 {
        encode_chunk(bytes)
    } else {
        encode_chunk(bytes.take(3)) + spec_encode(bytes.skip(3))
    }
}

/// A character of the base64 alphabet, or the padding character `=`.
pub open spec fn is_base64_symbol(c: char) -> bool {
    let v = c as int;
    (65 <= v && v <= 90)  // 'A'..='Z'
     || (97 <= v && v <= 122)  // 'a'..='z'
     || (48 <= v && v <= 57)  // '0'..='9'
     || c == '+' || c == '/' || c == '='
}

/// Every six-bit value handed to the alphabet by `encode_chunk` is below 64.
proof fn lemma_sextet_bounds(b0: u8, b1: u8, b2: u8)
    by (bit_vector)
    ensures
        b0 >> 2 < 64,
        0x30 & (b0 << 4) < 64,
        ((0x30 & (b0 << 4)) | (b1 >> 4)) < 64,
        (0x3F & (b1 << 2)) < 64,
        (0x3F & ((b1 << 2) | (b2 >> 6))) < 64,
        (0x3F & b2) < 64,
{
}

proof fn lemma_sextet_char_symbol(sextet: u8)
    requires
        sextet < 64,
    ensures
        is_base64_symbol(sextet_char(sextet)),
{
}

/// The encoded text is four characters for every started three-byte group.
pub proof fn lemma_encode_len(bytes: Seq<u8>)
    ensures
        spec_encode(bytes).len() == 4 * ((bytes.len() + 2) / 3),
    decreases bytes.len(),
{
    if bytes.len() > 3 {
        lemma_encode_len(bytes.skip(3));
    }
}

/// Every character of the encoded text is a base64 symbol or `=`.
pub proof fn lemma_encode_symbols(bytes: Seq<u8>)
    ensures
        forall|j: int|
            0 <= j < spec_encode(bytes).len() ==> is_base64_symbol(#[trigger] spec_encode(bytes)[j]),
    decreases bytes.len(),
{
    if bytes.len() == 0 {
    } else if bytes.len() <= 3 {
        lemma_chunk_symbols(bytes);
    } else {
        lemma_chunk_symbols(bytes.take(3));
        lemma_encode_symbols(bytes.skip(3));
        assert forall|j: int| 0 <= j < spec_encode(bytes).len() implies is_base64_symbol(
            #[trigger] spec_encode(bytes)[j],
        ) by {
            if j < 4 {
                assert(spec_encode(bytes)[j] == encode_chunk(bytes.take(3))[j]);
            } else {
                assert(spec_encode(bytes)[j] == spec_encode(bytes.skip(3))[j - 4]);
            }
        }
    }
}

proof fn lemma_chunk_symbols(chunk: Seq<u8>)
    requires
        1 <= chunk.len() <= 3,
    ensures
        forall|j: int|
            0 <= j < encode_chunk(chunk).len() ==> is_base64_symbol(#[trigger] encode_chunk(chunk)[j]),
{
    let b0 = chunk[0];
    let b1: u8 = if chunk.len() >= 2 {
        chunk[1]
    } else {
        0
    };
    let b2: u8 = if chunk.len() == 3 {
        chunk[2]
    } else {
        0
    };
    lemma_sextet_bounds(b0, b1, b2);
    lemma_sextet_char_symbol(b0 >> 2);
    lemma_sextet_char_symbol(0x30 & (b0 << 4));
    lemma_sextet_char_symbol((0x30 & (b0 << 4)) | (b1 >> 4));
    lemma_sextet_char_symbol(0x3F & (b1 << 2));
    lemma_sextet_char_symbol(0x3F & ((b1 << 2) | (b2 >> 6)));
    lemma_sextet_char_symbol(0x3F & b2);
}

/// The character standing for a six-bit group.
pub fn translate_char(input: u8) -> (c: char)
    requires
        input < 64,
    ensures
        c == sextet_char(input),
{
    if input <= 25 {
        (input + 65) as char
    } else if input <= 51 {
        (input + 71) as char
    } else if input <= 61 {
        (input - 4) as char
    } else if input == 62 {
        '+'
    } else {
        '/'
    }
}

/// Encodes a byte sequence to canonical base64 text with `=` padding.
pub fn encode(bytes: Vec<u8>) -> (result: String)
    ensures
        result@ == spec_encode(bytes@),
{
    let n = bytes.len();
    let mut result = String::new();
    let mut i: usize = 0;
    proof {
        assert(bytes@.skip(0) =~= bytes@);
        assert(result@ + spec_encode(bytes@) =~= spec_encode(bytes@));
    }
    while i < n
        invariant
            i <= n,
            n == bytes@.len(),
            result@ + spec_encode(bytes@.skip(i as int)) == spec_encode(bytes@),
        decreases n - i,
    {
        let ghost rest = bytes@.skip(i as int);
        let ghost before = result@;
        let b0 = bytes[i];
        proof {
            lemma_sextet_bounds(b0, 0, 0);
        }
        let first = translate_char(b0 >> 2);
        if n - i >= 3 {
            let b1 = bytes[i + 1];
            let b2 = bytes[i + 2];
            proof {
                lemma_sextet_bounds(b0, b1, b2);
            }
            let second = translate_char((0x30 & (b0 << 4)) | (b1 >> 4));
            let third = translate_char(0x3F & ((b1 << 2) | (b2 >> 6)));
            let fourth = translate_char(0x3F & b2);
            result.push(first);
            result.push(second);
            result.push(third);
            result.push(fourth);
            proof {
                let chunk = if rest.len() <= 3 {
                    rest
                } else {
                    rest.take(3)
                };
                assert(chunk.len() == 3 || rest.len() <= 3);
                assert(chunk[0] == b0 && chunk[1] == b1 && chunk[2] == b2);
                assert(result@ =~= before + encode_chunk(chunk));
                if rest.len() > 3 {
                    assert(rest.skip(3) =~= bytes@.skip(i + 3));
                } else {
                    assert(bytes@.skip(i + 3) =~= Seq::<u8>::empty());
                }
                assert(result@ + spec_encode(bytes@.skip(i + 3)) =~= spec_encode(bytes@));
            }
            i = i + 3;
        } else if i + 1 < n {
            let b1 = bytes[i + 1];
            proof {
                lemma_sextet_bounds(b0, b1, 0);
            }
            let second = translate_char((0x30 & (b0 << 4)) | (b1 >> 4));
            let third = translate_char(0x3F & (b1 << 2));
            result.push(first);
            result.push(second);
            result.push(third);
            result.push('=');
            proof {
                assert(rest.len() == 2);
                assert(rest[0] == b0 && rest[1] == b1);
                assert(result@ =~= before + encode_chunk(rest));
                assert(bytes@.skip(n as int) =~= Seq::<u8>::empty());
                assert(result@ + spec_encode(bytes@.skip(n as int)) =~= spec_encode(bytes@));
            }
            i = n;
        } else {
            proof {
                lemma_sextet_bounds(b0, 0, 0);
            }
            let second = translate_char(0x30 & (b0 << 4));
            result.push(first);
            result.push(second);
            result.push('=');
            result.push('=');
            proof {
                assert(rest.len() == 1);
                assert(rest[0] == b0);
                assert(result@ =~= before + encode_chunk(rest));
                assert(bytes@.skip(n as int) =~= Seq::<u8>::empty());
                assert(result@ + spec_encode(bytes@.skip(n as int)) =~= spec_encode(bytes@));
            }
            i = n;
        }
    }
    proof {
        assert(bytes@.skip(n as int) =~= Seq::<u8>::empty());
        assert(result@ =~= spec_encode(bytes@));
    }
    result
}

} // verus!
