use vstd::prelude::*;
use crate::ClassifierError;

verus! {

// Weight persistence format: each stored value is one 32-bit word written as
// 4 little-endian bytes, concatenated in vector order, with no header, length
// prefix or checksum. A word carries one weight; IEEE 754 single-precision
// bit patterns pass through this codec unchanged, so the byte stream is the
// classic "one 4-byte little-endian float per weight" layout.

/// The 4 little-endian bytes of one stored word.
pub open spec fn le_bytes(w: u32) -> Seq<u8> {
    seq![
        (w & 0xff) as u8,
        ((w >> 8) & 0xff) as u8,
        ((w >> 16) & 0xff) as u8,
        ((w >> 24) & 0xff) as u8,
    ]
}

/// The word stored by 4 little-endian bytes.
pub open spec fn word_of(b0: u8, b1: u8, b2: u8, b3: u8) -> u32 {
    (b0 as u32) | ((b1 as u32) << 8) | ((b2 as u32) << 16) | ((b3 as u32) << 24)
}

/// The byte stream that a weight vector is saved as.
pub open spec fn spec_encode(ws: Seq<u32>) -> Seq<u8>
    decreases ws.len(),
{
    if ws.len() == 0 {
        Seq::empty()
    } else {
        le_bytes(ws[0]) + spec_encode(ws.skip(1))
    }
}

/// The weight vector that a byte stream of whole words decodes to.
pub open spec fn spec_decode(bs: Seq<u8>) -> Seq<u32> {
    Seq::new((bs.len() as int / 4) as nat, |i: int| word_of(bs[4 * i], bs[4 * i + 1], bs[4 * i + 2], bs[4 * i + 3]))
}

/// Reading back the 4 little-endian bytes of a word gives the word.
proof fn lemma_word_round_trip(w: u32)
    ensures
        word_of(
            (w & 0xff) as u8,
            ((w >> 8) & 0xff) as u8,
            ((w >> 16) & 0xff) as u8,
            ((w >> 24) & 0xff) as u8,
        ) == w,
{
    assert(((w & 0xff) as u8 as u32) | (((w >> 8) & 0xff) as u8 as u32) << 8
        | (((w >> 16) & 0xff) as u8 as u32) << 16 | (((w >> 24) & 0xff) as u8 as u32) << 24
        == w) by (bit_vector);
}

/// The encoded stream has 4 bytes per weight.
pub proof fn lemma_encode_len(ws: Seq<u32>)
    ensures
        spec_encode(ws).len() == 4 * ws.len(),
    decreases ws.len(),
{
    if ws.len() > 0 {
        lemma_encode_len(ws.skip(1));
    }
}

/// Every byte of the encoded stream comes from the word it belongs to.
proof fn lemma_encode_index(ws: Seq<u32>, k: int)
    requires
        0 <= k < 4 * ws.len(),
    ensures
        spec_encode(ws).len() == 4 * ws.len(),
        spec_encode(ws)[k] == le_bytes(ws[k / 4])[k % 4],
    decreases ws.len(),
{
    lemma_encode_len(ws);
    if ws.len() > 0 {
        if k < 4 {
            assert(k / 4 == 0 && k % 4 == k);
        } else {
            lemma_encode_index(ws.skip(1), k - 4);
            assert((k - 4) / 4 == k / 4 - 1 && (k - 4) % 4 == k % 4);
        }
    }
}

/// Round trip: decoding a saved weight vector gives the vector back, exactly.
pub proof fn lemma_round_trip(ws: Seq<u32>)
    ensures
        spec_encode(ws).len() == 4 * ws.len(),
        spec_encode(ws).len() % 4 == 0,
        spec_decode(spec_encode(ws)) == ws,
{
    lemma_encode_len(ws);
    let bs = spec_encode(ws);
    assert forall|i: int| 0 <= i < ws.len() implies spec_decode(bs)[i] == ws[i] by {
        lemma_encode_index(ws, 4 * i);
        lemma_encode_index(ws, 4 * i + 1);
        lemma_encode_index(ws, 4 * i + 2);
        lemma_encode_index(ws, 4 * i + 3);
        assert((4 * i) / 4 == i && (4 * i + 1) / 4 == i && (4 * i + 2) / 4 == i && (4 * i + 3) / 4
            == i);
        assert((4 * i) % 4 == 0 && (4 * i + 1) % 4 == 1 && (4 * i + 2) % 4 == 2 && (4 * i + 3) % 4
            == 3);
        lemma_word_round_trip(ws[i]);
    }
    assert(spec_decode(bs) =~= ws);
}

proof fn lemma_le_bytes_of_word(b0: u8, b1: u8, b2: u8, b3: u8)
    ensures
        le_bytes(word_of(b0, b1, b2, b3)) == seq![b0, b1, b2, b3],
{
    assert((((b0 as u32) | ((b1 as u32) << 8) | ((b2 as u32) << 16) | ((b3 as u32) << 24)) & 0xff)
        as u8 == b0) by (bit_vector);
    assert(((((b0 as u32) | ((b1 as u32) << 8) | ((b2 as u32) << 16) | ((b3 as u32) << 24)) >> 8)
        & 0xff) as u8 == b1) by (bit_vector);
    assert(((((b0 as u32) | ((b1 as u32) << 8) | ((b2 as u32) << 16) | ((b3 as u32) << 24)) >> 16)
        & 0xff) as u8 == b2) by (bit_vector);
    assert(((((b0 as u32) | ((b1 as u32) << 8) | ((b2 as u32) << 16) | ((b3 as u32) << 24)) >> 24)
        & 0xff) as u8 == b3) by (bit_vector);
    assert(le_bytes(word_of(b0, b1, b2, b3)) =~= seq![b0, b1, b2, b3]);
}

/// The other direction: re-encoding a decoded stream of whole words gives the
/// byte stream back, so the two formats carry exactly the same information.
pub proof fn lemma_bytes_round_trip(bs: Seq<u8>)
    requires
        bs.len() % 4 == 0,
    ensures
        spec_encode(spec_decode(bs)) == bs,
    decreases bs.len(),
{
    let ws = spec_decode(bs);
    if bs.len() == 0 {
        assert(spec_encode(ws) =~= bs);
    } else {
        vstd::arithmetic::div_mod::lemma_fundamental_div_mod(bs.len() as int, 4);
        assert(bs.len() >= 4);
        let rest = bs.skip(4);
        assert(rest.len() % 4 == 0);
        lemma_bytes_round_trip(rest);
        assert(ws.skip(1) =~= spec_decode(rest));
        lemma_le_bytes_of_word(bs[0], bs[1], bs[2], bs[3]);
        assert(spec_encode(ws) == le_bytes(ws[0]) + spec_encode(ws.skip(1)));
        assert(spec_encode(ws) =~= bs);
    }
}

/// Serializes a weight vector: each word as 4 little-endian bytes, in order.
pub fn encode_weights(ws: &Vec<u32>) -> (r: Vec<u8>)
    ensures
        r@ == spec_encode(ws@),
        r@.len() == 4 * ws@.len(),
{
    proof {
        lemma_encode_len(ws@);
    }
    let mut out: Vec<u8> = Vec::new();
    let mut i: usize = 0;
    proof {
        assert(ws@.skip(0) =~= ws@);
        assert(Seq::<u8>::empty() + spec_encode(ws@) =~= spec_encode(ws@));
    }
    while i < ws.len()
        invariant
            i <= ws@.len(),
            out@ + spec_encode(ws@.skip(i as int)) == spec_encode(ws@),
            out@.len() == 4 * i,
        decreases ws@.len() - i,
    {
        let w = ws[i];
        proof {
            assert((w & 0xff) <= 0xff && ((w >> 8) & 0xff) <= 0xff && ((w >> 16) & 0xff) <= 0xff
                && ((w >> 24) & 0xff) <= 0xff) by (bit_vector);
        }
        out.push((w & 0xff) as u8);
        out.push(((w >> 8) & 0xff) as u8);
        out.push(((w >> 16) & 0xff) as u8);
        out.push(((w >> 24) & 0xff) as u8);
        proof {
            let rest = ws@.skip(i as int);
            assert(rest[0] == ws@[i as int]);
            assert(rest.skip(1) =~= ws@.skip(i + 1));
            lemma_encode_len(ws@.skip(i + 1));
        }
        i = i + 1;
    }
    proof {
        assert(ws@.skip(ws@.len() as int) =~= Seq::<u32>::empty());
    }
    out
}

/// Parses a saved byte stream back into the weight vector. A stream whose
/// length is not a whole number of 4-byte words is corrupt.
pub fn decode_weights(bs: &Vec<u8>) -> (r: Result<Vec<u32>, ClassifierError>)
    ensures
        bs@.len() % 4 == 0 ==> (r matches Ok(ws) && ws@ == spec_decode(bs@)),
        bs@.len() % 4 != 0 ==> r == Err::<Vec<u32>, ClassifierError>(ClassifierError::CorruptFile),
{
    if bs.len() % 4 != 0 {
        return Err(ClassifierError::CorruptFile);
    }
    let len = bs.len();
    let n = len / 4;
    proof {
        vstd::arithmetic::div_mod::lemma_fundamental_div_mod(len as int, 4);
        assert(4 * (n as int) == bs@.len());
    }
    let mut out: Vec<u32> = Vec::new();
    let mut i: usize = 0;
    let mut base: usize = 0;
    while i < n
        invariant
            i <= n,
            base == 4 * i,
            len == bs@.len(),
            4 * (n as int) == bs@.len(),
            out@.len() == i,
            forall|j: int|
                0 <= j < i ==> out@[j] == word_of(
                    bs@[4 * j],
                    bs@[4 * j + 1],
                    bs@[4 * j + 2],
                    bs@[4 * j + 3],
                ),
        decreases n - i,
    {
        let b0 = bs[base];
        let b1 = bs[base + 1];
        let b2 = bs[base + 2];
        let b3 = bs[base + 3];
        let w: u32 = (b0 as u32) | ((b1 as u32) << 8) | ((b2 as u32) << 16) | ((b3 as u32) << 24);
        out.push(w);
        i = i + 1;
        base = base + 4;
    }
    proof {
        assert(out@ =~= spec_decode(bs@));
    }
    Ok(out)
}

} // verus!
