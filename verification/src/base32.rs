//! Base32 codec (RFC 4648, upper-case alphabet, no padding).
//!
//! The shader composition system embeds a module path into mangled
//! identifiers as unpadded base32. Five input bytes become eight 5-bit
//! digits; a trailing block of 1 to 4 bytes becomes 2, 4, 5 or 7 digits
//! with the final digit zero-padded on the right.

use vstd::prelude::*;

verus! {

/// The alphabet character of one 5-bit digit: `A`..`Z` then `2`..`7`.
pub open spec fn b32_char(d: u8) -> u8 {
    if d < 26 {
        (65 + d) as u8
    } else {
        (50 + (d - 26)) as u8
    }
}

/// The 5-bit digit of one alphabet character, when it is one.
pub open spec fn b32_val(c: u8) -> Option<u8> {
    if 65 <= c <= 90 {
        Some((c - 65) as u8)
    } else if 50 <= c <= 55 {
        Some((c - 50 + 26) as u8)
    } else {
        None
    }
}

/// The alphabet maps digits to characters injectively, avoiding the
/// underscore and every byte outside `A`..`Z`, `2`..`7`.
pub proof fn lemma_b32_char_props(d: u8)
    requires
        d < 32,
    ensures
        b32_val(b32_char(d)) == Some(d),
        (65 <= b32_char(d) <= 90) || (50 <= b32_char(d) <= 55),
{
}

/// The eight digits of one full 5-byte block.
pub open spec fn enc_block(b0: u8, b1: u8, b2: u8, b3: u8, b4: u8) -> Seq<u8> {
    seq![
        (b0 >> 3) as u8,
        (((b0 & 7) << 2) | (b1 >> 6)) as u8,
        ((b1 >> 1) & 31) as u8,
        (((b1 & 1) << 4) | (b2 >> 4)) as u8,
        (((b2 & 15) << 1) | (b3 >> 7)) as u8,
        ((b3 >> 2) & 31) as u8,
        (((b3 & 3) << 3) | (b4 >> 5)) as u8,
        (b4 & 31) as u8,
    ]
}

/// The five bytes denoted by one full 8-digit block.
pub open spec fn dec_block(
    d0: u8,
    d1: u8,
    d2: u8,
    d3: u8,
    d4: u8,
    d5: u8,
    d6: u8,
    d7: u8,
) -> Seq<u8> {
    seq![
        ((d0 << 3) | (d1 >> 2)) as u8,
        (((d1 & 3) << 6) | (d2 << 1) | (d3 >> 4)) as u8,
        (((d3 & 15) << 4) | (d4 >> 1)) as u8,
        (((d4 & 1) << 7) | (d5 << 2) | (d6 >> 3)) as u8,
        (((d6 & 7) << 5) | d7) as u8,
    ]
}

/// The digits of a trailing block of 1 to 4 bytes.
pub open spec fn enc_tail(s: Seq<u8>) -> Seq<u8> {
    if s.len() == 1 {
        seq![(s[0] >> 3) as u8, ((s[0] & 7) << 2) as u8]
    } else if s.len() == 2 {
        seq![
            (s[0] >> 3) as u8,
            (((s[0] & 7) << 2) | (s[1] >> 6)) as u8,
            ((s[1] >> 1) & 31) as u8,
            ((s[1] & 1) << 4) as u8,
        ]
    } else if s.len() == 3 {
        seq![
            (s[0] >> 3) as u8,
            (((s[0] & 7) << 2) | (s[1] >> 6)) as u8,
            ((s[1] >> 1) & 31) as u8,
            (((s[1] & 1) << 4) | (s[2] >> 4)) as u8,
            ((s[2] & 15) << 1) as u8,
        ]
    } else {
        seq![
            (s[0] >> 3) as u8,
            (((s[0] & 7) << 2) | (s[1] >> 6)) as u8,
            ((s[1] >> 1) & 31) as u8,
            (((s[1] & 1) << 4) | (s[2] >> 4)) as u8,
            (((s[2] & 15) << 1) | (s[3] >> 7)) as u8,
            ((s[3] >> 2) & 31) as u8,
            ((s[3] & 3) << 3) as u8,
        ]
    }
}

/// The bytes denoted by a trailing block of 2, 4, 5 or 7 digits.
pub open spec fn dec_tail(d: Seq<u8>) -> Seq<u8> {
    if d.len() == 2 {
        seq![((d[0] << 3) | (d[1] >> 2)) as u8]
    } else if d.len() == 4 {
        seq![
            ((d[0] << 3) | (d[1] >> 2)) as u8,
            (((d[1] & 3) << 6) | (d[2] << 1) | (d[3] >> 4)) as u8,
        ]
    } else if d.len() == 5 {
        seq![
            ((d[0] << 3) | (d[1] >> 2)) as u8,
            (((d[1] & 3) << 6) | (d[2] << 1) | (d[3] >> 4)) as u8,
            (((d[3] & 15) << 4) | (d[4] >> 1)) as u8,
        ]
    } else {
        seq![
            ((d[0] << 3) | (d[1] >> 2)) as u8,
            (((d[1] & 3) << 6) | (d[2] << 1) | (d[3] >> 4)) as u8,
            (((d[3] & 15) << 4) | (d[4] >> 1)) as u8,
            (((d[4] & 1) << 7) | (d[5] << 2) | (d[6] >> 3)) as u8,
        ]
    }
}

/// The 5-bit digits encoding a byte sequence.
pub open spec fn b32_encode(s: Seq<u8>) -> Seq<u8>
    decreases s.len(),
{
    if s.len() == 0 {
        Seq::empty()
    } else if s.len() >= 5 {
        enc_block(s[0], s[1], s[2], s[3], s[4]) + b32_encode(s.skip(5))
    } else {
        enc_tail(s)
    }
}

/// The alphabet characters of a digit sequence.
pub open spec fn b32_chars(d: Seq<u8>) -> Seq<u8> {
    Seq::new(d.len(), |i: int| b32_char(d[i]))
}

/// Whether every character of the sequence is in the base32 alphabet.
pub open spec fn b32_all_valid(cs: Seq<u8>) -> bool {
    forall|i: int| 0 <= i < cs.len() ==> #[trigger] b32_val(cs[i]) is Some
}

/// The digits of a character sequence, when all characters are in the
/// alphabet.
pub open spec fn b32_vals(cs: Seq<u8>) -> Seq<u8> {
    Seq::new(cs.len(), |i: int| b32_val(cs[i])->0)
}

/// The bytes denoted by a digit sequence, when its length is one the
/// unpadded encoding can produce.
pub open spec fn b32_decode(d: Seq<u8>) -> Option<Seq<u8>>
    decreases d.len(),
{
    if d.len() == 0 {
        Some(Seq::empty())
    } else if d.len() >= 8 {
        match b32_decode(d.skip(8)) {
            Some(rest) => Some(
                dec_block(d[0], d[1], d[2], d[3], d[4], d[5], d[6], d[7]) + rest,
            ),
            None => None,
        }
    } else if d.len() == 2 || d.len() == 4 || d.len() == 5 || d.len() == 7 {
        Some(dec_tail(d))
    } else {
        None
    }
}

/// The bytes denoted by an alphabet character sequence, when valid.
pub open spec fn b32_parse(cs: Seq<u8>) -> Option<Seq<u8>> {
    if b32_all_valid(cs) {
        b32_decode(b32_vals(cs))
    } else {
        None
    }
}

proof fn lemma_block_roundtrip(b0: u8, b1: u8, b2: u8, b3: u8, b4: u8)
    ensures
        dec_block(
            (b0 >> 3) as u8,
            (((b0 & 7) << 2) | (b1 >> 6)) as u8,
            ((b1 >> 1) & 31) as u8,
            (((b1 & 1) << 4) | (b2 >> 4)) as u8,
            (((b2 & 15) << 1) | (b3 >> 7)) as u8,
            ((b3 >> 2) & 31) as u8,
            (((b3 & 3) << 3) | (b4 >> 5)) as u8,
            (b4 & 31) as u8,
        ) =~= seq![b0, b1, b2, b3, b4],
{
    let d0 = (b0 >> 3) as u8;
    let d1 = (((b0 & 7) << 2) | (b1 >> 6)) as u8;
    let d2 = ((b1 >> 1) & 31) as u8;
    let d3 = (((b1 & 1) << 4) | (b2 >> 4)) as u8;
    let d4 = (((b2 & 15) << 1) | (b3 >> 7)) as u8;
    let d5 = ((b3 >> 2) & 31) as u8;
    let d6 = (((b3 & 3) << 3) | (b4 >> 5)) as u8;
    let d7 = (b4 & 31) as u8;
    assert(((d0 << 3) | (d1 >> 2)) == b0 && (((d1 & 3) << 6) | (d2 << 1) | (d3 >> 4)) == b1 && (((
    d3 & 15) << 4) | (d4 >> 1)) == b2 && (((d4 & 1) << 7) | (d5 << 2) | (d6 >> 3)) == b3 && (((d6
        & 7) << 5) | d7) == b4) by (bit_vector)
        requires
            d0 == (b0 >> 3) as u8 && d1 == (((b0 & 7) << 2) | (b1 >> 6)) as u8 && d2 == ((b1 >> 1)
                & 31) as u8 && d3 == (((b1 & 1) << 4) | (b2 >> 4)) as u8 && d4 == (((b2 & 15) << 1)
                | (b3 >> 7)) as u8 && d5 == ((b3 >> 2) & 31) as u8 && d6 == (((b3 & 3) << 3) | (b4
                >> 5)) as u8 && d7 == (b4 & 31) as u8,
    ;
}

proof fn lemma_tail_roundtrip(s: Seq<u8>)
    requires
        1 <= s.len() <= 4,
    ensures
        dec_tail(enc_tail(s)) =~= s,
{
    if s.len() == 1 {
        let b0 = s[0];
        assert((((b0 >> 3) << 3) | (((b0 & 7) << 2) >> 2)) == b0) by (bit_vector);
    } else if s.len() == 2 {
        let b0 = s[0];
        let b1 = s[1];
        let d1 = (((b0 & 7) << 2) | (b1 >> 6)) as u8;
        let d2 = ((b1 >> 1) & 31) as u8;
        let d3 = ((b1 & 1) << 4) as u8;
        assert((((b0 >> 3) << 3) | (d1 >> 2)) == b0 && (((d1 & 3) << 6) | (d2 << 1) | (d3 >> 4))
            == b1) by (bit_vector)
            requires
                d1 == (((b0 & 7) << 2) | (b1 >> 6)) as u8 && d2 == ((b1 >> 1) & 31) as u8 && d3 == (
                (b1 & 1) << 4) as u8,
        ;
    } else if s.len() == 3 {
        let b0 = s[0];
        let b1 = s[1];
        let b2 = s[2];
        let d1 = (((b0 & 7) << 2) | (b1 >> 6)) as u8;
        let d2 = ((b1 >> 1) & 31) as u8;
        let d3 = (((b1 & 1) << 4) | (b2 >> 4)) as u8;
        let d4 = ((b2 & 15) << 1) as u8;
        assert((((b0 >> 3) << 3) | (d1 >> 2)) == b0 && (((d1 & 3) << 6) | (d2 << 1) | (d3 >> 4))
            == b1 && (((d3 & 15) << 4) | (d4 >> 1)) == b2) by (bit_vector)
            requires
                d1 == (((b0 & 7) << 2) | (b1 >> 6)) as u8 && d2 == ((b1 >> 1) & 31) as u8 && d3 == (
                ((b1 & 1) << 4) | (b2 >> 4)) as u8 && d4 == ((b2 & 15) << 1) as u8,
        ;
    } else {
        let b0 = s[0];
        let b1 = s[1];
        let b2 = s[2];
        let b3 = s[3];
        let d1 = (((b0 & 7) << 2) | (b1 >> 6)) as u8;
        let d2 = ((b1 >> 1) & 31) as u8;
        let d3 = (((b1 & 1) << 4) | (b2 >> 4)) as u8;
        let d4 = (((b2 & 15) << 1) | (b3 >> 7)) as u8;
        let d5 = ((b3 >> 2) & 31) as u8;
        let d6 = ((b3 & 3) << 3) as u8;
        assert((((b0 >> 3) << 3) | (d1 >> 2)) == b0 && (((d1 & 3) << 6) | (d2 << 1) | (d3 >> 4))
            == b1 && (((d3 & 15) << 4) | (d4 >> 1)) == b2 && (((d4 & 1) << 7) | (d5 << 2) | (d6
            >> 3)) == b3) by (bit_vector)
            requires
                d1 == (((b0 & 7) << 2) | (b1 >> 6)) as u8 && d2 == ((b1 >> 1) & 31) as u8 && d3 == (
                ((b1 & 1) << 4) | (b2 >> 4)) as u8 && d4 == (((b2 & 15) << 1) | (b3 >> 7)) as u8
                    && d5 == ((b3 >> 2) & 31) as u8 && d6 == ((b3 & 3) << 3) as u8,
        ;
    }
}

/// Every digit the encoder produces is below 32.
pub proof fn lemma_encode_digits_small(s: Seq<u8>)
    ensures
        forall|i: int| 0 <= i < b32_encode(s).len() ==> #[trigger] b32_encode(s)[i] < 32,
        s.len() > 0 ==> b32_encode(s).len() > 0,
        b32_encode(s).len() != 1 && b32_encode(s).len() != 3 && b32_encode(s).len() != 6,
        b32_encode(s).len() >= 8 <==> s.len() >= 5,
        b32_encode(s).len() == 2 <==> s.len() == 1,
        b32_encode(s).len() == 4 <==> s.len() == 2,
        b32_encode(s).len() == 5 <==> s.len() == 3,
        b32_encode(s).len() == 7 <==> s.len() == 4,
    decreases s.len(),
{
    if s.len() == 0 {
    } else if s.len() >= 5 {
        lemma_encode_digits_small(s.skip(5));
        let blk = enc_block(s[0], s[1], s[2], s[3], s[4]);
        let b0 = s[0];
        let b1 = s[1];
        let b2 = s[2];
        let b3 = s[3];
        let b4 = s[4];
        assert((b0 >> 3) < 32 && (((b0 & 7) << 2) | (b1 >> 6)) < 32 && ((b1 >> 1) & 31) < 32 && (((
        b1 & 1) << 4) | (b2 >> 4)) < 32 && (((b2 & 15) << 1) | (b3 >> 7)) < 32 && ((b3 >> 2) & 31)
            < 32 && (((b3 & 3) << 3) | (b4 >> 5)) < 32 && (b4 & 31) < 32) by (bit_vector);
        assert(forall|i: int|
            0 <= i < b32_encode(s).len() ==> #[trigger] b32_encode(s)[i] == if i < 8 {
                blk[i]
            } else {
                b32_encode(s.skip(5))[i - 8]
            });
    } else {
        let b0 = s[0];
        assert((b0 >> 3) < 32 && ((b0 & 7) << 2) < 32) by (bit_vector);
        if s.len() >= 2 {
            let b1 = s[1];
            assert((((b0 & 7) << 2) | (b1 >> 6)) < 32 && ((b1 >> 1) & 31) < 32 && ((b1 & 1) << 4)
                < 32) by (bit_vector);
            if s.len() >= 3 {
                let b2 = s[2];
                assert((((b1 & 1) << 4) | (b2 >> 4)) < 32 && ((b2 & 15) << 1) < 32)
                    by (bit_vector);
                if s.len() >= 4 {
                    let b3 = s[3];
                    assert((((b2 & 15) << 1) | (b3 >> 7)) < 32 && ((b3 >> 2) & 31) < 32 && ((b3
                        & 3) << 3) < 32) by (bit_vector);
                }
            }
        }
    }
}

/// Decoding the digits the encoder produced recovers the input bytes.
pub proof fn lemma_decode_encode(s: Seq<u8>)
    ensures
        b32_decode(b32_encode(s)) == Some(s),
    decreases s.len(),
{
    let d = b32_encode(s);
    lemma_encode_digits_small(s);
    if s.len() == 0 {
        assert(s =~= Seq::<u8>::empty());
    } else if s.len() >= 5 {
        lemma_decode_encode(s.skip(5));
        let blk = enc_block(s[0], s[1], s[2], s[3], s[4]);
        assert(d.skip(8) =~= b32_encode(s.skip(5)));
        lemma_block_roundtrip(s[0], s[1], s[2], s[3], s[4]);
        assert(dec_block(d[0], d[1], d[2], d[3], d[4], d[5], d[6], d[7]) =~= seq![
            s[0],
            s[1],
            s[2],
            s[3],
            s[4],
        ]);
        assert(dec_block(d[0], d[1], d[2], d[3], d[4], d[5], d[6], d[7]) + s.skip(5) =~= s);
    } else {
        lemma_tail_roundtrip(s);
        assert(d =~= enc_tail(s));
    }
}

/// Parsing the characters the encoder produced recovers the input bytes.
pub proof fn lemma_parse_encoded(s: Seq<u8>)
    ensures
        b32_parse(b32_chars(b32_encode(s))) == Some(s),
{
    let d = b32_encode(s);
    let cs = b32_chars(d);
    lemma_encode_digits_small(s);
    assert forall|i: int| 0 <= i < cs.len() implies #[trigger] b32_val(cs[i]) is Some by {
        lemma_b32_char_props(d[i]);
    }
    assert forall|i: int| 0 <= i < cs.len() implies #[trigger] b32_vals(cs)[i] == d[i] by {
        lemma_b32_char_props(d[i]);
    }
    assert(b32_vals(cs) =~= d);
    lemma_decode_encode(s);
}

/// Appends the base32 characters encoding `v` to `out`.
#[verifier::loop_isolation(false)]
pub fn push_b32(out: &mut Vec<u8>, v: &Vec<u8>)
    ensures
        final(out)@ == old(out)@ + b32_chars(b32_encode(v@)),
{
    let ghost orig = out@;
    proof {
        assert(v@.skip(0) =~= v@);
    }
    let mut i: usize = 0;
    while v.len() - i >= 5
        invariant
            i <= v@.len(),
            i % 5 == 0,
            b32_chars(b32_encode(v@)) =~= out@.skip(orig.len() as int) + b32_chars(
                b32_encode(v@.skip(i as int)),
            ),
            out@.len() >= orig.len(),
            out@.take(orig.len() as int) == orig,
        decreases v@.len() - i,
    {
        let b0 = v[i];
        let b1 = v[i + 1];
        let b2 = v[i + 2];
        let b3 = v[i + 3];
        let b4 = v[i + 4];
        let ghost pre = out@;
        let ghost rem = v@.skip(i as int);
        proof {
            assert((b0 >> 3) < 32 && (((b0 & 7) << 2) | (b1 >> 6)) < 32 && ((b1 >> 1) & 31) < 32
                && (((b1 & 1) << 4) | (b2 >> 4)) < 32 && (((b2 & 15) << 1) | (b3 >> 7)) < 32 && ((
            b3 >> 2) & 31) < 32 && (((b3 & 3) << 3) | (b4 >> 5)) < 32 && (b4 & 31) < 32)
                by (bit_vector);
        }
        push_digit(out, b0 >> 3);
        push_digit(out, ((b0 & 7) << 2) | (b1 >> 6));
        push_digit(out, (b1 >> 1) & 31);
        push_digit(out, ((b1 & 1) << 4) | (b2 >> 4));
        push_digit(out, ((b2 & 15) << 1) | (b3 >> 7));
        push_digit(out, (b3 >> 2) & 31);
        push_digit(out, ((b3 & 3) << 3) | (b4 >> 5));
        push_digit(out, b4 & 31);
        i = i + 5;
        proof {
            assert(rem.len() >= 5);
            assert(rem[0] == b0 && rem[1] == b1 && rem[2] == b2 && rem[3] == b3 && rem[4] == b4);
            assert(b32_encode(rem) == enc_block(b0, b1, b2, b3, b4) + b32_encode(rem.skip(5)));
            assert(rem.skip(5) =~= v@.skip(i as int));
            assert(out@ =~= pre + b32_chars(enc_block(b0, b1, b2, b3, b4)));
            assert(out@.skip(orig.len() as int) + b32_chars(b32_encode(v@.skip(i as int))) =~= pre.skip(
                orig.len() as int,
            ) + b32_chars(b32_encode(rem)));
            assert(out@.take(orig.len() as int) =~= orig);
        }
    }
    let ghost rem = v@.skip(i as int);
    let ghost pre = out@;
    let k = v.len() - i;
    if k >= 1 {
        let b0 = v[i];
        proof {
            assert((b0 >> 3) < 32 && ((b0 & 7) << 2) < 32) by (bit_vector);
        }
        if k == 1 {
            push_digit(out, b0 >> 3);
            push_digit(out, (b0 & 7) << 2);
        } else {
            let b1 = v[i + 1];
            proof {
                assert((((b0 & 7) << 2) | (b1 >> 6)) < 32 && ((b1 >> 1) & 31) < 32 && ((b1 & 1)
                    << 4) < 32) by (bit_vector);
            }
            push_digit(out, b0 >> 3);
            push_digit(out, ((b0 & 7) << 2) | (b1 >> 6));
            push_digit(out, (b1 >> 1) & 31);
            if k == 2 {
                push_digit(out, (b1 & 1) << 4);
            } else {
                let b2 = v[i + 2];
                proof {
                    assert((((b1 & 1) << 4) | (b2 >> 4)) < 32 && ((b2 & 15) << 1) < 32)
                        by (bit_vector);
                }
                push_digit(out, ((b1 & 1) << 4) | (b2 >> 4));
                if k == 3 {
                    push_digit(out, (b2 & 15) << 1);
                } else {
                    let b3 = v[i + 3];
                    proof {
                        assert((((b2 & 15) << 1) | (b3 >> 7)) < 32 && ((b3 >> 2) & 31) < 32 && ((
                        b3 & 3) << 3) < 32) by (bit_vector);
                    }
                    push_digit(out, ((b2 & 15) << 1) | (b3 >> 7));
                    push_digit(out, (b3 >> 2) & 31);
                    push_digit(out, (b3 & 3) << 3);
                }
            }
        }
        proof {
            assert(rem.len() == k);
            assert(rem[0] == v@[i as int]);
            if k >= 2 {
                assert(rem[1] == v@[i + 1]);
            }
            if k >= 3 {
                assert(rem[2] == v@[i + 2]);
            }
            if k >= 4 {
                assert(rem[3] == v@[i + 3]);
            }
            assert(b32_encode(rem) == enc_tail(rem));
            assert(out@ =~= pre + b32_chars(enc_tail(rem)));
        }
    } else {
        proof {
            assert(rem.len() == 0);
            assert(b32_chars(b32_encode(rem)) =~= Seq::<u8>::empty());
        }
    }
    proof {
        assert(out@ =~= orig + b32_chars(b32_encode(v@)));
    }
}

/// Appends the alphabet character of one digit to `out`.
fn push_digit(out: &mut Vec<u8>, d: u8)
    requires
        d < 32,
    ensures
        final(out)@ == old(out)@ + seq![b32_char(d)],
{
    if d < 26 {
        out.push(65 + d);
    } else {
        out.push(50 + (d - 26));
    }
}

/// Decodes a base32 character sequence, returning `None` when a
/// character is outside the alphabet or the length is impossible for
/// the unpadded encoding.
#[verifier::loop_isolation(false)]
#[verifier::rlimit(60)]
pub fn b32_decode_chars(cs: &Vec<u8>) -> (r: Option<Vec<u8>>)
    ensures
        match r {
            Some(v) => b32_parse(cs@) == Some(v@),
            None => b32_parse(cs@) is None,
        },
{
    proof {
        assert(cs@.skip(0) =~= cs@);
    }
    let mut out: Vec<u8> = Vec::new();
    let mut i: usize = 0;
    let n = cs.len();
    while n - i >= 8
        invariant
            i <= cs@.len(),
            i % 8 == 0,
            b32_all_valid(cs@.take(i as int)),
            match b32_parse(cs@) {
                Some(w) => b32_parse(cs@.skip(i as int)) is Some && w =~= out@ + b32_parse(
                    cs@.skip(i as int),
                )->0,
                None => b32_parse(cs@.skip(i as int)) is None,
            },
        decreases cs@.len() - i,
    {
        let mut ds: Vec<u8> = Vec::new();
        let mut t: usize = 0;
        while t < 8
            invariant
                t <= 8,
                i + 8 <= cs@.len(),
                ds@.len() == t,
                forall|u: int|
                    0 <= u < t ==> #[trigger] b32_val(cs@[i + u]) is Some && ds@[u] == b32_val(
                        cs@[i + u],
                    )->0,
            decreases 8 - t,
        {
            let c = cs[i + t];
            if 65 <= c && c <= 90 {
                ds.push(c - 65);
            } else if 50 <= c && c <= 55 {
                ds.push(c - 50 + 26);
            } else {
                proof {
                    assert(b32_val(cs@[i + t]) is None);
                    assert(!b32_all_valid(cs@));
                    if b32_parse(cs@.skip(i as int)) is Some {
                        assert(b32_val(cs@.skip(i as int)[t as int]) is None);
                        assert(false);
                    }
                }
                return None;
            }
            t = t + 1;
        }
        let ghost rem = cs@.skip(i as int);
        let d0 = ds[0];
        let d1 = ds[1];
        let d2 = ds[2];
        let d3 = ds[3];
        let d4 = ds[4];
        let d5 = ds[5];
        let d6 = ds[6];
        let d7 = ds[7];
        let ghost pre = out@;
        out.push((d0 << 3) | (d1 >> 2));
        out.push(((d1 & 3) << 6) | (d2 << 1) | (d3 >> 4));
        out.push(((d3 & 15) << 4) | (d4 >> 1));
        out.push(((d4 & 1) << 7) | (d5 << 2) | (d6 >> 3));
        out.push(((d6 & 7) << 5) | d7);
        i = i + 8;
        proof {
            assert forall|u: int| 0 <= u < 8 implies b32_val(rem[u]) is Some && seq![
                d0,
                d1,
                d2,
                d3,
                d4,
                d5,
                d6,
                d7,
            ][u] == b32_val(rem[u])->0 by {
                assert(rem[u] == cs@[(i - 8) + u]);
                assert(b32_val(cs@[(i - 8) + u]) is Some);
            }
            lemma_decode_chars_step(cs@, rem, i - 8, seq![d0, d1, d2, d3, d4, d5, d6, d7]);
            assert(out@ =~= pre + dec_block(d0, d1, d2, d3, d4, d5, d6, d7));
            assert forall|u: int| 0 <= u < i as int implies #[trigger] b32_val(
                cs@.take(i as int)[u],
            ) is Some by {
                assert(cs@.take(i as int)[u] == cs@[u]);
                if u < i - 8 {
                    assert(b32_val(cs@.take(i - 8)[u]) is Some);
                    assert(cs@.take(i - 8)[u] == cs@[u]);
                } else {
                    assert(b32_val(cs@[(i - 8) + (u - (i - 8))]) is Some);
                }
            }
            if b32_parse(cs@) is Some {
                assert(b32_parse(cs@)->0 =~= out@ + b32_parse(cs@.skip(i as int))->0);
            }
        }
    }
    let k = n - i;
    if k == 0 {
        proof {
            assert(b32_parse(cs@.skip(i as int)) == Some(Seq::<u8>::empty()));
            if b32_parse(cs@) is Some {
                assert(out@ =~= b32_parse(cs@)->0);
            } else {
                assert(b32_all_valid(cs@)) by {
                    assert(cs@.take(i as int) =~= cs@);
                }
                assert(false);
            }
        }
        return Some(out);
    }
    if k != 2 && k != 4 && k != 5 && k != 7 {
        proof {
            lemma_tail_parse_none(cs@.skip(i as int));
        }
        return None;
    }
    let mut ds: Vec<u8> = Vec::new();
    let mut t: usize = 0;
    while t < k
        invariant
            t <= k,
            k == cs@.len() - i,
            i + k <= cs@.len(),
            ds@.len() == t,
            forall|u: int|
                0 <= u < t ==> #[trigger] b32_val(cs@[i + u]) is Some && ds@[u] == b32_val(
                    cs@[i + u],
                )->0,
        decreases k - t,
    {
        let c = cs[i + t];
        if 65 <= c && c <= 90 {
            ds.push(c - 65);
        } else if 50 <= c && c <= 55 {
            ds.push(c - 50 + 26);
        } else {
            proof {
                assert(b32_val(cs@[i + t]) is None);
                assert(!b32_all_valid(cs@));
            }
            return None;
        }
        t = t + 1;
    }
    let ghost rem = cs@.skip(i as int);
    proof {
        assert(b32_all_valid(cs@)) by {
            assert forall|u: int| 0 <= u < cs@.len() implies #[trigger] b32_val(cs@[u]) is Some by {
                if u < i {
                    assert(b32_val(cs@.take(i as int)[u]) is Some);
                } else {
                    assert(b32_val(cs@[i + (u - i)]) is Some);
                }
            }
        }
        assert forall|u: int| 0 <= u < k as int implies b32_vals(rem)[u] == ds@[u] by {
            assert(rem[u] == cs@[i + u]);
            assert(b32_val(cs@[i + u]) is Some && ds@[u] == b32_val(cs@[i + u])->0);
        }
        assert(b32_vals(rem) =~= ds@);
        assert(b32_all_valid(rem)) by {
            assert forall|u: int| 0 <= u < rem.len() implies #[trigger] b32_val(rem[u]) is Some by {
                assert(rem[u] == cs@[i + u]);
            }
        }
        assert(b32_parse(rem) == Some(dec_tail(ds@)));
    }
    let ghost pre = out@;
    let d0 = ds[0];
    let d1 = ds[1];
    if k == 2 {
        out.push((d0 << 3) | (d1 >> 2));
    } else {
        let d2 = ds[2];
        let d3 = ds[3];
        out.push((d0 << 3) | (d1 >> 2));
        out.push(((d1 & 3) << 6) | (d2 << 1) | (d3 >> 4));
        if k == 4 {
        } else {
            let d4 = ds[4];
            out.push(((d3 & 15) << 4) | (d4 >> 1));
            if k == 5 {
            } else {
                let d5 = ds[5];
                let d6 = ds[6];
                out.push(((d4 & 1) << 7) | (d5 << 2) | (d6 >> 3));
            }
        }
    }
    proof {
        assert(out@ =~= pre + dec_tail(ds@));
        assert(b32_parse(cs@) is Some);
        assert(out@ =~= b32_parse(cs@)->0);
    }
    Some(out)
}

/// One full block of valid characters extends a successful parse by one
/// decoded block.
proof fn lemma_decode_chars_step(cs: Seq<u8>, rem: Seq<u8>, i: int, ds: Seq<u8>)
    requires
        0 <= i,
        i + 8 <= cs.len(),
        rem == cs.skip(i),
        ds.len() == 8,
        forall|u: int| 0 <= u < 8 ==> #[trigger] b32_val(rem[u]) is Some && ds[u] == b32_val(
            rem[u],
        )->0,
    ensures
        b32_parse(rem) == match b32_parse(cs.skip(i + 8)) {
            Some(t) => Some(dec_block(ds[0], ds[1], ds[2], ds[3], ds[4], ds[5], ds[6], ds[7]) + t),
            None => None::<Seq<u8>>,
        },
{
    let rest = cs.skip(i + 8);
    assert(rem.skip(8) =~= rest);
    if b32_all_valid(rem) {
        assert(b32_all_valid(rest)) by {
            assert forall|u: int| 0 <= u < rest.len() implies #[trigger] b32_val(rest[u])
                is Some by {
                assert(rest[u] == rem[u + 8]);
            }
        }
        assert(b32_vals(rem).skip(8) =~= b32_vals(rest));
        assert(b32_vals(rem).len() >= 8);
        assert forall|u: int| 0 <= u < 8 implies b32_vals(rem)[u] == ds[u] by {}
    } else {
        if b32_all_valid(rest) {
            assert forall|u: int| 0 <= u < rem.len() implies #[trigger] b32_val(rem[u])
                is Some by {
                if u >= 8 {
                    assert(b32_val(rest[u - 8]) is Some);
                    assert(rest[u - 8] == rem[u]);
                } else {
                    assert(b32_val(rem[u]) is Some && ds[u] == b32_val(rem[u])->0);
                }
            }
            assert(false);
        }
    }
}

/// A trailing block whose length the unpadded encoding cannot produce
/// fails to parse.
proof fn lemma_tail_parse_none(d: Seq<u8>)
    requires
        d.len() < 8,
        d.len() != 0 && d.len() != 2 && d.len() != 4 && d.len() != 5 && d.len() != 7,
    ensures
        b32_parse(d) is None,
{
    if b32_all_valid(d) {
        assert(b32_vals(d).len() == d.len());
    }
}

} // verus!
