//! Lossy UTF-8 decoding: the body preview is produced by decoding a byte
//! prefix as UTF-8 where every maximal subpart of a valid scalar encoding
//! that cannot be completed is replaced by a single replacement character,
//! so decoding never fails on any input.
//!
//! The specification is built on `vstd::utf8`'s model of UTF-8: a decoding
//! step either consumes one complete valid scalar encoding
//! (`valid_first_scalar`) or consumes the maximal prefix of a valid encoding
//! (`replacement_len`) and yields the replacement character.

use vstd::prelude::*;
use vstd::utf8::*;

verus! {

/// The Unicode replacement character, substituted for each maximal invalid
/// subpart of the input.
pub const REPLACEMENT: char = '\u{fffd}';

/// True when `b1` may follow the leading byte `b0` of a three-byte encoding
/// in a valid UTF-8 scalar encoding. The narrowed ranges for `0xe0` and
/// `0xed` exclude overlong encodings and surrogates respectively.
pub open spec fn valid_second_byte_width_3(b0: u8, b1: u8) -> bool {
    if b0 == 0xe0 {
        0xa0 <= b1 <= 0xbf
    } else if b0 == 0xed {
        0x80 <= b1 <= 0x9f
    } else {
        is_continuation_byte(b1)
    }
}

/// True when `b1` may follow the leading byte `b0` of a four-byte encoding
/// in a valid UTF-8 scalar encoding. The narrowed ranges for `0xf0` and
/// `0xf4` exclude overlong encodings and codepoints beyond the last scalar.
pub open spec fn valid_second_byte_width_4(b0: u8, b1: u8) -> bool {
    if b0 == 0xf0 {
        0x90 <= b1 <= 0xbf
    } else if b0 == 0xf4 {
        0x80 <= b1 <= 0x8f
    } else {
        is_continuation_byte(b1)
    }
}

/// For input that does not begin with a complete valid scalar encoding: the
/// length of the maximal prefix that could still be extended to a valid
/// encoding (at least the first byte). These are exactly the bytes replaced
/// by one replacement character.
pub open spec fn replacement_len(s: Seq<u8>) -> int
    recommends
        s.len() > 0,
        !valid_first_scalar(s),
{
    let b0 = s[0];
    if 0xe0 <= b0 <= 0xef {
        if s.len() >= 2 && valid_second_byte_width_3(b0, s[1]) {
            2
        } else {
            1
        }
    } else if 0xf0 <= b0 <= 0xf4 {
        if s.len() >= 2 && valid_second_byte_width_4(b0, s[1]) {
            if s.len() >= 3 && is_continuation_byte(s[2]) {
                3
            } else {
                2
            }
        } else {
            1
        }
    } else {
        1
    }
}

/// Number of bytes consumed by the first lossy decoding step.
pub open spec fn lossy_step_len(s: Seq<u8>) -> int
    recommends
        s.len() > 0,
{
    if valid_first_scalar(s) {
        length_of_first_scalar(s)
    } else {
        replacement_len(s)
    }
}

/// Character produced by the first lossy decoding step.
pub open spec fn lossy_step_char(s: Seq<u8>) -> char
    recommends
        s.len() > 0,
{
    if valid_first_scalar(s) {
        decode_first_scalar(s) as char
    } else {
        REPLACEMENT
    }
}

/// Lossy UTF-8 decoding of a whole byte sequence: valid scalar encodings
/// decode to their characters, and every maximal subpart of a valid encoding
/// that cannot be completed becomes one replacement character. Total on all
/// inputs.
pub open spec fn lossy_decode(s: Seq<u8>) -> Seq<char>
    decreases s.len(),
    via lossy_decode_decreases
{
    if s.len() == 0 {
        Seq::empty()
    } else {
        seq![lossy_step_char(s)] + lossy_decode(s.skip(lossy_step_len(s)))
    }
}

#[via_fn]
proof fn lossy_decode_decreases(s: Seq<u8>) {
    if s.len() > 0 {
        lemma_lossy_step_len_bounds(s);
    }
}

/// Every decoding step consumes at least one byte and never reads past the
/// end of the input.
pub proof fn lemma_lossy_step_len_bounds(s: Seq<u8>)
    requires
        s.len() > 0,
    ensures
        1 <= lossy_step_len(s) <= s.len(),
{
}

/// Law: an input that does not begin with a valid scalar encoding loses
/// exactly its maximal invalid subpart to a single replacement character,
/// and decoding continues right after those bytes.
pub proof fn lemma_invalid_prefix_single_replacement(s: Seq<u8>)
    requires
        s.len() > 0,
        !valid_first_scalar(s),
    ensures
        lossy_decode(s) == seq![REPLACEMENT] + lossy_decode(s.skip(replacement_len(s))),
        lossy_decode(s)[0] == REPLACEMENT,
{
}

/// An input that begins with a valid scalar encoding decodes its first
/// scalar exactly, and decoding continues after that encoding.
pub proof fn lemma_valid_prefix_decodes_scalar(s: Seq<u8>)
    requires
        s.len() > 0,
        valid_first_scalar(s),
    ensures
        lossy_decode(s) == seq![decode_first_scalar(s) as char] + lossy_decode(
            pop_first_scalar(s),
        ),
        lossy_decode(s)[0] == decode_first_scalar(s) as char,
{
    assert(pop_first_scalar(s) =~= s.skip(length_of_first_scalar(s)));
}

/// Relies on `String::push`: appends the given character to the end of the
/// string.
#[verifier::external_body]
fn push_char(s: &mut String, c: char)
    ensures
        final(s)@ == old(s)@ + seq![c],
{
    s.push(c);
}

/// Relies on `char::from_u32`: for every Unicode scalar value it returns
/// `Some` of the character with that value.
#[verifier::external_body]
fn char_of_scalar(v: u32) -> (c: char)
    requires
        is_scalar(v),
    ensures
        c == v as char,
{
    char::from_u32(v).unwrap()
}

/// True when `b` is a UTF-8 continuation byte.
fn is_cont_byte(b: u8) -> (r: bool)
    ensures
        r == is_continuation_byte(b),
{
    0x80 <= b && b <= 0xbf
}

/// Executable check of [`valid_second_byte_width_3`].
fn second_byte_ok_width_3(b0: u8, b1: u8) -> (r: bool)
    ensures
        r == valid_second_byte_width_3(b0, b1),
{
    if b0 == 0xe0 {
        0xa0 <= b1 && b1 <= 0xbf
    } else if b0 == 0xed {
        0x80 <= b1 && b1 <= 0x9f
    } else {
        0x80 <= b1 && b1 <= 0xbf
    }
}

/// Executable check of [`valid_second_byte_width_4`].
fn second_byte_ok_width_4(b0: u8, b1: u8) -> (r: bool)
    ensures
        r == valid_second_byte_width_4(b0, b1),
{
    if b0 == 0xf0 {
        0x90 <= b1 && b1 <= 0xbf
    } else if b0 == 0xf4 {
        0x80 <= b1 && b1 <= 0x8f
    } else {
        0x80 <= b1 && b1 <= 0xbf
    }
}

/// One lossy decoding step at position `i`: how many bytes the step consumes
/// and which character it yields.
fn decode_step(bytes: &[u8], i: usize) -> (r: (usize, char))
    requires
        i < bytes@.len(),
    ensures
        ({
            let suffix = bytes@.skip(i as int);
            r.0 == lossy_step_len(suffix) && r.1 == lossy_step_char(suffix)
        }),
{
    let ghost suffix = bytes@.skip(i as int);
    let b0 = bytes[i];
    let rem = bytes.len() - i;
    if b0 < 0x80 {
        proof {
            assert(b0 & 0x7f == b0) by (bit_vector)
                requires
                    b0 < 0x80,
            ;
            assert(valid_first_scalar(suffix));
        }
        (1, char_of_scalar(b0 as u32))
    } else if 0xc2 <= b0 && b0 <= 0xdf {
        if rem >= 2 && is_cont_byte(bytes[i + 1]) {
            let b1 = bytes[i + 1];
            let cp: u32 = (((b0 & 0x1f) as u32) << 6) | ((b1 & 0x3f) as u32);
            proof {
                assert(0x80 <= cp <= 0x7ff) by (bit_vector)
                    requires
                        cp == (((b0 & 0x1f) as u32) << 6) | ((b1 & 0x3f) as u32),
                        0xc2 <= b0 <= 0xdf,
                        0x80 <= b1 <= 0xbf,
                ;
                assert(valid_first_scalar(suffix));
            }
            (2, char_of_scalar(cp))
        } else {
            proof {
                assert(!valid_first_scalar(suffix));
            }
            (1, REPLACEMENT)
        }
    } else if 0xe0 <= b0 && b0 <= 0xef {
        if rem >= 2 && second_byte_ok_width_3(b0, bytes[i + 1]) {
            let b1 = bytes[i + 1];
            if rem >= 3 && is_cont_byte(bytes[i + 2]) {
                let b2 = bytes[i + 2];
                let cp: u32 = (((b0 & 0x0f) as u32) << 12) | (((b1 & 0x3f) as u32) << 6) | ((b2
                    & 0x3f) as u32);
                proof {
                    assert(0x800 <= cp <= 0xffff && !(0xd800 <= cp <= 0xdfff)) by (bit_vector)
                        requires
                            cp == (((b0 & 0x0f) as u32) << 12) | (((b1 & 0x3f) as u32) << 6) | ((b2
                                & 0x3f) as u32),
                            0xe0 <= b0 <= 0xef,
                            0x80 <= b1 <= 0xbf,
                            b0 == 0xe0 ==> 0xa0 <= b1,
                            b0 == 0xed ==> b1 <= 0x9f,
                            0x80 <= b2 <= 0xbf,
                    ;
                    assert(valid_first_scalar(suffix));
                }
                (3, char_of_scalar(cp))
            } else {
                proof {
                    lemma_width_3_incomplete_invalid(suffix);
                }
                (2, REPLACEMENT)
            }
        } else {
            proof {
                lemma_width_3_bad_second_invalid(suffix);
            }
            (1, REPLACEMENT)
        }
    } else if 0xf0 <= b0 && b0 <= 0xf4 {
        if rem >= 2 && second_byte_ok_width_4(b0, bytes[i + 1]) {
            let b1 = bytes[i + 1];
            if rem >= 3 && is_cont_byte(bytes[i + 2]) {
                if rem >= 4 && is_cont_byte(bytes[i + 3]) {
                    let b2 = bytes[i + 2];
                    let b3 = bytes[i + 3];
                    let cp: u32 = (((b0 & 0x07) as u32) << 18) | (((b1 & 0x3f) as u32) << 12) | (((
                    b2 & 0x3f) as u32) << 6) | ((b3 & 0x3f) as u32);
                    proof {
                        assert(0x10000 <= cp <= 0x10ffff) by (bit_vector)
                            requires
                                cp == (((b0 & 0x07) as u32) << 18) | (((b1 & 0x3f) as u32) << 12)
                                    | (((b2 & 0x3f) as u32) << 6) | ((b3 & 0x3f) as u32),
                                0xf0 <= b0 <= 0xf4,
                                0x80 <= b1 <= 0xbf,
                                b0 == 0xf0 ==> 0x90 <= b1,
                                b0 == 0xf4 ==> b1 <= 0x8f,
                                0x80 <= b2 <= 0xbf,
                                0x80 <= b3 <= 0xbf,
                        ;
                        assert(valid_first_scalar(suffix));
                    }
                    (4, char_of_scalar(cp))
                } else {
                    proof {
                        lemma_width_4_incomplete_invalid(suffix, 3);
                    }
                    (3, REPLACEMENT)
                }
            } else {
                proof {
                    lemma_width_4_incomplete_invalid(suffix, 2);
                }
                (2, REPLACEMENT)
            }
        } else {
            proof {
                lemma_width_4_bad_second_invalid(suffix);
            }
            (1, REPLACEMENT)
        }
    } else {
        proof {
            lemma_stray_byte_invalid(suffix);
        }
        (1, REPLACEMENT)
    }
}

/// A three-byte lead whose acceptable second byte is not followed by a
/// continuation byte (or ends the input) starts no valid scalar encoding.
proof fn lemma_width_3_incomplete_invalid(s: Seq<u8>)
    requires
        s.len() >= 2,
        0xe0 <= s[0] <= 0xef,
        valid_second_byte_width_3(s[0], s[1]),
        s.len() >= 3 ==> !is_continuation_byte(s[2]),
    ensures
        !valid_first_scalar(s),
        replacement_len(s) == 2,
{
}

/// A three-byte lead with an unacceptable second byte (or no second byte)
/// starts no valid scalar encoding: either the byte pattern is broken, or
/// the encoding would be overlong or a surrogate.
proof fn lemma_width_3_bad_second_invalid(s: Seq<u8>)
    requires
        s.len() >= 1,
        0xe0 <= s[0] <= 0xef,
        s.len() >= 2 ==> !valid_second_byte_width_3(s[0], s[1]),
    ensures
        !valid_first_scalar(s),
        replacement_len(s) == 1,
{
    if valid_first_scalar(s) {
        let b0 = s[0];
        let b1 = s[1];
        let b2 = s[2];
        let cp = codepoint_width_3(b0, b1, b2);
        assert((b0 == 0xe0 && 0x80 <= b1 <= 0x9f ==> cp < 0x800) && (b0 == 0xed && 0xa0 <= b1
            <= 0xbf ==> 0xd800 <= cp <= 0xdfff)) by (bit_vector)
            requires
                cp == (((b0 & 0x0f) as u32) << 12) | (((b1 & 0x3f) as u32) << 6) | ((b2
                    & 0x3f) as u32),
        ;
    }
}

/// A four-byte lead with `got` acceptable bytes but no acceptable next byte
/// (or an input that ends there) starts no valid scalar encoding.
proof fn lemma_width_4_incomplete_invalid(s: Seq<u8>, got: int)
    requires
        2 <= got <= 3,
        s.len() >= got,
        0xf0 <= s[0] <= 0xf4,
        valid_second_byte_width_4(s[0], s[1]),
        got == 3 ==> is_continuation_byte(s[2]),
        s.len() >= got + 1 ==> !is_continuation_byte(s[got]),
    ensures
        !valid_first_scalar(s),
        replacement_len(s) == got,
{
}

/// A four-byte lead with an unacceptable second byte (or no second byte)
/// starts no valid scalar encoding: either the byte pattern is broken, or
/// the encoding would be overlong or beyond the last Unicode scalar.
proof fn lemma_width_4_bad_second_invalid(s: Seq<u8>)
    requires
        s.len() >= 1,
        0xf0 <= s[0] <= 0xf4,
        s.len() >= 2 ==> !valid_second_byte_width_4(s[0], s[1]),
    ensures
        !valid_first_scalar(s),
        replacement_len(s) == 1,
{
    if valid_first_scalar(s) {
        let b0 = s[0];
        let b1 = s[1];
        let b2 = s[2];
        let b3 = s[3];
        let cp = codepoint_width_4(b0, b1, b2, b3);
        assert((b0 == 0xf0 && 0x80 <= b1 <= 0x8f ==> cp < 0x10000) && (b0 == 0xf4 && 0x90 <= b1
            <= 0xbf ==> cp > 0x10ffff)) by (bit_vector)
            requires
                cp == (((b0 & 0x07) as u32) << 18) | (((b1 & 0x3f) as u32) << 12) | (((b2
                    & 0x3f) as u32) << 6) | ((b3 & 0x3f) as u32),
        ;
    }
}

/// A byte that leads no encoding at all — a stray continuation byte, an
/// always-overlong two-byte lead (`0xc0`, `0xc1`), or a lead beyond the last
/// Unicode scalar (`0xf5` and up) — starts no valid scalar encoding.
proof fn lemma_stray_byte_invalid(s: Seq<u8>)
    requires
        s.len() >= 1,
        0x80 <= s[0],
        !(0xc2 <= s[0] <= 0xdf),
        !(0xe0 <= s[0] <= 0xef),
        !(0xf0 <= s[0] <= 0xf4),
    ensures
        !valid_first_scalar(s),
        replacement_len(s) == 1,
{
    if valid_first_scalar(s) {
        let b0 = s[0];
        if 0xc0 <= b0 <= 0xc1 {
            let b1 = s[1];
            let cp = codepoint_width_2(b0, b1);
            assert(cp < 0x80) by (bit_vector)
                requires
                    cp == (((b0 & 0x1f) as u32) << 6) | ((b1 & 0x3f) as u32),
                    0xc0 <= b0 <= 0xc1,
            ;
        } else if 0xf5 <= b0 <= 0xf7 {
            let b1 = s[1];
            let b2 = s[2];
            let b3 = s[3];
            let cp = codepoint_width_4(b0, b1, b2, b3);
            assert(cp > 0x10ffff) by (bit_vector)
                requires
                    cp == (((b0 & 0x07) as u32) << 18) | (((b1 & 0x3f) as u32) << 12) | (((b2
                        & 0x3f) as u32) << 6) | ((b3 & 0x3f) as u32),
                    0xf5 <= b0 <= 0xf7,
            ;
        }
    }
}

/// Decodes `bytes` as UTF-8, substituting one replacement character for each
/// maximal invalid subpart. Total: it succeeds on every input, including
/// arbitrary binary data.
pub fn lossy_utf8_decode(bytes: &[u8]) -> (r: String)
    ensures
        r@ == lossy_decode(bytes@),
{
    let mut out = String::new();
    let mut i: usize = 0;
    proof {
        assert(bytes@.skip(0) =~= bytes@);
        assert(out@ + lossy_decode(bytes@) =~= lossy_decode(bytes@));
    }
    while i < bytes.len()
        invariant
            i <= bytes@.len(),
            lossy_decode(bytes@) == out@ + lossy_decode(bytes@.skip(i as int)),
        decreases bytes@.len() - i,
    {
        let ghost suffix = bytes@.skip(i as int);
        let (step, ch) = decode_step(bytes, i);
        proof {
            lemma_lossy_step_len_bounds(suffix);
        }
        push_char(&mut out, ch);
        i = i + step;
        proof {
            assert(suffix.skip(step as int) =~= bytes@.skip(i as int));
            assert(lossy_decode(bytes@) == out@ + lossy_decode(bytes@.skip(i as int)));
        }
    }
    proof {
        assert(bytes@.skip(i as int) =~= Seq::<u8>::empty());
    }
    out
}

/// Law: decoding never yields more characters than it consumed bytes — every
/// decoded character, replacement ones included, stands for at least one
/// input byte.
pub proof fn lemma_lossy_decode_len(s: Seq<u8>)
    ensures
        lossy_decode(s).len() <= s.len(),
    decreases s.len(),
{
    if s.len() > 0 {
        lemma_lossy_step_len_bounds(s);
        lemma_lossy_decode_len(s.skip(lossy_step_len(s)));
    }
}

/// Law: on valid UTF-8 input, lossy decoding introduces no replacement and
/// agrees with exact UTF-8 decoding.
pub proof fn lemma_lossy_decode_valid_utf8(s: Seq<u8>)
    requires
        valid_utf8(s),
    ensures
        lossy_decode(s) == decode_utf8(s),
    decreases s.len(),
{
    if s.len() > 0 {
        lemma_valid_prefix_decodes_scalar(s);
        lemma_lossy_decode_valid_utf8(pop_first_scalar(s));
    }
}

} // verus!
