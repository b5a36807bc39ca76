//! The virtual machine's modified UTF-8: a nul character takes two bytes and a
//! supplementary character takes two three-byte surrogate halves.
use vstd::prelude::*;
use vstd::utf8::*;

verus! {

broadcast use vstd::utf8::group_utf8_lib;

/// Why a byte string is not modified UTF-8.
#[derive(Debug, Clone, Copy, PartialEq, Eq, Structural)]
pub enum MUTFError {
    /// A raw zero byte, which the encoding never produces.
    NullByteInInput,
    /// A leader of an `n`-byte form with fewer than `n` bytes left.
    CodepointBadInputLength(u8),
    /// The decoded bytes are not valid UTF-8.
    InvalidUtf8Output,
    /// A byte that cannot start any form.
    InvalidEncoding,
}

/// The six bytes of a supplementary character: two surrogate halves in their
/// three-byte form, the first holding `(c >> 16) & 0x0F` in its low nibble.
pub open spec fn surrogate_pair_bytes(v: u32) -> Seq<u8> {
    seq![
        0xEDu8,
        0xA0u8 | ((v >> 16) & 0x0F) as u8,
        0x80u8 | ((v >> 10) & 0x3F) as u8,
        0xEDu8,
        0xB0u8 | ((v >> 6) & 0x0F) as u8,
        0x80u8 | (v & 0x3F) as u8,
    ]
}

/// The modified UTF-8 bytes of one character: nul as `C0 80`, other
/// characters of the basic plane in their standard one- to three-byte form,
/// supplementary characters as a surrogate pair.
pub open spec fn mutf8_char(c: char) -> Seq<u8> {
    let v = c as u32;
    if v == 0 {
        seq![0xC0u8, 0x80u8]
    } else if v <= 0xFFFF {
        encode_scalar(v)
    } else {
        surrogate_pair_bytes(v)
    }
}

/// The modified UTF-8 bytes of a string.
pub open spec fn mutf8_encode(cs: Seq<char>) -> Seq<u8>
    decreases cs.len(),
{
    if cs.len() == 0 {
        seq![]
    } else {
        mutf8_char(cs[0]) + mutf8_encode(cs.drop_first())
    }
}

/// The character carried by a surrogate pair whose bytes are
/// `ED hi hi_low ED lo lo_low`; a zero plane nibble stands for plane 16.
pub open spec fn pair_code_point(hi: u8, hi_low: u8, lo: u8, lo_low: u8) -> u32 {
    let plane: u32 = if hi & 0x0F == 0 {
        0x10
    } else {
        (hi & 0x0F) as u32
    };
    (plane << 16) | (((hi_low & 0x3F) as u32) << 10) | (((lo & 0x0F) as u32) << 6) | ((lo_low
        & 0x3F) as u32)
}

/// The first unit of modified UTF-8 at the start of `s` (which is not empty):
/// the standard UTF-8 bytes it stands for and how many bytes it takes.
pub open spec fn mutf8_step(s: Seq<u8>) -> Result<(Seq<u8>, int), MUTFError> {
    let b = s[0];
    if b == 0 {
        Err(MUTFError::NullByteInInput)
    } else if b < 0x80 {
        Ok((seq![b], 1))
    } else if b & 0xE0 == 0xC0 {
        if s.len() < 2 {
            Err(MUTFError::CodepointBadInputLength(2))
        } else if s[1] == 0 {
            Err(MUTFError::NullByteInInput)
        } else if b == 0xC0 && s[1] == 0x80 {
            Ok((seq![0u8], 2))
        } else {
            Ok((seq![b, s[1]], 2))
        }
    } else if b & 0xF0 == 0xE0 {
        if s.len() < 3 {
            Err(MUTFError::CodepointBadInputLength(3))
        } else if s[1] == 0 || s[2] == 0 {
            Err(MUTFError::NullByteInInput)
        } else if s.len() >= 6 && b == 0xED && s[1] & 0xF0 == 0xA0 && 0x80 <= s[2] <= 0xBF
            && s[3] == 0xED && s[4] & 0xF0 == 0xB0 && 0x80 <= s[5] <= 0xBF {
            Ok((encode_scalar(pair_code_point(s[1], s[2], s[4], s[5])), 6))
        } else {
            Ok((seq![b, s[1], s[2]], 3))
        }
    } else {
        Err(MUTFError::InvalidEncoding)
    }
}

/// Modified UTF-8 rewritten unit by unit into standard UTF-8 bytes, or the
/// first structural error.
pub open spec fn mutf8_to_utf8(s: Seq<u8>) -> Result<Seq<u8>, MUTFError>
    decreases s.len(),
{
    if s.len() == 0 {
        Ok(seq![])
    } else {
        match mutf8_step(s) {
            Err(e) => Err(e),
            Ok((u, n)) => if 0 < n <= s.len() {
                prepend(u, mutf8_to_utf8(s.skip(n)))
            } else {
                Err(MUTFError::InvalidEncoding)
            },
        }
    }
}

/// `p` in front of a successful result.
pub open spec fn prepend(p: Seq<u8>, r: Result<Seq<u8>, MUTFError>) -> Result<
    Seq<u8>,
    MUTFError,
> {
    match r {
        Ok(x) => Ok(p + x),
        Err(e) => Err(e),
    }
}

/// The string that modified UTF-8 bytes stand for: structural errors first,
/// then `InvalidUtf8Output` when the rewritten bytes are not valid UTF-8.
pub open spec fn mutf8_decode(s: Seq<u8>) -> Result<Seq<char>, MUTFError> {
    match mutf8_to_utf8(s) {
        Err(e) => Err(e),
        Ok(u) => if valid_utf8(u) {
            Ok(decode_utf8(u))
        } else {
            Err(MUTFError::InvalidUtf8Output)
        },
    }
}

proof fn lemma_encode_push(cs: Seq<char>, c: char)
    ensures
        mutf8_encode(cs.push(c)) == mutf8_encode(cs) + mutf8_char(c),
    decreases cs.len(),
{
    if cs.len() == 0 {
        assert(cs.push(c).drop_first() =~= seq![]);
        assert(mutf8_encode(cs.push(c)) == mutf8_char(c) + mutf8_encode(cs.push(c).drop_first()));
        assert(mutf8_encode(cs.push(c)) =~= mutf8_char(c));
        assert(mutf8_encode(cs) + mutf8_char(c) =~= mutf8_char(c));
    } else {
        assert(cs.push(c).drop_first() =~= cs.drop_first().push(c));
        lemma_encode_push(cs.drop_first(), c);
        assert(mutf8_encode(cs.push(c)) =~= mutf8_encode(cs) + mutf8_char(c));
    }
}

proof fn lemma_prepend_assoc(a: Seq<u8>, b: Seq<u8>, r: Result<Seq<u8>, MUTFError>)
    ensures
        prepend(a, prepend(b, r)) == prepend(a + b, r),
{
    if let Ok(x) = r {
        assert(a + (b + x) =~= (a + b) + x);
    }
}

proof fn lemma_width_1(v: u32)
    by (bit_vector)
    requires
        1 <= v <= 0x7F,
    ensures
        (v & 0x7F) as u8 != 0,
        ((v & 0x7F) as u8) < 0x80,
{
}

proof fn lemma_width_2(v: u32)
    by (bit_vector)
    requires
        0x80 <= v <= 0x7FF,
    ensures
        (0xC0u8 | ((v >> 6) & 0x1F) as u8) >= 0x80,
        (0xC0u8 | ((v >> 6) & 0x1F) as u8) & 0xE0 == 0xC0,
        (0xC0u8 | ((v >> 6) & 0x1F) as u8) != 0xC0,
        (0x80u8 | (v & 0x3F) as u8) != 0,
{
}

proof fn lemma_width_3(v: u32)
    by (bit_vector)
    requires
        0x800 <= v <= 0xFFFF,
        !(0xD800 <= v <= 0xDFFF),
    ensures
        (0xE0u8 | ((v >> 12) & 0x0F) as u8) >= 0x80,
        (0xE0u8 | ((v >> 12) & 0x0F) as u8) & 0xE0 != 0xC0,
        (0xE0u8 | ((v >> 12) & 0x0F) as u8) & 0xF0 == 0xE0,
        !((0xE0u8 | ((v >> 12) & 0x0F) as u8) == 0xED && (0x80u8 | ((v >> 6) & 0x3F) as u8)
            & 0xF0 == 0xA0),
        (0x80u8 | ((v >> 6) & 0x3F) as u8) != 0,
        (0x80u8 | (v & 0x3F) as u8) != 0,
{
}

proof fn lemma_width_4(v: u32)
    by (bit_vector)
    requires
        0x10000 <= v <= 0x10FFFF,
    ensures
        0xEDu8 & 0xE0 != 0xC0,
        0xEDu8 & 0xF0 == 0xE0,
        (0xA0u8 | ((v >> 16) & 0x0F) as u8) & 0xF0 == 0xA0,
        (0xB0u8 | ((v >> 6) & 0x0F) as u8) & 0xF0 == 0xB0,
        0x80 <= (0x80u8 | ((v >> 10) & 0x3F) as u8) <= 0xBF,
        0x80 <= (0x80u8 | (v & 0x3F) as u8) <= 0xBF,
        (0xA0u8 | ((v >> 16) & 0x0F) as u8) != 0,
        v == ({
            let hi = 0xA0u8 | ((v >> 16) & 0x0F) as u8;
            let hi_low = 0x80u8 | ((v >> 10) & 0x3F) as u8;
            let lo = 0xB0u8 | ((v >> 6) & 0x0F) as u8;
            let lo_low = 0x80u8 | (v & 0x3F) as u8;
            let plane: u32 = if hi & 0x0F == 0 {
                0x10
            } else {
                (hi & 0x0F) as u32
            };
            (plane << 16) | (((hi_low & 0x3F) as u32) << 10) | (((lo & 0x0F) as u32) << 6) | ((
            lo_low & 0x3F) as u32)
        }),
{
}

proof fn lemma_pair_is_supplementary(hi: u8, hi_low: u8, lo: u8, lo_low: u8)
    ensures
        has_width_4_encoding(pair_code_point(hi, hi_low, lo, lo_low)),
{
    assert(0x10000 <= ({
        let plane: u32 = if hi & 0x0F == 0 {
            0x10
        } else {
            (hi & 0x0F) as u32
        };
        (plane << 16) | (((hi_low & 0x3F) as u32) << 10) | (((lo & 0x0F) as u32) << 6) | ((lo_low
            & 0x3F) as u32)
    }) <= 0x10FFFF) by (bit_vector);
}

proof fn lemma_zero_bits()
    ensures
        0xC0u8 & 0xE0 == 0xC0,
        (0u32 & 0x7F) as u8 == 0,
{
    assert(0xC0u8 & 0xE0 == 0xC0) by (bit_vector);
    assert((0u32 & 0x7F) as u8 == 0) by (bit_vector);
}

/// The first unit of the encoding of `c` reads back as the standard UTF-8
/// bytes of `c`, whatever follows it.
proof fn lemma_step_char(c: char, rest: Seq<u8>)
    ensures
        mutf8_step(mutf8_char(c) + rest) == Ok::<(Seq<u8>, int), MUTFError>(
            (encode_scalar(c as u32), mutf8_char(c).len() as int),
        ),
{
    let v = c as u32;
    let s = mutf8_char(c) + rest;
    if v == 0 {
        lemma_zero_bits();
        assert(encode_scalar(v) =~= seq![0u8]);
    } else if v <= 0x7F {
        lemma_width_1(v);
    } else if v <= 0x7FF {
        lemma_width_2(v);
    } else if v <= 0xFFFF {
        lemma_width_3(v);
    } else {
        lemma_width_4(v);
        assert(s[1] == 0xA0u8 | ((v >> 16) & 0x0F) as u8);
        assert(pair_code_point(s[1], s[2], s[4], s[5]) == v);
    }
}

proof fn lemma_to_utf8_of_encode(cs: Seq<char>)
    ensures
        mutf8_to_utf8(mutf8_encode(cs)) == Ok::<Seq<u8>, MUTFError>(encode_utf8(cs)),
    decreases cs.len(),
{
    if cs.len() > 0 {
        let a = mutf8_char(cs[0]);
        let rest = mutf8_encode(cs.drop_first());
        lemma_step_char(cs[0], rest);
        assert((a + rest).skip(a.len() as int) =~= rest);
        lemma_to_utf8_of_encode(cs.drop_first());
    }
}

proof fn lemma_high_nibble_nonzero(x: u8)
    by (bit_vector)
    ensures
        x & 0xF0 == 0xA0 ==> x != 0,
        x & 0xF0 == 0xB0 ==> x != 0,
{
}

/// Input that rewrites without a structural error holds no zero byte.
proof fn lemma_to_utf8_no_nul(s: Seq<u8>)
    requires
        mutf8_to_utf8(s) is Ok,
    ensures
        forall|i: int| 0 <= i < s.len() ==> s[i] != 0,
    decreases s.len(),
{
    if s.len() > 0 {
        let n = mutf8_step(s)->Ok_0.1;
        lemma_high_nibble_nonzero(s[1]);
        lemma_high_nibble_nonzero(s[4]);
        lemma_to_utf8_no_nul(s.skip(n));
        assert forall|i: int| 0 <= i < s.len() implies s[i] != 0 by {
            if i >= n {
                assert(s[i] == s.skip(n)[i - n]);
            }
        }
    }
}

/// Decoding the encoding of any string gives the string back.
pub proof fn lemma_decode_encode(cs: Seq<char>)
    ensures
        mutf8_decode(mutf8_encode(cs)) == Ok::<Seq<char>, MUTFError>(cs),
{
    lemma_to_utf8_of_encode(cs);
}

/// Relies on `String::from_utf8`: it succeeds exactly when the bytes are
/// valid UTF-8, and the string then holds the characters they encode.
#[verifier::external_body]
fn string_from_utf8(bytes: Vec<u8>) -> (r: Option<String>)
    ensures
        r is Some <==> valid_utf8(bytes@),
        r matches Some(s) ==> s@ == decode_utf8(bytes@),
{
    String::from_utf8(bytes).ok()
}

/// Encodes a string in modified UTF-8.
pub fn encode(string: &str) -> (bytes: Vec<u8>)
    ensures
        bytes@ == mutf8_encode(string@),
{
    let mut bytes: Vec<u8> = Vec::new();
    let ghost mut done: Seq<char> = seq![];
    for c in it: string.chars()
        invariant
            it.seq() == string@,
            done == it.seq().take(it.index() as int),
            bytes@ == mutf8_encode(done),
    {
        let v = c as u32;
        proof {
            lemma_encode_push(done, c);
        }
        let ghost before = bytes@;
        if v == 0 {
            bytes.push(0xC0);
            bytes.push(0x80);
            assert(bytes@ =~= before + mutf8_char(c));
        } else if v <= 0x7F {
            bytes.push((v & 0x7F) as u8);
            assert(bytes@ =~= before + mutf8_char(c));
        } else if v <= 0x7FF {
            bytes.push(0xC0u8 | ((v >> 6) & 0x1F) as u8);
            bytes.push(0x80u8 | (v & 0x3F) as u8);
            assert(bytes@ =~= before + mutf8_char(c));
        } else if v <= 0xFFFF {
            bytes.push(0xE0u8 | ((v >> 12) & 0x0F) as u8);
            bytes.push(0x80u8 | ((v >> 6) & 0x3F) as u8);
            bytes.push(0x80u8 | (v & 0x3F) as u8);
            proof {
                char_is_scalar(c);
            }
            assert(bytes@ =~= before + mutf8_char(c));
        } else {
            bytes.push(0xEDu8);
            bytes.push(0xA0u8 | ((v >> 16) & 0x0F) as u8);
            bytes.push(0x80u8 | ((v >> 10) & 0x3F) as u8);
            bytes.push(0xEDu8);
            bytes.push(0xB0u8 | ((v >> 6) & 0x0F) as u8);
            bytes.push(0x80u8 | (v & 0x3F) as u8);
        }
        assert(bytes@ =~= before + mutf8_char(c));
        proof {
            assert(it.seq().take(it.index() + 1) =~= done.push(c));
            done = done.push(c);
        }
    }
    assert(done =~= string@);
    bytes
}

/// Decodes modified UTF-8. A raw zero byte, a truncated form or a byte that
/// starts no form fails at once; `C0 80` gives a nul character; a surrogate
/// pair gives the supplementary character it carries.
pub fn decode(input: &[u8]) -> (r: Result<String, MUTFError>)
    ensures
        match r {
            Ok(s) => mutf8_decode(input@) == Ok::<Seq<char>, MUTFError>(s@),
            Err(e) => mutf8_decode(input@) == Err::<Seq<char>, MUTFError>(e),
        },
        r is Ok ==> forall|i: int| 0 <= i < input@.len() ==> input@[i] != 0,
{
    let mut output: Vec<u8> = Vec::new();
    let len = input.len();
    let mut idx: usize = 0;
    proof {
        assert(input@.skip(0) =~= input@);
        if let Ok(x) = mutf8_to_utf8(input@) {
            assert(seq![] + x =~= x);
        }
    }
    while idx < len
        invariant
            len == input@.len(),
            idx <= len,
            mutf8_to_utf8(input@) == prepend(output@, mutf8_to_utf8(input@.skip(idx as int))),
        decreases len - idx,
    {
        let ghost s = input@.skip(idx as int);
        let ghost before = output@;
        let b = input[idx];
        let n: usize;
        if b == 0 {
            return Err(MUTFError::NullByteInInput);
        } else if b < 0x80 {
            output.push(b);
            n = 1;
        } else if b & 0xE0 == 0xC0 {
            if len - idx < 2 {
                return Err(MUTFError::CodepointBadInputLength(2));
            }
            let b2 = input[idx + 1];
            if b2 == 0 {
                return Err(MUTFError::NullByteInInput);
            }
            if b == 0xC0 && b2 == 0x80 {
                output.push(0);
            } else {
                output.push(b);
                output.push(b2);
            }
            n = 2;
        } else if b & 0xF0 == 0xE0 {
            if len - idx < 3 {
                return Err(MUTFError::CodepointBadInputLength(3));
            }
            let b2 = input[idx + 1];
            let b3 = input[idx + 2];
            if b2 == 0 || b3 == 0 {
                return Err(MUTFError::NullByteInInput);
            }
            if len - idx >= 6 && b == 0xED && b2 & 0xF0 == 0xA0 && 0x80 <= b3 && b3 <= 0xBF
                && input[idx + 3] == 0xED && input[idx + 4] & 0xF0 == 0xB0 && 0x80 <= input[idx
                + 5] && input[idx + 5] <= 0xBF {
                let b5 = input[idx + 4];
                let b6 = input[idx + 5];
                let plane: u32 = if b2 & 0x0F == 0 {
                    0x10
                } else {
                    (b2 & 0x0F) as u32
                };
                let cp: u32 = (plane << 16) | (((b3 & 0x3F) as u32) << 10) | (((b5 & 0x0F) as u32)
                    << 6) | ((b6 & 0x3F) as u32);
                proof {
                    lemma_pair_is_supplementary(b2, b3, b5, b6);
                }
                output.push(0xF0u8 | ((cp >> 18) & 0x7) as u8);
                output.push(0x80u8 | ((cp >> 12) & 0x3F) as u8);
                output.push(0x80u8 | ((cp >> 6) & 0x3F) as u8);
                output.push(0x80u8 | (cp & 0x3F) as u8);
                n = 6;
            } else {
                output.push(b);
                output.push(b2);
                output.push(b3);
                n = 3;
            }
        } else {
            return Err(MUTFError::InvalidEncoding);
        }
        proof {
            let u = output@.subrange(before.len() as int, output@.len() as int);
            assert(output@ =~= before + u);
            assert(mutf8_step(s) == Ok::<(Seq<u8>, int), MUTFError>((u, n as int))) by {
                if n == 6 {
                    assert(u =~= encode_scalar(pair_code_point(s[1], s[2], s[4], s[5])));
                } else {
                    assert(u =~= mutf8_step(s)->Ok_0.0);
                }
            }
            assert(s.skip(n as int) =~= input@.skip(idx + n));
            lemma_prepend_assoc(before, u, mutf8_to_utf8(input@.skip(idx + n)));
        }
        idx = idx + n;
    }
    assert(output@ + seq![] =~= output@);
    proof {
        lemma_to_utf8_no_nul(input@);
    }
    match string_from_utf8(output) {
        Some(s) => Ok(s),
        None => Err(MUTFError::InvalidUtf8Output),
    }
}

} // verus!
