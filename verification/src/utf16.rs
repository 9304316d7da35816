//! UTF-16 encoding and decoding of character sequences.
//!
//! The interning table stores text as 16-bit code units.  A Unicode scalar
//! value outside the basic multilingual plane is stored as a surrogate pair;
//! a surrogate code unit that does not form a pair is a decode failure, not a
//! fatal error.  [`decode_utf16`] and [`encode_utf16`] give the mathematical
//! meaning of a code-unit sequence, and the executable functions here are
//! proved against them.

use vstd::prelude::*;

verus! {

/// Result of decoding one position of a UTF-16 code-unit sequence: either a
/// Unicode scalar value, or the lone surrogate unit that failed to decode.
#[derive(Clone, Copy, PartialEq, Eq, Structural, Debug)]
pub enum Decoded {
    Scalar(u32),
    LoneSurrogate(u16),
}

/// A surrogate code unit: reserved for pairs, never a scalar value by itself.
pub open spec fn is_surrogate(u: u16) -> bool {
    0xD800 <= u < 0xE000
}

/// A high (leading) surrogate.
pub open spec fn is_high_surrogate(u: u16) -> bool {
    0xD800 <= u < 0xDC00
}

/// A low (trailing) surrogate.
pub open spec fn is_low_surrogate(u: u16) -> bool {
    0xDC00 <= u < 0xE000
}

/// The scalar value encoded by a surrogate pair.
pub open spec fn combine_surrogates(hi: u16, lo: u16) -> u32 {
    (0x10000 + (hi - 0xD800) * 0x400 + (lo - 0xDC00)) as u32
}

/// The range of Unicode scalar values: code points minus the surrogate range.
pub open spec fn is_unicode_scalar(v: u32) -> bool {
    v < 0xD800 || (0xE000 <= v && v <= 0x10FFFF)
}

/// The decoding of a UTF-16 code-unit sequence, front to back: a non-surrogate
/// unit is a scalar of its own value, a high surrogate followed by a low one
/// is the paired scalar, and any other surrogate is a per-element failure.
pub open spec fn decode_utf16(units: Seq<u16>) -> Seq<Decoded>
    decreases units.len(),
{
    if units.len() == 0 {
        Seq::empty()
    } else if !is_surrogate(units[0]) {
        seq![Decoded::Scalar(units[0] as u32)] + decode_utf16(units.skip(1))
    } else if is_high_surrogate(units[0]) && units.len() >= 2 && is_low_surrogate(units[1]) {
        seq![Decoded::Scalar(combine_surrogates(units[0], units[1]))] + decode_utf16(units.skip(2))
    } else {
        seq![Decoded::LoneSurrogate(units[0])] + decode_utf16(units.skip(1))
    }
}

/// The UTF-16 encoding of one character: itself for the basic plane, a
/// surrogate pair above it.
pub open spec fn encode_char(c: char) -> Seq<u16> {
    if (c as u32) < 0x10000 {
        seq![(c as u32) as u16]
    } else {
        seq![
            (0xD800 + ((c as u32) - 0x10000) / 0x400) as u16,
            (0xDC00 + ((c as u32) - 0x10000) % 0x400) as u16,
        ]
    }
}

/// The UTF-16 encoding of a character sequence.
pub open spec fn encode_utf16(s: Seq<char>) -> Seq<u16>
    decreases s.len(),
{
    if s.len() == 0 {
        Seq::empty()
    } else {
        encode_char(s[0]) + encode_utf16(s.skip(1))
    }
}

/// True when every position of the decoding is a scalar: the sequence holds
/// no lone surrogate.
pub open spec fn decode_all_scalars(units: Seq<u16>) -> bool {
    forall|i: int|
        0 <= i < decode_utf16(units).len() ==> decode_utf16(units)[i] is Scalar
}

/// The texts a code-unit sequence compares equal to: exactly as many decoded
/// positions as characters, each decoding to the scalar value of the
/// character at its position.  Equality of a handle with a native string in
/// either order decides this predicate; a decode failure at any position
/// makes it false.
pub open spec fn text_matches(units: Seq<u16>, s: Seq<char>) -> bool {
    &&& decode_utf16(units).len() == s.len()
    &&& forall|i: int|
        0 <= i < s.len() ==> decode_utf16(units)[i] == Decoded::Scalar(#[trigger] s[i] as u32)
}

/// Encoding a text and decoding the result gives back exactly the text's
/// scalar values, one per position, with no failures.
pub proof fn lemma_decode_encode(s: Seq<char>)
    ensures
        text_matches(encode_utf16(s), s),
    decreases s.len(),
{
    let e = encode_utf16(s);
    let d = decode_utf16(e);
    if s.len() == 0 {
    } else {
        let c = s[0];
        vstd::utf8::char_is_scalar(c);
        lemma_decode_encode(s.skip(1));
        let d1 = decode_utf16(encode_utf16(s.skip(1)));
        if (c as u32) < 0x10000 {
            let u = (c as u32) as u16;
            assert(!is_surrogate(u));
            assert(e[0] == u);
            assert(e.skip(1) =~= encode_utf16(s.skip(1)));
            assert(d =~= seq![Decoded::Scalar(c as u32)] + d1);
        } else {
            let v = c as u32;
            let off = v - 0x10000;
            assert(off / 0x400 < 0x400 && off % 0x400 < 0x400 && off == 0x400 * (off / 0x400)
                + off % 0x400) by (nonlinear_arith)
                requires
                    0 <= off < 0x100000,
            ;
            let hi = (0xD800 + off / 0x400) as u16;
            let lo = (0xDC00 + off % 0x400) as u16;
            assert(is_high_surrogate(hi) && is_low_surrogate(lo));
            assert(e.len() >= 2 && e[0] == hi && e[1] == lo);
            assert(e.skip(2) =~= encode_utf16(s.skip(1)));
            assert(combine_surrogates(hi, lo) == v);
            assert(d =~= seq![Decoded::Scalar(c as u32)] + d1);
        }
        assert forall|i: int| 0 <= i < s.len() implies d[i] == Decoded::Scalar(
            #[trigger] s[i] as u32,
        ) by {
            if i > 0 {
                assert(d[i] == d1[i - 1]);
                assert(s[i] == s.skip(1)[i - 1]);
            }
        };
    }
}

/// Every scalar the decoder produces is a Unicode scalar value.
pub proof fn lemma_decode_scalars_valid(units: Seq<u16>)
    ensures
        forall|i: int|
            0 <= i < decode_utf16(units).len()
                ==> (#[trigger] decode_utf16(units)[i] matches Decoded::Scalar(v)
                ==> is_unicode_scalar(v)),
    decreases units.len(),
{
    let d = decode_utf16(units);
    if units.len() == 0 {
    } else if !is_surrogate(units[0]) {
        lemma_decode_scalars_valid(units.skip(1));
        assert forall|i: int|
            0 <= i < d.len() implies (#[trigger] d[i] matches Decoded::Scalar(v)
            ==> is_unicode_scalar(v)) by {
            if i > 0 {
                assert(d[i] == decode_utf16(units.skip(1))[i - 1]);
            }
        };
    } else if is_high_surrogate(units[0]) && units.len() >= 2 && is_low_surrogate(units[1]) {
        lemma_decode_scalars_valid(units.skip(2));
        assert(0xD800 <= units[0] < 0xDC00 && 0xDC00 <= units[1] < 0xE000);
        assert(0x10000 <= combine_surrogates(units[0], units[1]) <= 0x10FFFF);
        assert forall|i: int|
            0 <= i < d.len() implies (#[trigger] d[i] matches Decoded::Scalar(v)
            ==> is_unicode_scalar(v)) by {
            if i > 0 {
                assert(d[i] == decode_utf16(units.skip(2))[i - 1]);
            }
        };
    } else {
        lemma_decode_scalars_valid(units.skip(1));
        assert forall|i: int|
            0 <= i < d.len() implies (#[trigger] d[i] matches Decoded::Scalar(v)
            ==> is_unicode_scalar(v)) by {
            if i > 0 {
                assert(d[i] == decode_utf16(units.skip(1))[i - 1]);
            }
        };
    }
}

/// Encoding is injective: distinct texts have distinct code-unit sequences.
pub proof fn lemma_encode_injective(s1: Seq<char>, s2: Seq<char>)
    requires
        encode_utf16(s1) == encode_utf16(s2),
    ensures
        s1 == s2,
{
    lemma_decode_encode(s1);
    lemma_decode_encode(s2);
    let d = decode_utf16(encode_utf16(s1));
    assert(s1.len() == s2.len());
    assert forall|i: int| 0 <= i < s1.len() implies s1[i] == s2[i] by {
        assert(d[i] == Decoded::Scalar(s1[i] as u32));
        assert(d[i] == Decoded::Scalar(s2[i] as u32));
        vstd::utf8::char_u32_cast(s1[i], s1[i] as u32);
        vstd::utf8::char_u32_cast(s2[i], s2[i] as u32);
    };
    assert(s1 =~= s2);
}

/// Strict full decoding inverts encoding: a text materialized, scalar by
/// scalar, from the decoding of its own encoding is the text itself.
pub proof fn lemma_text_round_trip(s: Seq<char>, out: Seq<char>)
    requires
        out.len() == decode_utf16(encode_utf16(s)).len(),
        forall|i: int|
            0 <= i < out.len()
                ==> decode_utf16(encode_utf16(s))[i] == Decoded::Scalar(#[trigger] out[i] as u32),
    ensures
        out == s,
{
    lemma_decode_encode(s);
    assert forall|i: int| 0 <= i < out.len() implies out[i] == s[i] by {
        assert(decode_utf16(encode_utf16(s))[i] == Decoded::Scalar(s[i] as u32));
        assert(out[i] as u32 == s[i] as u32);
        vstd::utf8::char_u32_cast(out[i], out[i] as u32);
        vstd::utf8::char_u32_cast(s[i], s[i] as u32);
    };
    assert(out =~= s);
}

/// The encoding of one text compares equal, under the native-string equality
/// check, to exactly that text: character-for-character identical and nothing
/// else.
pub proof fn lemma_text_identity(t1: Seq<char>, t2: Seq<char>)
    ensures
        text_matches(encode_utf16(t1), t2) <==> t1 == t2,
{
    lemma_decode_encode(t1);
    let d = decode_utf16(encode_utf16(t1));
    if text_matches(encode_utf16(t1), t2) {
        assert forall|i: int| 0 <= i < t1.len() implies t1[i] == t2[i] by {
            assert(d[i] == Decoded::Scalar(t1[i] as u32));
            assert(d[i] == Decoded::Scalar(t2[i] as u32));
            vstd::utf8::char_u32_cast(t1[i], t1[i] as u32);
            vstd::utf8::char_u32_cast(t2[i], t2[i] as u32);
        };
        assert(t1 =~= t2);
    }
}

/// A sequence whose decoding holds any failure is not the encoding of any
/// text: a strict full decode is right to refuse it.
pub proof fn lemma_failed_decode_not_encoded(units: Seq<u16>, s: Seq<char>)
    requires
        !decode_all_scalars(units),
    ensures
        units != encode_utf16(s),
{
    if units == encode_utf16(s) {
        lemma_decode_encode(s);
        assert forall|i: int| 0 <= i < decode_utf16(units).len() implies decode_utf16(units)[i]
            is Scalar by {
            assert(decode_utf16(units)[i] == Decoded::Scalar(s[i] as u32));
        };
    }
}

/// How long an encoding can be: at least one and at most two units per
/// character.
pub proof fn lemma_encode_utf16_len(s: Seq<char>)
    ensures
        s.len() <= encode_utf16(s).len() <= 2 * s.len(),
    decreases s.len(),
{
    if s.len() > 0 {
        lemma_encode_utf16_len(s.skip(1));
    }
}

/// Relies on `char::from_u32` of std: the result is `Some` exactly on Unicode
/// scalar values, and carries the requested value.
pub assume_specification[ char::from_u32 ](v: u32) -> (r: Option<char>)
    ensures
        r is Some <==> is_unicode_scalar(v),
        r matches Some(c) ==> c as u32 == v,
;

/// Encodes a string's characters as UTF-16 code units.
pub fn encode_text(s: &str) -> (r: Vec<u16>)
    ensures
        r@ == encode_utf16(s@),
{
    let n: usize = s.unicode_len();
    let mut r: Vec<u16> = Vec::new();
    let mut i: usize = 0;
    proof {
        assert(s@.skip(0) =~= s@);
    }
    while i < n
        invariant
            i <= n,
            n == s@.len(),
            r@ + encode_utf16(s@.skip(i as int)) == encode_utf16(s@),
        decreases n - i,
    {
        let ghost rest = s@.skip(i as int);
        proof {
            assert(rest[0] == s@[i as int]);
            assert(rest.skip(1) =~= s@.skip(i as int + 1));
        }
        let c = s.get_char(i);
        let v = c as u32;
        proof {
            vstd::utf8::char_is_scalar(c);
        }
        if v < 0x10000 {
            r.push(v as u16);
        } else {
            assert(v <= 0x10FFFF);
            let off = v - 0x10000;
            assert(off / 0x400 < 0x400 && off % 0x400 < 0x400) by (nonlinear_arith)
                requires
                    off < 0x100000,
            ;
            let hi: u16 = 0xD800 + (off / 0x400) as u16;
            let lo: u16 = 0xDC00 + (off % 0x400) as u16;
            r.push(hi);
            r.push(lo);
            proof {
                assert(encode_char(c) =~= seq![hi, lo]);
            }
        }
        i = i + 1;
        proof {
            assert(r@ + encode_utf16(s@.skip(i as int)) =~= encode_utf16(s@));
        }
    }
    proof {
        assert(s@.skip(n as int) =~= Seq::<char>::empty());
        assert(r@ =~= encode_utf16(s@));
    }
    r
}

/// Decodes a UTF-16 code-unit sequence into per-position results.  The
/// decoding is restartable: it reads the units and holds no state of its own.
pub fn decode_units(units: &[u16]) -> (r: Vec<Decoded>)
    ensures
        r@ == decode_utf16(units@),
{
    let n: usize = units.len();
    let mut r: Vec<Decoded> = Vec::new();
    let mut i: usize = 0;
    proof {
        assert(units@.skip(0) =~= units@);
    }
    while i < n
        invariant
            i <= n,
            n == units@.len(),
            r@ + decode_utf16(units@.skip(i as int)) == decode_utf16(units@),
        decreases n - i,
    {
        let ghost rest = units@.skip(i as int);
        proof {
            assert(rest[0] == units@[i as int]);
            assert(rest.skip(1) =~= units@.skip(i as int + 1));
        }
        let u = units[i];
        if u < 0xD800 || u >= 0xE000 {
            r.push(Decoded::Scalar(u as u32));
            i = i + 1;
        } else if u < 0xDC00 && i + 1 < n && 0xDC00 <= units[i + 1] && units[i + 1] < 0xE000 {
            proof {
                assert(rest[1] == units@[i as int + 1]);
                assert(rest.skip(2) =~= units@.skip(i as int + 2));
            }
            let lo = units[i + 1];
            let scalar: u32 = 0x10000 + (u - 0xD800) as u32 * 0x400 + (lo - 0xDC00) as u32;
            r.push(Decoded::Scalar(scalar));
            i = i + 2;
        } else {
            r.push(Decoded::LoneSurrogate(u));
            i = i + 1;
        }
        proof {
            assert(r@ + decode_utf16(units@.skip(i as int)) =~= decode_utf16(units@));
        }
    }
    proof {
        assert(units@.skip(n as int) =~= Seq::<u16>::empty());
        assert(r@ =~= decode_utf16(units@));
    }
    r
}

} // verus!
