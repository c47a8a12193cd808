//! Values given on the command line in the form `KEY=value`.
use vstd::prelude::*;
use vstd::string::StringExecFns;
use vstd::string::StringSliceAdditionalSpecFns;
use vstd::utf8::*;

use crate::grammar::EQUALS;
use crate::text::{ascii_before, lemma_ascii_prefix_boundary};

verus! {

/// The error of [`parse_key_val`]: the text holds no `=`.
#[derive(Debug, PartialEq, Eq)]
pub enum KeyValError {
    MissingEquals(String),
}

impl KeyValError {
    /// The text that could not be split.
    pub open spec fn input(&self) -> Seq<char> {
        match self {
            KeyValError::MissingEquals(s) => s@,
        }
    }

    /// The message shown to a user: ``invalid KEY=value: no `=` found in `<text>` ``.
    pub fn message(&self) -> (r: String)
        ensures
            r@ == "invalid KEY=value: no `=` found in `"@ + self.input() + "`"@,
    {
        match self {
            KeyValError::MissingEquals(s) => String::from_str(
                "invalid KEY=value: no `=` found in `",
            ).concat(s.as_str()).concat("`"),
        }
    }
}

/// The UTF-8 encoding of `chars` holds the byte of `=` exactly where `chars`
/// holds `=`.
proof fn lemma_encoded_equals(chars: Seq<char>)
    ensures
        chars.contains('=') <==> encode_utf8(chars).contains(EQUALS),
    decreases chars.len(),
{
    if chars.len() > 0 {
        let head = encode_scalar(chars[0] as u32);
        let tail = chars.drop_first();
        lemma_encoded_equals(tail);
        assert(encode_utf8(chars) == head + encode_utf8(tail));
        assert(head.len() >= 1);
        lemma_scalar_equals(chars[0]);
        assert(chars.contains('=') <==> (chars[0] == '=' || tail.contains('='))) by {
            if chars.contains('=') {
                let j = choose|j: int| 0 <= j < chars.len() && chars[j] == '=';
                if j > 0 {
                    assert(tail[j - 1] == '=');
                }
            }
            if tail.contains('=') {
                let j = choose|j: int| 0 <= j < tail.len() && tail[j] == '=';
                assert(chars[j + 1] == '=');
            }
        }
        let whole = head + encode_utf8(tail);
        assert(whole.contains(EQUALS) <==> (head.contains(EQUALS) || encode_utf8(tail).contains(
            EQUALS,
        ))) by {
            if whole.contains(EQUALS) {
                let j = choose|j: int| 0 <= j < whole.len() && whole[j] == EQUALS;
                if j >= head.len() {
                    assert(encode_utf8(tail)[j - head.len()] == EQUALS);
                }
            }
            if head.contains(EQUALS) {
                let j = choose|j: int| 0 <= j < head.len() && head[j] == EQUALS;
                assert(whole[j] == EQUALS);
            }
            if encode_utf8(tail).contains(EQUALS) {
                let j = choose|j: int|
                    0 <= j < encode_utf8(tail).len() && encode_utf8(tail)[j] == EQUALS;
                assert(whole[j + head.len()] == EQUALS);
            }
        }
    }
}

/// Splits `KEY=value` at its first `=`. The key holds no `=`; the value is
/// all that follows, and may hold more.
pub fn parse_key_val(s: &str) -> (r: Result<(String, String), KeyValError>)
    ensures
        match r {
            Ok((key, value)) => s@ == key@ + seq!['='] + value@ && !key@.contains('='),
            Err(e) => !s@.contains('=') && e.input() == s@,
        },
{
    let b = s.as_bytes();
    let mut pos: usize = 0;
    while pos < b.len() && b[pos] != EQUALS
        invariant
            pos <= b@.len(),
            forall|j: int| 0 <= j < pos ==> #[trigger] b@[j] != EQUALS,
        decreases b@.len() - pos,
    {
        pos = pos + 1;
    }
    proof {
        broadcast use encode_utf8_valid_utf8, encode_utf8_decode_utf8;

        lemma_encoded_equals(s@);
    }
    if pos == b.len() {
        return Err(KeyValError::MissingEquals(s.to_owned()));
    }
    let ghost whole = s.spec_bytes();
    proof {
        broadcast use encode_utf8_valid_utf8;

        is_char_boundary_iff_not_is_continuation_byte(whole, pos as int);
    }
    let (key, tail) = s.split_at(pos);
    let ghost t = tail.spec_bytes();
    proof {
        broadcast use encode_utf8_valid_utf8;

        assert(t[0] == EQUALS);
        assert(ascii_before(t, 1));
        lemma_ascii_prefix_boundary(t, 1);
    }
    let (eq, value) = tail.split_at(1);
    proof {
        broadcast use encode_utf8_valid_utf8, encode_utf8_decode_utf8, decode_utf8_encode_utf8;

        decode_utf8_split(whole, pos as int);
        decode_utf8_split(t, 1);
        assert(key@ == decode_utf8(whole.subrange(0, pos as int)));
        assert(eq.spec_bytes() =~= seq![EQUALS]);
        lemma_encoded_equals(eq@);
        lemma_encoded_equals(key@);
        assert(eq@.len() == 1) by {
            assert(encode_utf8(eq@).len() == 1);
            if eq@.len() > 1 {
                assert(encode_utf8(eq@) == encode_scalar(eq@[0] as u32) + encode_utf8(
                    eq@.drop_first(),
                ));
                lemma_encode_nonempty(eq@.drop_first());
            }
        }
        assert(eq@[0] == '=') by {
            assert(eq@.contains('='));
        }
        assert(eq@ =~= seq!['=']);
        assert(key.spec_bytes() =~= whole.subrange(0, pos as int));
        assert(!encode_utf8(key@).contains(EQUALS)) by {
            if encode_utf8(key@).contains(EQUALS) {
                let j = choose|j: int|
                    0 <= j < encode_utf8(key@).len() && encode_utf8(key@)[j] == EQUALS;
                assert(whole[j] == EQUALS);
            }
        }
    }
    Ok((key.to_owned(), value.to_owned()))
}

/// The encoding of one character holds the byte of `=` only if the character
/// is `=`.
proof fn lemma_scalar_equals(c: char)
    ensures
        encode_scalar(c as u32).contains(EQUALS) <==> c == '=',
{
    broadcast use char_is_scalar;

    let v = c as u32;
    let head = encode_scalar(v);
    if v <= 0x7f {
        assert((v & 0x7f) as u8 == v as u8 && (v <= 0x7f ==> v as u8 as u32 == v)) by (bit_vector)
            requires
                v <= 0x7f,
        ;
        assert(head =~= seq![v as u8]);
        assert(('=' as u32) == 0x3d);
        if c == '=' {
            assert(head[0] == EQUALS);
        }
        if head.contains(EQUALS) {
            let j = choose|j: int| 0 <= j < head.len() && head[j] == EQUALS;
            assert(j == 0);
            assert(v == 0x3d);
            broadcast use char_u32_cast;

        }
    } else {
        assert(forall|x: u8| #![auto] (0xC0u8 | x) >= 0x80 && (0xE0u8 | x) >= 0x80 && (0xF0u8 | x)
            >= 0x80 && (0x80u8 | x) >= 0x80) by (bit_vector);
        assert(forall|j: int| 0 <= j < head.len() ==> head[j] >= 0x80);
        assert(('=' as u32) == 0x3d);
    }
}

/// A non-empty text has a non-empty encoding.
proof fn lemma_encode_nonempty(chars: Seq<char>)
    requires
        chars.len() > 0,
    ensures
        encode_utf8(chars).len() > 0,
{
    assert(encode_utf8(chars) == encode_scalar(chars[0] as u32) + encode_utf8(chars.drop_first()));
}

} // verus!
