//! Bytes as text that can be shown: what is UTF-8 stays, the rest is escaped.

use vstd::prelude::*;
use vstd::utf8::{
    decode_first_scalar, decode_utf8, length_of_first_scalar, pop_first_scalar, valid_first_scalar,
    valid_utf8,
};
use crate::path::{EncodedPath, PathKind};
use crate::text::{char_from_code, push_char};

verus! {

/// The upper-case hexadecimal digit for `n`, which is below sixteen.
pub open spec fn hex_digit(n: u8) -> char {
    if n < 10 {
        ((0x30 + n) as u8) as char
    } else {
        ((0x41 + n - 10) as u8) as char
    }
}

/// The escape of one byte: a backslash, `x`, and its two hexadecimal digits.
pub open spec fn escape_of(b: u8) -> Seq<char> {
    seq!['\\', 'x', hex_digit(b / 16), hex_digit(b % 16)]
}

/// `bytes` as text: read from the front, every well-formed UTF-8 sequence
/// gives its character, and every byte that begins none gives its escape.
pub open spec fn escaped_text(bytes: Seq<u8>) -> Seq<char>
    decreases bytes.len(),
{
    if bytes.len() == 0 {
        Seq::empty()
    } else if valid_first_scalar(bytes) {
        seq![decode_first_scalar(bytes) as char] + escaped_text(pop_first_scalar(bytes))
    } else {
        escape_of(bytes[0]) + escaped_text(bytes.drop_first())
    }
}

/// Bytes that are well-formed UTF-8 are shown as the text they encode.
pub proof fn lemma_text_is_not_escaped(bytes: Seq<u8>)
    requires
        valid_utf8(bytes),
    ensures
        escaped_text(bytes) == decode_utf8(bytes),
    decreases bytes.len(),
{
    if bytes.len() > 0 {
        lemma_text_is_not_escaped(pop_first_scalar(bytes));
    }
}

/// The upper-case hexadecimal digit for `n`.
fn hex(n: u8) -> (c: char)
    requires
        n < 16,
    ensures
        c == hex_digit(n),
{
    if n < 10 {
        (0x30 + n) as char
    } else {
        (0x41 + n - 10) as char
    }
}

/// The character that a well-formed UTF-8 sequence at the front of
/// `bytes[at..]` encodes, with the length of the sequence, if there is one.
fn first_scalar(bytes: &[u8], at: usize) -> (r: Option<(char, usize)>)
    requires
        at < bytes@.len(),
    ensures
        r is Some <==> valid_first_scalar(bytes@.subrange(at as int, bytes@.len() as int)),
        r matches Some((c, n)) ==> {
            let rest = bytes@.subrange(at as int, bytes@.len() as int);
            &&& c == decode_first_scalar(rest) as char
            &&& n == length_of_first_scalar(rest)
            &&& 1 <= n <= 4
            &&& at + n <= bytes@.len()
        },
{
    let ghost rest = bytes@.subrange(at as int, bytes@.len() as int);
    let left = bytes.len() - at;
    let b0 = bytes[at];
    assert(rest[0] == b0);
    let (code, n): (u32, usize) = if b0 <= 0x7f {
        assert((b0 & 0x7f) as u32 <= 0x7f) by (bit_vector);
        ((b0 & 0x7f) as u32, 1)
    } else if 0xc0 <= b0 && b0 <= 0xdf {
        if left < 2 {
            return None;
        }
        let b1 = bytes[at + 1];
        assert(rest[1] == b1);
        if !(0x80 <= b1 && b1 <= 0xbf) {
            return None;
        }
        assert(((((b0 & 0x1f) as u32) << 6) | ((b1 & 0x3f) as u32)) <= 0x7ff) by (bit_vector);
        ((((b0 & 0x1f) as u32) << 6) | ((b1 & 0x3f) as u32), 2)
    } else if 0xe0 <= b0 && b0 <= 0xef {
        if left < 3 {
            return None;
        }
        let b1 = bytes[at + 1];
        let b2 = bytes[at + 2];
        assert(rest[1] == b1 && rest[2] == b2);
        if !(0x80 <= b1 && b1 <= 0xbf) || !(0x80 <= b2 && b2 <= 0xbf) {
            return None;
        }
        assert(((((b0 & 0x0f) as u32) << 12) | (((b1 & 0x3f) as u32) << 6) | ((b2 & 0x3f) as u32))
            <= 0xffff) by (bit_vector);
        (
            (((b0 & 0x0f) as u32) << 12) | (((b1 & 0x3f) as u32) << 6) | ((b2 & 0x3f) as u32),
            3,
        )
    } else if 0xf0 <= b0 && b0 <= 0xf7 {
        if left < 4 {
            return None;
        }
        let b1 = bytes[at + 1];
        let b2 = bytes[at + 2];
        let b3 = bytes[at + 3];
        assert(rest[1] == b1 && rest[2] == b2 && rest[3] == b3);
        if !(0x80 <= b1 && b1 <= 0xbf) || !(0x80 <= b2 && b2 <= 0xbf) || !(0x80 <= b3 && b3
            <= 0xbf) {
            return None;
        }
        (
            (((b0 & 0x07) as u32) << 18) | (((b1 & 0x3f) as u32) << 12) | (((b2 & 0x3f) as u32)
                << 6) | ((b3 & 0x3f) as u32),
            4,
        )
    } else {
        return None;
    };
    if (n == 2 && code < 0x80) || (n == 3 && code < 0x800) || (n == 4 && (code < 0x10000 || code
        > 0x10ffff)) || (0xd800 <= code && code <= 0xdfff) {
        return None;
    }
    match char_from_code(code) {
        Some(c) => {
            proof {
                vstd::utf8::char_u32_cast(c, code);
            }
            Some((c, n))
        },
        None => None,
    }
}

/// Bytes that can be shown as text.
pub trait EscapedString {
    /// The text that `escaped` returns.
    spec fn escaped_view(&self) -> Seq<char>;

    /// The bytes as text, with what is not UTF-8 escaped.
    fn escaped(&self) -> (r: String)
        ensures
            r@ == self.escaped_view(),
    ;
}

impl EscapedString for [u8] {
    open spec fn escaped_view(&self) -> Seq<char> {
        escaped_text(self@)
    }

    fn escaped(&self) -> (r: String) {
        let mut result = String::new();
        let mut at: usize = 0;
        assert(self@.subrange(0, self@.len() as int) =~= self@);
        while at < self.len()
            invariant
                at <= self@.len(),
                result@ + escaped_text(self@.subrange(at as int, self@.len() as int))
                    == escaped_text(self@),
            decreases self.len() - at,
        {
            let ghost rest = self@.subrange(at as int, self@.len() as int);
            let ghost before = result@;
            match first_scalar(self, at) {
                Some((c, n)) => {
                    push_char(&mut result, c);
                    assert(pop_first_scalar(rest) =~= self@.subrange(
                        at + n,
                        self@.len() as int,
                    ));
                    assert(result@ + escaped_text(pop_first_scalar(rest)) =~= before
                        + escaped_text(rest));
                    at += n;
                },
                None => {
                    let b = self[at];
                    push_char(&mut result, '\\');
                    push_char(&mut result, 'x');
                    push_char(&mut result, hex(b / 16));
                    push_char(&mut result, hex(b % 16));
                    assert(rest.drop_first() =~= self@.subrange(at + 1, self@.len() as int));
                    assert(result@ =~= before + escape_of(b));
                    assert(result@ + escaped_text(rest.drop_first()) =~= before + escaped_text(
                        rest,
                    ));
                    at += 1;
                },
            }
        }
        assert(result@ + Seq::<char>::empty() =~= result@);
        result
    }
}

impl<K: PathKind> EscapedString for EncodedPath<K> {
    open spec fn escaped_view(&self) -> Seq<char> {
        escaped_text(self@)
    }

    fn escaped(&self) -> (r: String) {
        self.as_bytes().escaped()
    }
}

} // verus!
