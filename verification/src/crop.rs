//! Names cropped to a length, with a hash in place of what was cut.

use vstd::prelude::*;
use vstd::slice::slice_subrange;
use vstd::std_specs::hash::DefaultHasherAdditionalSpecFns;
use std::borrow::Cow;
use std::collections::hash_map::DefaultHasher;
use std::hash::Hasher;
use crate::path::{EncodedPath, PathKind};
use crate::text::append_bytes;

verus! {

/// The symbol that stands for the digit `digit` of a number written to the
/// base forty-one: `Y` down to `A`, then `9` down to `0`, then `# _ = ! + -`.
pub open spec fn symbol(digit: int) -> u8 {
    if digit < 25 {
        (0x59 - digit) as u8
    } else if digit < 35 {
        (0x39 - (digit - 25)) as u8
    } else if digit == 35 {
        0x23
    } else if digit == 36 {
        0x5f
    } else if digit == 37 {
        0x3d
    } else if digit == 38 {
        0x21
    } else if digit == 39 {
        0x2b
    } else {
        0x2d
    }
}

/// The lowest `len` digits of `num` to the base forty-one, the lowest first,
/// each as its symbol.
pub open spec fn base41(num: nat, len: nat) -> Seq<u8>
    decreases len,
{
    if len == 0 {
        Seq::empty()
    } else {
        seq![symbol((num % 41) as int)] + base41(num / 41, (len - 1) as nat)
    }
}

/// The digits of a number are as many as were asked for.
pub proof fn lemma_base41_len(num: nat, len: nat)
    ensures
        base41(num, len).len() == len,
    decreases len,
{
    if len > 0 {
        lemma_base41_len(num / 41, (len - 1) as nat);
    }
}

/// Forty-one to the power of `len`.
pub open spec fn pow41(len: nat) -> nat
    decreases len,
{
    if len == 0 {
        1
    } else {
        41 * pow41((len - 1) as nat)
    }
}

/// Numbers that `len` digits hold are the same where their digits are.
pub proof fn lemma_base41_tells_apart(a: nat, b: nat, len: nat)
    requires
        a < pow41(len),
        b < pow41(len),
        base41(a, len) == base41(b, len),
    ensures
        a == b,
    decreases len,
{
    if len > 0 {
        let rest = (len - 1) as nat;
        let da = seq![symbol((a % 41) as int)];
        let db = seq![symbol((b % 41) as int)];
        assert((da + base41(a / 41, rest))[0] == (db + base41(b / 41, rest))[0]);
        assert(symbol((a % 41) as int) == symbol((b % 41) as int));
        assert((da + base41(a / 41, rest)).drop_first() =~= base41(a / 41, rest));
        assert((db + base41(b / 41, rest)).drop_first() =~= base41(b / 41, rest));
        lemma_base41_tells_apart(a / 41, b / 41, rest);
    }
}

/// Twelve digits hold every `u64`: numbers that differ are written differently.
pub proof fn lemma_u64_symbols_tell_apart(a: u64, b: u64)
    requires
        a != b,
    ensures
        base41(a as nat, 12) != base41(b as nat, 12),
{
    reveal_with_fuel(pow41, 13);
    assert(pow41(12) == 22563490300366186081);
    if base41(a as nat, 12) == base41(b as nat, 12) {
        lemma_base41_tells_apart(a as nat, b as nat, 12);
    }
}

/// The symbol for a digit below forty-one.
fn symbol_for(digit: u8) -> (r: u8)
    requires
        digit < 41,
    ensures
        r == symbol(digit as int),
{
    if digit < 25 {
        0x59 - digit
    } else if digit < 35 {
        0x39 - (digit - 25)
    } else if digit == 35 {
        0x23
    } else if digit == 36 {
        0x5f
    } else if digit == 37 {
        0x3d
    } else if digit == 38 {
        0x21
    } else if digit == 39 {
        0x2b
    } else {
        0x2d
    }
}

/// Writes `num` to the base forty-one in twelve symbols, the lowest digit first.
pub fn u64_to_ascii(num: u64) -> (r: [u8; 12])
    ensures
        r@ == base41(num as nat, 12),
{
    let mut result: [u8; 12] = [0x59; 12];
    let mut left = num;
    let mut idx: usize = 0;
    while idx < 12
        invariant
            idx <= 12,
            result@.len() == 12,
            result@.subrange(0, idx as int) + base41(left as nat, (12 - idx) as nat) == base41(
                num as nat,
                12,
            ),
        decreases 12 - idx,
    {
        let ghost before = result@;
        result[idx] = symbol_for((left % 41) as u8);
        assert(result@.subrange(0, idx + 1) =~= before.subrange(0, idx as int) + seq![
            symbol((left % 41) as int),
        ]);
        assert(before.subrange(0, idx as int) + base41(left as nat, (12 - idx) as nat)
            =~= result@.subrange(0, idx + 1) + base41((left / 41) as nat, (12 - idx - 1) as nat));
        left = left / 41;
        idx += 1;
    }
    assert(result@.subrange(0, 12) =~= result@);
    assert(base41(left as nat, 0) =~= Seq::<u8>::empty());
    result
}

/// The index of the last `.` of `bytes` at or after `from` and before `to`, or
/// the length of `bytes` where there is none.
pub open spec fn last_dot(bytes: Seq<u8>, from: int, to: int) -> int
    decreases to - from,
{
    if to <= from {
        bytes.len() as int
    } else if bytes[to - 1] == 0x2e {
        to - 1
    } else {
        last_dot(bytes, from, to - 1)
    }
}

/// Where the extension of a name of ten bytes or more begins: at the last `.`
/// among its last ten bytes, or at its end where they hold none.
pub open spec fn extension_start(bytes: Seq<u8>) -> int {
    last_dot(bytes, bytes.len() - 10, bytes.len() as int)
}

/// Whether `bytes` can be cropped to `max_length`: it has ten bytes or more,
/// and `max_length` has room for its extension and twelve symbols.
pub open spec fn can_crop(bytes: Seq<u8>, max_length: int) -> bool {
    bytes.len() >= 10 && max_length >= bytes.len() - extension_start(bytes) + 12
}

/// `bytes` cropped to `max_length` bytes: as much of its front as fits, the
/// twelve symbols of `hash`, and its extension.
pub open spec fn cropped(bytes: Seq<u8>, max_length: int, hash: u64) -> Seq<u8> {
    let extension = bytes.subrange(extension_start(bytes), bytes.len() as int);
    bytes.subrange(0, max_length - extension.len() - 12) + base41(hash as nat, 12) + extension
}

/// The hash that a cropped name carries: that of `DefaultHasher` over the bytes.
pub open spec fn name_hash(bytes: Seq<u8>) -> u64 {
    DefaultHasher::spec_finish(seq![bytes])
}

impl<K: PathKind> EncodedPath<K> {
    /// The path in at most `max_length` bytes.
    ///
    /// A path that fits is handed back as it is. A longer one keeps as much
    /// of its front as fits before twelve symbols that encode a hash of the
    /// whole path, and its extension after them; it must have ten bytes or
    /// more, and `max_length` must have room for the symbols and the extension.
    pub fn crop_name_to(&self, max_length: usize) -> (r: Cow<'_, [u8]>)
        requires
            self@.len() > max_length ==> can_crop(self@, max_length as int),
        ensures
            self@.len() <= max_length ==> r@ == self@,
            self@.len() > max_length ==> r@ == cropped(
                self@,
                max_length as int,
                name_hash(self@),
            ),
            r@.len() <= max_length,
    {
        if self.as_bytes().len() <= max_length {
            return Cow::Borrowed(self.as_bytes());
        }
        let mut hasher = DefaultHasher::new();
        hasher.write(self.as_bytes());
        let hash = u64_to_ascii(hasher.finish());
        let len = self.as_bytes().len();
        let mut dot = len;
        let mut at = len;
        while at > len - 10 && dot == len
            invariant
                len == self@.len(),
                len >= 10,
                len - 10 <= at <= len,
                dot == len ==> last_dot(self@, len - 10, at as int) == extension_start(self@),
                dot != len ==> dot == extension_start(self@),
                dot <= len,
            decreases at,
        {
            if self.as_bytes()[at - 1] == 0x2e {
                dot = at - 1;
            }
            at -= 1;
        }
        let space_available = max_length - (len - dot) - 12;
        let mut res: Vec<u8> = Vec::new();
        append_bytes(&mut res, slice_subrange(self.as_bytes(), 0, space_available));
        append_bytes(&mut res, hash.as_slice());
        append_bytes(&mut res, slice_subrange(self.as_bytes(), dot, len));
        proof {
            lemma_base41_len(name_hash(self@) as nat, 12);
        }
        Cow::Owned(res)
    }
}

} // verus!
