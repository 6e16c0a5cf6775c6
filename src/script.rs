//! Shared types and the script-number codec.
use vstd::prelude::*;

use crate::opcodes::Opcode;

verus! {

/// The widest script number that arithmetic opcodes accept, in bytes.
pub const MAX_NUM_SIZE: usize = 4;

/// Every way in which decoding or evaluating a script can fail.
#[derive(Debug, Clone, Copy, PartialEq, Eq, Structural)]
pub enum ScriptError {
    ParsingError,
    BadOpcode,
    DisabledOpcode,
    InvalidOpcode,
    PushSize,
    StackOverflow,
    InvalidStackOperation,
    InvalidAltStackOperation,
    NumberOverflow,
    ScriptSize,
    OpCount,
    UnbalancedConditional,
    Verify,
    EqualVerify,
    NumEqualVerify,
    OpReturn,
}

/// A decoded script: the items in order, and whether decoding succeeded.
pub struct Script {
    pub valid: bool,
    pub items: Vec<ScriptItem>,
}

/// One decoded unit of a script: an opcode, or the data of a push.
pub enum ScriptItem {
    Opcode(Opcode),
    ByteArray(Vec<u8>),
}

/// The mathematical value of a `ScriptItem`.
pub enum ItemView {
    Op(u8),
    Data(Seq<u8>),
}

impl View for ScriptItem {
    type V = ItemView;

    open spec fn view(&self) -> ItemView {
        match self {
            ScriptItem::Opcode(op) => ItemView::Op(op.code),
            ScriptItem::ByteArray(b) => ItemView::Data(b@),
        }
    }
}

/// `256^n`.
pub open spec fn pow256(n: nat) -> nat
    decreases n,
{
    if n == 0 {
        1
    } else {
        256 * pow256((n - 1) as nat)
    }
}

/// The unsigned little-endian value of a byte string.
pub open spec fn le_value(s: Seq<u8>) -> nat
    decreases s.len(),
{
    if s.len() == 0 {
        0
    } else {
        s[0] as nat + 256 * le_value(s.drop_first())
    }
}

/// The little-endian bytes of a magnitude, without any trailing zero byte.
pub open spec fn magnitude_bytes(m: nat) -> Seq<u8>
    decreases m,
{
    if m == 0 {
        Seq::empty()
    } else {
        seq![(m % 256) as u8] + magnitude_bytes(m / 256)
    }
}

/// The absolute value of an integer.
pub open spec fn magnitude(n: int) -> nat {
    if n < 0 {
        (-n) as nat
    } else {
        n as nat
    }
}

/// The canonical script-number encoding of `n`: empty for zero; otherwise the
/// little-endian magnitude, with the sign carried by the high bit of the last
/// byte (a sign byte is appended when that bit is taken by the magnitude).
pub open spec fn encode_num(n: int) -> Seq<u8> {
    if n == 0 {
        Seq::empty()
    } else {
        let b = magnitude_bytes(magnitude(n));
        let top = b.last();
        if top >= 0x80 {
            b.push(if n < 0 { 0x80u8 } else { 0x00u8 })
        } else if n < 0 {
            b.update(b.len() - 1, (top + 0x80) as u8)
        } else {
            b
        }
    }
}

/// The integer that a byte string denotes as a script number: the
/// little-endian magnitude of all bytes with the high bit of the last byte
/// masked off, negated when that bit is set. No width limit is applied here.
pub open spec fn decode_num(s: Seq<u8>) -> int {
    if s.len() == 0 {
        0
    } else {
        let last = s.last();
        let mag = le_value(s.update(s.len() - 1, last % 0x80));
        if last >= 0x80 {
            -mag
        } else {
            mag as int
        }
    }
}

/// Whether a byte string counts as true: some byte is non-zero, other than a
/// final `0x80` after nothing but zeros (negative zero).
pub open spec fn truthy(s: Seq<u8>) -> bool {
    exists|i: int|
        0 <= i < s.len() && #[trigger] s[i] != 0 && !(i == s.len() - 1 && s[i] == 0x80)
}

/// Encodes an integer as a script number.
pub fn to_script_nb(value: i64) -> (r: Vec<u8>)
    ensures
        r@ == encode_num(value as int),
{
    let mut result: Vec<u8> = Vec::with_capacity(4);
    if value == 0 {
        return result;
    }
    let neg = value < 0;
    let mut m: u64 = if neg {
        ((-(value + 1)) as u64) + 1
    } else {
        value as u64
    };
    assert(m as int == magnitude(value as int));
    while m > 0
        invariant
            result@ + magnitude_bytes(m as nat) == magnitude_bytes(magnitude(value as int)),
        decreases m,
    {
        let ghost before = result@;
        result.push((m % 256) as u8);
        assert(magnitude_bytes(m as nat) == seq![(m % 256) as u8] + magnitude_bytes((m / 256) as nat));
        assert(result@ + magnitude_bytes((m / 256) as nat) =~= before + magnitude_bytes(m as nat));
        m = m / 256;
    }
    assert(result@ =~= magnitude_bytes(magnitude(value as int)));
    let top = result[result.len() - 1];
    if top >= 0x80 {
        result.push(if neg { 0x80u8 } else { 0x00u8 });
    } else if neg {
        let last = result.len() - 1;
        result.set(last, top + 0x80);
    }
    result
}

/// Decodes a script number of at most four bytes; wider input is refused.
/// Non-minimal encodings are accepted.
pub fn as_script_nb(bytes: &[u8]) -> (r: Result<i64, ScriptError>)
    ensures
        bytes@.len() > MAX_NUM_SIZE ==> r == Err::<i64, ScriptError>(ScriptError::NumberOverflow),
        bytes@.len() <= MAX_NUM_SIZE ==> r == Ok::<i64, ScriptError>(decode_num(bytes@) as i64),
        bytes@.len() <= MAX_NUM_SIZE ==> -0x8000_0000 < decode_num(bytes@) < 0x8000_0000,
{
    let n = bytes.len();
    if n > MAX_NUM_SIZE {
        return Err(ScriptError::NumberOverflow);
    }
    if n == 0 {
        return Ok(0);
    }
    proof {
        lemma_decode_bound(bytes@);
    }
    let ghost masked = bytes@.update(n - 1, bytes@.last() % 0x80);
    let last = bytes[n - 1];
    let mut acc: u64 = (last % 0x80) as u64;
    let mut i: usize = n - 1;
    assert(masked.subrange(i as int, n as int).drop_first() =~= Seq::<u8>::empty());
    assert(le_value(Seq::<u8>::empty()) == 0);
    assert(masked.subrange(i as int, n as int)[0] == last % 0x80);
    while i > 0
        invariant
            0 <= i < n <= MAX_NUM_SIZE,
            n == bytes@.len(),
            masked == bytes@.update(n - 1, bytes@.last() % 0x80),
            acc == le_value(masked.subrange(i as int, n as int)),
        decreases i,
    {
        i = i - 1;
        assert(masked.subrange(i as int, n as int).drop_first() =~= masked.subrange(
            i + 1,
            n as int,
        ));
        proof {
            lemma_le_bound(masked.subrange(i + 1, n as int));
            lemma_pow256_small((n - i - 1) as nat);
        }
        acc = acc * 256 + bytes[i] as u64;
    }
    assert(masked.subrange(0, n as int) =~= masked);
    if last >= 0x80 {
        Ok(-(acc as i64))
    } else {
        Ok(acc as i64)
    }
}

/// Interprets a byte string as a boolean; negative zero is false.
pub fn as_bool(bytes: &[u8]) -> (r: bool)
    ensures
        r == truthy(bytes@),
{
    let n = bytes.len();
    let mut i: usize = 0;
    while i < n
        invariant
            i <= n == bytes@.len(),
            forall|j: int| 0 <= j < i ==> bytes@[j] == 0,
        decreases n - i,
    {
        if bytes[i] != 0 {
            if i == n - 1 && bytes[i] == 0x80 {
                assert forall|j: int| 0 <= j < n && #[trigger] bytes@[j] != 0 implies j == n - 1
                    && bytes@[j] == 0x80 by {
                    if j < i {
                    }
                }
                return false;
            }
            return true;
        }
        i = i + 1;
    }
    false
}

pub proof fn lemma_pow256_small(k: nat)
    requires
        k <= 4,
    ensures
        pow256(k) <= 0x1_0000_0000,
        k <= 3 ==> pow256(k) <= 0x100_0000,
{
    reveal_with_fuel(pow256, 5);
}

/// A little-endian value is below `256^len`.
pub proof fn lemma_le_bound(s: Seq<u8>)
    ensures
        le_value(s) < pow256(s.len()),
    decreases s.len(),
{
    if s.len() > 0 {
        lemma_le_bound(s.drop_first());
    }
}

/// The last byte of a little-endian string weighs `256^(len - 1)`.
pub proof fn lemma_le_last(s: Seq<u8>)
    requires
        s.len() > 0,
    ensures
        le_value(s) == le_value(s.drop_last()) + pow256((s.len() - 1) as nat) * s.last() as nat,
    decreases s.len(),
{
    if s.len() == 1 {
        assert(s.drop_first().len() == 0);
        assert(s.drop_last().len() == 0);
        assert(pow256(0) == 1);
        assert(le_value(s) == s[0] as nat + 256 * le_value(s.drop_first()));
        assert(le_value(s.drop_first()) == 0);
        assert(le_value(s.drop_last()) == 0);
        assert(s.last() == s[0]);
    } else {
        let d = s.drop_first();
        lemma_le_last(d);
        assert(d.drop_last() =~= s.drop_last().drop_first());
        assert(s.drop_last()[0] == s[0]);
        assert(d.last() == s.last());
        let p = pow256((d.len() - 1) as nat);
        assert(pow256((s.len() - 1) as nat) == 256 * p);
        assert(256 * (le_value(d.drop_last()) + p * s.last() as nat) == 256 * le_value(
            d.drop_last(),
        ) + (256 * p) * s.last() as nat) by (nonlinear_arith);
        assert(le_value(s) == s[0] as nat + 256 * le_value(d));
        assert(le_value(s.drop_last()) == s[0] as nat + 256 * le_value(d.drop_last()));
        assert(pow256((s.len() - 1) as nat) * s.last() as nat == (256 * p) * s.last() as nat);
    }
}

/// A script number of at most four bytes has magnitude below `2^31`.
pub proof fn lemma_decode_bound(s: Seq<u8>)
    requires
        0 < s.len() <= 4,
    ensures
        -0x8000_0000 < decode_num(s) < 0x8000_0000,
{
    let m = s.update(s.len() - 1, s.last() % 0x80);
    lemma_le_last(m);
    lemma_le_bound(m.drop_last());
    let k = (s.len() - 1) as nat;
    lemma_pow256_small(k);
    let p = pow256(k);
    let lo = le_value(m.drop_last());
    let t = (s.last() % 0x80) as nat;
    assert(m.last() == s.last() % 0x80);
    assert(lo + p * t < 0x8000_0000) by (nonlinear_arith)
        requires
            lo < p,
            p <= 0x100_0000,
            t < 0x80,
    ;
}

/// `magnitude_bytes` is read back by `le_value`.
pub proof fn lemma_magnitude_value(m: nat)
    ensures
        le_value(magnitude_bytes(m)) == m,
        m > 0 ==> magnitude_bytes(m).len() > 0,
    decreases m,
{
    if m > 0 {
        lemma_magnitude_value(m / 256);
        let b = magnitude_bytes(m);
        assert(b.drop_first() =~= magnitude_bytes(m / 256));
    }
}

/// A magnitude below `256^j` takes at most `j` bytes.
pub proof fn lemma_magnitude_len(m: nat, j: nat)
    requires
        m < pow256(j),
    ensures
        magnitude_bytes(m).len() <= j,
    decreases m,
{
    if m > 0 {
        assert(j > 0);
        lemma_magnitude_len(m / 256, (j - 1) as nat);
    }
}

/// Decoding the encoding of any integer of magnitude below `2^31` gives it
/// back, and that encoding is narrow enough to be decoded.
pub proof fn lemma_round_trip(n: int)
    requires
        -0x8000_0000 < n < 0x8000_0000,
    ensures
        encode_num(n).len() <= MAX_NUM_SIZE,
        decode_num(encode_num(n)) == n,
{
    if n != 0 {
        let m = magnitude(n);
        let b = magnitude_bytes(m);
        lemma_magnitude_value(m);
        reveal_with_fuel(pow256, 5);
        lemma_magnitude_len(m, 4);
        let k = b.len();
        let top = b.last();
        lemma_le_last(b);
        lemma_pow256_small((k - 1) as nat);
        let e = encode_num(n);
        assert(e.len() > 0);
        let masked = e.update(e.len() - 1, e.last() % 0x80);
        if top >= 0x80 {
            let p = pow256((k - 1) as nat);
            if k == 4 {
                assert(p * top as nat >= 0x100_0000 * 0x80) by (nonlinear_arith)
                    requires
                        p == 0x100_0000,
                        top >= 0x80,
                ;
            }
            assert(k < 4);
            let x: u8 = if n < 0 { 0x80 } else { 0x00 };
            assert(e == b.push(x));
            assert(masked =~= b.push(0));
            lemma_le_last(b.push(0));
            assert(b.push(0).drop_last() =~= b);
            assert(le_value(masked) == m);
            assert(e.last() >= 0x80 <==> n < 0);
        } else if n < 0 {
            assert(e.last() == top + 0x80);
            assert(masked =~= b);
            assert(le_value(masked) == m);
        } else {
            assert(e == b);
            assert(masked =~= b);
            assert(le_value(masked) == m);
        }
    }
}

/// Numbers of magnitude below `2^40` encode in at most six bytes.
pub proof fn lemma_encode_len(n: int)
    requires
        -0x100_0000_0000 < n < 0x100_0000_0000,
    ensures
        encode_num(n).len() <= 6,
{
    if n != 0 {
        reveal_with_fuel(pow256, 6);
        lemma_magnitude_len(magnitude(n), 5);
    }
}

/// Zero has the empty encoding, and the empty string decodes to zero.
pub proof fn lemma_zero_canonical()
    ensures
        encode_num(0) == Seq::<u8>::empty(),
        decode_num(Seq::<u8>::empty()) == 0,
{
}

/// Whether `s` is zero or more zero bytes followed by one final byte `last`.
pub open spec fn zeros_then(s: Seq<u8>, last: u8) -> bool {
    s.len() > 0 && s.last() == last && forall|i: int| 0 <= i < s.len() - 1 ==> s[i] == 0
}

/// Negative zero and the empty string are false; any byte string with a
/// non-zero byte is true, except negative zero written with leading zero
/// bytes (such as `00 80`), which is false as well.
pub proof fn lemma_negative_zero(s: Seq<u8>)
    ensures
        !truthy(seq![0x80u8]),
        !truthy(Seq::<u8>::empty()),
        zeros_then(s, 0x80) ==> !truthy(s),
        (exists|i: int| 0 <= i < s.len() && s[i] != 0) && !zeros_then(s, 0x80) ==> truthy(s),
{
    assert(zeros_then(seq![0x80u8], 0x80));
    if (exists|i: int| 0 <= i < s.len() && s[i] != 0) && !zeros_then(s, 0x80) {
        let i = choose|i: int| 0 <= i < s.len() && s[i] != 0;
        if i == s.len() - 1 && s[i] == 0x80 {
            let j = choose|j: int| 0 <= j < s.len() - 1 && s[j] != 0;
            assert(s[j] != 0);
        }
    }
}

} // verus!
