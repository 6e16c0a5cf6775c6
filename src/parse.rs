//! The decoder: splits raw script bytes into opcodes and data pushes.
use vstd::prelude::*;

use crate::opcodes::{Opcode, OP_PUSHDATA1, OP_PUSHDATA2, OP_PUSHDATA4};
use crate::script::{le_value, ItemView, Script, ScriptError, ScriptItem};

verus! {

/// The number of length bytes that follow a length-prefixed push opcode.
pub open spec fn length_width(op: u8) -> int {
    if op == OP_PUSHDATA1 {
        1
    } else if op == OP_PUSHDATA2 {
        2
    } else {
        4
    }
}

/// A push of `n` bytes starting at `start`, or a framing error when the bytes
/// run out.
pub open spec fn take_push(s: Seq<u8>, start: int, n: int) -> Result<
    Option<(ItemView, int)>,
    ScriptError,
> {
    if start + n > s.len() {
        Err(ScriptError::BadOpcode)
    } else {
        Ok(Some((ItemView::Data(s.subrange(start, start + n)), start + n)))
    }
}

/// Decoding one item at position `pc`: nothing at the end of the bytes;
/// otherwise the item and the position just after it.
pub open spec fn decode_step(s: Seq<u8>, pc: int) -> Result<Option<(ItemView, int)>, ScriptError> {
    if pc >= s.len() {
        Ok(None)
    } else {
        let op = s[pc];
        if 1 <= op <= 75 {
            take_push(s, pc + 1, op as int)
        } else if op == OP_PUSHDATA1 || op == OP_PUSHDATA2 || op == OP_PUSHDATA4 {
            let w = length_width(op);
            if pc + 1 + w > s.len() {
                Err(ScriptError::BadOpcode)
            } else {
                take_push(s, pc + 1 + w, le_value(s.subrange(pc + 1, pc + 1 + w)) as int)
            }
        } else {
            Ok(Some((ItemView::Op(op), pc + 1)))
        }
    }
}

/// Each decoded item ends after it starts and within the bytes.
pub proof fn lemma_step_advances(s: Seq<u8>, pc: int)
    ensures
        decode_step(s, pc) matches Ok(Some((_, next))) ==> pc < next <= s.len(),
        decode_step(s, pc) matches Ok(None) ==> pc >= s.len(),
{
}

/// All items from position `pc` to the end, or the first framing error.
pub open spec fn decode_all(s: Seq<u8>, pc: int) -> Result<Seq<ItemView>, ScriptError>
    decreases s.len() - pc,
    via decode_all_decreases
{
    match decode_step(s, pc) {
        Err(e) => Err(e),
        Ok(None) => Ok(Seq::empty()),
        Ok(Some((item, next))) => match decode_all(s, next) {
            Ok(rest) => Ok(seq![item] + rest),
            Err(e) => Err(e),
        },
    }
}

#[via_fn]
proof fn decode_all_decreases(s: Seq<u8>, pc: int) {
    lemma_step_advances(s, pc);
}

/// The position that decoding reaches from `pc` by repeated steps, where it
/// stops at the end of the bytes or at a framing error.
pub open spec fn end_position(s: Seq<u8>, pc: int) -> int
    decreases s.len() - pc,
    via end_position_decreases
{
    match decode_step(s, pc) {
        Ok(Some((_, next))) => end_position(s, next),
        _ => pc,
    }
}

#[via_fn]
proof fn end_position_decreases(s: Seq<u8>, pc: int) {
    lemma_step_advances(s, pc);
}

/// Decoding a well-framed script from the start consumes exactly all of its
/// bytes.
pub proof fn lemma_consumes_all(s: Seq<u8>)
    requires
        decode_all(s, 0) is Ok,
    ensures
        end_position(s, 0) == s.len(),
{
    lemma_consumes_from(s, 0);
}

proof fn lemma_consumes_from(s: Seq<u8>, pc: int)
    requires
        0 <= pc <= s.len(),
        decode_all(s, pc) is Ok,
    ensures
        end_position(s, pc) == s.len(),
    decreases s.len() - pc,
{
    lemma_step_advances(s, pc);
    if let Ok(Some((_, next))) = decode_step(s, pc) {
        lemma_consumes_from(s, next);
    }
}

/// Reads the unsigned little-endian value of `bytes[start..end]`.
fn read_le(bytes: &[u8], start: usize, end: usize) -> (r: u64)
    requires
        start <= end <= bytes@.len(),
        end - start <= 4,
    ensures
        r == le_value(bytes@.subrange(start as int, end as int)),
{
    let mut acc: u64 = 0;
    let mut i: usize = end;
    assert(bytes@.subrange(end as int, end as int).len() == 0);
    while i > start
        invariant
            start <= i <= end <= bytes@.len(),
            end - start <= 4,
            acc == le_value(bytes@.subrange(i as int, end as int)),
        decreases i,
    {
        i = i - 1;
        assert(bytes@.subrange(i as int, end as int).drop_first() =~= bytes@.subrange(
            i + 1,
            end as int,
        ));
        proof {
            crate::script::lemma_le_bound(bytes@.subrange(i + 1, end as int));
            crate::script::lemma_pow256_small((end - i - 1) as nat);
        }
        acc = acc * 256 + bytes[i] as u64;
    }
    acc
}

/// Copies `n` bytes from `start` as a push item, or fails when they run out.
fn take_data(bytes: &[u8], start: usize, n: u64) -> (r: Result<(ScriptItem, usize), ScriptError>)
    requires
        start <= bytes@.len(),
    ensures
        match take_push(bytes@, start as int, n as int) {
            Ok(Some((v, next))) => r matches Ok((item, p)) && item@ == v && p == next,
            Err(e) => r == Err::<(ScriptItem, usize), ScriptError>(e),
            _ => false,
        },
{
    let room = bytes.len() - start;
    if n > room as u64 {
        return Err(ScriptError::BadOpcode);
    }
    let end = start + n as usize;
    let data = vstd::slice::slice_to_vec(vstd::slice::slice_subrange(bytes, start, end));
    Ok((ScriptItem::ByteArray(data), end))
}

/// Decodes the item at `*pc` and moves `*pc` past it. At the end of the bytes
/// it gives `None`; on a framing error, or at the end, `*pc` is left as it was.
pub fn parse_one_op(bytes: &[u8], pc: &mut usize) -> (r: Result<Option<ScriptItem>, ScriptError>)
    ensures
        match decode_step(bytes@, *old(pc) as int) {
            Ok(Some((v, next))) => r matches Ok(Some(item)) && item@ == v && *final(pc) == next,
            Ok(None) => r matches Ok(None) && *final(pc) == *old(pc),
            Err(e) => r == Err::<Option<ScriptItem>, ScriptError>(e) && *final(pc) == *old(pc),
        },
{
    let at = *pc;
    let n = bytes.len();
    if at >= n {
        return Ok(None);
    }
    let op = bytes[at];
    let step = if 1 <= op && op <= 75 {
        take_data(bytes, at + 1, op as u64)
    } else if op == OP_PUSHDATA1 || op == OP_PUSHDATA2 || op == OP_PUSHDATA4 {
        let w: usize = if op == OP_PUSHDATA1 {
            1
        } else if op == OP_PUSHDATA2 {
            2
        } else {
            4
        };
        if w > n - at - 1 {
            return Err(ScriptError::BadOpcode);
        }
        let len = read_le(bytes, at + 1, at + 1 + w);
        take_data(bytes, at + 1 + w, len)
    } else {
        Ok((ScriptItem::Opcode(Opcode { code: op }), at + 1))
    };
    match step {
        Ok((item, next)) => {
            *pc = next;
            Ok(Some(item))
        },
        Err(e) => Err(e),
    }
}

/// The mathematical values of a sequence of items.
pub open spec fn views(items: Seq<ScriptItem>) -> Seq<ItemView> {
    items.map_values(|i: ScriptItem| i@)
}

/// `prefix` put in front of a decoding result, errors passed on.
pub open spec fn prepend(prefix: Seq<ItemView>, r: Result<Seq<ItemView>, ScriptError>) -> Result<
    Seq<ItemView>,
    ScriptError,
> {
    match r {
        Ok(rest) => Ok(prefix + rest),
        Err(e) => Err(e),
    }
}

/// Decodes a whole script into its items, or gives the first framing error.
pub fn parse_script(bytes: &[u8]) -> (r: Result<Script, ScriptError>)
    ensures
        match decode_all(bytes@, 0) {
            Ok(items) => r matches Ok(sc) && sc.valid && views(sc.items@) == items,
            Err(e) => r matches Err(f) && f == e,
        },
{
    let mut items: Vec<ScriptItem> = Vec::new();
    let mut cursor: usize = 0;
    loop
        invariant
            cursor <= bytes@.len(),
            decode_all(bytes@, 0) == prepend(views(items@), decode_all(bytes@, cursor as int)),
        decreases bytes@.len() - cursor,
    {
        let ghost before = cursor as int;
        proof {
            lemma_step_advances(bytes@, before);
        }
        match parse_one_op(bytes, &mut cursor) {
            Err(e) => {
                return Err(e);
            },
            Ok(None) => {
                assert(views(items@) + Seq::<ItemView>::empty() =~= views(items@));
                return Ok(Script { valid: true, items });
            },
            Ok(Some(item)) => {
                let ghost old_items = items@;
                items.push(item);
                assert(views(items@) =~= views(old_items).push(item@));
                proof {
                    let rest = decode_all(bytes@, cursor as int);
                    if let Ok(r) = rest {
                        assert(views(old_items) + (seq![item@] + r) =~= views(old_items).push(
                            item@,
                        ) + r);
                    }
                }
            },
        }
    }
}

} // verus!
