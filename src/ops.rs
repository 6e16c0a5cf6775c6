//! Execution of the non-conditional opcodes on the stacks, family by family.
use vstd::prelude::*;

use crate::hashes::{hash160, ripemd160, sha1, sha256, sha256d};
use crate::opcodes::{
    OP_0, OP_0NOTEQUAL, OP_1, OP_16, OP_1ADD, OP_1NEGATE, OP_1SUB, OP_2DROP, OP_2DUP, OP_2OVER,
    OP_2ROT, OP_2SWAP, OP_3DUP, OP_ABS, OP_ADD, OP_BOOLAND, OP_BOOLOR, OP_CHECKLOCKTIMEVERIFY,
    OP_CHECKSEQUENCEVERIFY, OP_DEPTH, OP_DROP, OP_DUP, OP_EQUAL, OP_EQUALVERIFY, OP_FROMALTSTACK,
    OP_GREATERTHAN, OP_GREATERTHANOREQUAL, OP_HASH160, OP_HASH256, OP_IFDUP, OP_LESSTHAN,
    OP_LESSTHANOREQUAL, OP_MAX, OP_MIN, OP_NEGATE, OP_NIP, OP_NOP, OP_NOP1, OP_NOP10, OP_NOP4,
    OP_NOT, OP_NUMEQUAL, OP_NUMEQUALVERIFY, OP_NUMNOTEQUAL, OP_OVER, OP_PICK, OP_RETURN,
    OP_RIPEMD160, OP_ROLL, OP_ROT, OP_SHA1, OP_SHA256, OP_SIZE, OP_SUB, OP_SWAP, OP_TOALTSTACK,
    OP_TUCK, OP_VERIFY, OP_WITHIN,
};
use crate::script::{as_bool, as_script_nb, encode_num, lemma_encode_len, to_script_nb, ScriptError};
use crate::semantics::{
    apply_op, bytes_op, crypto_op, flow_op, numeric_op, stack_op, binary_result, unary_result,
};
use crate::stack::{Stack, StackView, MAX_SCRIPT_ELEMENT_SIZE};

verus! {

/// Whether `r`, with the stacks left as `after`, is the outcome `expected`.
pub open spec fn agrees(
    r: Result<(), ScriptError>,
    after: StackView,
    expected: Result<StackView, ScriptError>,
) -> bool {
    match expected {
        Ok(v) => r is Ok && after == v,
        Err(e) => r == Err::<(), ScriptError>(e),
    }
}

/// Whether `r` is the outcome of a family of opcodes: `None` for an opcode
/// outside it, with the stacks untouched.
pub open spec fn agrees_family(
    r: Option<Result<(), ScriptError>>,
    before: StackView,
    after: StackView,
    expected: Option<Result<StackView, ScriptError>>,
) -> bool {
    match expected {
        None => r is None && after == before,
        Some(x) => r is Some && agrees(r->Some_0, after, x),
    }
}

/// Whether two byte strings are equal.
fn bytes_equal(a: &Vec<u8>, b: &Vec<u8>) -> (r: bool)
    ensures
        r == (a@ == b@),
{
    if a.len() != b.len() {
        return false;
    }
    let mut i: usize = 0;
    while i < a.len()
        invariant
            a@.len() == b@.len(),
            i <= a@.len(),
            forall|j: int| 0 <= j < i ==> a@[j] == b@[j],
        decreases a@.len() - i,
    {
        if a[i] != b[i] {
            return false;
        }
        i = i + 1;
    }
    assert(a@ =~= b@);
    true
}

/// Pushes one element no longer than the element bound.
fn push_small(stack: &mut Stack, v: Vec<u8>) -> (r: Result<(), ScriptError>)
    requires
        v@.len() <= MAX_SCRIPT_ELEMENT_SIZE,
    ensures
        agrees(r, final(stack)@, crate::semantics::grow(old(stack)@, seq![v@])),
{
    let ghost w = v@;
    let r = stack.push(v);
    assert(old(stack)@.main.push(w) =~= old(stack)@.main + seq![w]);
    r
}

proof fn lemma_wf_elem(st: StackView, i: int)
    requires
        st.wf(),
        0 <= i < st.main.len(),
    ensures
        st.main[i].len() <= MAX_SCRIPT_ELEMENT_SIZE,
{
}

/// Copies the elements at offsets `-(k-1)` to `0` from the top (`k` of them,
/// deepest first, skipping the `skip` topmost) and pushes them.
fn copy_group(stack: &mut Stack, k: usize, skip: usize) -> (r: Result<(), ScriptError>)
    requires
        old(stack)@.wf(),
        1 <= k <= 3,
        skip <= 2,
    ensures
        agrees(
            r,
            final(stack)@,
            if old(stack)@.main.len() < k + skip {
                Err(ScriptError::InvalidStackOperation)
            } else {
                crate::semantics::grow(
                    old(stack)@,
                    old(stack)@.main.subrange(
                        old(stack)@.main.len() - k - skip,
                        old(stack)@.main.len() - skip,
                    ),
                )
            },
        ),
{
    let ghost st = stack@;
    let n = stack.main.len();
    if n < k + skip {
        return Err(ScriptError::InvalidStackOperation);
    }
    let mut i: usize = 0;
    while i < k
        invariant
            st == old(stack)@,
            st.wf(),
            n == st.main.len(),
            k + skip <= n,
            1 <= k <= 3,
            skip <= 2,
            i <= k,
            stack.main@.len() == n + i,
            st.total() + i <= crate::stack::MAX_STACK_SIZE,
            stack@ == (StackView {
                main: st.main + st.main.subrange(n - k - skip, n - k - skip + i),
                alt: st.alt,
            }),
        decreases k - i,
    {
        let idx = n - k - skip + i;
        proof {
            lemma_wf_elem(st, idx as int);
            assert(stack@.main[idx as int] == stack.main@[idx as int]@);
            assert(stack@.main[idx as int] == st.main[idx as int]);
        }
        let v = vstd::slice::slice_to_vec(stack.main[idx].as_slice());
        assert(v@ == st.main[idx as int]);
        let ghost before = stack@;
        let pushed = stack.push(v);
        if pushed.is_err() {
            return Err(ScriptError::StackOverflow);
        }
        assert(st.main + st.main.subrange(n - k - skip, n - k - skip + i + 1) =~= before.main.push(
            st.main[idx as int],
        ));
        i = i + 1;
    }
    Ok(())
}

/// `OP_TOALTSTACK` and `OP_FROMALTSTACK`.
fn move_between(stack: &mut Stack, op: u8) -> (r: Result<(), ScriptError>)
    requires
        op == OP_TOALTSTACK || op == OP_FROMALTSTACK,
    ensures
        agrees(r, final(stack)@, stack_op(old(stack)@, op)->Some_0),
{
    if op == OP_TOALTSTACK {
        let v = stack.pop()?;
        stack.push_alt(v)
    } else {
        let v = stack.pop_alt()?;
        stack.push(v)
    }
}

/// `OP_2DROP` and `OP_DROP`.
fn drop_top(stack: &mut Stack, op: u8) -> (r: Result<(), ScriptError>)
    requires
        op == OP_2DROP || op == OP_DROP,
    ensures
        agrees(r, final(stack)@, stack_op(old(stack)@, op)->Some_0),
{
    stack.pop()?;
    if op == OP_2DROP {
        stack.pop()?;
        assert(stack@.main =~= old(stack)@.main.subrange(0, old(stack)@.main.len() - 2));
    }
    Ok(())
}

/// `OP_2ROT`: the third pair from the top is moved to the top.
fn rotate_pairs(stack: &mut Stack) -> (r: Result<(), ScriptError>)
    requires
        old(stack)@.wf(),
    ensures
        agrees(r, final(stack)@, stack_op(old(stack)@, OP_2ROT)->Some_0),
{
    let ghost m = stack@.main;
    let ghost n = m.len();
    let v1 = stack.rm_top(-5)?;
    let v2 = stack.rm_top(-4)?;
    proof {
        lemma_wf_elem(old(stack)@, n - 6);
        lemma_wf_elem(old(stack)@, n - 5);
    }
    stack.push(v1)?;
    stack.push(v2)?;
    assert(stack@.main =~= m.subrange(0, n - 6) + m.subrange(n - 4, n as int) + m.subrange(
        n - 6,
        n - 4,
    ));
    Ok(())
}

/// `OP_2SWAP`: the two top pairs change places.
fn swap_pairs(stack: &mut Stack) -> (r: Result<(), ScriptError>)
    ensures
        agrees(r, final(stack)@, stack_op(old(stack)@, OP_2SWAP)->Some_0),
{
    let ghost m = stack@.main;
    let ghost n = m.len();
    if stack.main.len() < 4 {
        return Err(ScriptError::InvalidStackOperation);
    }
    stack.swap_top(0, -2)?;
    stack.swap_top(-1, -3)?;
    assert(stack@.main =~= m.subrange(0, n - 4) + m.subrange(n - 2, n as int) + m.subrange(
        n - 4,
        n - 2,
    ));
    Ok(())
}

/// `OP_IFDUP`: the top is duplicated when it is true.
fn dup_if_true(stack: &mut Stack) -> (r: Result<(), ScriptError>)
    requires
        old(stack)@.wf(),
    ensures
        agrees(r, final(stack)@, stack_op(old(stack)@, OP_IFDUP)->Some_0),
{
    let v = stack.top(0)?;
    if as_bool(v.as_slice()) {
        proof {
            lemma_wf_elem(old(stack)@, old(stack)@.main.len() - 1);
        }
        push_small(stack, v)
    } else {
        Ok(())
    }
}

/// `OP_DEPTH`: pushes how many elements the main stack holds.
fn push_depth(stack: &mut Stack) -> (r: Result<(), ScriptError>)
    requires
        old(stack)@.wf(),
    ensures
        agrees(r, final(stack)@, stack_op(old(stack)@, OP_DEPTH)->Some_0),
{
    let d = stack.main.len() as i64;
    proof {
        lemma_encode_len(d as int);
    }
    push_small(stack, to_script_nb(d))
}

/// `OP_NIP` and `OP_ROT`: removes the second or third element from the top,
/// and for `OP_ROT` pushes it again.
fn take_out(stack: &mut Stack, op: u8) -> (r: Result<(), ScriptError>)
    requires
        old(stack)@.wf(),
        op == OP_NIP || op == OP_ROT,
    ensures
        agrees(r, final(stack)@, stack_op(old(stack)@, op)->Some_0),
{
    let ghost m = stack@.main;
    let ghost n = m.len();
    if op == OP_NIP {
        stack.rm_top(-1)?;
        Ok(())
    } else {
        let v = stack.rm_top(-2)?;
        proof {
            lemma_wf_elem(old(stack)@, n - 3);
        }
        stack.push(v)
    }
}

/// `OP_PICK` (copy) and `OP_ROLL` (move): the top gives the depth of the
/// element that is brought to the top.
fn pick_or_roll(stack: &mut Stack, op: u8) -> (r: Result<(), ScriptError>)
    requires
        old(stack)@.wf(),
        op == OP_PICK || op == OP_ROLL,
    ensures
        agrees(r, final(stack)@, stack_op(old(stack)@, op)->Some_0),
{
    let ghost m = stack@.main;
    let ghost n = m.len();
    let v = stack.pop()?;
    let k = as_script_nb(v.as_slice())?;
    if k < 0 || k as u64 >= stack.main.len() as u64 {
        return Err(ScriptError::InvalidStackOperation);
    }
    proof {
        lemma_wf_elem(old(stack)@, n - 2 - k);
    }
    if op == OP_PICK {
        let c = stack.top(-k)?;
        stack.push(c)
    } else {
        let c = stack.rm_top(-k)?;
        stack.push(c)
    }
}

/// `OP_SWAP`: the two top elements change places.
fn swap_two(stack: &mut Stack) -> (r: Result<(), ScriptError>)
    ensures
        agrees(r, final(stack)@, stack_op(old(stack)@, OP_SWAP)->Some_0),
{
    let ghost m = stack@.main;
    let ghost n = m.len();
    stack.swap_top(0, -1)?;
    assert(stack@.main =~= m.subrange(0, n - 2) + seq![m[n - 1], m[n - 2]]);
    Ok(())
}

/// `OP_TUCK`: a copy of the top goes below the second element.
fn tuck(stack: &mut Stack) -> (r: Result<(), ScriptError>)
    requires
        old(stack)@.wf(),
    ensures
        agrees(r, final(stack)@, stack_op(old(stack)@, OP_TUCK)->Some_0),
{
    let ghost m = stack@.main;
    let ghost n = m.len();
    let v1 = stack.pop()?;
    let v2 = stack.pop()?;
    proof {
        lemma_wf_elem(old(stack)@, n - 1);
        lemma_wf_elem(old(stack)@, n - 2);
    }
    let v3 = vstd::slice::slice_to_vec(v1.as_slice());
    stack.push(v1)?;
    stack.push(v2)?;
    stack.push(v3)?;
    assert(stack@.main =~= m.subrange(0, n - 2) + seq![m[n - 1], m[n - 2], m[n - 1]]);
    Ok(())
}

/// Executes a stack-manipulation opcode; `None` for any other opcode.
fn exec_stack_op(stack: &mut Stack, op: u8) -> (r: Option<Result<(), ScriptError>>)
    requires
        old(stack)@.wf(),
    ensures
        agrees_family(r, old(stack)@, final(stack)@, stack_op(old(stack)@, op)),
{
    let ghost m = stack@.main;
    let ghost n = m.len();
    if op == OP_TOALTSTACK || op == OP_FROMALTSTACK {
        Some(move_between(stack, op))
    } else if op == OP_2DROP || op == OP_DROP {
        Some(drop_top(stack, op))
    } else if op == OP_2DUP {
        Some(copy_group(stack, 2, 0))
    } else if op == OP_3DUP {
        Some(copy_group(stack, 3, 0))
    } else if op == OP_2OVER {
        Some(copy_group(stack, 2, 2))
    } else if op == OP_2ROT {
        Some(rotate_pairs(stack))
    } else if op == OP_2SWAP {
        Some(swap_pairs(stack))
    } else if op == OP_IFDUP {
        Some(dup_if_true(stack))
    } else if op == OP_DEPTH {
        Some(push_depth(stack))
    } else if op == OP_DUP {
        let r = copy_group(stack, 1, 0);
        assert(n >= 1 ==> m.subrange(n - 1, n as int) =~= seq![m.last()]);
        Some(r)
    } else if op == OP_OVER {
        let r = copy_group(stack, 1, 1);
        assert(n >= 2 ==> m.subrange(n - 2, n - 1) =~= seq![m[n - 2]]);
        Some(r)
    } else if op == OP_NIP || op == OP_ROT {
        Some(take_out(stack, op))
    } else if op == OP_PICK || op == OP_ROLL {
        Some(pick_or_roll(stack, op))
    } else if op == OP_SWAP {
        Some(swap_two(stack))
    } else if op == OP_TUCK {
        Some(tuck(stack))
    } else {
        None
    }
}

/// Executes a constant, no-op, `OP_VERIFY` or `OP_RETURN`; `None` for any
/// other opcode.
fn exec_flow_op(stack: &mut Stack, op: u8) -> (r: Option<Result<(), ScriptError>>)
    requires
        old(stack)@.wf(),
    ensures
        agrees_family(r, old(stack)@, final(stack)@, flow_op(old(stack)@, op)),
{
    if op == OP_0 {
        Some(push_small(stack, Vec::new()))
    } else if op == OP_1NEGATE || (OP_1 <= op && op <= OP_16) {
        let v: i64 = if op == OP_1NEGATE {
            -1
        } else {
            (op - OP_1 + 1) as i64
        };
        proof {
            lemma_encode_len(v as int);
        }
        Some(push_small(stack, to_script_nb(v)))
    } else if op == OP_NOP || op == OP_NOP1 || op == OP_CHECKLOCKTIMEVERIFY || op
        == OP_CHECKSEQUENCEVERIFY || (OP_NOP4 <= op && op <= OP_NOP10) {
        Some(Ok(()))
    } else if op == OP_VERIFY {
        Some(verify_top(stack))
    } else if op == OP_RETURN {
        Some(Err(ScriptError::OpReturn))
    } else {
        None
    }
}

/// `OP_VERIFY`: the top is consumed and must be true.
fn verify_top(stack: &mut Stack) -> (r: Result<(), ScriptError>)
    ensures
        agrees(r, final(stack)@, flow_op(old(stack)@, OP_VERIFY)->Some_0),
{
    let v = stack.pop()?;
    if as_bool(v.as_slice()) {
        Ok(())
    } else {
        Err(ScriptError::Verify)
    }
}

/// Executes `OP_SIZE`, `OP_EQUAL` or `OP_EQUALVERIFY`; `None` for any other
/// opcode.
fn exec_bytes_op(stack: &mut Stack, op: u8) -> (r: Option<Result<(), ScriptError>>)
    requires
        old(stack)@.wf(),
    ensures
        agrees_family(r, old(stack)@, final(stack)@, bytes_op(old(stack)@, op)),
{
    if op == OP_SIZE {
        Some(push_size(stack))
    } else if op == OP_EQUAL || op == OP_EQUALVERIFY {
        Some(compare_top(stack, op))
    } else {
        None
    }
}

/// `OP_SIZE`: pushes the length of the top, which stays.
fn push_size(stack: &mut Stack) -> (r: Result<(), ScriptError>)
    requires
        old(stack)@.wf(),
    ensures
        agrees(r, final(stack)@, bytes_op(old(stack)@, OP_SIZE)->Some_0),
{
    let v = stack.top(0)?;
    proof {
        lemma_wf_elem(old(stack)@, old(stack)@.main.len() - 1);
        lemma_encode_len(v@.len() as int);
    }
    push_small(stack, to_script_nb(v.len() as i64))
}

/// `OP_EQUAL` and `OP_EQUALVERIFY`: compares the two top elements.
fn compare_top(stack: &mut Stack, op: u8) -> (r: Result<(), ScriptError>)
    requires
        old(stack)@.wf(),
        op == OP_EQUAL || op == OP_EQUALVERIFY,
    ensures
        agrees(r, final(stack)@, bytes_op(old(stack)@, op)->Some_0),
{
    let ghost m = stack@.main;
    let ghost n = m.len();
    let v1 = stack.pop()?;
    let v2 = stack.pop()?;
    let same = bytes_equal(&v1, &v2);
    assert(m.drop_last().drop_last() =~= m.subrange(0, n - 2));
    if op == OP_EQUAL {
        let mut b: Vec<u8> = Vec::new();
        if same {
            b.push(1u8);
        }
        assert(b@ =~= crate::semantics::bool_bytes(same));
        stack.push(b)
    } else if same {
        Ok(())
    } else {
        Err(ScriptError::EqualVerify)
    }
}

/// Pops the top and reads it as a script number.
fn pop_number(stack: &mut Stack) -> (r: Result<i64, ScriptError>)
    ensures
        old(stack)@.main.len() == 0 ==> r == Err::<i64, ScriptError>(
            ScriptError::InvalidStackOperation,
        ),
        old(stack)@.main.len() > 0 && old(stack)@.main.last().len() > 4 ==> r == Err::<
            i64,
            ScriptError,
        >(ScriptError::NumberOverflow),
        old(stack)@.main.len() > 0 && old(stack)@.main.last().len() <= 4 ==> r is Ok && r->Ok_0
            == crate::script::decode_num(old(stack)@.main.last()) && -0x8000_0000 < r->Ok_0
            < 0x8000_0000 && final(stack)@ == crate::semantics::popped(old(stack)@),
{
    let v = stack.pop()?;
    as_script_nb(v.as_slice())
}

/// Executes an arithmetic opcode; `None` for any other opcode.
fn exec_numeric_op(stack: &mut Stack, op: u8) -> (r: Option<Result<(), ScriptError>>)
    requires
        old(stack)@.wf(),
    ensures
        agrees_family(r, old(stack)@, final(stack)@, numeric_op(old(stack)@, op)),
{
    if op == OP_1ADD || op == OP_1SUB || op == OP_NEGATE || op == OP_ABS || op == OP_NOT || op
        == OP_0NOTEQUAL {
        Some(unary(stack, op))
    } else if op == OP_ADD || op == OP_SUB || op == OP_BOOLAND || op == OP_BOOLOR || op
        == OP_NUMEQUAL || op == OP_NUMEQUALVERIFY || op == OP_NUMNOTEQUAL || op == OP_LESSTHAN
        || op == OP_GREATERTHAN || op == OP_LESSTHANOREQUAL || op == OP_GREATERTHANOREQUAL || op
        == OP_MIN || op == OP_MAX {
        Some(binary(stack, op))
    } else if op == OP_WITHIN {
        Some(within(stack))
    } else {
        None
    }
}

/// The one-number opcodes.
fn unary(stack: &mut Stack, op: u8) -> (r: Result<(), ScriptError>)
    requires
        old(stack)@.wf(),
        crate::semantics::is_unary(op),
    ensures
        agrees(r, final(stack)@, numeric_op(old(stack)@, op)->Some_0),
{
    let v = pop_number(stack)?;
    let res: i64 = if op == OP_1ADD {
        v + 1
    } else if op == OP_1SUB {
        v - 1
    } else if op == OP_NEGATE {
        -v
    } else if op == OP_ABS {
        if v < 0 {
            -v
        } else {
            v
        }
    } else if op == OP_NOT {
        if v == 0 {
            1
        } else {
            0
        }
    } else {
        if v != 0 {
            1
        } else {
            0
        }
    };
    assert(res == unary_result(op, v as int));
    proof {
        lemma_encode_len(res as int);
    }
    let ghost before = stack@;
    let r = stack.push(to_script_nb(res));
    assert(old(stack)@.main.drop_last().push(encode_num(res as int)) == before.main.push(
        encode_num(res as int),
    ));
    r
}

/// The two-number opcodes; the top is the second operand.
fn binary(stack: &mut Stack, op: u8) -> (r: Result<(), ScriptError>)
    requires
        old(stack)@.wf(),
        crate::semantics::is_binary(op),
    ensures
        agrees(r, final(stack)@, numeric_op(old(stack)@, op)->Some_0),
{
    let ghost m = stack@.main;
    let ghost n = m.len();
    let b = pop_number(stack)?;
    let a = pop_number(stack)?;
    assert(m.drop_last().drop_last() =~= m.subrange(0, n - 2));
    assert(m.drop_last().last() == m[n - 2]);
    if op == OP_NUMEQUALVERIFY {
        return if a == b {
            Ok(())
        } else {
            Err(ScriptError::NumEqualVerify)
        };
    }
    let res: i64 = if op == OP_ADD {
        a + b
    } else if op == OP_SUB {
        a - b
    } else if op == OP_BOOLAND {
        if a != 0 && b != 0 {
            1
        } else {
            0
        }
    } else if op == OP_BOOLOR {
        if a != 0 || b != 0 {
            1
        } else {
            0
        }
    } else if op == OP_NUMEQUAL {
        if a == b {
            1
        } else {
            0
        }
    } else if op == OP_NUMNOTEQUAL {
        if a != b {
            1
        } else {
            0
        }
    } else if op == OP_LESSTHAN {
        if a < b {
            1
        } else {
            0
        }
    } else if op == OP_GREATERTHAN {
        if a > b {
            1
        } else {
            0
        }
    } else if op == OP_LESSTHANOREQUAL {
        if a <= b {
            1
        } else {
            0
        }
    } else if op == OP_GREATERTHANOREQUAL {
        if a >= b {
            1
        } else {
            0
        }
    } else if op == OP_MIN {
        if a <= b {
            a
        } else {
            b
        }
    } else {
        if a >= b {
            a
        } else {
            b
        }
    };
    assert(res == binary_result(op, a as int, b as int));
    proof {
        lemma_encode_len(res as int);
    }
    stack.push(to_script_nb(res))
}

/// `OP_WITHIN`: whether `min <= x < max`, popping `max`, `min`, then `x`.
fn within(stack: &mut Stack) -> (r: Result<(), ScriptError>)
    requires
        old(stack)@.wf(),
    ensures
        agrees(r, final(stack)@, numeric_op(old(stack)@, OP_WITHIN)->Some_0),
{
    let ghost m = stack@.main;
    let ghost n = m.len();
    let hi_bytes = stack.pop()?;
    let lo_bytes = stack.pop()?;
    let x_bytes = stack.pop()?;
    assert(m.drop_last().drop_last().drop_last() =~= m.subrange(0, n - 3));
    let hi = as_script_nb(hi_bytes.as_slice())?;
    let lo = as_script_nb(lo_bytes.as_slice())?;
    let x = as_script_nb(x_bytes.as_slice())?;
    let res: i64 = if lo <= x && x < hi {
        1
    } else {
        0
    };
    proof {
        lemma_encode_len(res as int);
    }
    stack.push(to_script_nb(res))
}

/// Executes a crypto opcode: the top is replaced by its digest; `None` for
/// any other opcode.
fn exec_crypto_op(stack: &mut Stack, op: u8) -> (r: Option<Result<(), ScriptError>>)
    ensures
        agrees_family(r, old(stack)@, final(stack)@, crypto_op(old(stack)@, op)),
{
    if op < OP_RIPEMD160 || op > OP_HASH256 {
        return None;
    }
    let v = match stack.pop() {
        Ok(v) => v,
        Err(e) => return Some(Err(e)),
    };
    let h = if op == OP_RIPEMD160 {
        ripemd160(v.as_slice())
    } else if op == OP_SHA1 {
        sha1(v.as_slice())
    } else if op == OP_SHA256 {
        sha256(v.as_slice())
    } else if op == OP_HASH160 {
        hash160(v.as_slice())
    } else {
        sha256d(v.as_slice())
    };
    Some(stack.push(h))
}

/// Executes a non-conditional opcode on the stacks.
pub fn exec_op(stack: &mut Stack, op: u8) -> (r: Result<(), ScriptError>)
    requires
        old(stack)@.wf(),
    ensures
        agrees(r, final(stack)@, apply_op(old(stack)@, op)),
{
    if let Some(r) = exec_flow_op(stack, op) {
        return r;
    }
    if let Some(r) = exec_stack_op(stack, op) {
        return r;
    }
    if let Some(r) = exec_bytes_op(stack, op) {
        return r;
    }
    if let Some(r) = exec_numeric_op(stack, op) {
        return r;
    }
    if let Some(r) = exec_crypto_op(stack, op) {
        return r;
    }
    Err(ScriptError::BadOpcode)
}

} // verus!
