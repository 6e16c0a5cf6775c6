//! What evaluating a script means, stated over mathematical values.
use vstd::prelude::*;

use crate::hashes::{hash160_of, ripemd160_of, sha1_of, sha256_of, sha256d_of};
use crate::opcodes::{
    is_conditional, is_disabled, OP_0, OP_0NOTEQUAL, OP_1, OP_16, OP_1ADD, OP_1NEGATE, OP_1SUB,
    OP_2DROP, OP_2DUP, OP_2OVER, OP_2ROT, OP_2SWAP, OP_3DUP, OP_ABS, OP_ADD, OP_BOOLAND, OP_BOOLOR,
    OP_CHECKLOCKTIMEVERIFY, OP_CHECKSEQUENCEVERIFY, OP_DEPTH, OP_DROP, OP_DUP, OP_ELSE, OP_ENDIF,
    OP_EQUAL, OP_EQUALVERIFY, OP_FROMALTSTACK, OP_GREATERTHAN, OP_GREATERTHANOREQUAL, OP_HASH160,
    OP_HASH256, OP_IF, OP_IFDUP, OP_LESSTHAN, OP_LESSTHANOREQUAL, OP_MAX, OP_MIN, OP_NEGATE, OP_NIP,
    OP_NOP, OP_NOP1, OP_NOP10, OP_NOP4, OP_NOT, OP_NOTIF, OP_NUMEQUAL, OP_NUMEQUALVERIFY,
    OP_NUMNOTEQUAL, OP_OVER, OP_PICK, OP_RETURN, OP_RIPEMD160, OP_ROLL, OP_ROT, OP_SHA1, OP_SHA256,
    OP_SIZE, OP_SUB, OP_SWAP, OP_TOALTSTACK, OP_TUCK, OP_VERIF, OP_VERIFY, OP_VERNOTIF, OP_WITHIN,
};
use crate::parse::{decode_all, decode_step};
use crate::script::{
    magnitude, decode_num, encode_num, lemma_decode_bound, lemma_encode_len, truthy, ItemView, ScriptError,
    MAX_NUM_SIZE,
};
use crate::stack::{StackView, MAX_SCRIPT_ELEMENT_SIZE, MAX_STACK_SIZE};

verus! {

/// Longest script that is evaluated at all.
pub const MAX_SCRIPT_SIZE: usize = 10_000;

/// Most non-push opcodes that a script may hold.
pub const MAX_OPS_PER_SCRIPT: usize = 201;

/// `[0x01]` for true, the empty string for false.
pub open spec fn bool_bytes(b: bool) -> Seq<u8> {
    if b {
        seq![1u8]
    } else {
        Seq::empty()
    }
}

/// The stacks with `main` as the main stack.
pub open spec fn with_main(st: StackView, main: Seq<Seq<u8>>) -> Result<StackView, ScriptError> {
    Ok(StackView { main, alt: st.alt })
}

/// Pushing `items` in order on the main stack, unless that breaks the
/// element bound.
pub open spec fn grow(st: StackView, items: Seq<Seq<u8>>) -> Result<StackView, ScriptError> {
    if st.total() + items.len() > MAX_STACK_SIZE {
        Err(ScriptError::StackOverflow)
    } else {
        Ok(StackView { main: st.main + items, alt: st.alt })
    }
}

/// The stacks without the top of the main stack.
pub open spec fn popped(st: StackView) -> StackView {
    StackView { main: st.main.drop_last(), alt: st.alt }
}

/// The element that a constant opcode pushes.
pub open spec fn constant_value(op: u8) -> Option<Seq<u8>> {
    if op == OP_0 {
        Some(Seq::empty())
    } else if op == OP_1NEGATE {
        Some(encode_num(-1))
    } else if OP_1 <= op <= OP_16 {
        Some(encode_num(op - OP_1 + 1))
    } else {
        None
    }
}

/// Whether an opcode does nothing.
pub open spec fn is_nop(op: u8) -> bool {
    op == OP_NOP || op == OP_NOP1 || op == OP_CHECKLOCKTIMEVERIFY || op == OP_CHECKSEQUENCEVERIFY
        || (OP_NOP4 <= op <= OP_NOP10)
}

/// Constants, no-ops, `OP_VERIFY` and `OP_RETURN`.
pub open spec fn flow_op(st: StackView, op: u8) -> Option<Result<StackView, ScriptError>> {
    let m = st.main;
    if let Some(c) = constant_value(op) {
        Some(grow(st, seq![c]))
    } else if is_nop(op) {
        Some(Ok(st))
    } else if op == OP_VERIFY {
        Some(
            if m.len() < 1 {
                Err(ScriptError::InvalidStackOperation)
            } else if truthy(m.last()) {
                Ok(popped(st))
            } else {
                Err(ScriptError::Verify)
            },
        )
    } else if op == OP_RETURN {
        Some(Err(ScriptError::OpReturn))
    } else {
        None
    }
}

/// `OP_PICK` (copy) and `OP_ROLL` (move): the top is taken as a depth `k`
/// into the rest of the stack.
pub open spec fn pick_roll(st: StackView, roll: bool) -> Result<StackView, ScriptError> {
    let m = st.main;
    if m.len() < 1 {
        Err(ScriptError::InvalidStackOperation)
    } else if m.last().len() > MAX_NUM_SIZE {
        Err(ScriptError::NumberOverflow)
    } else {
        let k = decode_num(m.last());
        let r = m.drop_last();
        if k < 0 || k >= r.len() {
            Err(ScriptError::InvalidStackOperation)
        } else {
            let i = r.len() - 1 - k;
            if roll {
                with_main(st, r.remove(i).push(r[i]))
            } else {
                with_main(st, r.push(r[i]))
            }
        }
    }
}

/// The stack-manipulation opcodes.
pub open spec fn stack_op(st: StackView, op: u8) -> Option<Result<StackView, ScriptError>> {
    let m = st.main;
    let n = m.len();
    let short = Err(ScriptError::InvalidStackOperation);
    if op == OP_TOALTSTACK {
        Some(
            if n < 1 {
                short
            } else {
                popped(st).push_alt(m.last())
            },
        )
    } else if op == OP_FROMALTSTACK {
        Some(
            if st.alt.len() < 1 {
                Err(ScriptError::InvalidAltStackOperation)
            } else {
                StackView { main: m, alt: st.alt.drop_last() }.push(st.alt.last())
            },
        )
    } else if op == OP_2DROP {
        Some(
            if n < 2 {
                short
            } else {
                with_main(st, m.subrange(0, n - 2))
            },
        )
    } else if op == OP_2DUP {
        Some(
            if n < 2 {
                short
            } else {
                grow(st, m.subrange(n - 2, n as int))
            },
        )
    } else if op == OP_3DUP {
        Some(
            if n < 3 {
                short
            } else {
                grow(st, m.subrange(n - 3, n as int))
            },
        )
    } else if op == OP_2OVER {
        Some(
            if n < 4 {
                short
            } else {
                grow(st, m.subrange(n - 4, n - 2))
            },
        )
    } else if op == OP_2ROT {
        Some(
            if n < 6 {
                short
            } else {
                with_main(st, m.subrange(0, n - 6) + m.subrange(n - 4, n as int) + m.subrange(n - 6, n - 4))
            },
        )
    } else if op == OP_2SWAP {
        Some(
            if n < 4 {
                short
            } else {
                with_main(st, m.subrange(0, n - 4) + m.subrange(n - 2, n as int) + m.subrange(n - 4, n - 2))
            },
        )
    } else if op == OP_IFDUP {
        Some(
            if n < 1 {
                short
            } else if truthy(m.last()) {
                grow(st, seq![m.last()])
            } else {
                Ok(st)
            },
        )
    } else if op == OP_DEPTH {
        Some(grow(st, seq![encode_num(n as int)]))
    } else if op == OP_DROP {
        Some(
            if n < 1 {
                short
            } else {
                Ok(popped(st))
            },
        )
    } else if op == OP_DUP {
        Some(
            if n < 1 {
                short
            } else {
                grow(st, seq![m.last()])
            },
        )
    } else if op == OP_NIP {
        Some(
            if n < 2 {
                short
            } else {
                with_main(st, m.remove(n - 2))
            },
        )
    } else if op == OP_OVER {
        Some(
            if n < 2 {
                short
            } else {
                grow(st, seq![m[n - 2]])
            },
        )
    } else if op == OP_PICK || op == OP_ROLL {
        Some(pick_roll(st, op == OP_ROLL))
    } else if op == OP_ROT {
        Some(
            if n < 3 {
                short
            } else {
                with_main(st, m.remove(n - 3).push(m[n - 3]))
            },
        )
    } else if op == OP_SWAP {
        Some(
            if n < 2 {
                short
            } else {
                with_main(st, m.subrange(0, n - 2) + seq![m[n - 1], m[n - 2]])
            },
        )
    } else if op == OP_TUCK {
        Some(
            if n < 2 {
                short
            } else if st.total() + 1 > MAX_STACK_SIZE {
                Err(ScriptError::StackOverflow)
            } else {
                with_main(st, m.subrange(0, n - 2) + seq![m[n - 1], m[n - 2], m[n - 1]])
            },
        )
    } else {
        None
    }
}

/// `OP_SIZE`, `OP_EQUAL` and `OP_EQUALVERIFY`.
pub open spec fn bytes_op(st: StackView, op: u8) -> Option<Result<StackView, ScriptError>> {
    let m = st.main;
    let n = m.len();
    if op == OP_SIZE {
        Some(
            if n < 1 {
                Err(ScriptError::InvalidStackOperation)
            } else {
                grow(st, seq![encode_num(m.last().len() as int)])
            },
        )
    } else if op == OP_EQUAL || op == OP_EQUALVERIFY {
        Some(
            if n < 2 {
                Err(ScriptError::InvalidStackOperation)
            } else {
                let same = m[n - 1] == m[n - 2];
                if op == OP_EQUAL {
                    with_main(st, m.subrange(0, n - 2).push(bool_bytes(same)))
                } else if same {
                    with_main(st, m.subrange(0, n - 2))
                } else {
                    Err(ScriptError::EqualVerify)
                }
            },
        )
    } else {
        None
    }
}

/// Whether an opcode takes one number.
pub open spec fn is_unary(op: u8) -> bool {
    op == OP_1ADD || op == OP_1SUB || op == OP_NEGATE || op == OP_ABS || op == OP_NOT || op
        == OP_0NOTEQUAL
}

/// What a one-number opcode computes.
pub open spec fn unary_result(op: u8, v: int) -> int {
    if op == OP_1ADD {
        v + 1
    } else if op == OP_1SUB {
        v - 1
    } else if op == OP_NEGATE {
        -v
    } else if op == OP_ABS {
        magnitude(v) as int
    } else if op == OP_NOT {
        if v == 0 {
            1
        } else {
            0
        }
    } else {
        if v != 0 {
            1
        } else {
            0
        }
    }
}

/// Whether an opcode takes two numbers.
pub open spec fn is_binary(op: u8) -> bool {
    op == OP_ADD || op == OP_SUB || op == OP_BOOLAND || op == OP_BOOLOR || op == OP_NUMEQUAL || op
        == OP_NUMEQUALVERIFY || op == OP_NUMNOTEQUAL || op == OP_LESSTHAN || op == OP_GREATERTHAN
        || op == OP_LESSTHANOREQUAL || op == OP_GREATERTHANOREQUAL || op == OP_MIN || op == OP_MAX
}

/// `1` for true, `0` for false.
pub open spec fn flag(b: bool) -> int {
    if b {
        1
    } else {
        0
    }
}

/// What a two-number opcode computes from `a` (deeper) and `b` (the top).
pub open spec fn binary_result(op: u8, a: int, b: int) -> int {
    if op == OP_ADD {
        a + b
    } else if op == OP_SUB {
        a - b
    } else if op == OP_BOOLAND {
        flag(a != 0 && b != 0)
    } else if op == OP_BOOLOR {
        flag(a != 0 || b != 0)
    } else if op == OP_NUMEQUAL || op == OP_NUMEQUALVERIFY {
        flag(a == b)
    } else if op == OP_NUMNOTEQUAL {
        flag(a != b)
    } else if op == OP_LESSTHAN {
        flag(a < b)
    } else if op == OP_GREATERTHAN {
        flag(a > b)
    } else if op == OP_LESSTHANOREQUAL {
        flag(a <= b)
    } else if op == OP_GREATERTHANOREQUAL {
        flag(a >= b)
    } else if op == OP_MIN {
        if a <= b {
            a
        } else {
            b
        }
    } else {
        if a >= b {
            a
        } else {
            b
        }
    }
}

/// The arithmetic opcodes, on script numbers of at most four bytes.
pub open spec fn numeric_op(st: StackView, op: u8) -> Option<Result<StackView, ScriptError>> {
    let m = st.main;
    let n = m.len();
    if is_unary(op) {
        Some(
            if n < 1 {
                Err(ScriptError::InvalidStackOperation)
            } else if m[n - 1].len() > MAX_NUM_SIZE {
                Err(ScriptError::NumberOverflow)
            } else {
                with_main(st, m.drop_last().push(encode_num(unary_result(op, decode_num(m[n - 1])))))
            },
        )
    } else if is_binary(op) {
        Some(
            if n < 1 {
                Err(ScriptError::InvalidStackOperation)
            } else if m[n - 1].len() > MAX_NUM_SIZE {
                Err(ScriptError::NumberOverflow)
            } else if n < 2 {
                Err(ScriptError::InvalidStackOperation)
            } else if m[n - 2].len() > MAX_NUM_SIZE {
                Err(ScriptError::NumberOverflow)
            } else {
                let a = decode_num(m[n - 2]);
                let b = decode_num(m[n - 1]);
                if op == OP_NUMEQUALVERIFY {
                    if a == b {
                        with_main(st, m.subrange(0, n - 2))
                    } else {
                        Err(ScriptError::NumEqualVerify)
                    }
                } else {
                    with_main(st, m.subrange(0, n - 2).push(encode_num(binary_result(op, a, b))))
                }
            },
        )
    } else if op == OP_WITHIN {
        Some(
            if n < 3 {
                Err(ScriptError::InvalidStackOperation)
            } else if m[n - 1].len() > MAX_NUM_SIZE || m[n - 2].len() > MAX_NUM_SIZE || m[n
                - 3].len() > MAX_NUM_SIZE {
                Err(ScriptError::NumberOverflow)
            } else {
                let x = decode_num(m[n - 3]);
                let lo = decode_num(m[n - 2]);
                let hi = decode_num(m[n - 1]);
                with_main(st, m.subrange(0, n - 3).push(encode_num(flag(lo <= x && x < hi))))
            },
        )
    } else {
        None
    }
}

/// The digest that a crypto opcode computes.
pub open spec fn digest(op: u8, data: Seq<u8>) -> Option<Seq<u8>> {
    if op == OP_RIPEMD160 {
        Some(ripemd160_of(data))
    } else if op == OP_SHA1 {
        Some(sha1_of(data))
    } else if op == OP_SHA256 {
        Some(sha256_of(data))
    } else if op == OP_HASH160 {
        Some(hash160_of(data))
    } else if op == OP_HASH256 {
        Some(sha256d_of(data))
    } else {
        None
    }
}

/// The crypto opcodes: the top is replaced by its digest.
pub open spec fn crypto_op(st: StackView, op: u8) -> Option<Result<StackView, ScriptError>> {
    let m = st.main;
    if OP_RIPEMD160 <= op <= OP_HASH256 {
        Some(
            if m.len() < 1 {
                Err(ScriptError::InvalidStackOperation)
            } else {
                popped(st).push(digest(op, m.last()).unwrap())
            },
        )
    } else {
        None
    }
}

/// Executing a non-conditional opcode on the stacks. Opcodes of no family
/// (reserved codes, the signature opcodes) are refused.
pub open spec fn apply_op(st: StackView, op: u8) -> Result<StackView, ScriptError> {
    if let Some(r) = flow_op(st, op) {
        r
    } else if let Some(r) = stack_op(st, op) {
        r
    } else if let Some(r) = bytes_op(st, op) {
        r
    } else if let Some(r) = numeric_op(st, op) {
        r
    } else if let Some(r) = crypto_op(st, op) {
        r
    } else {
        Err(ScriptError::BadOpcode)
    }
}

/// The state of an evaluation between two items.
pub struct EvalState {
    pub stack: StackView,
    /// One entry per open `IF`/`NOTIF` block: whether its branch runs.
    pub cond: Seq<bool>,
    /// How many non-push opcodes were met so far.
    pub op_count: nat,
}

/// Nothing pushed, no block open, no opcode counted.
pub open spec fn initial_state() -> EvalState {
    EvalState {
        stack: StackView { main: Seq::empty(), alt: Seq::empty() },
        cond: Seq::empty(),
        op_count: 0,
    }
}

/// Whether items run: no enclosing block is on its false branch.
pub open spec fn executing(cond: Seq<bool>) -> bool {
    !cond.contains(false)
}

/// `OP_IF`, `OP_NOTIF`, `OP_ELSE` and `OP_ENDIF`, which are tracked on the
/// conditional stack whether or not items run.
pub open spec fn conditional_op(s: EvalState, op: u8) -> Result<EvalState, ScriptError> {
    if op == OP_IF || op == OP_NOTIF {
        if executing(s.cond) {
            if s.stack.main.len() < 1 {
                Err(ScriptError::InvalidStackOperation)
            } else {
                let c = truthy(s.stack.main.last());
                Ok(
                    EvalState {
                        stack: popped(s.stack),
                        cond: s.cond.push(if op == OP_IF { c } else { !c }),
                        ..s
                    },
                )
            }
        } else {
            Ok(EvalState { cond: s.cond.push(false), ..s })
        }
    } else if s.cond.len() == 0 {
        Err(ScriptError::UnbalancedConditional)
    } else if op == OP_ELSE {
        Ok(EvalState { cond: s.cond.update(s.cond.len() - 1, !s.cond.last()), ..s })
    } else {
        Ok(EvalState { cond: s.cond.drop_last(), ..s })
    }
}

/// Evaluating one decoded item.
pub open spec fn apply_item(s: EvalState, item: ItemView) -> Result<EvalState, ScriptError> {
    match item {
        ItemView::Data(b) => {
            if b.len() > MAX_SCRIPT_ELEMENT_SIZE {
                Err(ScriptError::PushSize)
            } else if executing(s.cond) {
                match s.stack.push(b) {
                    Ok(st) => Ok(EvalState { stack: st, ..s }),
                    Err(e) => Err(e),
                }
            } else {
                Ok(s)
            }
        },
        ItemView::Op(op) => {
            if is_disabled(op) {
                Err(ScriptError::DisabledOpcode)
            } else if op == OP_VERIF || op == OP_VERNOTIF {
                Err(ScriptError::InvalidOpcode)
            } else {
                let count = if op > OP_16 {
                    s.op_count + 1
                } else {
                    s.op_count
                };
                let s1 = EvalState { op_count: count, ..s };
                if count > MAX_OPS_PER_SCRIPT {
                    Err(ScriptError::OpCount)
                } else if is_conditional(op) {
                    conditional_op(s1, op)
                } else if executing(s.cond) {
                    match apply_op(s.stack, op) {
                        Ok(st) => Ok(EvalState { stack: st, ..s1 }),
                        Err(e) => Err(e),
                    }
                } else {
                    Ok(s1)
                }
            }
        },
    }
}

/// Decoding and evaluating the items from `pc` on, from state `s`, up to the
/// end of the bytes or the first error; at the end no block may be open.
pub open spec fn run_from(bytes: Seq<u8>, pc: int, s: EvalState) -> Result<EvalState, ScriptError>
    decreases bytes.len() - pc,
    via run_from_decreases
{
    match decode_step(bytes, pc) {
        Err(e) => Err(e),
        Ok(None) => if s.cond.len() > 0 {
            Err(ScriptError::UnbalancedConditional)
        } else {
            Ok(s)
        },
        Ok(Some((item, next))) => match apply_item(s, item) {
            Err(e) => Err(e),
            Ok(s2) => run_from(bytes, next, s2),
        },
    }
}

#[via_fn]
proof fn run_from_decreases(bytes: Seq<u8>, pc: int, s: EvalState) {
    crate::parse::lemma_step_advances(bytes, pc);
}

/// The outcome of evaluating a whole script: its final state, or the error
/// that stopped it.
pub open spec fn evaluation(bytes: Seq<u8>) -> Result<EvalState, ScriptError> {
    if bytes.len() > MAX_SCRIPT_SIZE {
        Err(ScriptError::ScriptSize)
    } else {
        run_from(bytes, 0, initial_state())
    }
}

/// Whether every element is within the element bound.
pub open spec fn all_small(s: Seq<Seq<u8>>) -> bool {
    forall|i: int| 0 <= i < s.len() ==> #[trigger] s[i].len() <= MAX_SCRIPT_ELEMENT_SIZE
}

proof fn lemma_small_parts(s: Seq<Seq<u8>>)
    requires
        all_small(s),
    ensures
        forall|a: int, b: int| 0 <= a <= b <= s.len() ==> all_small(#[trigger] s.subrange(a, b)),
        forall|i: int| 0 <= i < s.len() ==> all_small(#[trigger] s.remove(i)),
        s.len() > 0 ==> all_small(s.drop_last()),
{
    assert forall|a: int, b: int| 0 <= a <= b <= s.len() implies all_small(
        #[trigger] s.subrange(a, b),
    ) by {
        assert forall|i: int| 0 <= i < b - a implies #[trigger] s.subrange(a, b)[i].len()
            <= MAX_SCRIPT_ELEMENT_SIZE by {
            assert(s.subrange(a, b)[i] == s[a + i]);
        }
    }
    assert forall|i: int| 0 <= i < s.len() implies all_small(#[trigger] s.remove(i)) by {
        assert forall|j: int| 0 <= j < s.len() - 1 implies #[trigger] s.remove(i)[j].len()
            <= MAX_SCRIPT_ELEMENT_SIZE by {
            if j < i {
                assert(s.remove(i)[j] == s[j]);
            } else {
                assert(s.remove(i)[j] == s[j + 1]);
            }
        }
    }
    if s.len() > 0 {
        assert(s.drop_last() == s.subrange(0, s.len() - 1));
    }
}

proof fn lemma_small_concat(a: Seq<Seq<u8>>, b: Seq<Seq<u8>>)
    requires
        all_small(a),
        all_small(b),
    ensures
        all_small(a + b),
{
    assert forall|i: int| 0 <= i < (a + b).len() implies #[trigger] (a + b)[i].len()
        <= MAX_SCRIPT_ELEMENT_SIZE by {
        if i < a.len() {
            assert((a + b)[i] == a[i]);
        } else {
            assert((a + b)[i] == b[i - a.len()]);
        }
    }
}

proof fn lemma_small_push(a: Seq<Seq<u8>>, x: Seq<u8>)
    requires
        all_small(a),
        x.len() <= MAX_SCRIPT_ELEMENT_SIZE,
    ensures
        all_small(a.push(x)),
{
    assert forall|i: int| 0 <= i < a.push(x).len() implies #[trigger] a.push(x)[i].len()
        <= MAX_SCRIPT_ELEMENT_SIZE by {
        if i < a.len() {
            assert(a.push(x)[i] == a[i]);
        }
    }
}

proof fn lemma_stack_op_bound(st: StackView, op: u8)
    requires
        st.wf(),
    ensures
        stack_op(st, op) matches Some(Ok(v)) ==> v.wf(),
{
    let m = st.main;
    let n = m.len();
    assert(all_small(m));
    assert(all_small(st.alt));
    lemma_small_parts(m);
    lemma_small_parts(st.alt);
    if n >= 1 {
        assert(m[n - 1].len() <= MAX_SCRIPT_ELEMENT_SIZE);
        lemma_small_push(st.alt, m.last());
        lemma_small_push(m, m.last());
    }
    if n >= 2 {
        assert(m[n - 2].len() <= MAX_SCRIPT_ELEMENT_SIZE);
        lemma_small_push(m, m[n - 2]);
        lemma_small_concat(m.subrange(0, n - 2), seq![m[n - 1], m[n - 2]]);
        lemma_small_concat(m.subrange(0, n - 2), seq![m[n - 1], m[n - 2], m[n - 1]]);
        lemma_small_concat(m, m.subrange(n - 2, n as int));
    }
    if n >= 3 {
        assert(m[n - 3].len() <= MAX_SCRIPT_ELEMENT_SIZE);
        lemma_small_push(m.remove(n - 3), m[n - 3]);
        lemma_small_concat(m, m.subrange(n - 3, n as int));
    }
    if n >= 4 {
        lemma_small_concat(m, m.subrange(n - 4, n - 2));
        lemma_small_concat(m.subrange(0, n - 4), m.subrange(n - 2, n as int));
        lemma_small_concat(m.subrange(0, n - 4) + m.subrange(n - 2, n as int), m.subrange(n - 4, n - 2));
    }
    if n >= 6 {
        lemma_small_concat(m.subrange(0, n - 6), m.subrange(n - 4, n as int));
        lemma_small_concat(m.subrange(0, n - 6) + m.subrange(n - 4, n as int), m.subrange(n - 6, n - 4));
    }
    if st.alt.len() >= 1 {
        assert(st.alt[st.alt.len() - 1].len() <= MAX_SCRIPT_ELEMENT_SIZE);
        lemma_small_push(m, st.alt.last());
    }
    lemma_encode_len(n as int);
    lemma_small_push(m, encode_num(n as int));
    if op == OP_PICK || op == OP_ROLL {
        if n >= 1 && m.last().len() <= MAX_NUM_SIZE {
            let k = decode_num(m.last());
            let r = m.drop_last();
            if 0 <= k < r.len() {
                let i = r.len() - 1 - k;
                assert(r[i] == m[i]);
                assert(m[i].len() <= MAX_SCRIPT_ELEMENT_SIZE);
                lemma_small_parts(r);
                lemma_small_push(r, r[i]);
                lemma_small_push(r.remove(i), r[i]);
            }
        }
    }
}

proof fn lemma_numeric_op_bound(st: StackView, op: u8)
    requires
        st.wf(),
    ensures
        numeric_op(st, op) matches Some(Ok(v)) ==> v.wf(),
{
    let m = st.main;
    let n = m.len();
    assert(all_small(m));
    lemma_small_parts(m);
    if n >= 1 && m[n - 1].len() <= MAX_NUM_SIZE {
        if m[n - 1].len() > 0 {
            lemma_decode_bound(m[n - 1]);
        }
        let v = decode_num(m[n - 1]);
        lemma_encode_len(unary_result(op, v));
        lemma_small_push(m.drop_last(), encode_num(unary_result(op, v)));
    }
    if n >= 2 && m[n - 1].len() <= MAX_NUM_SIZE && m[n - 2].len() <= MAX_NUM_SIZE {
        if m[n - 1].len() > 0 {
            lemma_decode_bound(m[n - 1]);
        }
        if m[n - 2].len() > 0 {
            lemma_decode_bound(m[n - 2]);
        }
        let r = binary_result(op, decode_num(m[n - 2]), decode_num(m[n - 1]));
        lemma_encode_len(r);
        lemma_small_push(m.subrange(0, n - 2), encode_num(r));
    }
    if n >= 3 {
        lemma_encode_len(0);
        lemma_encode_len(1);
        lemma_small_push(m.subrange(0, n - 3), encode_num(0));
        lemma_small_push(m.subrange(0, n - 3), encode_num(1));
    }
}

proof fn lemma_apply_op_bound(st: StackView, op: u8)
    requires
        st.wf(),
    ensures
        apply_op(st, op) matches Ok(v) ==> v.wf(),
{
    let m = st.main;
    let n = m.len();
    assert(all_small(m));
    assert(all_small(st.alt));
    lemma_small_parts(m);
    lemma_stack_op_bound(st, op);
    lemma_numeric_op_bound(st, op);
    if let Some(c) = constant_value(op) {
        lemma_encode_len(-1);
        lemma_encode_len(op - OP_1 + 1);
        lemma_small_push(m, c);
        assert(m + seq![c] =~= m.push(c));
    }
    if n >= 2 {
        lemma_small_push(m.subrange(0, n - 2), bool_bytes(true));
        lemma_small_push(m.subrange(0, n - 2), bool_bytes(false));
    }
    if n >= 1 {
        let e = encode_num(m.last().len() as int);
        lemma_encode_len(m.last().len() as int);
        lemma_small_push(m, e);
        assert(m + seq![e] =~= m.push(e));
        if let Some(d) = digest(op, m.last()) {
            if d.len() <= MAX_SCRIPT_ELEMENT_SIZE {
                lemma_small_push(m.drop_last(), d);
            }
        }
    }
}

/// No evaluation step takes the stacks past their bounds: from stacks within
/// them, a step that succeeds leaves at most 1000 elements in the main and
/// alt stacks together, none over 520 bytes, and at most 201 non-push opcodes
/// counted. A push onto full stacks fails with `StackOverflow`.
pub proof fn lemma_stack_bound(s: EvalState, item: ItemView)
    requires
        s.stack.wf(),
        s.op_count <= MAX_OPS_PER_SCRIPT,
    ensures
        apply_item(s, item) matches Ok(n) ==> n.stack.wf() && n.op_count <= MAX_OPS_PER_SCRIPT,
        s.stack.total() == MAX_STACK_SIZE && executing(s.cond) && (item matches ItemView::Data(b)
            && b.len() <= MAX_SCRIPT_ELEMENT_SIZE) ==> apply_item(s, item) == Err::<
            EvalState,
            ScriptError,
        >(ScriptError::StackOverflow),
{
    let st = s.stack;
    let m = st.main;
    assert(all_small(m));
    lemma_small_parts(m);
    match item {
        ItemView::Data(b) => {
            if b.len() <= MAX_SCRIPT_ELEMENT_SIZE {
                lemma_small_push(m, b);
            }
        },
        ItemView::Op(op) => {
            lemma_apply_op_bound(st, op);
        },
    }
}

proof fn lemma_run_bound(bytes: Seq<u8>, pc: int, s: EvalState)
    requires
        s.stack.wf(),
        s.op_count <= MAX_OPS_PER_SCRIPT,
        run_from(bytes, pc, s) is Ok,
    ensures
        run_from(bytes, pc, s)->Ok_0.stack.wf(),
    decreases bytes.len() - pc,
{
    crate::parse::lemma_step_advances(bytes, pc);
    if let Ok(Some((item, next))) = decode_step(bytes, pc) {
        lemma_stack_bound(s, item);
        lemma_run_bound(bytes, next, apply_item(s, item)->Ok_0);
    }
}

/// The stacks that a successful evaluation leaves are within the bounds.
pub proof fn lemma_final_stack_bound(bytes: Seq<u8>)
    requires
        evaluation(bytes) is Ok,
    ensures
        evaluation(bytes)->Ok_0.stack.wf(),
{
    lemma_run_bound(bytes, 0, initial_state());
}

/// Whether an item is a non-push opcode, one that counts towards the limit.
pub open spec fn counted(item: ItemView) -> bool {
    item matches ItemView::Op(c) && c > OP_16
}

/// How many non-push opcodes a sequence of items holds.
pub open spec fn count_ops(items: Seq<ItemView>) -> nat
    decreases items.len(),
{
    if items.len() == 0 {
        0
    } else {
        (if counted(items[0]) {
            1nat
        } else {
            0nat
        }) + count_ops(items.drop_first())
    }
}

proof fn lemma_run_count(bytes: Seq<u8>, pc: int, s: EvalState)
    requires
        s.op_count <= MAX_OPS_PER_SCRIPT,
        run_from(bytes, pc, s) is Ok,
    ensures
        decode_all(bytes, pc) is Ok,
        run_from(bytes, pc, s)->Ok_0.op_count == s.op_count + count_ops(decode_all(bytes, pc)->Ok_0),
        run_from(bytes, pc, s)->Ok_0.op_count <= MAX_OPS_PER_SCRIPT,
    decreases bytes.len() - pc,
{
    crate::parse::lemma_step_advances(bytes, pc);
    if let Ok(Some((item, next))) = decode_step(bytes, pc) {
        let s2 = apply_item(s, item)->Ok_0;
        assert(s2.op_count == s.op_count + (if counted(item) {
            1nat
        } else {
            0nat
        }));
        lemma_run_count(bytes, next, s2);
        let rest = decode_all(bytes, next)->Ok_0;
        assert((seq![item] + rest).drop_first() =~= rest);
    }
}

/// A script that evaluates without error is well framed and holds at most
/// 201 non-push opcodes; so any script with more fails.
pub proof fn lemma_op_count_bound(bytes: Seq<u8>)
    requires
        evaluation(bytes) is Ok,
    ensures
        decode_all(bytes, 0) is Ok,
        count_ops(decode_all(bytes, 0)->Ok_0) <= MAX_OPS_PER_SCRIPT,
{
    lemma_run_count(bytes, 0, initial_state());
}

} // verus!
