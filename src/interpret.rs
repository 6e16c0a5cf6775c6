//! The evaluator: runs a script's items on the stacks.
use vstd::prelude::*;

use crate::opcodes::{disabled, OP_16, OP_ELSE, OP_ENDIF, OP_IF, OP_NOTIF, OP_VERIF, OP_VERNOTIF};
use crate::ops::exec_op;
use crate::parse::parse_one_op;
use crate::script::{as_bool, truthy, ScriptError, ScriptItem};
use crate::semantics::{
    apply_item, conditional_op, evaluation, executing, initial_state, lemma_stack_bound, run_from,
    EvalState, MAX_OPS_PER_SCRIPT, MAX_SCRIPT_SIZE,
};
use crate::stack::{Stack, MAX_SCRIPT_ELEMENT_SIZE};

verus! {

/// The evaluation state made of the stacks, the conditional stack and the
/// opcode count.
pub open spec fn state_of(stack: Stack, cond: Vec<bool>, op_count: usize) -> EvalState {
    EvalState { stack: stack@, cond: cond@, op_count: op_count as nat }
}

/// Whether items run: no open block is on its false branch.
fn all_true(cond: &Vec<bool>) -> (r: bool)
    ensures
        r == executing(cond@),
{
    let mut i: usize = 0;
    while i < cond.len()
        invariant
            i <= cond@.len(),
            forall|j: int| 0 <= j < i ==> cond@[j],
        decreases cond@.len() - i,
    {
        if !cond[i] {
            assert(cond@[i as int] == false);
            return false;
        }
        i = i + 1;
    }
    assert(!cond@.contains(false));
    true
}

/// `OP_IF`, `OP_NOTIF`, `OP_ELSE` and `OP_ENDIF` on the conditional stack.
fn exec_conditional(stack: &mut Stack, cond: &mut Vec<bool>, op: u8, run: bool) -> (r: Result<
    (),
    ScriptError,
>)
    requires
        op == OP_IF || op == OP_NOTIF || op == OP_ELSE || op == OP_ENDIF,
        run == executing(old(cond)@),
    ensures
        match conditional_op(
            EvalState { stack: old(stack)@, cond: old(cond)@, op_count: 0 },
            op,
        ) {
            Ok(n) => r is Ok && final(stack)@ == n.stack && final(cond)@ == n.cond,
            Err(e) => r == Err::<(), ScriptError>(e),
        },
{
    if op == OP_IF || op == OP_NOTIF {
        let mut c = false;
        if run {
            let v = stack.pop()?;
            c = as_bool(v.as_slice());
            if op == OP_NOTIF {
                c = !c;
            }
        }
        cond.push(c);
        Ok(())
    } else {
        if cond.len() == 0 {
            return Err(ScriptError::UnbalancedConditional);
        }
        if op == OP_ELSE {
            let last = cond.len() - 1;
            let b = cond[last];
            cond.set(last, !b);
        } else {
            cond.pop();
        }
        Ok(())
    }
}

/// Evaluates one decoded item.
fn exec_item(stack: &mut Stack, cond: &mut Vec<bool>, op_count: &mut usize, item: ScriptItem) -> (r:
    Result<(), ScriptError>)
    requires
        old(stack)@.wf(),
        *old(op_count) <= MAX_OPS_PER_SCRIPT,
    ensures
        match apply_item(state_of(*old(stack), *old(cond), *old(op_count)), item@) {
            Ok(n) => r is Ok && state_of(*final(stack), *final(cond), *final(op_count)) == n,
            Err(e) => r == Err::<(), ScriptError>(e),
        },
{
    let run = all_true(cond);
    match item {
        ScriptItem::ByteArray(b) => {
            if b.len() > MAX_SCRIPT_ELEMENT_SIZE {
                return Err(ScriptError::PushSize);
            }
            if run {
                stack.push(b)?;
            }
            Ok(())
        },
        ScriptItem::Opcode(op) => {
            let code = op.code;
            if disabled(code) {
                return Err(ScriptError::DisabledOpcode);
            }
            if code == OP_VERIF || code == OP_VERNOTIF {
                return Err(ScriptError::InvalidOpcode);
            }
            if code > OP_16 {
                *op_count = *op_count + 1;
            }
            if *op_count > MAX_OPS_PER_SCRIPT {
                return Err(ScriptError::OpCount);
            }
            if code == OP_IF || code == OP_NOTIF || code == OP_ELSE || code == OP_ENDIF {
                exec_conditional(stack, cond, code, run)
            } else if run {
                exec_op(stack, code)
            } else {
                Ok(())
            }
        },
    }
}

/// Evaluates a script and returns the stacks it leaves, or the error that
/// stopped it.
pub fn evaluate(script: &[u8]) -> (r: Result<Stack, ScriptError>)
    ensures
        match evaluation(script@) {
            Ok(n) => r is Ok && r->Ok_0@ == n.stack,
            Err(e) => r is Err && r->Err_0 == e,
        },
{
    if script.len() > MAX_SCRIPT_SIZE {
        return Err(ScriptError::ScriptSize);
    }
    let mut stack = Stack::new();
    let mut cond: Vec<bool> = Vec::new();
    let mut op_count: usize = 0;
    let mut pc: usize = 0;
    assert(stack@.main =~= initial_state().stack.main);
    assert(stack@.alt =~= initial_state().stack.alt);
    assert(cond@ =~= initial_state().cond);
    loop
        invariant
            stack@.wf(),
            op_count <= MAX_OPS_PER_SCRIPT,
            evaluation(script@) == run_from(script@, pc as int, state_of(stack, cond, op_count)),
        decreases script@.len() - pc,
    {
        let ghost at = pc as int;
        let ghost before = state_of(stack, cond, op_count);
        proof {
            crate::parse::lemma_step_advances(script@, at);
        }
        match parse_one_op(script, &mut pc) {
            Err(e) => {
                return Err(e);
            },
            Ok(None) => {
                if cond.len() > 0 {
                    return Err(ScriptError::UnbalancedConditional);
                }
                return Ok(stack);
            },
            Ok(Some(item)) => {
                let ghost view = item@;
                proof {
                    lemma_stack_bound(before, view);
                }
                exec_item(&mut stack, &mut cond, &mut op_count, item)?;
            },
        }
    }
}

/// Evaluates a script. A script that runs to its end without error succeeds
/// with `true`; with `strict`, it succeeds only when it leaves a true top
/// element on the main stack, and gives `false` otherwise.
pub fn interpret_with(script: &[u8], strict: bool) -> (r: Result<bool, ScriptError>)
    ensures
        match evaluation(script@) {
            Ok(n) => r == Ok::<bool, ScriptError>(
                !strict || (n.stack.main.len() > 0 && truthy(n.stack.main.last())),
            ),
            Err(e) => r == Err::<bool, ScriptError>(e),
        },
{
    let stack = evaluate(script)?;
    if !strict {
        return Ok(true);
    }
    let n = stack.main.len();
    if n == 0 {
        return Ok(false);
    }
    proof {
        assert(stack@.main[n - 1] == stack.main@[n - 1]@);
    }
    Ok(as_bool(stack.main[n - 1].as_slice()))
}

/// Evaluates a script: `true` when it runs to its end without error.
pub fn interpret(script: &[u8]) -> (r: Result<bool, ScriptError>)
    ensures
        match evaluation(script@) {
            Ok(_) => r == Ok::<bool, ScriptError>(true),
            Err(e) => r == Err::<bool, ScriptError>(e),
        },
{
    interpret_with(script, false)
}

} // verus!
