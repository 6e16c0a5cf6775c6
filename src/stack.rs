//! The evaluator's main and alt stacks.
use vstd::prelude::*;

use crate::script::ScriptError;

verus! {

/// Most elements that the main and alt stacks may hold together.
pub const MAX_STACK_SIZE: usize = 1000;

/// Longest byte string that may be pushed.
pub const MAX_SCRIPT_ELEMENT_SIZE: usize = 520;

/// The main stack and the alt stack; the top of each is its last element.
pub struct Stack {
    pub main: Vec<Vec<u8>>,
    pub alt: Vec<Vec<u8>>,
}

/// The mathematical value of a `Stack`.
pub struct StackView {
    pub main: Seq<Seq<u8>>,
    pub alt: Seq<Seq<u8>>,
}

impl StackView {
    /// How many elements both stacks hold.
    pub open spec fn total(self) -> nat {
        self.main.len() + self.alt.len()
    }

    /// Within the bounds: at most 1000 elements, none longer than 520 bytes.
    pub open spec fn wf(self) -> bool {
        &&& self.total() <= MAX_STACK_SIZE
        &&& forall|i: int| 0 <= i < self.main.len() ==> #[trigger] self.main[i].len() <= MAX_SCRIPT_ELEMENT_SIZE
        &&& forall|i: int| 0 <= i < self.alt.len() ==> #[trigger] self.alt[i].len() <= MAX_SCRIPT_ELEMENT_SIZE
    }

    /// The index in `main` of the element at offset `pos` from the top
    /// (`0` is the top, `-1` the one below it).
    pub open spec fn index_of(self, pos: int) -> int {
        self.main.len() - 1 + pos
    }

    /// Pushing `b` on the main stack, or the bound that it would break.
    pub open spec fn push(self, b: Seq<u8>) -> Result<StackView, ScriptError> {
        if self.total() >= MAX_STACK_SIZE {
            Err(ScriptError::StackOverflow)
        } else if b.len() > MAX_SCRIPT_ELEMENT_SIZE {
            Err(ScriptError::PushSize)
        } else {
            Ok(StackView { main: self.main.push(b), alt: self.alt })
        }
    }

    /// Pushing `b` on the alt stack, or the bound that it would break.
    pub open spec fn push_alt(self, b: Seq<u8>) -> Result<StackView, ScriptError> {
        if self.total() >= MAX_STACK_SIZE {
            Err(ScriptError::StackOverflow)
        } else if b.len() > MAX_SCRIPT_ELEMENT_SIZE {
            Err(ScriptError::PushSize)
        } else {
            Ok(StackView { main: self.main, alt: self.alt.push(b) })
        }
    }
}

impl View for Stack {
    type V = StackView;

    open spec fn view(&self) -> StackView {
        StackView {
            main: self.main@.map_values(|v: Vec<u8>| v@),
            alt: self.alt@.map_values(|v: Vec<u8>| v@),
        }
    }
}

/// The offset from the top as a depth (`0` for the top), when it is within
/// `len` elements.
fn depth_of(len: usize, pos: i64) -> (r: Option<usize>)
    requires
        pos <= 0,
    ensures
        r matches Some(d) ==> d == -pos && len - 1 + pos >= 0,
        r is None ==> len - 1 + pos < 0,
{
    let d: u64 = if pos == i64::MIN {
        0x8000_0000_0000_0000
    } else {
        (-pos) as u64
    };
    if d >= len as u64 {
        None
    } else {
        Some(d as usize)
    }
}

impl Stack {
    /// Two empty stacks.
    pub fn new() -> (r: Stack)
        ensures
            r@.main.len() == 0,
            r@.alt.len() == 0,
    {
        Stack { main: Vec::new(), alt: Vec::new() }
    }

    /// Pushes on the main stack, unless that would break a bound.
    pub fn push(&mut self, bytes: Vec<u8>) -> (r: Result<(), ScriptError>)
        ensures
            match old(self)@.push(bytes@) {
                Ok(v) => r is Ok && final(self)@ == v,
                Err(e) => r == Err::<(), ScriptError>(e) && final(self)@ == old(self)@,
            },
    {
        if self.main.len() >= MAX_STACK_SIZE || self.alt.len() >= MAX_STACK_SIZE - self.main.len() {
            return Err(ScriptError::StackOverflow);
        }
        if bytes.len() > MAX_SCRIPT_ELEMENT_SIZE {
            return Err(ScriptError::PushSize);
        }
        self.main.push(bytes);
        assert(self@.main =~= old(self)@.main.push(bytes@));
        Ok(())
    }

    /// Pushes on the alt stack, unless that would break a bound.
    pub fn push_alt(&mut self, bytes: Vec<u8>) -> (r: Result<(), ScriptError>)
        ensures
            match old(self)@.push_alt(bytes@) {
                Ok(v) => r is Ok && final(self)@ == v,
                Err(e) => r == Err::<(), ScriptError>(e) && final(self)@ == old(self)@,
            },
    {
        if self.main.len() >= MAX_STACK_SIZE || self.alt.len() >= MAX_STACK_SIZE - self.main.len() {
            return Err(ScriptError::StackOverflow);
        }
        if bytes.len() > MAX_SCRIPT_ELEMENT_SIZE {
            return Err(ScriptError::PushSize);
        }
        self.alt.push(bytes);
        assert(self@.alt =~= old(self)@.alt.push(bytes@));
        Ok(())
    }

    /// Removes and returns the top of the main stack.
    pub fn pop(&mut self) -> (r: Result<Vec<u8>, ScriptError>)
        ensures
            old(self)@.main.len() == 0 ==> r == Err::<Vec<u8>, ScriptError>(
                ScriptError::InvalidStackOperation,
            ) && final(self)@ == old(self)@,
            old(self)@.main.len() > 0 ==> r is Ok && r->Ok_0@ == old(self)@.main.last()
                && final(self)@ == (StackView {
                main: old(self)@.main.drop_last(),
                alt: old(self)@.alt,
            }),
    {
        match self.main.pop() {
            Some(v) => {
                assert(self@.main =~= old(self)@.main.drop_last());
                Ok(v)
            },
            None => Err(ScriptError::InvalidStackOperation),
        }
    }

    /// Removes and returns the top of the alt stack.
    pub fn pop_alt(&mut self) -> (r: Result<Vec<u8>, ScriptError>)
        ensures
            old(self)@.alt.len() == 0 ==> r == Err::<Vec<u8>, ScriptError>(
                ScriptError::InvalidAltStackOperation,
            ) && final(self)@ == old(self)@,
            old(self)@.alt.len() > 0 ==> r is Ok && r->Ok_0@ == old(self)@.alt.last()
                && final(self)@ == (StackView {
                main: old(self)@.main,
                alt: old(self)@.alt.drop_last(),
            }),
    {
        match self.alt.pop() {
            Some(v) => {
                assert(self@.alt =~= old(self)@.alt.drop_last());
                Ok(v)
            },
            None => Err(ScriptError::InvalidAltStackOperation),
        }
    }

    /// A copy of the element at offset `pos` from the top of the main stack
    /// (`0` is the top, `-1` the one below it).
    pub fn top(&self, pos: i64) -> (r: Result<Vec<u8>, ScriptError>)
        requires
            pos <= 0,
        ensures
            self@.index_of(pos as int) < 0 ==> r == Err::<Vec<u8>, ScriptError>(
                ScriptError::InvalidStackOperation,
            ),
            self@.index_of(pos as int) >= 0 ==> r is Ok && r->Ok_0@ == self@.main[self@.index_of(
                pos as int,
            )],
    {
        match depth_of(self.main.len(), pos) {
            None => Err(ScriptError::InvalidStackOperation),
            Some(d) => {
                let idx = self.main.len() - 1 - d;
                Ok(vstd::slice::slice_to_vec(self.main[idx].as_slice()))
            },
        }
    }

    /// Removes and returns the element at offset `pos` from the top of the
    /// main stack.
    pub fn rm_top(&mut self, pos: i64) -> (r: Result<Vec<u8>, ScriptError>)
        requires
            pos <= 0,
        ensures
            old(self)@.index_of(pos as int) < 0 ==> r == Err::<Vec<u8>, ScriptError>(
                ScriptError::InvalidStackOperation,
            ) && final(self)@ == old(self)@,
            old(self)@.index_of(pos as int) >= 0 ==> r is Ok && r->Ok_0@ == old(self)@.main[old(
                self,
            )@.index_of(pos as int)] && final(self)@ == (StackView {
                main: old(self)@.main.remove(old(self)@.index_of(pos as int)),
                alt: old(self)@.alt,
            }),
    {
        match depth_of(self.main.len(), pos) {
            None => Err(ScriptError::InvalidStackOperation),
            Some(d) => {
                let idx = self.main.len() - 1 - d;
                let v = self.main.remove(idx);
                assert(self@.main =~= old(self)@.main.remove(idx as int));
                Ok(v)
            },
        }
    }

    /// Exchanges the elements at offsets `a` and `b` from the top of the main
    /// stack.
    pub fn swap_top(&mut self, a: i64, b: i64) -> (r: Result<(), ScriptError>)
        requires
            a <= 0,
            b <= 0,
        ensures
            old(self)@.index_of(a as int) < 0 || old(self)@.index_of(b as int) < 0 ==> r == Err::<
                (),
                ScriptError,
            >(ScriptError::InvalidStackOperation) && final(self)@ == old(self)@,
            old(self)@.index_of(a as int) >= 0 && old(self)@.index_of(b as int) >= 0 ==> r is Ok
                && final(self)@ == (StackView {
                main: old(self)@.main.update(
                    old(self)@.index_of(a as int),
                    old(self)@.main[old(self)@.index_of(b as int)],
                ).update(old(self)@.index_of(b as int), old(self)@.main[old(self)@.index_of(a as int)]),
                alt: old(self)@.alt,
            }),
    {
        let da = depth_of(self.main.len(), a);
        let db = depth_of(self.main.len(), b);
        match (da, db) {
            (Some(x), Some(y)) => {
                let ia = self.main.len() - 1 - x;
                let ib = self.main.len() - 1 - y;
                let va = vstd::slice::slice_to_vec(self.main[ia].as_slice());
                let vb = vstd::slice::slice_to_vec(self.main[ib].as_slice());
                self.main.set(ia, vb);
                self.main.set(ib, va);
                assert(self@.main =~= old(self)@.main.update(ia as int, old(self)@.main[ib as int]).update(
                    ib as int,
                    old(self)@.main[ia as int],
                ));
                Ok(())
            },
            _ => Err(ScriptError::InvalidStackOperation),
        }
    }
}

} // verus!
