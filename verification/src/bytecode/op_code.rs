//! The instructions of the virtual machine.

use vstd::prelude::*;

use crate::string::StringSlice;

verus! {

/// A floating-point constant, kept as written.
#[derive(Debug, Clone, PartialEq, Eq)]
pub enum FloatConst {
    /// `whole` plus the decimal fraction whose digits are `fraction`.
    Decimal { whole: i64, fraction: String },
    Infinity,
    NaN,
}

#[derive(Debug, Clone, PartialEq, Eq)]
pub enum OpCode {
    /// Records the source span that the following instructions belong to.
    SetSlice { slice: StringSlice },
    /// Pushes the value of a variable.
    PushVariable { name: String },
    /// Pushes the currently held exception.
    PushException,
    /// Pushes the current "this" value.
    PushThis,
    /// Pushes the key under which an object's prototype is reached.
    PushPrototype,
    /// Stack: value, object. Sets the object's prototype.
    StoreProtorype,
    PushConstInt { value: i64 },
    PushConstFloat { value: FloatConst },
    PushConstBool { value: bool },
    PushConstString { value: String },
    /// Pushes a closure over the function with this index in the module.
    PushFunction { index: usize },
    PushNewObject,
    PushNewArray { initial_size: usize },
    PushConstNone,
    /// Stores the value at the top of the stack and leaves it there.
    StoreVariable { name: String },
    /// Adds a variable to the current context; it shadows contexts further down the chain.
    InitVariable { name: String },
    MarkVariableConst { name: String },
    /// Stack: parameters, function, and "this" if `this_call`.
    Invoke { param_count: usize, this_call: bool },
    PushContext,
    PopContext,
    /// Stack: index, object.
    PushIndex,
    /// Stack: value, index, object.
    StoreIndex,
    /// Duplicates the value at the top of the stack.
    Dupe,
    Pop,
    /// Throws the value at the top of the stack.
    Throw,
    /// Returns the value at the top of the stack.
    Return,
    OpAdd,
    OpSub,
    OpMul,
    OpDiv,
    OpRem,
    OpGe,
    OpLe,
    OpGt,
    OpLt,
    OpEq,
    OpNe,
    OpOr,
    OpAnd,
    OpUnaryAdd,
    OpUnarySub,
    OpUnaryNot,
    /// Pops two values, the top one a prototype, and pushes whether the other has that prototype.
    ProtoEq,
    ProtoNe,
    Jump { location: usize },
    /// Jumps if the value at the top of the stack is truthy.
    JumpTrue { location: usize },
    /// Jumps if the value at the top of the stack is falsy.
    JumpFalse { location: usize },
    /// Registers a handler at `location` for exceptions thrown from here on.
    PushCatch { location: usize },
    PopCatch,
    /// Loads the module at `path` and pushes its value. Only in the init function.
    Import { path: String },
    Export { name: String },
    /// Stands for a `break` until the enclosing loop replaces it by a jump.
    TempBreak,
    /// Stands for a `continue` until the enclosing loop replaces it by a jump.
    TempContinue,
}

impl OpCode {
    /// The instruction stands for a `break` or a `continue` that no loop has
    /// replaced yet.
    pub open spec fn is_temp(self) -> bool {
        self is TempBreak || self is TempContinue
    }
}

/// The instructions `after` begin with the instructions `before`: what
/// stood there was left as it was, and instructions were at most appended.
pub open spec fn kept(before: Seq<OpCode>, after: Seq<OpCode>) -> bool {
    &&& before.len() <= after.len()
    &&& forall|i: int| 0 <= i < before.len() ==> #[trigger] after[i] == before[i]
}

/// No instruction of `code` is a stand-in for `break` or `continue`.
pub open spec fn temp_free(code: Seq<OpCode>) -> bool {
    forall|i: int| 0 <= i < code.len() ==> !(#[trigger] code[i]).is_temp()
}

/// Joining two sequences without stand-ins gives one without stand-ins.
pub proof fn lemma_temp_free_concat(a: Seq<OpCode>, b: Seq<OpCode>)
    requires
        temp_free(a),
        temp_free(b),
    ensures
        temp_free(a + b),
{
    assert forall|i: int| 0 <= i < (a + b).len() implies !(#[trigger] (a + b)[i]).is_temp() by {
        if i < a.len() {
            assert((a + b)[i] == a[i]);
        } else {
            assert((a + b)[i] == b[i - a.len()]);
        }
    }
}

/// What a loop makes of an instruction of its body: a stand-in for `break`
/// becomes a jump to `exit`, one for `continue` a jump to `next`, and any
/// other instruction stays.
pub open spec fn patch_op(op: OpCode, exit: usize, next: usize) -> OpCode {
    match op {
        OpCode::TempBreak => OpCode::Jump { location: exit },
        OpCode::TempContinue => OpCode::Jump { location: next },
        _ => op,
    }
}

/// A loop body with every stand-in replaced by its jump.
pub open spec fn patch(code: Seq<OpCode>, exit: usize, next: usize) -> Seq<OpCode> {
    Seq::new(code.len(), |i: int| patch_op(code[i], exit, next))
}

/// Replaces the stand-ins among the instructions `from..to` by jumps.
pub fn patch_jumps(bytecode: &mut Vec<OpCode>, from: usize, to: usize, exit: usize, next: usize)
    requires
        from <= to <= old(bytecode)@.len(),
    ensures
        final(bytecode)@ == old(bytecode)@.subrange(0, from as int) + patch(
            old(bytecode)@.subrange(from as int, to as int),
            exit,
            next,
        ) + old(bytecode)@.subrange(to as int, old(bytecode)@.len() as int),
        temp_free(patch(old(bytecode)@.subrange(from as int, to as int), exit, next)),
{
    let mut i: usize = from;
    while i < to
        invariant
            from <= i <= to <= bytecode@.len(),
            bytecode@.len() == old(bytecode)@.len(),
            forall|k: int| 0 <= k < from || to <= k < bytecode@.len() ==> bytecode@[k] == old(bytecode)@[k],
            forall|k: int| from <= k < i ==> bytecode@[k] == patch_op(old(bytecode)@[k], exit, next),
            forall|k: int| i <= k < to ==> bytecode@[k] == old(bytecode)@[k],
        decreases to - i,
    {
        let replacement: Option<OpCode> = match &bytecode[i] {
            OpCode::TempBreak => Some(OpCode::Jump { location: exit }),
            OpCode::TempContinue => Some(OpCode::Jump { location: next }),
            _ => None,
        };
        if let Some(op) = replacement {
            bytecode.set(i, op);
        }
        i = i + 1;
    }
    assert(bytecode@ =~= old(bytecode)@.subrange(0, from as int) + patch(
        old(bytecode)@.subrange(from as int, to as int),
        exit,
        next,
    ) + old(bytecode)@.subrange(to as int, old(bytecode)@.len() as int));
}

} // verus!
