//! Control statements.

use std::sync::Arc;
use vstd::prelude::*;

use super::{Block, Stmt};
use crate::bytecode::op_code::{
    kept, lemma_temp_free_concat, patch, patch_jumps, temp_free, OpCode,
};
use crate::bytecode::{first_fault, BytecodeGenerationError};
use crate::parse_tree::expr::Expr;
use crate::parse_tree::{at, at_keyword, found_at, moves, needs_keyword, needs_name, past, refusal, scanned, stuck, tok, spans, took, accept_keyword, begins_expr, comes_expr, comes_keyword, comes_name, comes_stmt, refused, control_opening, expr_opening, follows, lemma_stream_shift, next_token, opens, opens_keyword, parsed, peek_is_keyword, peek_slice, peek_token, require_identifier, require_keyword, unexpected_next, ParserError};
use crate::tokenizer::token::{Keyword, Token, TokenKind};
use crate::tokenizer::{token_from, TokenizeError, Tokenizer};
use crate::string::{owned, string_of, StringSlice};
use vstd::string::StringExecFns;

verus! {

#[derive(Debug, PartialEq, Eq)]
pub struct ControlStmt {
    pub slice: StringSlice,
    pub kind: ControlKind,
}

#[derive(Debug, PartialEq, Eq)]
pub enum ControlKind {
    While(WhileStmt),
    If(IfStmt),
    For(ForStmt),
    Try(TryStmt),
    Throw(Expr),
    Return(Option<Expr>),
    Export(String),
    Continue,
    Break,
}

#[derive(Debug, PartialEq, Eq)]
pub struct TryStmt {
    pub slice: StringSlice,
    pub try_block: Block,
    pub catch_name: String,
    pub catch_block: Block,
}

/// `while condition do ... end`, or `until condition do ... end` if `until`.
#[derive(Debug, PartialEq, Eq)]
pub struct WhileStmt {
    pub slice: StringSlice,
    pub until: bool,
    pub arm: ConditionArm,
}

#[derive(Debug, PartialEq, Eq)]
pub struct IfStmt {
    pub slice: StringSlice,
    pub arms: Vec<ConditionArm>,
    pub else_arm: Option<Block>,
}

/// `for each name in expr do ... end`
#[derive(Debug, PartialEq, Eq)]
pub struct ForStmt {
    pub slice: StringSlice,
    pub name: String,
    pub expr: Expr,
    pub block: Block,
}

#[derive(Debug, PartialEq, Eq)]
pub struct ConditionArm {
    pub slice: StringSlice,
    pub condition: Expr,
    pub block: Block,
}

impl ControlStmt {
    /// The instructions that the statement lowers to when placed at
    /// position `base`.
    pub open spec fn code(&self, base: nat) -> Seq<OpCode>
        decreases self,
    {
        let here = seq![OpCode::SetSlice { slice: self.slice }];
        here + match self.kind {
            ControlKind::Break => seq![OpCode::TempBreak],
            ControlKind::Continue => seq![OpCode::TempContinue],
            ControlKind::Export(name) => seq![OpCode::Export { name }],
            ControlKind::Return(Some(value)) => value.code() + here + seq![OpCode::Return],
            ControlKind::Return(None) => seq![OpCode::PushConstNone, OpCode::Return],
            ControlKind::Throw(value) => value.code() + here + seq![OpCode::Throw],
            ControlKind::For(stmt) => stmt.code(base + 1),
            ControlKind::If(stmt) => stmt.code(base + 1),
            ControlKind::Try(stmt) => stmt.code(base + 1),
            ControlKind::While(stmt) => stmt.code(base + 1),
        }
    }

    /// The first error that lowering meets, if any. `break` and `continue`
    /// are errors where no loop takes them, and `export` where exports are
    /// not allowed.
    pub open spec fn fault(&self, allow_export: bool, allow_break_continue: bool) -> Option<
        BytecodeGenerationError,
    >
        decreases self,
    {
        match self.kind {
            ControlKind::Break => if allow_break_continue {
                None
            } else {
                Some(BytecodeGenerationError::IllegalBreak(self.slice))
            },
            ControlKind::Continue => if allow_break_continue {
                None
            } else {
                Some(BytecodeGenerationError::IllegalContinue(self.slice))
            },
            ControlKind::Export(_) => if allow_export {
                None
            } else {
                Some(BytecodeGenerationError::IllegalExport(self.slice))
            },
            ControlKind::Return(Some(value)) => value.fault(),
            ControlKind::Return(None) => None,
            ControlKind::Throw(value) => value.fault(),
            ControlKind::For(stmt) => stmt.fault(),
            ControlKind::If(stmt) => stmt.fault(allow_break_continue),
            ControlKind::Try(stmt) => stmt.fault(allow_break_continue),
            ControlKind::While(stmt) => stmt.fault(),
        }
    }

    /// Appends the instructions of the statement. Where `break`,
    /// `continue` or `export` is refused, only the directive that names
    /// the span was appended: no stand-in and no `Export`. On every error
    /// the instructions that stood before are left as they were.
    pub fn generate_bytecode(
        &self,
        bytecode: &mut Vec<OpCode>,
        allow_export: bool,
        allow_break_continue: bool,
    ) -> (r: Result<(), BytecodeGenerationError>)
        ensures
            r is Err ==> kept(old(bytecode)@, final(bytecode)@),
            match r {
                Ok(()) => self.fault(allow_export, allow_break_continue) is None && final(bytecode)@ == old(bytecode)@ + self.code(old(bytecode)@.len()),
                Err(e) => self.fault(allow_export, allow_break_continue) == Some(e),
            },
            r is Ok && !allow_break_continue && temp_free(old(bytecode)@) ==> temp_free(final(bytecode)@),
            r is Err && (self.kind is Break || self.kind is Continue || self.kind is Export)
                ==> final(bytecode)@ == old(bytecode)@.push(OpCode::SetSlice { slice: self.slice }),
        decreases self,
    {
        bytecode.push(OpCode::SetSlice { slice: self.slice.duplicate() });
        match &self.kind {
            ControlKind::Break => {
                if !allow_break_continue {
                    return Err(BytecodeGenerationError::IllegalBreak(self.slice.duplicate()));
                }
                bytecode.push(OpCode::TempBreak);
            },
            ControlKind::Continue => {
                if !allow_break_continue {
                    return Err(BytecodeGenerationError::IllegalContinue(self.slice.duplicate()));
                }
                bytecode.push(OpCode::TempContinue);
            },
            ControlKind::Export(name) => {
                if !allow_export {
                    return Err(BytecodeGenerationError::IllegalExport(self.slice.duplicate()));
                }
                bytecode.push(OpCode::Export { name: name.clone() });
            },
            ControlKind::Return(value) => {
                if let Some(value) = value {
                    value.generate_bytecode(bytecode)?;
                    bytecode.push(OpCode::SetSlice { slice: self.slice.duplicate() });
                } else {
                    bytecode.push(OpCode::PushConstNone);
                }
                bytecode.push(OpCode::Return);
            },
            ControlKind::Throw(value) => {
                value.generate_bytecode(bytecode)?;
                bytecode.push(OpCode::SetSlice { slice: self.slice.duplicate() });
                bytecode.push(OpCode::Throw);
            },
            ControlKind::For(stmt) => stmt.generate_bytecode(bytecode)?,
            ControlKind::If(stmt) => stmt.generate_bytecode(bytecode, allow_break_continue)?,
            ControlKind::Try(stmt) => stmt.generate_bytecode(bytecode, allow_break_continue)?,
            ControlKind::While(stmt) => stmt.generate_bytecode(bytecode)?,
        }
        assert(bytecode@ =~= old(bytecode)@ + self.code(old(bytecode)@.len()));
        Ok(())
    }
}

impl TryStmt {
    /// The instructions that bind the exception to the catch variable.
    pub open spec fn bind_code(&self) -> Seq<OpCode> {
        seq![
            OpCode::InitVariable { name: self.catch_name },
            OpCode::PushException,
            OpCode::StoreVariable { name: self.catch_name },
            OpCode::Pop,
            OpCode::MarkVariableConst { name: self.catch_name },
        ]
    }

    /// The instructions that the statement lowers to when placed at
    /// position `base`: a handler is registered, the try block runs, the
    /// handler is removed and the catch part is jumped over; the catch part
    /// binds the exception and runs the catch block.
    pub open spec fn code(&self, base: nat) -> Seq<OpCode>
        decreases self,
    {
        let tried = self.try_block.code(base + 1);
        let catch_start = base + 1 + tried.len() + 2;
        let caught = self.catch_block.code(catch_start + 5);
        let end = catch_start + 5 + caught.len();
        seq![OpCode::PushCatch { location: catch_start as usize }] + tried + seq![
            OpCode::PopCatch,
            OpCode::Jump { location: end as usize },
        ] + self.bind_code() + caught
    }

    /// The first error that lowering meets, if any. `break` and `continue`
    /// in the blocks are errors unless `allow_break_continue` says that a
    /// loop around the statement takes them.
    pub open spec fn fault(&self, allow_break_continue: bool) -> Option<BytecodeGenerationError>
        decreases self,
    {
        first_fault(
            self.try_block.fault(false, allow_break_continue),
            self.catch_block.fault(false, allow_break_continue),
        )
    }

    #[verifier::spinoff_prover]
    #[verifier::rlimit(60)]
    pub fn generate_bytecode(&self, bytecode: &mut Vec<OpCode>, allow_break_continue: bool) -> (r:
        Result<(), BytecodeGenerationError>)
        ensures
            r is Err ==> kept(old(bytecode)@, final(bytecode)@),
            match r {
                Ok(()) => self.fault(allow_break_continue) is None && final(bytecode)@ == old(bytecode)@ + self.code(old(bytecode)@.len()),
                Err(e) => self.fault(allow_break_continue) == Some(e),
            },
            r is Ok && !allow_break_continue && temp_free(old(bytecode)@) ==> temp_free(
                final(bytecode)@,
            ),
        decreases self,
    {
        let ghost base = bytecode@.len();
        let ghost before = bytecode@;
        let catch_update_index: usize = bytecode.len();
        bytecode.push(OpCode::PushCatch { location: 0 });
        self.try_block.generate_bytecode(bytecode, false, allow_break_continue)?;
        let ghost tried = self.try_block.code(base + 1);
        assert(bytecode@ =~= before + seq![OpCode::PushCatch { location: 0 }] + tried);
        bytecode.push(OpCode::PopCatch);
        let jump_update_index: usize = bytecode.len();
        bytecode.push(OpCode::Jump { location: 0 });
        let catch_start: usize = bytecode.len();
        bytecode.set(catch_update_index, OpCode::PushCatch { location: catch_start });
        let ghost head = before + seq![OpCode::PushCatch { location: catch_start }] + tried;
        assert(bytecode@ =~= head + seq![OpCode::PopCatch, OpCode::Jump { location: 0 }]);
        let ghost stage = bytecode@;
        bytecode.push(OpCode::InitVariable { name: self.catch_name.clone() });
        bytecode.push(OpCode::PushException);
        bytecode.push(OpCode::StoreVariable { name: self.catch_name.clone() });
        bytecode.push(OpCode::Pop);
        bytecode.push(OpCode::MarkVariableConst { name: self.catch_name.clone() });
        assert(bytecode@ =~= stage + self.bind_code());
        self.catch_block.generate_bytecode(bytecode, false, allow_break_continue)?;
        let ghost caught = self.catch_block.code((catch_start + 5) as nat);
        let end: usize = bytecode.len();
        bytecode.set(jump_update_index, OpCode::Jump { location: end });
        assert(bytecode@ =~= head + seq![OpCode::PopCatch, OpCode::Jump { location: end }]
            + self.bind_code() + caught);
        assert(head + seq![OpCode::PopCatch, OpCode::Jump { location: end }] + self.bind_code()
            + caught =~= before + self.code(base));
        Ok(())
    }
}

impl WhileStmt {
    /// The instructions that the loop lowers to when placed at position
    /// `base`: the condition, a jump to the exit when the loop is over, the
    /// body, and a jump back to the condition. In the body `break` jumps to
    /// the exit and `continue` to the condition.
    pub open spec fn code(&self, base: nat) -> Seq<OpCode>
        decreases self,
    {
        let condition = self.arm.condition.code();
        let body_start = base + condition.len() + 1;
        let body = self.arm.block.code(body_start);
        let exit = (body_start + body.len() + 1) as usize;
        condition + seq![
            if self.until {
                OpCode::JumpTrue { location: exit }
            } else {
                OpCode::JumpFalse { location: exit }
            },
        ] + patch(body, exit, base as usize) + seq![OpCode::Jump { location: base as usize }]
    }

    /// The first error that lowering meets, if any.
    pub open spec fn fault(&self) -> Option<BytecodeGenerationError>
        decreases self,
    {
        first_fault(self.arm.condition.fault(), self.arm.block.fault(false, true))
    }

    pub fn generate_bytecode(&self, bytecode: &mut Vec<OpCode>) -> (r: Result<
        (),
        BytecodeGenerationError,
    >)
        ensures
            r is Err ==> kept(old(bytecode)@, final(bytecode)@),
            match r {
                Ok(()) => self.fault() is None && final(bytecode)@ == old(bytecode)@ + self.code(
                    old(bytecode)@.len(),
                ),
                Err(e) => self.fault() == Some(e),
            },
            r is Ok && temp_free(old(bytecode)@) ==> temp_free(final(bytecode)@),
        decreases self,
    {
        let ghost base = bytecode@.len();
        let ghost before = bytecode@;
        let condition_index: usize = bytecode.len();
        self.arm.condition.generate_bytecode(bytecode)?;
        let ghost condition = self.arm.condition.code();
        let jump_update_index: usize = bytecode.len();
        bytecode.push(OpCode::JumpTrue { location: 0 });
        let body_start: usize = bytecode.len();
        self.arm.block.generate_bytecode(bytecode, false, true)?;
        let ghost body = self.arm.block.code(body_start as nat);
        let body_end: usize = bytecode.len();
        bytecode.push(OpCode::Jump { location: condition_index });
        let exit_index: usize = bytecode.len();
        let ghost unpatched = bytecode@;
        let ghost head = before + condition + seq![OpCode::JumpTrue { location: 0 }];
        assert(unpatched =~= head + body + seq![OpCode::Jump { location: condition_index }]);
        patch_jumps(bytecode, body_start, body_end, exit_index, condition_index);
        assert(unpatched.subrange(0, body_start as int) =~= head);
        assert(unpatched.subrange(body_start as int, body_end as int) =~= body);
        assert(unpatched.subrange(body_end as int, unpatched.len() as int) =~= seq![
            OpCode::Jump { location: condition_index },
        ]);
        let ghost tail = patch(body, exit_index, condition_index) + seq![
            OpCode::Jump { location: condition_index },
        ];
        assert(bytecode@ =~= head + tail);
        proof {
            if temp_free(before) {
                assert(temp_free(head));
                lemma_temp_free_concat(
                    patch(body, exit_index, condition_index),
                    seq![OpCode::Jump { location: condition_index }],
                );
                lemma_temp_free_concat(head, tail);
            }
        }
        if self.until {
            bytecode.set(jump_update_index, OpCode::JumpTrue { location: exit_index });
        } else {
            bytecode.set(jump_update_index, OpCode::JumpFalse { location: exit_index });
        }
        assert(bytecode@ =~= before + self.code(base));
        Ok(())
    }
}

impl ForStmt {
    /// The name of the hidden variable that holds the collection.
    pub open spec fn value_name(&self) -> String {
        string_of("__each_"@ + self.name@ + "_value__"@)
    }

    /// The name of the hidden variable that holds the position in the collection.
    pub open spec fn index_name(&self) -> String {
        string_of("__each_"@ + self.name@ + "_index__"@)
    }

    /// The instructions that store the collection and the position 0 in the
    /// hidden variables.
    pub open spec fn setup_code(&self) -> Seq<OpCode> {
        seq![OpCode::InitVariable { name: self.value_name() }] + self.expr.code() + seq![
            OpCode::StoreVariable { name: self.value_name() },
            OpCode::Pop,
            OpCode::InitVariable { name: self.index_name() },
            OpCode::PushConstInt { value: 0 },
            OpCode::StoreVariable { name: self.index_name() },
            OpCode::Pop,
        ]
    }

    /// The instructions that move the position one on.
    pub open spec fn increment_code(&self) -> Seq<OpCode> {
        seq![
            OpCode::PushVariable { name: self.index_name() },
            OpCode::PushConstInt { value: 1 },
            OpCode::OpAdd,
            OpCode::StoreVariable { name: self.index_name() },
            OpCode::Pop,
        ]
    }

    /// The instructions that leave the loop at `exit` unless the position
    /// is below the length of the collection.
    pub open spec fn header_code(&self, exit: usize) -> Seq<OpCode> {
        seq![
            OpCode::PushVariable { name: self.index_name() },
            OpCode::PushVariable { name: self.value_name() },
            OpCode::PushConstString { value: string_of("length"@) },
            OpCode::PushIndex,
            OpCode::OpLt,
            OpCode::JumpFalse { location: exit },
        ]
    }

    /// The instructions that the loop lowers to when placed at position
    /// `base`: the setup, a jump over the increment to the header, the
    /// increment, the header, the body, and a jump back to the increment.
    /// In the body `break` jumps to the exit and `continue` to the
    /// increment.
    pub open spec fn code(&self, base: nat) -> Seq<OpCode>
        decreases self,
    {
        let setup = self.setup_code();
        let increment = base + setup.len() + 1;
        let header = increment + 5;
        let body_start = header + 6;
        let body = self.block.code(body_start);
        let exit = (body_start + body.len() + 1) as usize;
        setup + seq![OpCode::Jump { location: header as usize }] + self.increment_code()
            + self.header_code(exit) + patch(body, exit, increment as usize) + seq![
            OpCode::Jump { location: increment as usize },
        ]
    }

    /// The first error that lowering meets, if any.
    pub open spec fn fault(&self) -> Option<BytecodeGenerationError>
        decreases self,
    {
        first_fault(self.expr.fault(), self.block.fault(false, true))
    }

    #[verifier::spinoff_prover]
    #[verifier::rlimit(60)]
    pub fn generate_bytecode(&self, bytecode: &mut Vec<OpCode>) -> (r: Result<
        (),
        BytecodeGenerationError,
    >)
        ensures
            r is Err ==> kept(old(bytecode)@, final(bytecode)@),
            match r {
                Ok(()) => self.fault() is None && final(bytecode)@ == old(bytecode)@ + self.code(
                    old(bytecode)@.len(),
                ),
                Err(e) => self.fault() == Some(e),
            },
            r is Ok && temp_free(old(bytecode)@) ==> temp_free(final(bytecode)@),
            self.value_name()@ == "__each_"@ + self.name@ + "_value__"@,
            self.index_name()@ == "__each_"@ + self.name@ + "_index__"@,
            string_of("length"@)@ == "length"@,
        decreases self,
    {
        let ghost base = bytecode@.len();
        let ghost before = bytecode@;
        let mut text = String::from_str("__each_");
        text.append(self.name.as_str());
        text.append("_value__");
        let value_name = owned(text.as_str());
        let mut text = String::from_str("__each_");
        text.append(self.name.as_str());
        text.append("_index__");
        let index_name = owned(text.as_str());
        let length = owned("length");
        assert(value_name == self.value_name());
        assert(index_name == self.index_name());

        bytecode.push(OpCode::InitVariable { name: value_name.clone() });
        self.expr.generate_bytecode(bytecode)?;
        bytecode.push(OpCode::StoreVariable { name: value_name.clone() });
        bytecode.push(OpCode::Pop);
        bytecode.push(OpCode::InitVariable { name: index_name.clone() });
        bytecode.push(OpCode::PushConstInt { value: 0 });
        bytecode.push(OpCode::StoreVariable { name: index_name.clone() });
        bytecode.push(OpCode::Pop);
        let ghost setup = self.setup_code();
        assert(bytecode@ =~= before + setup);

        let jump_update_index: usize = bytecode.len();
        bytecode.push(OpCode::Jump { location: 0 });
        let increment_pos: usize = bytecode.len();
        let ghost stage = bytecode@;
        bytecode.push(OpCode::PushVariable { name: index_name.clone() });
        bytecode.push(OpCode::PushConstInt { value: 1 });
        bytecode.push(OpCode::OpAdd);
        bytecode.push(OpCode::StoreVariable { name: index_name.clone() });
        bytecode.push(OpCode::Pop);
        assert(bytecode@ =~= stage + self.increment_code());
        let header_pos: usize = bytecode.len();
        bytecode.set(jump_update_index, OpCode::Jump { location: header_pos });
        let ghost head = before + setup + seq![OpCode::Jump { location: header_pos }]
            + self.increment_code();
        assert(bytecode@ =~= head);

        bytecode.push(OpCode::PushVariable { name: index_name.clone() });
        bytecode.push(OpCode::PushVariable { name: value_name.clone() });
        bytecode.push(OpCode::PushConstString { value: length });
        bytecode.push(OpCode::PushIndex);
        bytecode.push(OpCode::OpLt);
        let update_exit_pos: usize = bytecode.len();
        bytecode.push(OpCode::JumpFalse { location: 0 });
        assert(bytecode@ =~= head + self.header_code(0));

        let body_start: usize = bytecode.len();
        self.block.generate_bytecode(bytecode, false, true)?;
        let ghost body = self.block.code(body_start as nat);
        let body_end: usize = bytecode.len();
        bytecode.push(OpCode::Jump { location: increment_pos });
        let exit_pos: usize = bytecode.len();
        let ghost unpatched = bytecode@;
        assert(unpatched =~= head + self.header_code(0) + body + seq![
            OpCode::Jump { location: increment_pos },
        ]);
        patch_jumps(bytecode, body_start, body_end, exit_pos, increment_pos);
        assert(unpatched.subrange(0, body_start as int) =~= head + self.header_code(0));
        assert(unpatched.subrange(body_start as int, body_end as int) =~= body);
        assert(unpatched.subrange(body_end as int, unpatched.len() as int) =~= seq![
            OpCode::Jump { location: increment_pos },
        ]);
        let ghost tail = patch(body, exit_pos, increment_pos) + seq![
            OpCode::Jump { location: increment_pos },
        ];
        assert(bytecode@ =~= head + self.header_code(0) + tail);
        proof {
            if temp_free(before) {
                assert(temp_free(head + self.header_code(0)));
                lemma_temp_free_concat(
                    patch(body, exit_pos, increment_pos),
                    seq![OpCode::Jump { location: increment_pos }],
                );
                lemma_temp_free_concat(head + self.header_code(0), tail);
            }
        }
        bytecode.set(update_exit_pos, OpCode::JumpFalse { location: exit_pos });
        assert(bytecode@ =~= head + self.header_code(exit_pos) + tail);
        assert(head + self.header_code(exit_pos) + tail =~= before + self.code(base));
        Ok(())
    }
}

/// Replacing the one instruction between two stretches leaves the stretches
/// as they are.
proof fn lemma_set_between(a: Seq<OpCode>, x: OpCode, b: Seq<OpCode>, y: OpCode)
    ensures
        (a + seq![x] + b).update(a.len() as int, y) == a + seq![y] + b,
{
    assert((a + seq![x] + b).update(a.len() as int, y) =~= a + seq![y] + b);
}

impl IfStmt {
    /// The position of the block of arm `k` when the first block is placed at `start`.
    pub open spec fn block_start(&self, k: nat, start: nat) -> usize
        decreases self, k, 1nat,
    {
        (start + self.blocks_code(k, 0, start, 0).len()) as usize
    }

    /// The conditions of the first `n` arms, each followed by a jump to the
    /// block of its arm, taken when the condition holds. The jumps of the
    /// first `patched` arms carry their targets; the others still hold the
    /// placeholder 0.
    pub open spec fn conds_code(&self, n: nat, patched: nat, start: nat) -> Seq<OpCode>
        decreases self, n, 2nat,
    {
        if n == 0 || n > self.arms.len() {
            Seq::empty()
        } else {
            self.conds_code((n - 1) as nat, patched, start) + self.arms[n - 1].condition.code()
                + seq![
                OpCode::JumpTrue {
                    location: if n - 1 < patched {
                        self.block_start((n - 1) as nat, start)
                    } else {
                        0
                    },
                },
            ]
        }
    }

    /// The blocks of the first `n` arms, the first placed at `start`, each
    /// followed by a jump to `exit`. The jumps of the first `patched` arms
    /// carry the target; the others still hold the placeholder 0.
    pub open spec fn blocks_code(&self, n: nat, patched: nat, start: nat, exit: usize) -> Seq<
        OpCode,
    >
        decreases self, n, 0nat,
    {
        if n == 0 || n > self.arms.len() {
            Seq::empty()
        } else {
            let prev = self.blocks_code((n - 1) as nat, patched, start, exit);
            prev + self.arms[n - 1].block.code(start + prev.len()) + seq![
                OpCode::Jump { location: if n - 1 < patched { exit } else { 0 } },
            ]
        }
    }

    /// The first error among the conditions of the first `n` arms, if any.
    pub open spec fn conds_fault(&self, n: nat) -> Option<BytecodeGenerationError>
        decreases self, n, 0nat,
    {
        if n == 0 || n > self.arms.len() {
            None
        } else {
            first_fault(self.conds_fault((n - 1) as nat), self.arms[n - 1].condition.fault())
        }
    }

    /// The first error among the blocks of the first `n` arms, if any.
    /// `break` and `continue` are errors unless `allow_break_continue` says
    /// that a loop around the statement takes them.
    pub open spec fn blocks_fault(&self, n: nat, allow_break_continue: bool) -> Option<
        BytecodeGenerationError,
    >
        decreases self, n, 0nat,
    {
        if n == 0 || n > self.arms.len() {
            None
        } else {
            first_fault(
                self.blocks_fault((n - 1) as nat, allow_break_continue),
                self.arms[n - 1].block.fault(false, allow_break_continue),
            )
        }
    }

    /// The else block placed at `at`; nothing if there is none.
    pub open spec fn else_code(&self, at: nat) -> Seq<OpCode>
        decreases self, 0nat, 0nat,
    {
        match self.else_arm {
            Some(block) => block.code(at),
            None => Seq::empty(),
        }
    }

    /// The instructions that the statement lowers to when placed at
    /// position `base`: every condition with a jump to its block, a jump to
    /// the else part, every block with a jump to the exit, and the else
    /// block if there is one.
    pub open spec fn code(&self, base: nat) -> Seq<OpCode>
        decreases self, self.arms.len() + 1, 0nat,
    {
        let n = self.arms.len() as nat;
        let start = base + self.conds_code(n, 0, 0).len() + 1;
        let else_start = start + self.blocks_code(n, 0, start, 0).len();
        let otherwise = self.else_code(else_start);
        let exit = (else_start + otherwise.len()) as usize;
        self.conds_code(n, n, start) + seq![OpCode::Jump { location: else_start as usize }]
            + self.blocks_code(n, n, start, exit) + otherwise
    }

    /// The first error that lowering meets, if any. `break` and `continue`
    /// in the blocks are errors unless `allow_break_continue` says that a
    /// loop around the statement takes them.
    pub open spec fn fault(&self, allow_break_continue: bool) -> Option<BytecodeGenerationError>
        decreases self, self.arms.len() + 1, 0nat,
    {
        let n = self.arms.len() as nat;
        first_fault(
            self.conds_fault(n),
            first_fault(
                self.blocks_fault(n, allow_break_continue),
                match self.else_arm {
                    Some(block) => block.fault(false, allow_break_continue),
                    None => None,
                },
            ),
        )
    }

    proof fn lemma_conds_fault_stays(&self, n: nat, m: nat)
        requires
            n <= m <= self.arms.len(),
            self.conds_fault(n) is Some,
        ensures
            self.conds_fault(m) == self.conds_fault(n),
        decreases m,
    {
        if n < m {
            self.lemma_conds_fault_stays(n, (m - 1) as nat);
        }
    }

    proof fn lemma_blocks_fault_stays(&self, n: nat, m: nat, allow: bool)
        requires
            n <= m <= self.arms.len(),
            self.blocks_fault(n, allow) is Some,
        ensures
            self.blocks_fault(m, allow) == self.blocks_fault(n, allow),
        decreases m,
    {
        if n < m {
            self.lemma_blocks_fault_stays(n, (m - 1) as nat, allow);
        }
    }

    /// How far the jumps are patched changes no length, and the arms
    /// beyond the first `n` play no part.
    proof fn lemma_conds_len(&self, n: nat, p: nat, q: nat, s: nat, t: nat)
        requires
            n <= self.arms.len(),
        ensures
            self.conds_code(n, p, s).len() == self.conds_code(n, q, t).len(),
            p >= n && q >= n && s == t ==> self.conds_code(n, p, s) == self.conds_code(n, q, t),
            p == 0 && q == 0 ==> self.conds_code(n, p, s) == self.conds_code(n, q, t),
        decreases n,
    {
        if n > 0 {
            self.lemma_conds_len((n - 1) as nat, p, q, s, t);
        }
    }

    proof fn lemma_blocks_len(&self, n: nat, p: nat, q: nat, start: nat, e: usize, f: usize)
        requires
            n <= self.arms.len(),
        ensures
            self.blocks_code(n, p, start, e).len() == self.blocks_code(n, q, start, f).len(),
            p >= n && q >= n && e == f ==> self.blocks_code(n, p, start, e) == self.blocks_code(
                n,
                q,
                start,
                f,
            ),
            p == 0 && q == 0 ==> self.blocks_code(n, p, start, e) == self.blocks_code(
                n,
                q,
                start,
                f,
            ),
        decreases n,
    {
        if n > 0 {
            self.lemma_blocks_len((n - 1) as nat, p, q, start, e, f);
        }
    }

    /// Patching the jump of arm `i` gives the code with one more jump patched.
    proof fn lemma_conds_step(&self, n: nat, i: nat, s: nat)
        requires
            i < n <= self.arms.len(),
        ensures
            self.conds_code((i + 1) as nat, 0, 0).len() >= 1,
            self.conds_code((i + 1) as nat, 0, 0).len() <= self.conds_code(n, i, s).len(),
            self.conds_code(n, i, s).update(
                self.conds_code((i + 1) as nat, 0, 0).len() - 1,
                OpCode::JumpTrue { location: self.block_start(i, s) },
            ) == self.conds_code(n, (i + 1) as nat, s),
        decreases n,
    {
        let pos = self.conds_code((i + 1) as nat, 0, 0).len() - 1;
        let jump = OpCode::JumpTrue { location: self.block_start(i, s) };
        self.lemma_conds_len((i + 1) as nat, 0, i, 0, s);
        if n - 1 == i {
            self.lemma_conds_len((n - 1) as nat, i, (i + 1) as nat, s, s);
            assert(self.conds_code(n, i, s).update(pos, jump) =~= self.conds_code(
                n,
                (i + 1) as nat,
                s,
            ));
        } else {
            self.lemma_conds_step((n - 1) as nat, i, s);
            assert(self.conds_code(n, i, s).update(pos, jump) =~= self.conds_code(
                n,
                (i + 1) as nat,
                s,
            ));
        }
    }

    /// Patching the exit jump of arm `i` gives the code with one more jump patched.
    proof fn lemma_blocks_step(&self, n: nat, i: nat, start: nat, exit: usize)
        requires
            i < n <= self.arms.len(),
        ensures
            self.blocks_code((i + 1) as nat, 0, start, 0).len() >= 1,
            self.blocks_code((i + 1) as nat, 0, start, 0).len() <= self.blocks_code(
                n,
                i,
                start,
                exit,
            ).len(),
            self.blocks_code(n, i, start, exit).update(
                self.blocks_code((i + 1) as nat, 0, start, 0).len() - 1,
                OpCode::Jump { location: exit },
            ) == self.blocks_code(n, (i + 1) as nat, start, exit),
        decreases n,
    {
        let pos = self.blocks_code((i + 1) as nat, 0, start, 0).len() - 1;
        let jump = OpCode::Jump { location: exit };
        self.lemma_blocks_len((i + 1) as nat, 0, i, start, 0, exit);
        self.lemma_blocks_len((n - 1) as nat, i, (i + 1) as nat, start, exit, exit);
        if n - 1 == i {
            assert(self.blocks_code(n, i, start, exit).update(pos, jump) =~= self.blocks_code(
                n,
                (i + 1) as nat,
                start,
                exit,
            ));
        } else {
            self.lemma_blocks_step((n - 1) as nat, i, start, exit);
            assert(self.blocks_code(n, i, start, exit).update(pos, jump) =~= self.blocks_code(
                n,
                (i + 1) as nat,
                start,
                exit,
            ));
        }
    }

    /// Lowers the conditions, each followed by a jump that still holds the
    /// placeholder, and returns the positions of those jumps.
    fn lower_conditions(&self, bytecode: &mut Vec<OpCode>) -> (r: Result<
        Vec<usize>,
        BytecodeGenerationError,
    >)
        ensures
            r is Err ==> kept(old(bytecode)@, final(bytecode)@),
            match r {
                Ok(jumps) => {
                    &&& self.conds_fault(self.arms.len() as nat) is None
                    &&& final(bytecode)@ == old(bytecode)@ + self.conds_code(
                        self.arms.len() as nat,
                        0,
                        0,
                    )
                    &&& jumps@.len() == self.arms.len()
                    &&& forall|k: int|
                        0 <= k < jumps@.len() ==> #[trigger] jumps@[k] == old(bytecode)@.len()
                            + self.conds_code((k + 1) as nat, 0, 0).len() - 1
                },
                Err(e) => self.conds_fault(self.arms.len() as nat) == Some(e),
            },
            r is Ok && temp_free(old(bytecode)@) ==> temp_free(final(bytecode)@),
        decreases self, 0nat,
    {
        let ghost before = bytecode@;
        let n: usize = self.arms.len();
        let mut jumps: Vec<usize> = Vec::new();
        let mut i: usize = 0;
        while i < n
            invariant
                kept(old(bytecode)@, bytecode@),
                temp_free(old(bytecode)@) ==> temp_free(bytecode@),
                n == self.arms.len(),
                i <= n,
                bytecode@ == before + self.conds_code(i as nat, 0, 0),
                jumps@.len() == i,
                forall|k: int|
                    0 <= k < i ==> #[trigger] jumps@[k] == before.len() + self.conds_code(
                        (k + 1) as nat,
                        0,
                        0,
                    ).len() - 1,
                self.conds_fault(i as nat) is None,
            decreases n - i,
        {
            match self.arms[i].condition.generate_bytecode(bytecode) {
                Ok(()) => {},
                Err(e) => {
                    proof {
                        self.lemma_conds_fault_stays((i + 1) as nat, n as nat);
                    }
                    return Err(e);
                },
            }
            let ghost prior = jumps@;
            jumps.push(bytecode.len());
            bytecode.push(OpCode::JumpTrue { location: 0 });
            assert(bytecode@ =~= before + self.conds_code((i + 1) as nat, 0, 0));
            assert forall|k: int| 0 <= k < i + 1 implies #[trigger] jumps@[k] == before.len()
                + self.conds_code((k + 1) as nat, 0, 0).len() - 1 by {
                if k < i {
                    assert(jumps@[k] == prior[k]);
                }
            }
            i = i + 1;
        }
        Ok(jumps)
    }

    /// Lowers the blocks, each followed by a jump that still holds the
    /// placeholder, and returns where each block starts and where each of
    /// those jumps stands.
    fn lower_blocks(&self, bytecode: &mut Vec<OpCode>, allow_break_continue: bool) -> (r: Result<
        (Vec<usize>, Vec<usize>),
        BytecodeGenerationError,
    >)
        ensures
            r is Err ==> kept(old(bytecode)@, final(bytecode)@),
            match r {
                Ok((starts, exits)) => {
                    &&& self.blocks_fault(self.arms.len() as nat, allow_break_continue) is None
                    &&& final(bytecode)@ == old(bytecode)@ + self.blocks_code(
                        self.arms.len() as nat,
                        0,
                        old(bytecode)@.len(),
                        0,
                    )
                    &&& starts@.len() == self.arms.len()
                    &&& exits@.len() == self.arms.len()
                    &&& forall|k: int|
                        0 <= k < starts@.len() ==> #[trigger] starts@[k] == self.block_start(
                            k as nat,
                            old(bytecode)@.len(),
                        )
                    &&& forall|k: int|
                        0 <= k < exits@.len() ==> #[trigger] exits@[k] == old(bytecode)@.len()
                            + self.blocks_code((k + 1) as nat, 0, old(bytecode)@.len(), 0).len() - 1
                },
                Err(e) => self.blocks_fault(self.arms.len() as nat, allow_break_continue) == Some(e),
            },
            r is Ok && !allow_break_continue && temp_free(old(bytecode)@) ==> temp_free(
                final(bytecode)@,
            ),
        decreases self, 0nat,
    {
        let ghost before = bytecode@;
        let ghost start = bytecode@.len();
        let n: usize = self.arms.len();
        let mut starts: Vec<usize> = Vec::new();
        let mut exits: Vec<usize> = Vec::new();
        let mut i: usize = 0;
        while i < n
            invariant
                kept(old(bytecode)@, bytecode@),
                !allow_break_continue && temp_free(old(bytecode)@) ==> temp_free(bytecode@),
                n == self.arms.len(),
                i <= n,
                start == before.len(),
                bytecode@ == before + self.blocks_code(i as nat, 0, start, 0),
                starts@.len() == i,
                exits@.len() == i,
                forall|k: int|
                    0 <= k < i ==> #[trigger] starts@[k] == self.block_start(k as nat, start),
                forall|k: int|
                    0 <= k < i ==> #[trigger] exits@[k] == start + self.blocks_code(
                        (k + 1) as nat,
                        0,
                        start,
                        0,
                    ).len() - 1,
                self.blocks_fault(i as nat, allow_break_continue) is None,
            decreases n - i,
        {
            let ghost prior_starts = starts@;
            let ghost prior_exits = exits@;
            starts.push(bytecode.len());
            match self.arms[i].block.generate_bytecode(bytecode, false, allow_break_continue) {
                Ok(()) => {},
                Err(e) => {
                    proof {
                        self.lemma_blocks_fault_stays((i + 1) as nat, n as nat, allow_break_continue);
                    }
                    return Err(e);
                },
            }
            exits.push(bytecode.len());
            bytecode.push(OpCode::Jump { location: 0 });
            assert(bytecode@ =~= before + self.blocks_code((i + 1) as nat, 0, start, 0));
            assert forall|k: int| 0 <= k < i + 1 implies #[trigger] starts@[k] == self.block_start(
                k as nat,
                start,
            ) by {
                if k < i {
                    assert(starts@[k] == prior_starts[k]);
                }
            }
            assert forall|k: int| 0 <= k < i + 1 implies #[trigger] exits@[k] == start
                + self.blocks_code((k + 1) as nat, 0, start, 0).len() - 1 by {
                if k < i {
                    assert(exits@[k] == prior_exits[k]);
                }
            }
            i = i + 1;
        }
        Ok((starts, exits))
    }

    /// Writes into the jump after each condition the position of its block.
    fn patch_conditions(
        &self,
        bytecode: &mut Vec<OpCode>,
        jumps: &Vec<usize>,
        starts: &Vec<usize>,
        Ghost(base): Ghost<nat>,
        Ghost(start): Ghost<nat>,
        Ghost(rest): Ghost<Seq<OpCode>>,
    )
        requires
            old(bytecode)@.len() >= base,
            old(bytecode)@ == old(bytecode)@.subrange(0, base as int) + self.conds_code(
                self.arms.len() as nat,
                0,
                0,
            ) + rest,
            jumps@.len() == self.arms.len(),
            starts@.len() == self.arms.len(),
            forall|k: int|
                0 <= k < jumps@.len() ==> #[trigger] jumps@[k] == base + self.conds_code(
                    (k + 1) as nat,
                    0,
                    0,
                ).len() - 1,
            forall|k: int|
                0 <= k < starts@.len() ==> #[trigger] starts@[k] == self.block_start(
                    k as nat,
                    start,
                ),
        ensures
            final(bytecode)@ == old(bytecode)@.subrange(0, base as int) + self.conds_code(
                self.arms.len() as nat,
                self.arms.len() as nat,
                start,
            ) + rest,
            final(bytecode)@.len() == old(bytecode)@.len(),
            temp_free(old(bytecode)@) ==> temp_free(final(bytecode)@),
    {
        let ghost before = bytecode@.subrange(0, base as int);
        let n: usize = self.arms.len();
        proof {
            self.lemma_conds_len(n as nat, 0, 0, 0, start);
        }
        let mut i: usize = 0;
        while i < n
            invariant
                temp_free(old(bytecode)@) ==> temp_free(bytecode@),
                n == self.arms.len(),
                i <= n,
                before.len() == base,
                bytecode@ == before + self.conds_code(n as nat, i as nat, start) + rest,
                bytecode@.len() == old(bytecode)@.len(),
                jumps@.len() == n,
                starts@.len() == n,
                forall|k: int|
                    0 <= k < n ==> #[trigger] jumps@[k] == base + self.conds_code(
                        (k + 1) as nat,
                        0,
                        0,
                    ).len() - 1,
                forall|k: int|
                    0 <= k < n ==> #[trigger] starts@[k] == self.block_start(k as nat, start),
            decreases n - i,
        {
            let ghost conds = self.conds_code(n as nat, i as nat, start);
            let ghost at = self.conds_code((i + 1) as nat, 0, 0).len() - 1;
            proof {
                self.lemma_conds_step(n as nat, i as nat, start);
            }
            let at_exec: usize = jumps[i];
            let target: usize = starts[i];
            assert(at_exec == base + at);
            bytecode.set(at_exec, OpCode::JumpTrue { location: target });
            assert(bytecode@ =~= before + conds.update(at, OpCode::JumpTrue { location: target })
                + rest);
            i = i + 1;
        }
    }

    /// Writes the exit position into the jump after each block.
    fn patch_exits(
        &self,
        bytecode: &mut Vec<OpCode>,
        exits: &Vec<usize>,
        exit: usize,
        Ghost(start): Ghost<nat>,
        Ghost(rest): Ghost<Seq<OpCode>>,
    )
        requires
            old(bytecode)@.len() >= start,
            old(bytecode)@ == old(bytecode)@.subrange(0, start as int) + self.blocks_code(
                self.arms.len() as nat,
                0,
                start,
                0,
            ) + rest,
            exits@.len() == self.arms.len(),
            forall|k: int|
                0 <= k < exits@.len() ==> #[trigger] exits@[k] == start + self.blocks_code(
                    (k + 1) as nat,
                    0,
                    start,
                    0,
                ).len() - 1,
        ensures
            final(bytecode)@ == old(bytecode)@.subrange(0, start as int) + self.blocks_code(
                self.arms.len() as nat,
                self.arms.len() as nat,
                start,
                exit,
            ) + rest,
            temp_free(old(bytecode)@) ==> temp_free(final(bytecode)@),
    {
        let ghost before = bytecode@.subrange(0, start as int);
        let n: usize = self.arms.len();
        proof {
            self.lemma_blocks_len(n as nat, 0, 0, start, 0, exit);
        }
        let mut i: usize = 0;
        while i < n
            invariant
                temp_free(old(bytecode)@) ==> temp_free(bytecode@),
                n == self.arms.len(),
                i <= n,
                before.len() == start,
                bytecode@ == before + self.blocks_code(n as nat, i as nat, start, exit) + rest,
                exits@.len() == n,
                forall|k: int|
                    0 <= k < n ==> #[trigger] exits@[k] == start + self.blocks_code(
                        (k + 1) as nat,
                        0,
                        start,
                        0,
                    ).len() - 1,
            decreases n - i,
        {
            let ghost blocks = self.blocks_code(n as nat, i as nat, start, exit);
            let ghost at = self.blocks_code((i + 1) as nat, 0, start, 0).len() - 1;
            proof {
                self.lemma_blocks_step(n as nat, i as nat, start, exit);
            }
            let at_exec: usize = exits[i];
            assert(at_exec == start + at);
            bytecode.set(at_exec, OpCode::Jump { location: exit });
            assert(bytecode@ =~= before + blocks.update(at, OpCode::Jump { location: exit })
                + rest);
            i = i + 1;
        }
    }

    #[verifier::spinoff_prover]
    #[verifier::rlimit(60)]
    pub fn generate_bytecode(&self, bytecode: &mut Vec<OpCode>, allow_break_continue: bool) -> (r:
        Result<(), BytecodeGenerationError>)
        ensures
            r is Err ==> kept(old(bytecode)@, final(bytecode)@),
            match r {
                Ok(()) => self.fault(allow_break_continue) is None && final(bytecode)@ == old(bytecode)@ + self.code(old(bytecode)@.len()),
                Err(e) => self.fault(allow_break_continue) == Some(e),
            },
            r is Ok && !allow_break_continue && temp_free(old(bytecode)@) ==> temp_free(
                final(bytecode)@,
            ),
        decreases self, 1nat,
    {
        let ghost base = bytecode@.len();
        let ghost before = bytecode@;
        let ghost n = self.arms.len() as nat;
        let jump_update_indices = self.lower_conditions(bytecode)?;
        let ghost conds = self.conds_code(n, 0, 0);
        let else_index: usize = bytecode.len();
        bytecode.push(OpCode::Jump { location: 0 });
        let ghost start = bytecode@.len();
        let ghost stage = bytecode@;
        assert(stage =~= before + conds + seq![OpCode::Jump { location: 0 }]);
        assert(kept(before, stage));
        let (block_indices, exit_indices) = self.lower_blocks(bytecode, allow_break_continue)?;
        let ghost blocks = self.blocks_code(n, 0, start, 0);
        let ghost rest = seq![OpCode::Jump { location: 0 }] + blocks;
        assert(bytecode@.subrange(0, base as int) =~= before);
        assert(bytecode@ =~= before + conds + rest);
        self.patch_conditions(
            bytecode,
            &jump_update_indices,
            &block_indices,
            Ghost(base),
            Ghost(start),
            Ghost(rest),
        );
        let ghost patched = self.conds_code(n, n, start);
        proof {
            self.lemma_conds_len(n, n, 0, start, 0);
        }
        let else_start: usize = bytecode.len();
        let ghost unset = bytecode@;
        assert(unset =~= (before + patched) + seq![OpCode::Jump { location: 0 }] + blocks);
        bytecode.set(else_index, OpCode::Jump { location: else_start });
        let ghost head = before + patched + seq![OpCode::Jump { location: else_start }];
        proof {
            lemma_set_between(
                before + patched,
                OpCode::Jump { location: 0 },
                blocks,
                OpCode::Jump { location: else_start },
            );
        }
        assert(bytecode@ == head + blocks);
        assert(kept(before, bytecode@));
        if let Some(else_arm) = &self.else_arm {
            else_arm.generate_bytecode(bytecode, false, allow_break_continue)?;
        }
        let ghost otherwise = self.else_code(else_start as nat);
        let exit_index: usize = bytecode.len();
        assert(bytecode@ =~= head + blocks + otherwise);
        assert(bytecode@.subrange(0, start as int) =~= head);
        self.patch_exits(bytecode, &exit_indices, exit_index, Ghost(start), Ghost(otherwise));
        assert(bytecode@ =~= before + self.code(base));
        Ok(())
    }
}

impl ControlStmt {
    /// What reading a control statement comes to at the cursor `c`.
    pub open spec fn scan(src: Arc<str>, c: nat) -> Result<Option<nat>, ParserError>
        decreases src@.len() - c, 190nat,
    {
        match WhileStmt::scan(src, c) {
            Ok(None) => match IfStmt::scan(src, c) {
                Ok(None) => match ForStmt::scan(src, c) {
                    Ok(None) => match TryStmt::scan(src, c) {
                        Ok(None) => ControlStmt::scan_plain(src, c),
                        other => other,
                    },
                    other => other,
                },
                other => other,
            },
            other => other,
        }
    }

    /// What reading `throw`, `return`, `continue`, `break` or `export
    /// name` comes to at the cursor `c`: behind `throw` a value must
    /// follow; behind `return` it may.
    pub open spec fn scan_plain(src: Arc<str>, c: nat) -> Result<Option<nat>, ParserError> {
        let c1 = past(src, c);
        match tok(src, c) {
            Err(e) => Err(ParserError::TokenizeError(e)),
            Ok(first) => match first.kind {
                TokenKind::Keyword(Keyword::Throw) => match Expr::scan(src, c1) {
                    Err(e) => Err(e),
                    Ok(None) => Err(refusal(src, c1, "ControlStmt::try_parse"@)),
                    Ok(Some(c2)) => Ok(Some(c2)),
                },
                TokenKind::Keyword(Keyword::Return) => match Expr::scan(src, c1) {
                    Err(e) => Err(e),
                    Ok(None) => Ok(Some(c1)),
                    Ok(Some(c2)) => Ok(Some(c2)),
                },
                TokenKind::Keyword(Keyword::Continue) => Ok(Some(c1)),
                TokenKind::Keyword(Keyword::Break) => Ok(Some(c1)),
                TokenKind::Keyword(Keyword::Export) => match token_from(src, c, 1) {
                    Err(e) => Err(ParserError::TokenizeError(e)),
                    Ok(second) => if second.kind is Identifier {
                        Ok(Some(past(src, c1)))
                    } else {
                        Ok(None)
                    },
                },
                _ => Ok(None),
            },
        }
    }
}

impl TryStmt {
    /// What reading `try` block `catch name` block `end` comes to at the
    /// cursor `c`.
    pub open spec fn scan(src: Arc<str>, c: nat) -> Result<Option<nat>, ParserError>
        decreases src@.len() - c, 180nat,
    {
        let location = "TryStmt::try_parse"@;
        let c1 = past(src, c);
        match at_keyword(src, c, Keyword::Try) {
            Err(e) => Err(e),
            Ok(false) => Ok(None),
            Ok(true) => if !moves(src, c, c1) {
                Err(stuck())
            } else {
                match Block::scan(src, c1) {
                    Err(e) => Err(e),
                    Ok(None) => Err(refusal(src, c1, location)),
                    Ok(Some(c2)) => match needs_keyword(src, c2, Keyword::Catch, location) {
                        Err(e) => Err(e),
                        Ok(c3) => match needs_name(src, c3, location) {
                            Err(e) => Err(e),
                            Ok(c4) => if !moves(src, c, c4) {
                                Err(stuck())
                            } else {
                                match Block::scan(src, c4) {
                                    Err(e) => Err(e),
                                    Ok(None) => Err(refusal(src, c4, location)),
                                    Ok(Some(c5)) => found_at(
                                        needs_keyword(src, c5, Keyword::End, location),
                                    ),
                                }
                            },
                        },
                    },
                }
            },
        }
    }
}

impl WhileStmt {
    /// What reading a loop comes to at the cursor `c`.
    pub open spec fn scan(src: Arc<str>, c: nat) -> Result<Option<nat>, ParserError>
        decreases src@.len() - c, 180nat,
    {
        let c1 = past(src, c);
        match at(
            src,
            c,
            |kind: TokenKind|
                kind == TokenKind::Keyword(Keyword::While) || kind == TokenKind::Keyword(
                    Keyword::Until,
                ),
        ) {
            Err(e) => Err(e),
            Ok(false) => Ok(None),
            Ok(true) => if !moves(src, c, c1) {
                Err(stuck())
            } else {
                match ConditionArm::scan_do(src, c1) {
                    Err(e) => Err(e),
                    Ok(None) => Err(refusal(src, c1, "WhileStmt::try_parse"@)),
                    Ok(Some(c2)) => Ok(Some(c2)),
                }
            },
        }
    }
}

impl IfStmt {
    /// What reading a branch comes to at the cursor `c`.
    pub open spec fn scan(src: Arc<str>, c: nat) -> Result<Option<nat>, ParserError>
        decreases src@.len() - c, 180nat,
    {
        let c1 = past(src, c);
        match at_keyword(src, c, Keyword::If) {
            Err(e) => Err(e),
            Ok(false) => Ok(None),
            Ok(true) => if !moves(src, c, c1) {
                Err(stuck())
            } else {
                match ConditionArm::scan_else(src, c1) {
                    Err(e) => Err(e),
                    Ok(None) => Err(refusal(src, c1, "IfStmt::try_parse"@)),
                    Ok(Some(arm)) => if !arm.1 {
                        Ok(Some(arm.0))
                    } else if moves(src, c, arm.0) {
                        IfStmt::scan_more(src, arm.0)
                    } else {
                        Err(stuck())
                    },
                }
            },
        }
    }

    /// What reading what follows `else` comes to at the cursor `c`: a
    /// further arm behind `if`, or the last block and `end`.
    pub open spec fn scan_more(src: Arc<str>, c: nat) -> Result<Option<nat>, ParserError>
        decreases src@.len() - c, 220nat,
    {
        let location = "IfStmt::try_parse"@;
        let c1 = past(src, c);
        match at_keyword(src, c, Keyword::If) {
            Err(e) => Err(e),
            Ok(true) => if !moves(src, c, c1) {
                Err(stuck())
            } else {
                match ConditionArm::scan_else(src, c1) {
                    Err(e) => Err(e),
                    Ok(None) => Err(refusal(src, c1, location)),
                    Ok(Some(arm)) => if !arm.1 {
                        Ok(Some(arm.0))
                    } else if moves(src, c, arm.0) {
                        IfStmt::scan_more(src, arm.0)
                    } else {
                        Err(stuck())
                    },
                }
            },
            Ok(false) => match Block::scan(src, c) {
                Err(e) => Err(e),
                Ok(None) => Err(refusal(src, c, location)),
                Ok(Some(c2)) => found_at(needs_keyword(src, c2, Keyword::End, location)),
            },
        }
    }
}

impl ForStmt {
    /// What reading a loop over a collection comes to at the cursor `c`.
    pub open spec fn scan(src: Arc<str>, c: nat) -> Result<Option<nat>, ParserError>
        decreases src@.len() - c, 180nat,
    {
        let location = "ForStmt::try_parse"@;
        match at_keyword(src, c, Keyword::For) {
            Err(e) => Err(e),
            Ok(false) => Ok(None),
            Ok(true) => match needs_keyword(src, past(src, c), Keyword::Each, location) {
                Err(e) => Err(e),
                Ok(c1) => match needs_name(src, c1, location) {
                    Err(e) => Err(e),
                    Ok(c2) => match needs_keyword(src, c2, Keyword::In, location) {
                        Err(e) => Err(e),
                        Ok(c3) => match Expr::scan(src, c3) {
                            Err(e) => Err(e),
                            Ok(None) => Err(refusal(src, c3, location)),
                            Ok(Some(c4)) => match needs_keyword(src, c4, Keyword::Do, location) {
                                Err(e) => Err(e),
                                Ok(c5) => if !moves(src, c, c5) {
                                    Err(stuck())
                                } else {
                                    match Block::scan(src, c5) {
                                        Err(e) => Err(e),
                                        Ok(None) => Err(refusal(src, c5, location)),
                                        Ok(Some(c6)) => found_at(
                                            needs_keyword(src, c6, Keyword::End, location),
                                        ),
                                    }
                                },
                            },
                        },
                    },
                },
            },
        }
    }
}

impl ConditionArm {
    /// What reading a condition, `keyword` and a block comes to at the
    /// cursor `c`.
    pub open spec fn scan_arm(src: Arc<str>, c: nat, keyword: Keyword, location: Seq<char>) -> Result<
        Option<nat>,
        ParserError,
    >
        decreases src@.len() - c, 160nat,
    {
        match Expr::scan(src, c) {
            Ok(Some(c1)) => match needs_keyword(src, c1, keyword, location) {
                Err(e) => Err(e),
                Ok(c2) => if !moves(src, c, c2) {
                    Err(stuck())
                } else {
                    match Block::scan(src, c2) {
                        Err(e) => Err(e),
                        Ok(None) => Err(refusal(src, c2, location)),
                        Ok(Some(c3)) => Ok(Some(c3)),
                    }
                },
            },
            other => other,
        }
    }

    /// What reading condition `do` block `end` comes to.
    pub open spec fn scan_do(src: Arc<str>, c: nat) -> Result<Option<nat>, ParserError>
        decreases src@.len() - c, 170nat,
    {
        match ConditionArm::scan_arm(src, c, Keyword::Do, "ConditionArm::try_parse_do"@) {
            Ok(Some(c1)) => found_at(
                needs_keyword(src, c1, Keyword::End, "ConditionArm::try_parse_do"@),
            ),
            other => other,
        }
    }

    /// What reading condition `then` block `end` comes to.
    pub open spec fn scan_then(src: Arc<str>, c: nat) -> Result<Option<nat>, ParserError>
        decreases src@.len() - c, 170nat,
    {
        match ConditionArm::scan_arm(src, c, Keyword::Then, "ConditionArm::try_parse"@) {
            Ok(Some(c1)) => found_at(needs_keyword(src, c1, Keyword::End, "ConditionArm::try_parse"@)),
            other => other,
        }
    }

    /// What reading condition `then` block and `else` or `end` comes to:
    /// the cursor behind the keyword, and whether it was `else`.
    pub open spec fn scan_else(src: Arc<str>, c: nat) -> Result<Option<(nat, bool)>, ParserError>
        decreases src@.len() - c, 170nat,
    {
        let location = "ConditionArm::try_parse_else"@;
        match ConditionArm::scan_arm(src, c, Keyword::Then, location) {
            Err(e) => Err(e),
            Ok(None) => Ok(None),
            Ok(Some(c1)) => match at_keyword(src, c1, Keyword::Else) {
                Err(e) => Err(e),
                Ok(true) => Ok(Some((past(src, c1), true))),
                Ok(false) => match needs_keyword(src, c1, Keyword::End, location) {
                    Err(e) => Err(e),
                    Ok(c2) => Ok(Some((c2, false))),
                },
            },
        }
    }

    /// The outcome `r` of reading an arm of a branch, as a cursor, with
    /// whether `else` followed.
    pub open spec fn scanned_else(after: &Tokenizer, r: Result<Option<(ConditionArm, bool)>, ParserError>) -> Result<
        Option<(nat, bool)>,
        ParserError,
    > {
        match r {
            Ok(Some(arm)) => Ok(Some((after.cursor(), arm.1))),
            Ok(None) => Ok(None),
            Err(e) => Err(e),
        }
    }
}

impl ControlStmt {
    /// What reading a control statement comes to, as far as the two next
    /// tokens decide it. `continue`, `break` and `export name` are read
    /// whole. Behind `return` a value is read where the second token begins
    /// an expression, and only there; behind `throw` a value must follow.
    /// Every other keyword gives a statement of its own kind, if one is read.
    pub open spec fn read(
        first: Token,
        two: Result<Token, TokenizeError>,
        r: Result<Option<ControlStmt>, ParserError>,
    ) -> bool {
        let value = two matches Ok(second) && begins_expr(second.kind);
        match first.kind {
            TokenKind::Keyword(Keyword::Continue) => r == Ok::<Option<ControlStmt>, ParserError>(
                Some(ControlStmt { slice: first.slice, kind: ControlKind::Continue }),
            ),
            TokenKind::Keyword(Keyword::Break) => r == Ok::<Option<ControlStmt>, ParserError>(
                Some(ControlStmt { slice: first.slice, kind: ControlKind::Break }),
            ),
            TokenKind::Keyword(Keyword::Export) => match two {
                Err(e) => r matches Err(error) && error == ParserError::TokenizeError(e),
                Ok(second) => r == Ok::<Option<ControlStmt>, ParserError>(
                    match second.kind {
                        TokenKind::Identifier(name) => Some(
                            ControlStmt {
                                slice: first.slice.spec_merge(&second.slice),
                                kind: ControlKind::Export(name),
                            },
                        ),
                        _ => None,
                    },
                ),
            },
            TokenKind::Keyword(Keyword::Return) => match two {
                Err(e) => r matches Err(error) && error == ParserError::TokenizeError(e),
                Ok(second) => if value {
                    r matches Ok(found) ==> found matches Some(stmt) && stmt.kind matches ControlKind::Return(
                        Some(_),
                    )
                } else {
                    r == Ok::<Option<ControlStmt>, ParserError>(
                        Some(ControlStmt { slice: first.slice, kind: ControlKind::Return(None) }),
                    )
                },
            },
            TokenKind::Keyword(Keyword::Throw) => match two {
                Err(e) => r matches Err(error) && error == ParserError::TokenizeError(e),
                Ok(second) => if value {
                    r matches Ok(found) ==> found matches Some(stmt) && stmt.kind is Throw
                } else {
                    r matches Err(error) && error == ParserError::unexpected(
                        second,
                        "ControlStmt::try_parse"@,
                    )
                },
            },
            TokenKind::Keyword(Keyword::While) | TokenKind::Keyword(Keyword::Until) => r matches Ok(
                found,
            ) ==> found matches Some(stmt) && stmt.kind is While,
            TokenKind::Keyword(Keyword::If) => r matches Ok(found) ==> found matches Some(stmt)
                && stmt.kind is If,
            TokenKind::Keyword(Keyword::For) => r matches Ok(found) ==> found matches Some(stmt)
                && stmt.kind is For,
            TokenKind::Keyword(Keyword::Try) => r matches Ok(found) ==> found matches Some(stmt)
                && stmt.kind is Try,
            _ => r matches Ok(None),
        }
    }

    /// What reading `return` or `throw` comes to where the value behind
    /// it is a lone literal that no operator follows: the statement of
    /// that value, which spans the keyword and the value; both tokens are
    /// consumed.
    pub open spec fn valued(before: &Tokenizer, after: &Tokenizer, r: Result<Option<ControlStmt>, ParserError>) -> bool {
        before.ahead(0) matches Ok(first) ==> (Expr::sole_at(before, 1) matches Some(value) ==> {
            let slice = first.slice.spec_merge(&value.slice);
            match first.kind {
                TokenKind::Keyword(Keyword::Return) => r == Ok::<Option<ControlStmt>, ParserError>(
                    Some(ControlStmt { slice, kind: ControlKind::Return(Some(value)) }),
                ) && took(before, after, 2),
                TokenKind::Keyword(Keyword::Throw) => r == Ok::<Option<ControlStmt>, ParserError>(
                    Some(ControlStmt { slice, kind: ControlKind::Throw(value) }),
                ) && took(before, after, 2),
                _ => true,
            }
        })
    }

    /// Reads a control statement: a loop, `if`, `try`, `throw`, `return`,
    /// `continue`, `break`, or `export name`.
    #[verifier::spinoff_prover]
    #[verifier::rlimit(50)]
    pub fn try_parse(tokenizer: &mut Tokenizer) -> (r: Result<Option<Self>, ParserError>)
        requires
            old(tokenizer).wf(),
        ensures
            parsed(old(tokenizer), final(tokenizer), r),
            follows(control_opening(old(tokenizer)), r),
            r matches Ok(Some(node)) ==> node.slice.within(old(tokenizer).source()) && spans(
                old(tokenizer),
                node.slice,
            ),
            old(tokenizer).ahead(0) matches Ok(first) ==> ControlStmt::read(
                first,
                old(tokenizer).ahead(1),
                r,
            ),
            ControlStmt::valued(old(tokenizer), final(tokenizer), r),
            scanned(final(tokenizer), r) == ControlStmt::scan(old(tokenizer).source(), old(tokenizer).cursor()),
        decreases old(tokenizer).remaining(), 19nat,
    {
        proof {
            lemma_stream_shift(old(tokenizer).source(), old(tokenizer).cursor(), 1, 0);
            lemma_stream_shift(old(tokenizer).source(), old(tokenizer).cursor(), 1, 1);
        }
        if let Some(stmt) = WhileStmt::try_parse(tokenizer)? {
            return Ok(
                Some(ControlStmt { slice: stmt.slice.duplicate(), kind: ControlKind::While(stmt) }),
            );
        }
        if let Some(stmt) = IfStmt::try_parse(tokenizer)? {
            return Ok(Some(ControlStmt { slice: stmt.slice.duplicate(), kind: ControlKind::If(stmt) }));
        }
        if let Some(stmt) = ForStmt::try_parse(tokenizer)? {
            return Ok(
                Some(ControlStmt { slice: stmt.slice.duplicate(), kind: ControlKind::For(stmt) }),
            );
        }
        if let Some(stmt) = TryStmt::try_parse(tokenizer)? {
            return Ok(
                Some(ControlStmt { slice: stmt.slice.duplicate(), kind: ControlKind::Try(stmt) }),
            );
        }
        let start = peek_slice(tokenizer)?;
        if accept_keyword(tokenizer, Keyword::Throw)? {
            proof {
                Expr::lemma_sole_shift(old(tokenizer), tokenizer, 1, 0);
            }
            return match Expr::try_parse(tokenizer)? {
                Some(expr) => Ok(
                    Some(
                        ControlStmt {
                            slice: start.merge(&expr.slice),
                            kind: ControlKind::Throw(expr),
                        },
                    ),
                ),
                None => Err(unexpected_next(tokenizer, "ControlStmt::try_parse")),
            };
        }
        if accept_keyword(tokenizer, Keyword::Return)? {
            proof {
                Expr::lemma_sole_shift(old(tokenizer), tokenizer, 1, 0);
            }
            if let Some(expr) = Expr::try_parse(tokenizer)? {
                return Ok(
                    Some(
                        ControlStmt {
                            slice: start.merge(&expr.slice),
                            kind: ControlKind::Return(Some(expr)),
                        },
                    ),
                );
            }
            return Ok(Some(ControlStmt { slice: start, kind: ControlKind::Return(None) }));
        }
        if accept_keyword(tokenizer, Keyword::Continue)? {
            return Ok(Some(ControlStmt { slice: start, kind: ControlKind::Continue }));
        }
        if accept_keyword(tokenizer, Keyword::Break)? {
            return Ok(Some(ControlStmt { slice: start, kind: ControlKind::Break }));
        }
        if !peek_is_keyword(tokenizer, 0, Keyword::Export)? {
            return Ok(None);
        }
        let second = peek_token(tokenizer, 1)?;
        let name = match second.kind {
            TokenKind::Identifier(name) => name,
            _ => {
                return Ok(None);
            },
        };
        next_token(tokenizer)?;
        next_token(tokenizer)?;
        Ok(Some(ControlStmt { slice: start.merge(&second.slice), kind: ControlKind::Export(name) }))
    }
}

impl TryStmt {
    /// Both blocks of `stmt` hold a statement, and the first statement of
    /// the guarded block is what the tokens behind `try` call for: what
    /// reading a statement comes to once `try` is consumed.
    pub open spec fn guarded(tokenizer: &Tokenizer, stmt: TryStmt) -> bool {
        &&& stmt.try_block.stmts@.len() >= 1
        &&& stmt.catch_block.stmts@.len() >= 1
        &&& exists|behind: Tokenizer| #[trigger]
            took(tokenizer, &behind, 1) && Stmt::read(&behind, stmt.try_block.stmts@[0])
    }

    /// Reads `try` block `catch name` block `end`.
    #[verifier::spinoff_prover]
    #[verifier::rlimit(50)]
    pub fn try_parse(tokenizer: &mut Tokenizer) -> (r: Result<Option<Self>, ParserError>)
        requires
            old(tokenizer).wf(),
        ensures
            parsed(old(tokenizer), final(tokenizer), r),
            follows(opens_keyword(old(tokenizer), Keyword::Try), r),
            r matches Ok(Some(node)) ==> node.slice.within(old(tokenizer).source()) && spans(
                old(tokenizer),
                node.slice,
            ),
            comes_keyword(old(tokenizer), 0, Keyword::Try) && !comes_stmt(old(tokenizer), 1)
                ==> refused(old(tokenizer), 1, "TryStmt::try_parse"@, r),
            r matches Ok(Some(stmt)) ==> TryStmt::guarded(old(tokenizer), stmt),
            scanned(final(tokenizer), r) == TryStmt::scan(old(tokenizer).source(), old(tokenizer).cursor()),
        decreases old(tokenizer).remaining(), 18nat,
    {
        proof {
            lemma_stream_shift(old(tokenizer).source(), old(tokenizer).cursor(), 1, 0);
        }
        let start = peek_slice(tokenizer)?;
        if !accept_keyword(tokenizer, Keyword::Try)? {
            return Ok(None);
        }
        let ghost behind = *tokenizer;
        let try_block = match Block::try_parse(tokenizer)? {
            Some(block) => block,
            None => {
                return Err(unexpected_next(tokenizer, "TryStmt::try_parse"));
            },
        };
        require_keyword(tokenizer, Keyword::Catch, "TryStmt::try_parse")?;
        let (catch_name, _) = require_identifier(tokenizer, "TryStmt::try_parse")?;
        let catch_block = match Block::try_parse(tokenizer)? {
            Some(block) => block,
            None => {
                return Err(unexpected_next(tokenizer, "TryStmt::try_parse"));
            },
        };
        let end = require_keyword(tokenizer, Keyword::End, "TryStmt::try_parse")?;
        assert(took(old(tokenizer), &behind, 1) && Stmt::read(&behind, try_block.stmts@[0]));
        Ok(Some(TryStmt { slice: start.merge(&end), try_block, catch_name, catch_block }))
    }
}

impl WhileStmt {
    /// What reading a loop comes to, as far as its first tokens decide:
    /// behind `while` or `until` a condition must begin, and a loop that
    /// is read runs until its condition holds where the keyword was
    /// `until`, and only there. Where the condition is a lone literal
    /// that no operator follows, `do` must come behind it and a statement
    /// must begin behind that, and a loop that is read has that condition.
    pub open spec fn headed(tokenizer: &Tokenizer, r: Result<Option<WhileStmt>, ParserError>) -> bool {
        comes_keyword(tokenizer, 0, Keyword::While) || comes_keyword(tokenizer, 0, Keyword::Until)
            ==> if !comes_expr(tokenizer, 1) {
            refused(tokenizer, 1, "WhileStmt::try_parse"@, r)
        } else {
            &&& r matches Ok(found) ==> found matches Some(stmt) && stmt.until == comes_keyword(
                tokenizer,
                0,
                Keyword::Until,
            )
            &&& Expr::sole_at(tokenizer, 1) matches Some(condition) ==> if !comes_keyword(
                tokenizer,
                2,
                Keyword::Do,
            ) {
                refused(tokenizer, 2, "ConditionArm::try_parse_do"@, r)
            } else if !comes_stmt(tokenizer, 3) {
                refused(tokenizer, 3, "ConditionArm::try_parse_do"@, r)
            } else {
                r matches Ok(Some(stmt)) ==> stmt.arm.condition == condition
            }
        }
    }

    /// Reads `while` or `until`, a condition, `do` block `end`.
    #[verifier::spinoff_prover]
    #[verifier::rlimit(50)]
    pub fn try_parse(tokenizer: &mut Tokenizer) -> (r: Result<Option<Self>, ParserError>)
        requires
            old(tokenizer).wf(),
        ensures
            parsed(old(tokenizer), final(tokenizer), r),
            follows(opens(old(tokenizer), |kind: TokenKind| kind == TokenKind::Keyword(Keyword::While) || kind == TokenKind::Keyword(Keyword::Until)), r),
            r matches Ok(Some(node)) ==> node.slice.within(old(tokenizer).source()) && spans(
                old(tokenizer),
                node.slice,
            ),
            WhileStmt::headed(old(tokenizer), r),
            scanned(final(tokenizer), r) == WhileStmt::scan(old(tokenizer).source(), old(tokenizer).cursor()),
        decreases old(tokenizer).remaining(), 18nat,
    {
        proof {
            lemma_stream_shift(old(tokenizer).source(), old(tokenizer).cursor(), 1, 0);
        }
        let start = peek_slice(tokenizer)?;
        let until: bool = if accept_keyword(tokenizer, Keyword::While)? {
            false
        } else if accept_keyword(tokenizer, Keyword::Until)? {
            true
        } else {
            return Ok(None);
        };
        proof {
            lemma_stream_shift(old(tokenizer).source(), old(tokenizer).cursor(), 1, 1);
            lemma_stream_shift(old(tokenizer).source(), old(tokenizer).cursor(), 1, 2);
            Expr::lemma_sole_shift(old(tokenizer), tokenizer, 1, 0);
        }
        match ConditionArm::try_parse_do(tokenizer)? {
            Some(arm) => Ok(Some(WhileStmt { slice: start.merge(&arm.slice), until, arm })),
            None => Err(unexpected_next(tokenizer, "WhileStmt::try_parse")),
        }
    }
}

impl IfStmt {
    /// What reading a branch comes to where its first condition is a lone
    /// literal that no operator follows: `then` must come behind it and a
    /// statement must begin behind that, and the first arm of a branch
    /// that is read has that condition.
    pub open spec fn armed(tokenizer: &Tokenizer, r: Result<Option<IfStmt>, ParserError>) -> bool {
        Expr::sole_at(tokenizer, 1) matches Some(condition) ==> if !comes_keyword(
            tokenizer,
            2,
            Keyword::Then,
        ) {
            refused(tokenizer, 2, "ConditionArm::try_parse_else"@, r)
        } else if !comes_stmt(tokenizer, 3) {
            refused(tokenizer, 3, "ConditionArm::try_parse_else"@, r)
        } else {
            r matches Ok(Some(stmt)) ==> stmt.arms@[0].condition == condition
        }
    }

    /// Reads `if` condition `then` block, any number of `else if`
    /// condition `then` block, `else` block if there is one, and `end`.
    #[verifier::spinoff_prover]
    #[verifier::rlimit(50)]
    pub fn try_parse(tokenizer: &mut Tokenizer) -> (r: Result<Option<Self>, ParserError>)
        requires
            old(tokenizer).wf(),
        ensures
            parsed(old(tokenizer), final(tokenizer), r),
            follows(opens_keyword(old(tokenizer), Keyword::If), r),
            r matches Ok(Some(node)) ==> node.slice.within(old(tokenizer).source()) && spans(
                old(tokenizer),
                node.slice,
            ),
            comes_keyword(old(tokenizer), 0, Keyword::If) && !comes_expr(old(tokenizer), 1)
                ==> refused(old(tokenizer), 1, "IfStmt::try_parse"@, r),
            r matches Ok(Some(stmt)) ==> stmt.arms@.len() >= 1,
            comes_keyword(old(tokenizer), 0, Keyword::If) ==> IfStmt::armed(old(tokenizer), r),
            scanned(final(tokenizer), r) == IfStmt::scan(old(tokenizer).source(), old(tokenizer).cursor()),
        decreases old(tokenizer).remaining(), 18nat,
    {
        proof {
            lemma_stream_shift(old(tokenizer).source(), old(tokenizer).cursor(), 1, 0);
        }
        let start = peek_slice(tokenizer)?;
        if !accept_keyword(tokenizer, Keyword::If)? {
            return Ok(None);
        }
        proof {
            lemma_stream_shift(old(tokenizer).source(), old(tokenizer).cursor(), 1, 1);
            lemma_stream_shift(old(tokenizer).source(), old(tokenizer).cursor(), 1, 2);
            Expr::lemma_sole_shift(old(tokenizer), tokenizer, 1, 0);
        }
        let (first, first_else) = match ConditionArm::try_parse_else(tokenizer)? {
            Some(arm) => arm,
            None => {
                return Err(unexpected_next(tokenizer, "IfStmt::try_parse"));
            },
        };
        let mut end = first.slice.duplicate();
        let mut arms: Vec<ConditionArm> = Vec::new();
        arms.push(first);
        let mut is_else: bool = first_else;
        while is_else
            invariant
                IfStmt::scan(old(tokenizer).source(), old(tokenizer).cursor()) == if is_else {
                    IfStmt::scan_more(tokenizer.source(), tokenizer.cursor())
                } else {
                    Ok::<Option<nat>, ParserError>(Some(tokenizer.cursor()))
                },
                tokenizer.wf(),
                opens_keyword(old(tokenizer), Keyword::If) is Begins,
                old(tokenizer).ahead(0) matches Ok(first) && start == first.slice,
                comes_expr(old(tokenizer), 1),
                arms@.len() >= 1,
                Expr::sole_at(old(tokenizer), 1) matches Some(condition) ==> comes_keyword(
                    old(tokenizer),
                    2,
                    Keyword::Then,
                ) && comes_stmt(old(tokenizer), 3) && arms@[0].condition == condition,
                end.within(old(tokenizer).source()),
                start.within(old(tokenizer).source()),
                tokenizer.source() == old(tokenizer).source(),
                tokenizer.remaining() < old(tokenizer).remaining(),
                old(tokenizer).cursor() < tokenizer.cursor() <= tokenizer.source()@.len(),
                tokenizer.consumed() > old(tokenizer).consumed(),
            decreases tokenizer.remaining(),
        {
            if accept_keyword(tokenizer, Keyword::If)? {
                match ConditionArm::try_parse_else(tokenizer)? {
                    Some((arm, next_is_else)) => {
                        is_else = next_is_else;
                        end = arm.slice.duplicate();
                        arms.push(arm);
                    },
                    None => {
                        return Err(unexpected_next(tokenizer, "IfStmt::try_parse"));
                    },
                }
            } else {
                let block = match Block::try_parse(tokenizer)? {
                    Some(block) => block,
                    None => {
                        return Err(unexpected_next(tokenizer, "IfStmt::try_parse"));
                    },
                };
                let end = require_keyword(tokenizer, Keyword::End, "IfStmt::try_parse")?;
                return Ok(Some(IfStmt { slice: start.merge(&end), arms, else_arm: Some(block) }));
            }
        }
        Ok(Some(IfStmt { slice: start.merge(&end), arms, else_arm: None }))
    }
}

impl ForStmt {
    /// What reading a loop over a collection comes to, as far as its
    /// first tokens decide: `for`, `each`, a name and `in` must come in
    /// this order, and an expression must begin behind them. A loop that
    /// is read has that name. Where the expression is a lone literal that
    /// no operator follows, `do` must come behind it and a statement must
    /// begin behind that, and a loop that is read runs over that literal.
    pub open spec fn headed(tokenizer: &Tokenizer, r: Result<Option<ForStmt>, ParserError>) -> bool {
        comes_keyword(tokenizer, 0, Keyword::For) ==> if !comes_keyword(tokenizer, 1, Keyword::Each) {
            refused(tokenizer, 1, "ForStmt::try_parse"@, r)
        } else if !comes_name(tokenizer, 2) {
            refused(tokenizer, 2, "ForStmt::try_parse"@, r)
        } else if !comes_keyword(tokenizer, 3, Keyword::In) {
            refused(tokenizer, 3, "ForStmt::try_parse"@, r)
        } else if !comes_expr(tokenizer, 4) {
            refused(tokenizer, 4, "ForStmt::try_parse"@, r)
        } else {
            &&& r matches Ok(found) ==> found matches Some(stmt) && tokenizer.ahead(2) matches Ok(
                token,
            ) && token.kind == TokenKind::Identifier(stmt.name)
            &&& Expr::sole_at(tokenizer, 4) matches Some(expr) ==> if !comes_keyword(
                tokenizer,
                5,
                Keyword::Do,
            ) {
                refused(tokenizer, 5, "ForStmt::try_parse"@, r)
            } else if !comes_stmt(tokenizer, 6) {
                refused(tokenizer, 6, "ForStmt::try_parse"@, r)
            } else {
                r matches Ok(Some(stmt)) ==> stmt.expr == expr
            }
        }
    }

    /// Reads `for each name in` expression `do` block `end`.
    #[verifier::spinoff_prover]
    #[verifier::rlimit(50)]
    pub fn try_parse(tokenizer: &mut Tokenizer) -> (r: Result<Option<Self>, ParserError>)
        requires
            old(tokenizer).wf(),
        ensures
            parsed(old(tokenizer), final(tokenizer), r),
            follows(opens_keyword(old(tokenizer), Keyword::For), r),
            r matches Ok(Some(node)) ==> node.slice.within(old(tokenizer).source()) && spans(
                old(tokenizer),
                node.slice,
            ),
            ForStmt::headed(old(tokenizer), r),
            scanned(final(tokenizer), r) == ForStmt::scan(old(tokenizer).source(), old(tokenizer).cursor()),
        decreases old(tokenizer).remaining(), 18nat,
    {
        proof {
            lemma_stream_shift(old(tokenizer).source(), old(tokenizer).cursor(), 1, 0);
            lemma_stream_shift(old(tokenizer).source(), old(tokenizer).cursor(), 1, 1);
            lemma_stream_shift(old(tokenizer).source(), old(tokenizer).cursor(), 2, 0);
            lemma_stream_shift(old(tokenizer).source(), old(tokenizer).cursor(), 2, 1);
            lemma_stream_shift(old(tokenizer).source(), old(tokenizer).cursor(), 3, 0);
            lemma_stream_shift(old(tokenizer).source(), old(tokenizer).cursor(), 3, 1);
            lemma_stream_shift(old(tokenizer).source(), old(tokenizer).cursor(), 4, 0);
        }
        let start = peek_slice(tokenizer)?;
        if !accept_keyword(tokenizer, Keyword::For)? {
            return Ok(None);
        }
        require_keyword(tokenizer, Keyword::Each, "ForStmt::try_parse")?;
        let (name, _) = require_identifier(tokenizer, "ForStmt::try_parse")?;
        require_keyword(tokenizer, Keyword::In, "ForStmt::try_parse")?;
        proof {
            lemma_stream_shift(old(tokenizer).source(), old(tokenizer).cursor(), 5, 0);
            lemma_stream_shift(old(tokenizer).source(), old(tokenizer).cursor(), 6, 0);
            Expr::lemma_sole_shift(old(tokenizer), tokenizer, 4, 0);
        }
        let expr = match Expr::try_parse(tokenizer)? {
            Some(expr) => expr,
            None => {
                return Err(unexpected_next(tokenizer, "ForStmt::try_parse"));
            },
        };
        require_keyword(tokenizer, Keyword::Do, "ForStmt::try_parse")?;
        let block = match Block::try_parse(tokenizer)? {
            Some(block) => block,
            None => {
                return Err(unexpected_next(tokenizer, "ForStmt::try_parse"));
            },
        };
        require_keyword(tokenizer, Keyword::End, "ForStmt::try_parse")?;
        Ok(Some(ForStmt { slice: start.merge(&block.slice), name, expr, block }))
    }
}

impl ConditionArm {
    /// What reading a condition, `keyword` and a block comes to where the
    /// condition is a lone literal that no operator follows: `keyword`
    /// must come behind it, and a statement must begin behind that; the
    /// condition that is read is the literal.
    pub open spec fn armed(
        tokenizer: &Tokenizer,
        keyword: Keyword,
        throwing_location: Seq<char>,
        r: Result<Option<Expr>, ParserError>,
    ) -> bool {
        Expr::sole(tokenizer) is Some ==> if !comes_keyword(tokenizer, 1, keyword) {
            refused(tokenizer, 1, throwing_location, r)
        } else if !comes_stmt(tokenizer, 2) {
            refused(tokenizer, 2, throwing_location, r)
        } else {
            r matches Ok(found) ==> found == Expr::sole(tokenizer)
        }
    }

    /// Reads a condition, `keyword` and a block.
    fn parse_arm(tokenizer: &mut Tokenizer, keyword: Keyword, throwing_location: &str) -> (r: Result<
        Option<(Expr, Block)>,
        ParserError,
    >)
        requires
            old(tokenizer).wf(),
        ensures
            parsed(old(tokenizer), final(tokenizer), r),
            follows(expr_opening(old(tokenizer)), r),
            r matches Ok(Some(arm)) ==> arm.0.slice.within(old(tokenizer).source())
                && arm.1.slice.within(old(tokenizer).source()) && spans(
                old(tokenizer),
                arm.0.slice,
            ),
            ConditionArm::armed(
                old(tokenizer),
                keyword,
                throwing_location@,
                match r {
                    Err(e) => Err(e),
                    Ok(None) => Ok(None),
                    Ok(Some(arm)) => Ok(Some(arm.0)),
                },
            ),
            scanned(final(tokenizer), r) == ConditionArm::scan_arm(old(tokenizer).source(), old(tokenizer).cursor(), keyword, throwing_location@),
        decreases old(tokenizer).remaining(), 16nat,
    {
        proof {
            lemma_stream_shift(old(tokenizer).source(), old(tokenizer).cursor(), 1, 0);
            lemma_stream_shift(old(tokenizer).source(), old(tokenizer).cursor(), 1, 1);
            lemma_stream_shift(old(tokenizer).source(), old(tokenizer).cursor(), 2, 0);
            lemma_stream_shift(old(tokenizer).source(), old(tokenizer).cursor(), 2, 1);
        }
        let condition = match Expr::try_parse(tokenizer)? {
            Some(condition) => condition,
            None => {
                return Ok(None);
            },
        };
        require_keyword(tokenizer, keyword, throwing_location)?;
        match Block::try_parse(tokenizer)? {
            Some(block) => Ok(Some((condition, block))),
            None => Err(unexpected_next(tokenizer, throwing_location)),
        }
    }

    /// Reads condition `do` block `end`.
    pub fn try_parse_do(tokenizer: &mut Tokenizer) -> (r: Result<Option<Self>, ParserError>)
        requires
            old(tokenizer).wf(),
        ensures
            parsed(old(tokenizer), final(tokenizer), r),
            follows(expr_opening(old(tokenizer)), r),
            r matches Ok(Some(node)) ==> node.slice.within(old(tokenizer).source()) && spans(
                old(tokenizer),
                node.slice,
            ),
            ConditionArm::armed(
                old(tokenizer),
                Keyword::Do,
                "ConditionArm::try_parse_do"@,
                match r {
                    Err(e) => Err(e),
                    Ok(None) => Ok(None),
                    Ok(Some(arm)) => Ok(Some(arm.condition)),
                },
            ),
            scanned(final(tokenizer), r) == ConditionArm::scan_do(old(tokenizer).source(), old(tokenizer).cursor()),
        decreases old(tokenizer).remaining(), 17nat,
    {
        let (condition, block) = match Self::parse_arm(
            tokenizer,
            Keyword::Do,
            "ConditionArm::try_parse_do",
        )? {
            Some(arm) => arm,
            None => {
                return Ok(None);
            },
        };
        let end = require_keyword(tokenizer, Keyword::End, "ConditionArm::try_parse_do")?;
        Ok(Some(ConditionArm { slice: condition.slice.merge(&end), condition, block }))
    }

    /// Reads condition `then` block `end`.
    pub fn try_parse(tokenizer: &mut Tokenizer) -> (r: Result<Option<Self>, ParserError>)
        requires
            old(tokenizer).wf(),
        ensures
            parsed(old(tokenizer), final(tokenizer), r),
            follows(expr_opening(old(tokenizer)), r),
            r matches Ok(Some(node)) ==> node.slice.within(old(tokenizer).source()) && spans(
                old(tokenizer),
                node.slice,
            ),
            ConditionArm::armed(
                old(tokenizer),
                Keyword::Then,
                "ConditionArm::try_parse"@,
                match r {
                    Err(e) => Err(e),
                    Ok(None) => Ok(None),
                    Ok(Some(arm)) => Ok(Some(arm.condition)),
                },
            ),
            scanned(final(tokenizer), r) == ConditionArm::scan_then(old(tokenizer).source(), old(tokenizer).cursor()),
        decreases old(tokenizer).remaining(), 17nat,
    {
        let (condition, block) = match Self::parse_arm(
            tokenizer,
            Keyword::Then,
            "ConditionArm::try_parse",
        )? {
            Some(arm) => arm,
            None => {
                return Ok(None);
            },
        };
        let end = require_keyword(tokenizer, Keyword::End, "ConditionArm::try_parse")?;
        Ok(Some(ConditionArm { slice: condition.slice.merge(&end), condition, block }))
    }

    /// Reads condition `then` block, and `else` or `end` after it; says
    /// whether it was `else`.
    pub fn try_parse_else(tokenizer: &mut Tokenizer) -> (r: Result<
        Option<(Self, bool)>,
        ParserError,
    >)
        requires
            old(tokenizer).wf(),
        ensures
            parsed(old(tokenizer), final(tokenizer), r),
            follows(expr_opening(old(tokenizer)), r),
            r matches Ok(Some(arm)) ==> arm.0.slice.within(old(tokenizer).source()) && spans(
                old(tokenizer),
                arm.0.slice,
            ),
            ConditionArm::armed(
                old(tokenizer),
                Keyword::Then,
                "ConditionArm::try_parse_else"@,
                match r {
                    Err(e) => Err(e),
                    Ok(None) => Ok(None),
                    Ok(Some(arm)) => Ok(Some(arm.0.condition)),
                },
            ),
            ConditionArm::scanned_else(final(tokenizer), r) == ConditionArm::scan_else(
                old(tokenizer).source(),
                old(tokenizer).cursor(),
            ),
        decreases old(tokenizer).remaining(), 17nat,
    {
        let (condition, block) = match Self::parse_arm(
            tokenizer,
            Keyword::Then,
            "ConditionArm::try_parse_else",
        )? {
            Some(arm) => arm,
            None => {
                return Ok(None);
            },
        };
        let end = peek_slice(tokenizer)?;
        let is_else = accept_keyword(tokenizer, Keyword::Else)?;
        if !is_else {
            require_keyword(tokenizer, Keyword::End, "ConditionArm::try_parse_else")?;
        }
        Ok(Some((ConditionArm { slice: condition.slice.merge(&end), condition, block }, is_else)))
    }
}

} // verus!
