//! Access chains: member, index, call, prototype and assignment.

use std::sync::Arc;
use vstd::prelude::*;

use super::value::literal::LiteralExprKind;
use super::{exprs_code, exprs_fault, generate_all, Expr, ExprKind};
use crate::bytecode::op_code::{kept, temp_free, OpCode};
use crate::bytecode::{first_fault, BytecodeGenerationError};
use super::value::array::{parse_list, scan_list};
use crate::parse_tree::{moves, needs_symbol, past, refusal, stuck, tok,
    accept_keyword, accept_symbol, advances, comes_expr, comes_keyword, comes_name, comes_symbol,
    covers, lemma_stream_shift, peek_slice, refused, require_identifier, require_symbol,
    unexpected_next, ParserError,
};
use crate::string::StringSlice;
use crate::tokenizer::token::{Keyword, Symbol, Token, TokenKind};
use crate::tokenizer::{TokenizeError, Tokenizer};

verus! {

/// A base expression followed by one or more arms.
#[derive(Debug, PartialEq, Eq)]
pub struct AccessExpr {
    pub slice: StringSlice,
    pub base: Arc<Expr>,
    pub access: Vec<AccessArm>,
}

#[derive(Debug, PartialEq, Eq)]
pub struct AccessArm {
    pub slice: StringSlice,
    pub kind: AccessKind,
}

#[derive(Debug, PartialEq, Eq)]
pub enum AccessKind {
    /// `.name`
    Ident(String),
    /// `[expr]`
    Index(Arc<Expr>),
    /// `(args, ...)`
    Invoke(Vec<Expr>),
    /// `= expr`
    Assign(Arc<Expr>),
    /// `.prototype`
    Prototype,
}

impl AccessExpr {
    /// The chain is `name = value`: one assignment to a variable.
    pub open spec fn is_variable_assignment(&self) -> bool {
        &&& self.access.len() == 1
        &&& self.access[0].kind is Assign
        &&& self.base.kind matches ExprKind::Literal(l)
        &&& l.kind is Variable
    }

    /// The arm after arm `idx` is an assignment.
    pub open spec fn assigns_after(&self, idx: nat) -> bool {
        idx + 1 < self.access.len() && self.access[(idx + 1) as int].kind is Assign
    }

    /// The arm after arm `idx` is a call.
    pub open spec fn invokes_after(&self, idx: nat) -> bool {
        idx + 1 < self.access.len() && self.access[(idx + 1) as int].kind is Invoke
    }

    /// The instructions that put the key of a member arm on the stack, for
    /// a store: the name of `.name`, the value of `[expr]`, nothing for
    /// `.prototype`.
    pub open spec fn key_code(&self, idx: nat) -> Seq<OpCode>
        decreases self, 0nat,
    {
        if idx >= self.access.len() {
            Seq::empty()
        } else {
            match self.access[idx as int].kind {
                AccessKind::Ident(name) => seq![OpCode::PushConstString { value: name }],
                AccessKind::Index(index) => index.code(),
                _ => Seq::empty(),
            }
        }
    }

    /// The instructions that replace the object on the stack by its member:
    /// the key, then `PushIndex`.
    pub open spec fn member_code(&self, idx: nat) -> Seq<OpCode>
        decreases self, 0nat,
    {
        if idx >= self.access.len() {
            Seq::empty()
        } else {
            match self.access[idx as int].kind {
                AccessKind::Ident(name) => seq![
                    OpCode::PushConstString { value: name },
                    OpCode::PushIndex,
                ],
                AccessKind::Index(index) => index.code() + seq![
                    OpCode::SetSlice { slice: self.access[idx as int].slice },
                    OpCode::PushIndex,
                ],
                AccessKind::Prototype => seq![OpCode::PushPrototype, OpCode::PushIndex],
                _ => Seq::empty(),
            }
        }
    }

    /// The instruction that stores into the member of arm `idx`.
    pub open spec fn store(&self, idx: nat) -> OpCode {
        if idx < self.access.len() && self.access[idx as int].kind is Prototype {
            OpCode::StoreProtorype
        } else {
            OpCode::StoreIndex
        }
    }

    /// The instructions that evaluate the value of the assignment arm
    /// `idx`; empty for any other arm.
    pub open spec fn assigned_code(&self, idx: nat) -> Seq<OpCode>
        decreases self, 0nat,
    {
        if idx >= self.access.len() {
            Seq::empty()
        } else {
            match self.access[idx as int].kind {
                AccessKind::Assign(value) => value.code(),
                _ => Seq::empty(),
            }
        }
    }

    /// The instructions that evaluate the arguments of the call arm `idx`
    /// and make the call; empty for any other arm.
    pub open spec fn call_code(&self, idx: nat, this_call: bool) -> Seq<OpCode>
        decreases self, 0nat,
    {
        if idx >= self.access.len() {
            Seq::empty()
        } else {
            match self.access[idx as int].kind {
                AccessKind::Invoke(args) => exprs_code(&args, args.len() as nat) + seq![
                    OpCode::SetSlice { slice: self.access[idx as int].slice },
                    OpCode::Invoke { param_count: args.len(), this_call },
                ],
                _ => Seq::empty(),
            }
        }
    }

    /// The instructions for the arms from `idx` on, the object that they
    /// apply to being on the stack.
    ///
    /// A member arm followed by an assignment stores into the member. A
    /// member arm followed by a call keeps the object as "this" and calls
    /// the member. Any other arm is lowered by itself.
    pub open spec fn arms_code(&self, idx: nat) -> Seq<OpCode>
        decreases self, self.access.len() - idx + 1,
    {
        if idx >= self.access.len() {
            Seq::empty()
        } else {
            let arm = self.access[idx as int];
            let head = seq![OpCode::SetSlice { slice: arm.slice }];
            match arm.kind {
                AccessKind::Assign(_) => head,
                AccessKind::Invoke(_) => head + self.call_code(idx, false) + self.arms_code(idx + 1),
                AccessKind::Ident(_) | AccessKind::Index(_) | AccessKind::Prototype => {
                    if self.assigns_after(idx) {
                        head + self.key_code(idx) + self.assigned_code(idx + 1) + seq![
                            OpCode::SetSlice { slice: arm.slice },
                            self.store(idx),
                        ]
                    } else if self.invokes_after(idx) {
                        head + seq![OpCode::Dupe] + self.member_code(idx) + self.call_code(
                            idx + 1,
                            true,
                        ) + self.arms_code(idx + 2)
                    } else {
                        head + self.member_code(idx) + self.arms_code(idx + 1)
                    }
                },
            }
        }
    }

    /// The first error in the key of arm `idx`, if any.
    pub open spec fn key_fault(&self, idx: nat) -> Option<BytecodeGenerationError>
        decreases self, 0nat,
    {
        if idx >= self.access.len() {
            None
        } else {
            match self.access[idx as int].kind {
                AccessKind::Index(index) => index.fault(),
                _ => None,
            }
        }
    }

    /// The first error in the assigned value of arm `idx`, if any.
    pub open spec fn assigned_fault(&self, idx: nat) -> Option<BytecodeGenerationError>
        decreases self, 0nat,
    {
        if idx >= self.access.len() {
            None
        } else {
            match self.access[idx as int].kind {
                AccessKind::Assign(value) => value.fault(),
                _ => None,
            }
        }
    }

    /// The first error in the arguments of arm `idx`, if any.
    pub open spec fn call_fault(&self, idx: nat) -> Option<BytecodeGenerationError>
        decreases self, 0nat,
    {
        if idx >= self.access.len() {
            None
        } else {
            match self.access[idx as int].kind {
                AccessKind::Invoke(args) => exprs_fault(&args, args.len() as nat),
                _ => None,
            }
        }
    }

    /// The first error that the arms from `idx` on meet, if any. An
    /// assignment is an error unless it is the last arm and follows a member
    /// arm.
    pub open spec fn arms_fault(&self, idx: nat) -> Option<BytecodeGenerationError>
        decreases self, self.access.len() - idx + 1,
    {
        if idx >= self.access.len() {
            None
        } else {
            let arm = self.access[idx as int];
            match arm.kind {
                AccessKind::Assign(_) => Some(BytecodeGenerationError::IllegalAssignment(arm.slice)),
                AccessKind::Invoke(_) => first_fault(self.call_fault(idx), self.arms_fault(idx + 1)),
                AccessKind::Ident(_) | AccessKind::Index(_) | AccessKind::Prototype => {
                    if self.assigns_after(idx) {
                        if idx + 2 < self.access.len() {
                            Some(
                                BytecodeGenerationError::IllegalAssignment(
                                    self.access[(idx + 1) as int].slice,
                                ),
                            )
                        } else {
                            first_fault(self.key_fault(idx), self.assigned_fault(idx + 1))
                        }
                    } else if self.invokes_after(idx) {
                        first_fault(
                            self.key_fault(idx),
                            first_fault(self.call_fault(idx + 1), self.arms_fault(idx + 2)),
                        )
                    } else {
                        first_fault(self.key_fault(idx), self.arms_fault(idx + 1))
                    }
                },
            }
        }
    }

    /// The instructions that the chain lowers to. An assignment to a
    /// variable evaluates the value and stores it; any other chain
    /// evaluates the base and then applies the arms.
    pub open spec fn code(&self) -> Seq<OpCode>
        decreases self, self.access.len() + 2,
    {
        if self.is_variable_assignment() {
            self.assigned_code(0) + seq![
                OpCode::SetSlice { slice: self.slice },
                OpCode::StoreVariable {
                    name: self.base.kind->Literal_0.kind->Variable_0,
                },
            ]
        } else {
            self.base.code() + self.arms_code(0)
        }
    }

    /// The first error that lowering meets, if any.
    pub open spec fn fault(&self) -> Option<BytecodeGenerationError>
        decreases self, self.access.len() + 2,
    {
        if self.is_variable_assignment() {
            self.assigned_fault(0)
        } else {
            first_fault(self.base.fault(), self.arms_fault(0))
        }
    }
}

impl AccessKind {
    pub fn is_assign(&self) -> (r: bool)
        ensures
            r == (self is Assign),
    {
        match self {
            AccessKind::Assign(_) => true,
            _ => false,
        }
    }

    pub fn is_invoke(&self) -> (r: bool)
        ensures
            r == (self is Invoke),
    {
        match self {
            AccessKind::Invoke(_) => true,
            _ => false,
        }
    }
}

impl AccessExpr {
    fn lower_key(&self, idx: usize, bytecode: &mut Vec<OpCode>) -> (r: Result<
        (),
        BytecodeGenerationError,
    >)
        requires
            idx < self.access.len(),
        ensures
            r is Err ==> kept(old(bytecode)@, final(bytecode)@),
            match r {
                Ok(()) => self.key_fault(idx as nat) is None && final(bytecode)@ == old(bytecode)@
                    + self.key_code(idx as nat),
                Err(e) => self.key_fault(idx as nat) == Some(e),
            },
            r is Ok && temp_free(old(bytecode)@) ==> temp_free(final(bytecode)@),
        decreases self, 0nat,
    {
        match &self.access[idx].kind {
            AccessKind::Ident(name) => {
                bytecode.push(OpCode::PushConstString { value: name.clone() });
            },
            AccessKind::Index(index) => {
                index.generate_bytecode(bytecode)?;
            },
            _ => {},
        }
        assert(bytecode@ =~= old(bytecode)@ + self.key_code(idx as nat));
        Ok(())
    }

    fn lower_member(&self, idx: usize, bytecode: &mut Vec<OpCode>) -> (r: Result<
        (),
        BytecodeGenerationError,
    >)
        requires
            idx < self.access.len(),
        ensures
            r is Err ==> kept(old(bytecode)@, final(bytecode)@),
            match r {
                Ok(()) => self.key_fault(idx as nat) is None && final(bytecode)@ == old(bytecode)@
                    + self.member_code(idx as nat),
                Err(e) => self.key_fault(idx as nat) == Some(e),
            },
            r is Ok && temp_free(old(bytecode)@) ==> temp_free(final(bytecode)@),
        decreases self, 0nat,
    {
        let arm = &self.access[idx];
        match &arm.kind {
            AccessKind::Ident(name) => {
                bytecode.push(OpCode::PushConstString { value: name.clone() });
                bytecode.push(OpCode::PushIndex);
            },
            AccessKind::Index(index) => {
                index.generate_bytecode(bytecode)?;
                bytecode.push(OpCode::SetSlice { slice: arm.slice.duplicate() });
                bytecode.push(OpCode::PushIndex);
            },
            AccessKind::Prototype => {
                bytecode.push(OpCode::PushPrototype);
                bytecode.push(OpCode::PushIndex);
            },
            _ => {},
        }
        assert(bytecode@ =~= old(bytecode)@ + self.member_code(idx as nat));
        Ok(())
    }

    fn lower_assigned(&self, idx: usize, bytecode: &mut Vec<OpCode>) -> (r: Result<
        (),
        BytecodeGenerationError,
    >)
        requires
            idx < self.access.len(),
        ensures
            r is Err ==> kept(old(bytecode)@, final(bytecode)@),
            match r {
                Ok(()) => self.assigned_fault(idx as nat) is None && final(bytecode)@ == old(bytecode)@ + self.assigned_code(idx as nat),
                Err(e) => self.assigned_fault(idx as nat) == Some(e),
            },
            r is Ok && temp_free(old(bytecode)@) ==> temp_free(final(bytecode)@),
        decreases self, 0nat,
    {
        match &self.access[idx].kind {
            AccessKind::Assign(value) => {
                value.generate_bytecode(bytecode)?;
            },
            _ => {},
        }
        assert(bytecode@ =~= old(bytecode)@ + self.assigned_code(idx as nat));
        Ok(())
    }

    fn lower_call(&self, idx: usize, this_call: bool, bytecode: &mut Vec<OpCode>) -> (r: Result<
        (),
        BytecodeGenerationError,
    >)
        requires
            idx < self.access.len(),
        ensures
            r is Err ==> kept(old(bytecode)@, final(bytecode)@),
            match r {
                Ok(()) => self.call_fault(idx as nat) is None && final(bytecode)@ == old(bytecode)@
                    + self.call_code(idx as nat, this_call),
                Err(e) => self.call_fault(idx as nat) == Some(e),
            },
            r is Ok && temp_free(old(bytecode)@) ==> temp_free(final(bytecode)@),
        decreases self, 0nat,
    {
        let arm = &self.access[idx];
        match &arm.kind {
            AccessKind::Invoke(args) => {
                generate_all(args, bytecode)?;
                bytecode.push(OpCode::SetSlice { slice: arm.slice.duplicate() });
                bytecode.push(OpCode::Invoke { param_count: args.len(), this_call });
            },
            _ => {},
        }
        assert(bytecode@ =~= old(bytecode)@ + self.call_code(idx as nat, this_call));
        Ok(())
    }

    pub fn generate_bytecode(&self, bytecode: &mut Vec<OpCode>) -> (r: Result<
        (),
        BytecodeGenerationError,
    >)
        ensures
            r is Err ==> kept(old(bytecode)@, final(bytecode)@),
            match r {
                Ok(()) => self.fault() is None && final(bytecode)@ == old(bytecode)@ + self.code(),
                Err(e) => self.fault() == Some(e),
            },
            r is Ok && temp_free(old(bytecode)@) ==> temp_free(final(bytecode)@),
        decreases self, 1nat,
    {
        let len: usize = self.access.len();
        if len == 1 && self.access[0].kind.is_assign() {
            if let ExprKind::Literal(literal) = &self.base.kind {
                if let LiteralExprKind::Variable(name) = &literal.kind {
                    self.lower_assigned(0, bytecode)?;
                    bytecode.push(OpCode::SetSlice { slice: self.slice.duplicate() });
                    bytecode.push(OpCode::StoreVariable { name: name.clone() });
                    assert(bytecode@ =~= old(bytecode)@ + self.code());
                    return Ok(());
                }
            }
        }
        assert(!self.is_variable_assignment());
        self.base.generate_bytecode(bytecode)?;
        let ghost start = bytecode@;
        let mut idx: usize = 0;
        while idx < len
            invariant
                temp_free(old(bytecode)@) ==> temp_free(bytecode@),
                len == self.access.len(),
                idx <= len,
                start == old(bytecode)@ + self.base.code(),
                !self.is_variable_assignment(),
                self.base.fault() is None,
                bytecode@ + self.arms_code(idx as nat) == start + self.arms_code(0),
                self.arms_fault(0) == self.arms_fault(idx as nat),
                kept(old(bytecode)@, bytecode@),
            decreases len - idx,
        {
            let ghost before = bytecode@;
            let arm = &self.access[idx];
            bytecode.push(OpCode::SetSlice { slice: arm.slice.duplicate() });
            if arm.kind.is_assign() {
                return Err(BytecodeGenerationError::IllegalAssignment(arm.slice.duplicate()));
            }
            if arm.kind.is_invoke() {
                self.lower_call(idx, false, bytecode)?;
                assert(bytecode@ + self.arms_code((idx + 1) as nat) =~= before + self.arms_code(
                    idx as nat,
                ));
                idx = idx + 1;
                continue ;
            }
            let last: bool = idx + 1 >= len;
            if !last && self.access[idx + 1].kind.is_assign() {
                if idx + 2 < len {
                    return Err(
                        BytecodeGenerationError::IllegalAssignment(
                            self.access[idx + 1].slice.duplicate(),
                        ),
                    );
                }
                self.lower_key(idx, bytecode)?;
                self.lower_assigned(idx + 1, bytecode)?;
                bytecode.push(OpCode::SetSlice { slice: arm.slice.duplicate() });
                match &arm.kind {
                    AccessKind::Prototype => bytecode.push(OpCode::StoreProtorype),
                    _ => bytecode.push(OpCode::StoreIndex),
                }
                assert(bytecode@ =~= before + self.arms_code(idx as nat));
                assert(bytecode@ =~= old(bytecode)@ + self.code());
                return Ok(());
            }
            if !last && self.access[idx + 1].kind.is_invoke() {
                bytecode.push(OpCode::Dupe);
                self.lower_member(idx, bytecode)?;
                self.lower_call(idx + 1, true, bytecode)?;
                assert(bytecode@ + self.arms_code((idx + 2) as nat) =~= before + self.arms_code(
                    idx as nat,
                ));
                idx = idx + 2;
                continue ;
            }
            self.lower_member(idx, bytecode)?;
            assert(bytecode@ + self.arms_code((idx + 1) as nat) =~= before + self.arms_code(
                idx as nat,
            ));
            idx = idx + 1;
        }
        assert(bytecode@ =~= old(bytecode)@ + self.code());
        Ok(())
    }
}

/// `base.name = value` lowers to: the base, the name, the value, `StoreIndex`.
pub proof fn law_member_assignment(e: &AccessExpr)
    requires
        e.access.len() == 2,
        e.access[0].kind is Ident,
        e.access[1].kind is Assign,
    ensures
        e.code() == e.base.code() + seq![
            OpCode::SetSlice { slice: e.access[0].slice },
            OpCode::PushConstString { value: e.access[0].kind->Ident_0 },
        ] + e.access[1].kind->Assign_0.code() + seq![
            OpCode::SetSlice { slice: e.access[0].slice },
            OpCode::StoreIndex,
        ],
        e.fault() == first_fault(e.base.fault(), e.access[1].kind->Assign_0.fault()),
{
    let head = seq![OpCode::SetSlice { slice: e.access[0].slice }];
    assert(e.assigned_code(1) == e.access[1].kind->Assign_0.code());
    assert(e.assigned_fault(1) == e.access[1].kind->Assign_0.fault());
    assert(e.arms_code(0) == head + e.key_code(0) + e.assigned_code(1) + seq![
        OpCode::SetSlice { slice: e.access[0].slice },
        e.store(0),
    ]);
    assert(e.arms_fault(0) == first_fault(e.key_fault(0), e.assigned_fault(1)));
    assert(e.code() =~= e.base.code() + seq![
        OpCode::SetSlice { slice: e.access[0].slice },
        OpCode::PushConstString { value: e.access[0].kind->Ident_0 },
    ] + e.access[1].kind->Assign_0.code() + seq![
        OpCode::SetSlice { slice: e.access[0].slice },
        OpCode::StoreIndex,
    ]);
}

/// `base[key] = value` lowers to: the base, the key, the value, `StoreIndex`.
pub proof fn law_index_assignment(e: &AccessExpr)
    requires
        e.access.len() == 2,
        e.access[0].kind is Index,
        e.access[1].kind is Assign,
    ensures
        e.code() == e.base.code() + seq![OpCode::SetSlice { slice: e.access[0].slice }]
            + e.access[0].kind->Index_0.code() + e.access[1].kind->Assign_0.code() + seq![
            OpCode::SetSlice { slice: e.access[0].slice },
            OpCode::StoreIndex,
        ],
        e.fault() == first_fault(
            e.base.fault(),
            first_fault(e.access[0].kind->Index_0.fault(), e.access[1].kind->Assign_0.fault()),
        ),
{
    let head = seq![OpCode::SetSlice { slice: e.access[0].slice }];
    assert(e.assigned_code(1) == e.access[1].kind->Assign_0.code());
    assert(e.assigned_fault(1) == e.access[1].kind->Assign_0.fault());
    assert(e.arms_code(0) == head + e.key_code(0) + e.assigned_code(1) + seq![
        OpCode::SetSlice { slice: e.access[0].slice },
        e.store(0),
    ]);
    assert(e.arms_fault(0) == first_fault(e.key_fault(0), e.assigned_fault(1)));
    assert(e.code() =~= e.base.code() + seq![OpCode::SetSlice { slice: e.access[0].slice }]
        + e.access[0].kind->Index_0.code() + e.access[1].kind->Assign_0.code() + seq![
        OpCode::SetSlice { slice: e.access[0].slice },
        OpCode::StoreIndex,
    ]);
}

/// `base.prototype = value` lowers to: the base, the value, `StoreProtorype`.
pub proof fn law_prototype_assignment(e: &AccessExpr)
    requires
        e.access.len() == 2,
        e.access[0].kind is Prototype,
        e.access[1].kind is Assign,
    ensures
        e.code() == e.base.code() + seq![OpCode::SetSlice { slice: e.access[0].slice }]
            + e.access[1].kind->Assign_0.code() + seq![
            OpCode::SetSlice { slice: e.access[0].slice },
            OpCode::StoreProtorype,
        ],
        e.fault() == first_fault(e.base.fault(), e.access[1].kind->Assign_0.fault()),
{
    let head = seq![OpCode::SetSlice { slice: e.access[0].slice }];
    assert(e.assigned_code(1) == e.access[1].kind->Assign_0.code());
    assert(e.assigned_fault(1) == e.access[1].kind->Assign_0.fault());
    assert(e.arms_code(0) == head + e.key_code(0) + e.assigned_code(1) + seq![
        OpCode::SetSlice { slice: e.access[0].slice },
        e.store(0),
    ]);
    assert(e.arms_fault(0) == first_fault(e.key_fault(0), e.assigned_fault(1)));
    assert(e.code() =~= e.base.code() + seq![OpCode::SetSlice { slice: e.access[0].slice }]
        + e.access[1].kind->Assign_0.code() + seq![
        OpCode::SetSlice { slice: e.access[0].slice },
        OpCode::StoreProtorype,
    ]);
}

/// `base.name(args)` lowers to: the base, a duplicate of it to serve as
/// "this", the name, `PushIndex`, the arguments, and a call with "this".
pub proof fn law_member_call(e: &AccessExpr)
    requires
        e.access.len() == 2,
        e.access[0].kind is Ident,
        e.access[1].kind is Invoke,
    ensures
        e.code() == e.base.code() + seq![
            OpCode::SetSlice { slice: e.access[0].slice },
            OpCode::Dupe,
            OpCode::PushConstString { value: e.access[0].kind->Ident_0 },
            OpCode::PushIndex,
        ] + exprs_code(&e.access[1].kind->Invoke_0, e.access[1].kind->Invoke_0.len() as nat)
            + seq![
            OpCode::SetSlice { slice: e.access[1].slice },
            OpCode::Invoke { param_count: e.access[1].kind->Invoke_0.len(), this_call: true },
        ],
{
    let head = seq![OpCode::SetSlice { slice: e.access[0].slice }];
    assert(e.arms_code(2) =~= Seq::empty());
    assert(e.arms_code(0) == head + seq![OpCode::Dupe] + e.member_code(0) + e.call_code(1, true)
        + e.arms_code(2));
    assert(e.code() =~= e.base.code() + seq![
        OpCode::SetSlice { slice: e.access[0].slice },
        OpCode::Dupe,
        OpCode::PushConstString { value: e.access[0].kind->Ident_0 },
        OpCode::PushIndex,
    ] + exprs_code(&e.access[1].kind->Invoke_0, e.access[1].kind->Invoke_0.len() as nat) + seq![
        OpCode::SetSlice { slice: e.access[1].slice },
        OpCode::Invoke { param_count: e.access[1].kind->Invoke_0.len(), this_call: true },
    ]);
}

/// `base[key](args)` lowers to: the base, a duplicate of it to serve as
/// "this", the key, `PushIndex`, the arguments, and a call with "this".
pub proof fn law_index_call(e: &AccessExpr)
    requires
        e.access.len() == 2,
        e.access[0].kind is Index,
        e.access[1].kind is Invoke,
    ensures
        e.code() == e.base.code() + seq![
            OpCode::SetSlice { slice: e.access[0].slice },
            OpCode::Dupe,
        ] + e.access[0].kind->Index_0.code() + seq![
            OpCode::SetSlice { slice: e.access[0].slice },
            OpCode::PushIndex,
        ] + exprs_code(&e.access[1].kind->Invoke_0, e.access[1].kind->Invoke_0.len() as nat)
            + seq![
            OpCode::SetSlice { slice: e.access[1].slice },
            OpCode::Invoke { param_count: e.access[1].kind->Invoke_0.len(), this_call: true },
        ],
{
    let head = seq![OpCode::SetSlice { slice: e.access[0].slice }];
    assert(e.arms_code(2) =~= Seq::empty());
    assert(e.arms_code(0) == head + seq![OpCode::Dupe] + e.member_code(0) + e.call_code(1, true)
        + e.arms_code(2));
    assert(e.code() =~= e.base.code() + seq![
        OpCode::SetSlice { slice: e.access[0].slice },
        OpCode::Dupe,
    ] + e.access[0].kind->Index_0.code() + seq![
        OpCode::SetSlice { slice: e.access[0].slice },
        OpCode::PushIndex,
    ] + exprs_code(&e.access[1].kind->Invoke_0, e.access[1].kind->Invoke_0.len() as nat) + seq![
        OpCode::SetSlice { slice: e.access[1].slice },
        OpCode::Invoke { param_count: e.access[1].kind->Invoke_0.len(), this_call: true },
    ]);
}

/// `base.prototype(args)` lowers to: the base, a duplicate of it to serve
/// as "this", `PushPrototype`, `PushIndex`, the arguments, and a call with
/// "this".
pub proof fn law_prototype_call(e: &AccessExpr)
    requires
        e.access.len() == 2,
        e.access[0].kind is Prototype,
        e.access[1].kind is Invoke,
    ensures
        e.code() == e.base.code() + seq![
            OpCode::SetSlice { slice: e.access[0].slice },
            OpCode::Dupe,
            OpCode::PushPrototype,
            OpCode::PushIndex,
        ] + exprs_code(&e.access[1].kind->Invoke_0, e.access[1].kind->Invoke_0.len() as nat)
            + seq![
            OpCode::SetSlice { slice: e.access[1].slice },
            OpCode::Invoke { param_count: e.access[1].kind->Invoke_0.len(), this_call: true },
        ],
{
    let head = seq![OpCode::SetSlice { slice: e.access[0].slice }];
    assert(e.arms_code(2) =~= Seq::empty());
    assert(e.arms_code(0) == head + seq![OpCode::Dupe] + e.member_code(0) + e.call_code(1, true)
        + e.arms_code(2));
    assert(e.code() =~= e.base.code() + seq![
        OpCode::SetSlice { slice: e.access[0].slice },
        OpCode::Dupe,
        OpCode::PushPrototype,
        OpCode::PushIndex,
    ] + exprs_code(&e.access[1].kind->Invoke_0, e.access[1].kind->Invoke_0.len() as nat) + seq![
        OpCode::SetSlice { slice: e.access[1].slice },
        OpCode::Invoke { param_count: e.access[1].kind->Invoke_0.len(), this_call: true },
    ]);
}

/// An assignment that is not the last arm of its chain is an error.
pub proof fn law_assignment_must_be_last(e: &AccessExpr, idx: nat)
    requires
        idx + 1 < e.access.len(),
        e.access[idx as int].kind is Assign,
    ensures
        e.arms_fault(idx) == Some(
            BytecodeGenerationError::IllegalAssignment(e.access[idx as int].slice),
        ),
        idx > 0 && !(e.access[idx - 1].kind is Invoke) && !(e.access[idx - 1].kind is Assign)
            ==> e.arms_fault((idx - 1) as nat) == Some(
            BytecodeGenerationError::IllegalAssignment(e.access[idx as int].slice),
        ),
{
}

impl AccessExpr {
    /// What reading the arms behind a value comes to, at the cursor `c`:
    /// the cursor behind the arms, nothing where no arm begins, or the error.
    pub open spec fn scan(src: Arc<str>, c: nat) -> Result<Option<nat>, ParserError>
        decreases src@.len() - c, 1nat,
    {
        AccessExpr::scan_arms(src, c, false)
    }

    /// What reading the arms comes to from the cursor `c` on, `any` saying
    /// whether an arm was read before: behind a dot a name or `prototype`
    /// must follow; behind a bracket an expression and the closing
    /// bracket; behind a parenthesis the arguments; behind `=` an
    /// expression, which ends the arms.
    pub open spec fn scan_arms(src: Arc<str>, c: nat, any: bool) -> Result<Option<nat>, ParserError>
        decreases src@.len() - c, 0nat,
    {
        let location = "AccessExpr::try_parse"@;
        let c1 = past(src, c);
        match tok(src, c) {
            Err(e) => Err(ParserError::TokenizeError(e)),
            Ok(token) => if !moves(src, c, c1) && AccessExpr::begins_arm(token.kind) {
                Err(stuck())
            } else {
                match token.kind {
                    TokenKind::Symbol(Symbol::Dot) => match tok(src, c1) {
                        Err(e) => Err(ParserError::TokenizeError(e)),
                        Ok(second) => if second.kind == TokenKind::Keyword(Keyword::Prototype)
                            || second.kind is Identifier {
                            if moves(src, c, past(src, c1)) {
                                AccessExpr::scan_arms(src, past(src, c1), true)
                            } else {
                                Err(stuck())
                            }
                        } else {
                            Err(ParserError::unexpected(second, location))
                        },
                    },
                    TokenKind::Symbol(Symbol::BracketOpen) => match Expr::scan(src, c1) {
                        Err(e) => Err(e),
                        Ok(None) => Err(refusal(src, c1, location)),
                        Ok(Some(c2)) => match needs_symbol(src, c2, Symbol::BracketClose, location) {
                            Err(e) => Err(e),
                            Ok(c3) => if moves(src, c, c3) {
                                AccessExpr::scan_arms(src, c3, true)
                            } else {
                                Err(stuck())
                            },
                        },
                    },
                    TokenKind::Symbol(Symbol::ParenOpen) => match scan_list(
                        src,
                        c1,
                        Symbol::ParenClose,
                        location,
                    ) {
                        Err(e) => Err(e),
                        Ok(c2) => if moves(src, c, c2) {
                            AccessExpr::scan_arms(src, c2, true)
                        } else {
                            Err(stuck())
                        },
                    },
                    TokenKind::Symbol(Symbol::Assign) => match Expr::scan(src, c1) {
                        Err(e) => Err(e),
                        Ok(None) => Err(refusal(src, c1, location)),
                        Ok(Some(c2)) => Ok(Some(c2)),
                    },
                    _ => if any {
                        Ok(Some(c))
                    } else {
                        Ok(None)
                    },
                }
            },
        }
    }

    /// The outcome `r` of reading the arms, as a cursor.
    pub open spec fn scanned(after: &Tokenizer, r: Result<Result<AccessExpr, Expr>, ParserError>) -> Result<
        Option<nat>,
        ParserError,
    > {
        match r {
            Ok(Ok(_)) => Ok(Some(after.cursor())),
            Ok(Err(_)) => Ok(None),
            Err(e) => Err(e),
        }
    }

    /// A token of this kind begins an arm: `.`, `[`, `(` or `=`.
    pub open spec fn begins_arm(kind: TokenKind) -> bool {
        ||| kind == TokenKind::Symbol(Symbol::Dot)
        ||| kind == TokenKind::Symbol(Symbol::BracketOpen)
        ||| kind == TokenKind::Symbol(Symbol::ParenOpen)
        ||| kind == TokenKind::Symbol(Symbol::Assign)
    }

    /// The arm `arm` is of the kind that the two next tokens call for.
    /// Where a lone literal that no operator follows stands behind the
    /// first token, it is the index, the first argument or the value that
    /// is assigned.
    pub open spec fn first_arm(tokenizer: &Tokenizer, arm: AccessArm) -> bool {
        tokenizer.ahead(0) matches Ok(first) && match first.kind {
            TokenKind::Symbol(Symbol::Dot) => match tokenizer.ahead(1) {
                Ok(Token { kind: TokenKind::Keyword(Keyword::Prototype), .. }) => arm.kind
                    is Prototype,
                Ok(Token { kind: TokenKind::Identifier(name), .. }) => arm.kind
                    == AccessKind::Ident(name),
                _ => false,
            },
            TokenKind::Symbol(Symbol::BracketOpen) => arm.kind matches AccessKind::Index(index)
                && (Expr::sole_at(tokenizer, 1) matches Some(value) ==> *index == value),
            TokenKind::Symbol(Symbol::ParenOpen) => arm.kind matches AccessKind::Invoke(values) && (
            Expr::sole_at(tokenizer, 1) matches Some(value) ==> values@.len() >= 1 && values@[0]
                == value),
            TokenKind::Symbol(Symbol::Assign) => arm.kind matches AccessKind::Assign(assigned) && (
            Expr::sole_at(tokenizer, 1) matches Some(value) ==> *assigned == value),
            _ => false,
        }
    }

    /// The two next tokens cannot begin an arm, though the first of them
    /// opens one: no name or `prototype` behind a dot, no expression
    /// behind a bracket or `=`, neither an expression nor the closing
    /// parenthesis behind a parenthesis.
    pub open spec fn breaks_off(tokenizer: &Tokenizer) -> bool {
        tokenizer.ahead(0) matches Ok(first) && match first.kind {
            TokenKind::Symbol(Symbol::Dot) => !comes_name(tokenizer, 1) && !comes_keyword(
                tokenizer,
                1,
                Keyword::Prototype,
            ),
            TokenKind::Symbol(Symbol::BracketOpen) => !comes_expr(tokenizer, 1),
            TokenKind::Symbol(Symbol::ParenOpen) => !comes_expr(tokenizer, 1) && !comes_symbol(
                tokenizer,
                1,
                Symbol::ParenClose,
            ),
            TokenKind::Symbol(Symbol::Assign) => !comes_expr(tokenizer, 1),
            _ => false,
        }
    }

    /// What reading the arms behind `base` comes to, as far as the two
    /// next tokens decide: `base` comes back where no arm begins; the
    /// second token is refused where it breaks off the arm that the first
    /// opens; else a chain that is read stands on `base`, and its first
    /// arm is of the kind that the tokens call for. An assignment that
    /// comes first is the only arm.
    pub open spec fn opened(
        tokenizer: &Tokenizer,
        base: Expr,
        r: Result<Result<AccessExpr, Expr>, ParserError>,
    ) -> bool {
        tokenizer.ahead(0) matches Ok(first) ==> if !AccessExpr::begins_arm(first.kind) {
            r == Ok::<Result<AccessExpr, Expr>, ParserError>(Err(base))
        } else if AccessExpr::breaks_off(tokenizer) {
            refused(tokenizer, 1, "AccessExpr::try_parse"@, r)
        } else {
            r matches Ok(got) ==> {
                &&& got matches Ok(chain)
                &&& *chain.base == base
                &&& chain.access@.len() >= 1
                &&& AccessExpr::first_arm(tokenizer, chain.access@[0])
                &&& chain.access@[0].kind is Assign ==> chain.access@.len() == 1
            }
        }
    }

    /// Reads the arms that follow `base`: `.name`, `.prototype`, `[index]`,
    /// `(arguments)` and, as the last arm, `= value`. Gives `base` back if
    /// no arm follows.
    #[verifier::spinoff_prover]
    #[verifier::rlimit(50)]
    pub fn try_parse(tokenizer: &mut Tokenizer, base: Expr) -> (r: Result<
        Result<Self, Expr>,
        ParserError,
    >)
        requires
            old(tokenizer).wf(),
            base.slice.within(old(tokenizer).source()),
        ensures
            match r {
                Ok(Ok(access)) => advances(old(tokenizer), final(tokenizer), true)
                    && access.slice.within(old(tokenizer).source()) && covers(
                    access.slice,
                    base.slice,
                ),
                Ok(Err(same)) => advances(old(tokenizer), final(tokenizer), false) && same == base,
                Err(_) => true,
            },
            match old(tokenizer).ahead(0) {
                Ok(token) => (r matches Ok(Err(_))) == !AccessExpr::begins_arm(token.kind),
                Err(e) => r matches Err(error) && error == ParserError::TokenizeError(e),
            },
            AccessExpr::opened(old(tokenizer), base, r),
            AccessExpr::scanned(final(tokenizer), r) == AccessExpr::scan(
                old(tokenizer).source(),
                old(tokenizer).cursor(),
            ),
        decreases old(tokenizer).remaining(), 0nat,
    {
        proof {
            lemma_stream_shift(old(tokenizer).source(), old(tokenizer).cursor(), 1, 0);
        }
        proof {
            tokenizer.lemma_cursor_in_text();
        }
        let mut access: Vec<AccessArm> = Vec::new();
        let mut end = base.slice.duplicate();
        let mut more: bool = true;
        while more
            invariant
                AccessExpr::scan(old(tokenizer).source(), old(tokenizer).cursor()) == if more {
                    AccessExpr::scan_arms(tokenizer.source(), tokenizer.cursor(), access@.len() > 0)
                } else if access@.len() > 0 {
                    Ok::<Option<nat>, ParserError>(Some(tokenizer.cursor()))
                } else {
                    Ok(None)
                },
                tokenizer.wf(),
                end.within(old(tokenizer).source()),
                tokenizer.source() == old(tokenizer).source(),
                tokenizer.remaining() <= old(tokenizer).remaining(),
                old(tokenizer).cursor() <= tokenizer.cursor() <= tokenizer.source()@.len(),
                tokenizer.consumed() >= old(tokenizer).consumed(),
                access@.len() > 0 ==> tokenizer.remaining() < old(tokenizer).remaining(),
                access@.len() > 0 ==> old(tokenizer).cursor() < tokenizer.cursor(),
                access@.len() > 0 ==> tokenizer.consumed() > old(tokenizer).consumed(),
                access@.len() == 0 ==> tokenizer.consumed() == old(tokenizer).consumed(),
                access@.len() == 0 ==> tokenizer.cursor() == old(tokenizer).cursor(),
                access@.len() > 0 ==> (old(tokenizer).ahead(0) matches Ok(token)
                    && AccessExpr::begins_arm(token.kind)),
                !more && access@.len() == 0 ==> (old(tokenizer).ahead(0) matches Ok(token)
                    && !AccessExpr::begins_arm(token.kind)),
                access@.len() > 0 ==> !AccessExpr::breaks_off(old(tokenizer))
                    && AccessExpr::first_arm(old(tokenizer), access@[0]),
                access@.len() > 0 && access@[0].kind is Assign ==> access@.len() == 1 && !more,
            decreases tokenizer.remaining() + if more { 1nat } else { 0nat },
        {
            let start = peek_slice(tokenizer)?;
            let ghost at_start = *tokenizer;
            if accept_symbol(tokenizer, Symbol::Dot)? {
                end = peek_slice(tokenizer)?;
                if accept_keyword(tokenizer, Keyword::Prototype)? {
                    access.push(AccessArm { slice: start.merge(&end), kind: AccessKind::Prototype });
                } else {
                    let (ident, _) = require_identifier(tokenizer, "AccessExpr::try_parse")?;
                    access.push(
                        AccessArm { slice: start.merge(&end), kind: AccessKind::Ident(ident) },
                    );
                }
            } else if accept_symbol(tokenizer, Symbol::BracketOpen)? {
                proof {
                    Expr::lemma_sole_shift(&at_start, tokenizer, 1, 0);
                }
                let index = match Expr::try_parse(tokenizer)? {
                    Some(index) => index,
                    None => {
                        return Err(unexpected_next(tokenizer, "AccessExpr::try_parse"));
                    },
                };
                end = require_symbol(tokenizer, Symbol::BracketClose, "AccessExpr::try_parse")?;
                access.push(
                    AccessArm {
                        slice: start.merge(&end),
                        kind: AccessKind::Index(Arc::new(index)),
                    },
                );
            } else if accept_symbol(tokenizer, Symbol::ParenOpen)? {
                proof {
                    Expr::lemma_sole_shift(&at_start, tokenizer, 1, 0);
                }
                let (values, close) = parse_list(
                    tokenizer,
                    Symbol::ParenClose,
                    "AccessExpr::try_parse",
                )?;
                end = close;
                access.push(AccessArm { slice: start.merge(&end), kind: AccessKind::Invoke(values) });
            } else if accept_symbol(tokenizer, Symbol::Assign)? {
                proof {
                    Expr::lemma_sole_shift(&at_start, tokenizer, 1, 0);
                }
                let value = match Expr::try_parse(tokenizer)? {
                    Some(value) => value,
                    None => {
                        return Err(unexpected_next(tokenizer, "AccessExpr::try_parse"));
                    },
                };
                end = value.slice.duplicate();
                access.push(
                    AccessArm {
                        slice: start.merge(&end),
                        kind: AccessKind::Assign(Arc::new(value)),
                    },
                );
                more = false;
            } else {
                more = false;
            }
        }
        if access.len() == 0 {
            return Ok(Err(base));
        }
        Ok(Ok(AccessExpr { slice: base.slice.merge(&end), base: Arc::new(base), access }))
    }
}

} // verus!
