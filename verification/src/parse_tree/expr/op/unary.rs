//! Unary operators.

use std::sync::Arc;
use vstd::prelude::*;

use crate::bytecode::op_code::{kept, temp_free, OpCode};
use crate::bytecode::BytecodeGenerationError;
use crate::parse_tree::expr::Expr;
use crate::parse_tree::{advances, peek_token, ParserError};
use crate::tokenizer::token::{Keyword, Symbol, TokenKind};
use crate::tokenizer::Tokenizer;
use crate::string::StringSlice;

verus! {

#[derive(Debug, PartialEq, Eq)]
pub struct UnaryOpExpr {
    pub slice: StringSlice,
    pub op: UnaryOpKind,
    pub value: Arc<Expr>,
}

#[derive(Debug, PartialEq, Eq, Clone, Copy, Structural)]
pub enum UnaryOpKind {
    Add,
    Sub,
    Not,
}

impl UnaryOpKind {
    /// The instruction that carries out the operator.
    pub open spec fn instruction(self) -> OpCode {
        match self {
            UnaryOpKind::Add => OpCode::OpUnaryAdd,
            UnaryOpKind::Sub => OpCode::OpUnarySub,
            UnaryOpKind::Not => OpCode::OpUnaryNot,
        }
    }
}

impl UnaryOpExpr {
    /// The instructions that the operation lowers to: the operand, then the
    /// operator.
    pub open spec fn code(&self) -> Seq<OpCode>
        decreases self,
    {
        self.value.code() + seq![OpCode::SetSlice { slice: self.slice }, self.op.instruction()]
    }

    /// The first error that lowering meets, if any.
    pub open spec fn fault(&self) -> Option<BytecodeGenerationError>
        decreases self,
    {
        self.value.fault()
    }

    pub fn generate_bytecode(&self, bytecode: &mut Vec<OpCode>) -> (r: Result<
        (),
        BytecodeGenerationError,
    >)
        ensures
            r is Err ==> kept(old(bytecode)@, final(bytecode)@),
            match r {
                Ok(()) => self.fault() is None && final(bytecode)@ == old(bytecode)@ + self.code(),
                Err(e) => self.fault() == Some(e),
            },
            r is Ok && temp_free(old(bytecode)@) ==> temp_free(final(bytecode)@),
        decreases self,
    {
        self.value.generate_bytecode(bytecode)?;
        bytecode.push(OpCode::SetSlice { slice: self.slice.duplicate() });
        match self.op {
            UnaryOpKind::Add => bytecode.push(OpCode::OpUnaryAdd),
            UnaryOpKind::Sub => bytecode.push(OpCode::OpUnarySub),
            UnaryOpKind::Not => bytecode.push(OpCode::OpUnaryNot),
        }
        assert(bytecode@ =~= old(bytecode)@ + self.code());
        Ok(())
    }
}

impl UnaryOpKind {
    /// The unary operator that a token of this kind spells, if it spells one.
    pub open spec fn spelled(kind: TokenKind) -> Option<UnaryOpKind> {
        match kind {
            TokenKind::Symbol(Symbol::Add) => Some(UnaryOpKind::Add),
            TokenKind::Symbol(Symbol::Sub) => Some(UnaryOpKind::Sub),
            TokenKind::Keyword(Keyword::Not) => Some(UnaryOpKind::Not),
            _ => None,
        }
    }

    /// The unary operator that the next token spells, if it spells one.
    /// The token is not consumed.
    pub fn try_parse(tokenizer: &mut Tokenizer) -> (r: Result<Option<Self>, ParserError>)
        requires
            old(tokenizer).wf(),
        ensures
            final(tokenizer).wf(),
            final(tokenizer).source() == old(tokenizer).source(),
            final(tokenizer).cursor() == old(tokenizer).cursor(),
            r == match old(tokenizer).ahead(0) {
                Ok(token) => Ok::<Option<UnaryOpKind>, ParserError>(UnaryOpKind::spelled(token.kind)),
                Err(e) => Err(ParserError::TokenizeError(e)),
            },
            r is Ok ==> advances(old(tokenizer), final(tokenizer), false),
    {
        let peek = peek_token(tokenizer, 0)?;
        Ok(
            match peek.kind {
                TokenKind::Symbol(Symbol::Add) => Some(UnaryOpKind::Add),
                TokenKind::Symbol(Symbol::Sub) => Some(UnaryOpKind::Sub),
                TokenKind::Keyword(Keyword::Not) => Some(UnaryOpKind::Not),
                _ => None,
            },
        )
    }
}

} // verus!
