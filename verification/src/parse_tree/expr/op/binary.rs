//! Binary operators.

use std::sync::Arc;
use vstd::prelude::*;

use crate::bytecode::op_code::{kept, temp_free, OpCode};
use crate::bytecode::BytecodeGenerationError;
use crate::parse_tree::expr::Expr;
use crate::parse_tree::{advances, peek_is_keyword, peek_token, ParserError};
use crate::tokenizer::token::{Keyword, Symbol, Token, TokenKind};
use crate::tokenizer::{TokenizeError, Tokenizer};
use crate::string::StringSlice;

verus! {

#[derive(Debug, PartialEq, Eq)]
pub struct BinOpExpr {
    pub slice: StringSlice,
    pub lhs: Arc<Expr>,
    pub op: BinOpKind,
    pub rhs: Arc<Expr>,
}

#[derive(Debug, PartialEq, Eq, Clone, Copy, Structural)]
pub enum BinOpKind {
    Add,
    Sub,
    Mul,
    Div,
    Rem,
    Greater,
    Less,
    GreaterEqual,
    LessEqual,
    Equal,
    NotEqual,
    Is,
    IsNot,
    And,
    Or,
}

impl BinOpExpr {
    /// The instructions that the operation lowers to: both operands, left
    /// first, then the operator.
    pub open spec fn code(&self) -> Seq<OpCode>
        decreases self,
    {
        self.lhs.code() + self.rhs.code() + seq![
            OpCode::SetSlice { slice: self.slice },
            self.op.instruction(),
        ]
    }

    /// The first error that lowering meets, if any.
    pub open spec fn fault(&self) -> Option<BytecodeGenerationError>
        decreases self,
    {
        if self.lhs.fault() is Some {
            self.lhs.fault()
        } else {
            self.rhs.fault()
        }
    }

    pub fn generate_bytecode(&self, bytecode: &mut Vec<OpCode>) -> (r: Result<
        (),
        BytecodeGenerationError,
    >)
        ensures
            r is Err ==> kept(old(bytecode)@, final(bytecode)@),
            match r {
                Ok(()) => self.fault() is None && final(bytecode)@ == old(bytecode)@ + self.code(),
                Err(e) => self.fault() == Some(e),
            },
            r is Ok && temp_free(old(bytecode)@) ==> temp_free(final(bytecode)@),
        decreases self,
    {
        self.lhs.generate_bytecode(bytecode)?;
        self.rhs.generate_bytecode(bytecode)?;
        bytecode.push(OpCode::SetSlice { slice: self.slice.duplicate() });
        bytecode.push(self.op.to_instruction());
        assert(bytecode@ =~= old(bytecode)@ + self.code());
        Ok(())
    }
}

impl BinOpKind {
    /// The instruction that carries out the operator.
    pub open spec fn instruction(self) -> OpCode {
        match self {
            BinOpKind::Add => OpCode::OpAdd,
            BinOpKind::Sub => OpCode::OpSub,
            BinOpKind::Mul => OpCode::OpMul,
            BinOpKind::Div => OpCode::OpDiv,
            BinOpKind::Rem => OpCode::OpRem,
            BinOpKind::Greater => OpCode::OpGt,
            BinOpKind::Less => OpCode::OpLt,
            BinOpKind::GreaterEqual => OpCode::OpGe,
            BinOpKind::LessEqual => OpCode::OpLe,
            BinOpKind::Equal => OpCode::OpEq,
            BinOpKind::NotEqual => OpCode::OpNe,
            BinOpKind::Is => OpCode::ProtoEq,
            BinOpKind::IsNot => OpCode::ProtoNe,
            BinOpKind::And => OpCode::OpAnd,
            BinOpKind::Or => OpCode::OpOr,
        }
    }

    pub fn to_instruction(self) -> (r: OpCode)
        ensures
            r == self.instruction(),
    {
        match self {
            BinOpKind::Add => OpCode::OpAdd,
            BinOpKind::Sub => OpCode::OpSub,
            BinOpKind::Mul => OpCode::OpMul,
            BinOpKind::Div => OpCode::OpDiv,
            BinOpKind::Rem => OpCode::OpRem,
            BinOpKind::Greater => OpCode::OpGt,
            BinOpKind::Less => OpCode::OpLt,
            BinOpKind::GreaterEqual => OpCode::OpGe,
            BinOpKind::LessEqual => OpCode::OpLe,
            BinOpKind::Equal => OpCode::OpEq,
            BinOpKind::NotEqual => OpCode::OpNe,
            BinOpKind::Is => OpCode::ProtoEq,
            BinOpKind::IsNot => OpCode::ProtoNe,
            BinOpKind::And => OpCode::OpAnd,
            BinOpKind::Or => OpCode::OpOr,
        }
    }

    /// How tightly the operator binds on its left and on its right. A
    /// higher number binds tighter; the right number is one more than the
    /// left, so operators of one level group to the left.
    pub open spec fn spec_binding(self) -> (usize, usize) {
        match self {
            BinOpKind::Or => (3, 4),
            BinOpKind::And => (5, 6),
            BinOpKind::Is | BinOpKind::IsNot => (7, 8),
            BinOpKind::Equal | BinOpKind::NotEqual => (9, 10),
            BinOpKind::Greater | BinOpKind::Less | BinOpKind::GreaterEqual | BinOpKind::LessEqual => (
                11,
                12,
            ),
            BinOpKind::Mul | BinOpKind::Div | BinOpKind::Rem => (13, 14),
            BinOpKind::Add | BinOpKind::Sub => (15, 16),
        }
    }

    pub fn binding(self) -> (r: (usize, usize))
        ensures
            r == self.spec_binding(),
            r.1 == r.0 + 1,
    {
        match self {
            BinOpKind::Or => (3, 4),
            BinOpKind::And => (5, 6),
            BinOpKind::Is | BinOpKind::IsNot => (7, 8),
            BinOpKind::Equal | BinOpKind::NotEqual => (9, 10),
            BinOpKind::Greater | BinOpKind::Less | BinOpKind::GreaterEqual | BinOpKind::LessEqual => (
                11,
                12,
            ),
            BinOpKind::Mul | BinOpKind::Div | BinOpKind::Rem => (13, 14),
            BinOpKind::Add | BinOpKind::Sub => (15, 16),
        }
    }

    /// The number of tokens that spell the operator: two for `is not`, one
    /// for every other.
    pub fn consume_amount(self) -> (r: usize)
        ensures
            r == if self == BinOpKind::IsNot { 2usize } else { 1usize },
    {
        match self {
            BinOpKind::IsNot => 2,
            _ => 1,
        }
    }
}

impl BinOpKind {
    /// The binary operator that the two next tokens spell, if they spell
    /// one. The second token counts only behind `is`, where `not` makes
    /// `is not` of it.
    pub open spec fn spelled(
        one: Result<Token, TokenizeError>,
        two: Result<Token, TokenizeError>,
    ) -> Result<Option<BinOpKind>, ParserError> {
        match one {
            Err(e) => Err(ParserError::TokenizeError(e)),
            Ok(token) => match token.kind {
                TokenKind::Symbol(Symbol::Add) => Ok(Some(BinOpKind::Add)),
                TokenKind::Symbol(Symbol::Sub) => Ok(Some(BinOpKind::Sub)),
                TokenKind::Symbol(Symbol::Mul) => Ok(Some(BinOpKind::Mul)),
                TokenKind::Symbol(Symbol::Div) => Ok(Some(BinOpKind::Div)),
                TokenKind::Symbol(Symbol::Rem) => Ok(Some(BinOpKind::Rem)),
                TokenKind::Symbol(Symbol::Greater) => Ok(Some(BinOpKind::Greater)),
                TokenKind::Symbol(Symbol::Less) => Ok(Some(BinOpKind::Less)),
                TokenKind::Symbol(Symbol::GreaterEqual) => Ok(Some(BinOpKind::GreaterEqual)),
                TokenKind::Symbol(Symbol::LessEqual) => Ok(Some(BinOpKind::LessEqual)),
                TokenKind::Symbol(Symbol::Equal) => Ok(Some(BinOpKind::Equal)),
                TokenKind::Symbol(Symbol::NotEqual) => Ok(Some(BinOpKind::NotEqual)),
                TokenKind::Keyword(Keyword::Is) => match two {
                    Err(e) => Err(ParserError::TokenizeError(e)),
                    Ok(next) => if next.kind == TokenKind::Keyword(Keyword::Not) {
                        Ok(Some(BinOpKind::IsNot))
                    } else {
                        Ok(Some(BinOpKind::Is))
                    },
                },
                TokenKind::Keyword(Keyword::And) => Ok(Some(BinOpKind::And)),
                TokenKind::Keyword(Keyword::Or) => Ok(Some(BinOpKind::Or)),
                _ => Ok(None),
            },
        }
    }

    /// The binary operator that the next tokens spell, if they spell one.
    /// No token is consumed.
    pub fn try_parse(tokenizer: &mut Tokenizer) -> (r: Result<Option<Self>, ParserError>)
        requires
            old(tokenizer).wf(),
        ensures
            final(tokenizer).wf(),
            final(tokenizer).source() == old(tokenizer).source(),
            final(tokenizer).cursor() == old(tokenizer).cursor(),
            r == BinOpKind::spelled(old(tokenizer).ahead(0), old(tokenizer).ahead(1)),
            r is Ok ==> advances(old(tokenizer), final(tokenizer), false),
    {
        let peek = peek_token(tokenizer, 0)?;
        Ok(
            match peek.kind {
                TokenKind::Symbol(Symbol::Add) => Some(BinOpKind::Add),
                TokenKind::Symbol(Symbol::Sub) => Some(BinOpKind::Sub),
                TokenKind::Symbol(Symbol::Mul) => Some(BinOpKind::Mul),
                TokenKind::Symbol(Symbol::Div) => Some(BinOpKind::Div),
                TokenKind::Symbol(Symbol::Rem) => Some(BinOpKind::Rem),
                TokenKind::Symbol(Symbol::Greater) => Some(BinOpKind::Greater),
                TokenKind::Symbol(Symbol::Less) => Some(BinOpKind::Less),
                TokenKind::Symbol(Symbol::GreaterEqual) => Some(BinOpKind::GreaterEqual),
                TokenKind::Symbol(Symbol::LessEqual) => Some(BinOpKind::LessEqual),
                TokenKind::Symbol(Symbol::Equal) => Some(BinOpKind::Equal),
                TokenKind::Symbol(Symbol::NotEqual) => Some(BinOpKind::NotEqual),
                TokenKind::Keyword(Keyword::Is) => {
                    proof {
                        assert(old(tokenizer).peeked(0) == old(tokenizer).ahead(0));
                    }
                    if peek_is_keyword(tokenizer, 1, Keyword::Not)? {
                        Some(BinOpKind::IsNot)
                    } else {
                        Some(BinOpKind::Is)
                    }
                },
                TokenKind::Keyword(Keyword::And) => Some(BinOpKind::And),
                TokenKind::Keyword(Keyword::Or) => Some(BinOpKind::Or),
                _ => None,
            },
        )
    }
}

} // verus!
