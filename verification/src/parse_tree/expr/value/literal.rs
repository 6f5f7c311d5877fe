//! Literals, variables and the constant keywords.

use std::sync::Arc;
use vstd::prelude::*;

use crate::bytecode::op_code::{temp_free, FloatConst, OpCode};
use crate::bytecode::BytecodeGenerationError;
use crate::parse_tree::{at, past, scanned, spans, accept_identifier, accept_keyword, accept_number, accept_string, follows, is_literal, opens, parsed, peek_slice, took, ParserError};
use crate::string::StringSlice;
use crate::tokenizer::token::{Keyword, Number, Token, TokenKind};
use crate::tokenizer::{TokenizeError, Tokenizer};

verus! {

#[derive(Debug, PartialEq, Eq, Clone)]
pub struct LiteralExpr {
    pub slice: StringSlice,
    pub kind: LiteralExprKind,
}

#[derive(Debug, PartialEq, Eq, Clone)]
pub enum LiteralExprKind {
    Number(Number),
    String(String),
    Bool(bool),
    Variable(String),
    This,
    Infinity,
    NaN,
    NoneValue,
}

impl LiteralExprKind {
    /// The instruction that pushes the value of the literal.
    pub open spec fn push(self) -> OpCode {
        match self {
            LiteralExprKind::Number(Number::Integer(value)) => OpCode::PushConstInt { value },
            LiteralExprKind::Number(Number::Floating { whole, fraction }) => OpCode::PushConstFloat {
                value: FloatConst::Decimal { whole, fraction },
            },
            LiteralExprKind::String(value) => OpCode::PushConstString { value },
            LiteralExprKind::Bool(value) => OpCode::PushConstBool { value },
            LiteralExprKind::Variable(name) => OpCode::PushVariable { name },
            LiteralExprKind::This => OpCode::PushThis,
            LiteralExprKind::Infinity => OpCode::PushConstFloat { value: FloatConst::Infinity },
            LiteralExprKind::NaN => OpCode::PushConstFloat { value: FloatConst::NaN },
            LiteralExprKind::NoneValue => OpCode::PushConstNone,
        }
    }
}

impl LiteralExpr {
    /// The instructions that the literal lowers to.
    pub open spec fn code(&self) -> Seq<OpCode> {
        seq![OpCode::SetSlice { slice: self.slice }, self.kind.push()]
    }

    pub fn generate_bytecode(&self, bytecode: &mut Vec<OpCode>) -> (r: Result<
        (),
        BytecodeGenerationError,
    >)
        ensures
            r is Ok,
            final(bytecode)@ == old(bytecode)@ + self.code(),
            temp_free(old(bytecode)@) ==> temp_free(final(bytecode)@),
    {
        bytecode.push(OpCode::SetSlice { slice: self.slice.duplicate() });
        let op = match &self.kind {
            LiteralExprKind::Number(Number::Integer(value)) => OpCode::PushConstInt { value: *value },
            LiteralExprKind::Number(Number::Floating { whole, fraction }) => OpCode::PushConstFloat {
                value: FloatConst::Decimal { whole: *whole, fraction: fraction.clone() },
            },
            LiteralExprKind::String(value) => OpCode::PushConstString { value: value.clone() },
            LiteralExprKind::Bool(value) => OpCode::PushConstBool { value: *value },
            LiteralExprKind::Variable(name) => OpCode::PushVariable { name: name.clone() },
            LiteralExprKind::This => OpCode::PushThis,
            LiteralExprKind::Infinity => OpCode::PushConstFloat { value: FloatConst::Infinity },
            LiteralExprKind::NaN => OpCode::PushConstFloat { value: FloatConst::NaN },
            LiteralExprKind::NoneValue => OpCode::PushConstNone,
        };
        bytecode.push(op);
        assert(bytecode@ =~= old(bytecode)@ + self.code());
        Ok(())
    }
}

impl LiteralExprKind {
    /// The literal that a token of this kind spells, if it spells one.
    pub open spec fn spelled(kind: TokenKind) -> Option<LiteralExprKind> {
        match kind {
            TokenKind::Number(number) => Some(LiteralExprKind::Number(number)),
            TokenKind::String(text) => Some(LiteralExprKind::String(text)),
            TokenKind::Identifier(name) => Some(LiteralExprKind::Variable(name)),
            TokenKind::Keyword(Keyword::True) => Some(LiteralExprKind::Bool(true)),
            TokenKind::Keyword(Keyword::False) => Some(LiteralExprKind::Bool(false)),
            TokenKind::Keyword(Keyword::NoneKeyword) => Some(LiteralExprKind::NoneValue),
            TokenKind::Keyword(Keyword::Infinity) => Some(LiteralExprKind::Infinity),
            TokenKind::Keyword(Keyword::NaN) => Some(LiteralExprKind::NaN),
            TokenKind::Keyword(Keyword::This) => Some(LiteralExprKind::This),
            _ => None,
        }
    }
}

impl LiteralExpr {
    /// What reading a literal at the cursor `c` comes to: the cursor behind
    /// the token if it spells a literal, nothing if it spells none.
    pub open spec fn scan(src: Arc<str>, c: nat) -> Result<Option<nat>, ParserError> {
        match at(src, c, |kind: TokenKind| is_literal(kind)) {
            Err(e) => Err(e),
            Ok(true) => Ok(Some(past(src, c))),
            Ok(false) => Ok(None),
        }
    }

    /// What reading a literal makes of the next token: the literal that the
    /// token spells, with the span of the token; nothing where it spells
    /// none; the error of the tokenizer where there is no token.
    pub open spec fn read(next: Result<Token, TokenizeError>) -> Result<
        Option<LiteralExpr>,
        ParserError,
    > {
        match next {
            Err(e) => Err(ParserError::TokenizeError(e)),
            Ok(token) => Ok(
                match LiteralExprKind::spelled(token.kind) {
                    Some(kind) => Some(LiteralExpr { slice: token.slice, kind }),
                    None => None,
                },
            ),
        }
    }

    /// Reads a literal: a number, a string, a name, or one of the constant
    /// keywords.
    pub fn try_parse(tokenizer: &mut Tokenizer) -> (r: Result<Option<Self>, ParserError>)
        requires
            old(tokenizer).wf(),
        ensures
            parsed(old(tokenizer), final(tokenizer), r),
            follows(opens(old(tokenizer), |kind: TokenKind| is_literal(kind)), r),
            r matches Ok(Some(node)) ==> node.slice.within(old(tokenizer).source()) && spans(
                old(tokenizer),
                node.slice,
            ),
            r == LiteralExpr::read(old(tokenizer).ahead(0)),
            took(old(tokenizer), final(tokenizer), if r matches Ok(Some(_)) { 1 } else { 0 }),
            scanned(final(tokenizer), r) == LiteralExpr::scan(old(tokenizer).source(), old(tokenizer).cursor()),
    {
        let slice = peek_slice(tokenizer)?;
        if let Some(number) = accept_number(tokenizer)? {
            return Ok(Some(LiteralExpr { slice, kind: LiteralExprKind::Number(number) }));
        }
        if let Some(text) = accept_string(tokenizer)? {
            return Ok(Some(LiteralExpr { slice, kind: LiteralExprKind::String(text) }));
        }
        if let Some(name) = accept_identifier(tokenizer)? {
            return Ok(Some(LiteralExpr { slice, kind: LiteralExprKind::Variable(name) }));
        }
        if accept_keyword(tokenizer, Keyword::True)? {
            return Ok(Some(LiteralExpr { slice, kind: LiteralExprKind::Bool(true) }));
        }
        if accept_keyword(tokenizer, Keyword::False)? {
            return Ok(Some(LiteralExpr { slice, kind: LiteralExprKind::Bool(false) }));
        }
        if accept_keyword(tokenizer, Keyword::NoneKeyword)? {
            return Ok(Some(LiteralExpr { slice, kind: LiteralExprKind::NoneValue }));
        }
        if accept_keyword(tokenizer, Keyword::Infinity)? {
            return Ok(Some(LiteralExpr { slice, kind: LiteralExprKind::Infinity }));
        }
        if accept_keyword(tokenizer, Keyword::NaN)? {
            return Ok(Some(LiteralExpr { slice, kind: LiteralExprKind::NaN }));
        }
        if accept_keyword(tokenizer, Keyword::This)? {
            return Ok(Some(LiteralExpr { slice, kind: LiteralExprKind::This }));
        }
        Ok(None)
    }
}

} // verus!
