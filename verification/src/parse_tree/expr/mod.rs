//! Expressions.

use vstd::prelude::*;

use crate::bytecode::op_code::{kept, temp_free, OpCode};
use crate::bytecode::BytecodeGenerationError;
use crate::parse_tree::{at_symbol, moves, needs_symbol, past, refusal, scanned, stuck, tok, spans, accept_symbol, begins_expr, comes_expr, refused, begins_operand, begins_value, expr_opening, follows, lemma_stream_shift, next_token, opens, parsed, peek_slice, require_symbol, took, unexpected_next, ParserError};
use crate::string::StringSlice;
use crate::tokenizer::token::{Symbol, Token, TokenKind};
use crate::tokenizer::{token_from, TokenizeError, Tokenizer};
use access::AccessExpr;
use op::binary::BinOpKind;
use op::unary::UnaryOpKind;
use std::sync::Arc;
use op::binary::BinOpExpr;
use op::unary::UnaryOpExpr;
use value::array::ArrayExpr;
use value::literal::{LiteralExpr, LiteralExprKind};
use value::object::ObjectExpr;

pub mod access;
pub mod op;
pub mod value;

verus! {

#[derive(Debug, PartialEq, Eq)]
pub struct Expr {
    pub slice: StringSlice,
    pub kind: ExprKind,
}

#[derive(Debug, PartialEq, Eq)]
pub enum ExprKind {
    Literal(LiteralExpr),
    Object(ObjectExpr),
    Array(ArrayExpr),
    BinOp(BinOpExpr),
    UnaryOp(UnaryOpExpr),
    Access(AccessExpr),
}

impl Expr {
    /// The instructions that the expression lowers to. They leave the value
    /// of the expression on the stack.
    pub open spec fn code(&self) -> Seq<OpCode>
        decreases self,
    {
        seq![OpCode::SetSlice { slice: self.slice }] + match self.kind {
            ExprKind::Literal(e) => e.code(),
            ExprKind::Object(e) => e.code(),
            ExprKind::Array(e) => e.code(),
            ExprKind::BinOp(e) => e.code(),
            ExprKind::UnaryOp(e) => e.code(),
            ExprKind::Access(e) => e.code(),
        }
    }

    /// The first error that lowering meets, if any.
    pub open spec fn fault(&self) -> Option<BytecodeGenerationError>
        decreases self,
    {
        match self.kind {
            ExprKind::Literal(e) => None,
            ExprKind::Object(e) => e.fault(),
            ExprKind::Array(e) => e.fault(),
            ExprKind::BinOp(e) => e.fault(),
            ExprKind::UnaryOp(e) => e.fault(),
            ExprKind::Access(e) => e.fault(),
        }
    }

    pub fn generate_bytecode(&self, bytecode: &mut Vec<OpCode>) -> (r: Result<
        (),
        BytecodeGenerationError,
    >)
        ensures
            r is Err ==> kept(old(bytecode)@, final(bytecode)@),
            match r {
                Ok(()) => self.fault() is None && final(bytecode)@ == old(bytecode)@ + self.code(),
                Err(e) => self.fault() == Some(e),
            },
            r is Ok && temp_free(old(bytecode)@) ==> temp_free(final(bytecode)@),
        decreases self,
    {
        bytecode.push(OpCode::SetSlice { slice: self.slice.duplicate() });
        match &self.kind {
            ExprKind::Literal(e) => e.generate_bytecode(bytecode)?,
            ExprKind::Object(e) => e.generate_bytecode(bytecode)?,
            ExprKind::Array(e) => e.generate_bytecode(bytecode)?,
            ExprKind::BinOp(e) => e.generate_bytecode(bytecode)?,
            ExprKind::UnaryOp(e) => e.generate_bytecode(bytecode)?,
            ExprKind::Access(e) => e.generate_bytecode(bytecode)?,
        }
        assert(bytecode@ =~= old(bytecode)@ + self.code());
        Ok(())
    }
}

/// The instructions that the first `n` expressions of a list lower to, in order.
pub open spec fn exprs_code(es: &Vec<Expr>, n: nat) -> Seq<OpCode>
    decreases es, n,
{
    if n == 0 || n > es.len() {
        Seq::empty()
    } else {
        exprs_code(es, (n - 1) as nat) + es[n - 1].code()
    }
}

/// The first error among the first `n` expressions of a list, if any.
pub open spec fn exprs_fault(es: &Vec<Expr>, n: nat) -> Option<BytecodeGenerationError>
    decreases es, n,
{
    if n == 0 || n > es.len() {
        None
    } else if exprs_fault(es, (n - 1) as nat) is Some {
        exprs_fault(es, (n - 1) as nat)
    } else {
        es[n - 1].fault()
    }
}

/// Once an expression has an error, the first error among more expressions is the same.
pub proof fn lemma_exprs_fault_stays(es: &Vec<Expr>, n: nat, m: nat)
    requires
        n <= m <= es.len(),
        exprs_fault(es, n) is Some,
    ensures
        exprs_fault(es, m) == exprs_fault(es, n),
    decreases m,
{
    if n < m {
        lemma_exprs_fault_stays(es, n, (m - 1) as nat);
    }
}

/// Lowers every expression of a list, in order.
pub fn generate_all(es: &Vec<Expr>, bytecode: &mut Vec<OpCode>) -> (r: Result<
    (),
    BytecodeGenerationError,
>)
    ensures
        r is Err ==> kept(old(bytecode)@, final(bytecode)@),
        match r {
            Ok(()) => exprs_fault(es, es.len() as nat) is None && final(bytecode)@ == old(bytecode)@ + exprs_code(es, es.len() as nat),
            Err(e) => exprs_fault(es, es.len() as nat) == Some(e),
        },
        r is Ok && temp_free(old(bytecode)@) ==> temp_free(final(bytecode)@),
    decreases es,
{
    let len: usize = es.len();
    let mut index: usize = 0;
    while index < len
        invariant
            temp_free(old(bytecode)@) ==> temp_free(bytecode@),
            len == es.len(),
            index <= len,
            bytecode@ == old(bytecode)@ + exprs_code(es, index as nat),
            exprs_fault(es, index as nat) is None,
        decreases len - index,
    {
        match es[index].generate_bytecode(bytecode) {
            Ok(()) => {},
            Err(e) => {
                proof {
                    lemma_exprs_fault_stays(es, (index + 1) as nat, len as nat);
                }
                return Err(e);
            },
        }
        assert(bytecode@ =~= old(bytecode)@ + exprs_code(es, (index + 1) as nat));
        index = index + 1;
    }
    Ok(())
}

impl Expr {
    /// What reading an expression at the cursor `c` comes to: the cursor
    /// behind the expression, nothing where none begins, or the error.
    pub open spec fn scan(src: Arc<str>, c: nat) -> Result<Option<nat>, ParserError>
        decreases src@.len() - c, 100nat,
    {
        Expr::scan_binop(src, c, 0)
    }

    /// What reading operands joined by binary operators that bind at
    /// least as tightly as `binding` comes to.
    pub open spec fn scan_binop(src: Arc<str>, c: nat, binding: usize) -> Result<
        Option<nat>,
        ParserError,
    >
        decreases src@.len() - c, 90nat,
    {
        match Expr::scan_unary(src, c) {
            Ok(Some(c1)) => if moves(src, c, c1) {
                Expr::scan_ops(src, c1, binding)
            } else {
                Err(stuck())
            },
            other => other,
        }
    }

    /// What reading the operators behind an operand comes to, `c` being
    /// the cursor behind what was read so far: an operator that binds at
    /// least as tightly as `binding` is consumed, and an operand must
    /// follow it, which takes the operators that bind tighter than the
    /// operator does on its right; any other token ends the expression.
    pub open spec fn scan_ops(src: Arc<str>, c: nat, binding: usize) -> Result<
        Option<nat>,
        ParserError,
    >
        decreases src@.len() - c, 0nat,
    {
        match BinOpKind::spelled(tok(src, c), token_from(src, c, 1)) {
            Err(e) => Err(e),
            Ok(None) => Ok(Some(c)),
            Ok(Some(op)) => if op.spec_binding().0 < binding {
                Ok(Some(c))
            } else {
                let c1 = if op == BinOpKind::IsNot {
                    past(src, past(src, c))
                } else {
                    past(src, c)
                };
                if !moves(src, c, c1) {
                    Err(stuck())
                } else {
                    match Expr::scan_binop(src, c1, op.spec_binding().1) {
                        Err(e) => Err(e),
                        Ok(None) => Err(refusal(src, c1, "Expr::try_parse_binop"@)),
                        Ok(Some(c2)) => if moves(src, c1, c2) {
                            Expr::scan_ops(src, c2, binding)
                        } else {
                            Err(stuck())
                        },
                    }
                }
            },
        }
    }

    /// What reading an operand with the unary operators before it comes to.
    pub open spec fn scan_unary(src: Arc<str>, c: nat) -> Result<Option<nat>, ParserError>
        decreases src@.len() - c, 80nat,
    {
        Expr::scan_signs(src, c, false)
    }

    /// What reading the unary operators and the operand comes to from the
    /// cursor `c` on, `any` saying whether an operator was read before:
    /// operators without an operand are refused.
    pub open spec fn scan_signs(src: Arc<str>, c: nat, any: bool) -> Result<Option<nat>, ParserError>
        decreases src@.len() - c, 75nat,
    {
        match tok(src, c) {
            Err(e) => Err(ParserError::TokenizeError(e)),
            Ok(token) => if UnaryOpKind::spelled(token.kind) is Some {
                if moves(src, c, past(src, c)) {
                    Expr::scan_signs(src, past(src, c), true)
                } else {
                    Err(stuck())
                }
            } else {
                match Expr::scan_access(src, c) {
                    Ok(None) => if any {
                        Err(refusal(src, c, "Expr::try_parse_unary"@))
                    } else {
                        Ok(None)
                    },
                    other => other,
                }
            },
        }
    }

    /// What reading a value with the access arms behind it comes to.
    pub open spec fn scan_access(src: Arc<str>, c: nat) -> Result<Option<nat>, ParserError>
        decreases src@.len() - c, 70nat,
    {
        match Expr::scan_paren(src, c) {
            Ok(Some(c1)) => if moves(src, c, c1) {
                Expr::scan_chains(src, c1)
            } else {
                Err(stuck())
            },
            other => other,
        }
    }

    /// What reading the chains of arms behind a value comes to: chains are
    /// read as long as one begins.
    pub open spec fn scan_chains(src: Arc<str>, c: nat) -> Result<Option<nat>, ParserError>
        decreases src@.len() - c, 2nat,
    {
        match AccessExpr::scan(src, c) {
            Err(e) => Err(e),
            Ok(None) => Ok(Some(c)),
            Ok(Some(c1)) => if moves(src, c, c1) {
                Expr::scan_chains(src, c1)
            } else {
                Err(stuck())
            },
        }
    }

    /// What reading an expression in parentheses, or a value, comes to.
    pub open spec fn scan_paren(src: Arc<str>, c: nat) -> Result<Option<nat>, ParserError>
        decreases src@.len() - c, 60nat,
    {
        match at_symbol(src, c, Symbol::ParenOpen) {
            Err(e) => Err(e),
            Ok(false) => Expr::scan_value(src, c),
            Ok(true) => {
                let c1 = past(src, c);
                if !moves(src, c, c1) {
                    Err(stuck())
                } else {
                    match Expr::scan(src, c1) {
                        Err(e) => Err(e),
                        Ok(None) => Err(refusal(src, c1, "Expr::try_parse_paren"@)),
                        Ok(Some(c2)) => match needs_symbol(
                            src,
                            c2,
                            Symbol::ParenClose,
                            "Expr::try_parse_paren"@,
                        ) {
                            Err(e) => Err(e),
                            Ok(c3) => Ok(Some(c3)),
                        },
                    }
                }
            },
        }
    }

    /// What reading an array, an object or a literal comes to.
    pub open spec fn scan_value(src: Arc<str>, c: nat) -> Result<Option<nat>, ParserError>
        decreases src@.len() - c, 50nat,
    {
        match ArrayExpr::scan(src, c) {
            Ok(None) => match ObjectExpr::scan(src, c) {
                Ok(None) => LiteralExpr::scan(src, c),
                other => other,
            },
            other => other,
        }
    }

    /// The expression that is the literal `literal`.
    pub open spec fn of_literal(literal: LiteralExpr) -> Expr {
        Expr { slice: literal.slice, kind: ExprKind::Literal(literal) }
    }

    /// What reading a value makes of a token that begins neither an array
    /// nor an object: the literal that the token spells, as an expression.
    pub open spec fn read_literal(next: Result<Token, TokenizeError>) -> Result<
        Option<Expr>,
        ParserError,
    > {
        match LiteralExpr::read(next) {
            Err(e) => Err(e),
            Ok(Some(literal)) => Ok(Some(Expr::of_literal(literal))),
            Ok(None) => Ok(None),
        }
    }

    /// What reading a value comes to, as far as its first token decides: a
    /// bracket begins an array, a brace an object; every other token is
    /// read as a literal, and is consumed if it spells one.
    pub open spec fn valued(before: &Tokenizer, after: &Tokenizer, r: Result<Option<Expr>, ParserError>) -> bool {
        before.ahead(0) matches Ok(first) ==> match first.kind {
            TokenKind::Symbol(Symbol::BracketOpen) => r matches Ok(found) ==> found matches Some(
                expr,
            ) && expr.kind is Array,
            TokenKind::Symbol(Symbol::BraceOpen) => r matches Ok(found) ==> found matches Some(expr)
                && expr.kind is Object,
            _ => r == Expr::read_literal(before.ahead(0)) && took(
                before,
                after,
                if r matches Ok(Some(_)) {
                    1
                } else {
                    0
                },
            ),
        }
    }

    /// What reading an operand comes to, as far as its two first tokens
    /// decide: behind a parenthesis an expression must begin; every other
    /// token begins a value.
    pub open spec fn operand(before: &Tokenizer, after: &Tokenizer, r: Result<Option<Expr>, ParserError>) -> bool {
        before.ahead(0) matches Ok(first) ==> if first.kind == TokenKind::Symbol(Symbol::ParenOpen) {
            match before.ahead(1) {
                Err(e) => r matches Err(error) && error == ParserError::TokenizeError(e),
                Ok(second) => !begins_expr(second.kind) ==> (r matches Err(error) && error
                    == ParserError::unexpected(second, "Expr::try_parse_paren"@)),
            }
        } else {
            Expr::valued(before, after, r)
        }
    }

    /// The expression that the tokens from place `n` on spell where the
    /// first of them is a literal and the second begins no access to it.
    pub open spec fn lone_at(tokenizer: &Tokenizer, n: nat) -> Option<Expr> {
        match (tokenizer.ahead(n), tokenizer.ahead(n + 1)) {
            (Ok(first), Ok(second)) => match LiteralExprKind::spelled(first.kind) {
                Some(kind) => if AccessExpr::begins_arm(second.kind) {
                    None
                } else {
                    Some(Expr::of_literal(LiteralExpr { slice: first.slice, kind }))
                },
                None => None,
            },
            _ => None,
        }
    }

    /// The expression that the tokens from place `n` on spell where they
    /// spell a lone literal and no binary operator follows it.
    pub open spec fn sole_at(tokenizer: &Tokenizer, n: nat) -> Option<Expr> {
        if BinOpKind::spelled(tokenizer.ahead(n + 1), tokenizer.ahead(n + 2)) == Ok::<
            Option<BinOpKind>,
            ParserError,
        >(None) {
            Expr::lone_at(tokenizer, n)
        } else {
            None
        }
    }

    /// The expression that the next tokens spell where the first is a
    /// literal and the second begins no access to it.
    pub open spec fn lone(tokenizer: &Tokenizer) -> Option<Expr> {
        Expr::lone_at(tokenizer, 0)
    }

    /// The expression that the next tokens spell where they spell a lone
    /// literal and no binary operator follows it.
    pub open spec fn sole(tokenizer: &Tokenizer) -> Option<Expr> {
        Expr::sole_at(tokenizer, 0)
    }

    /// After `k` tokens were consumed, the lone literal at place `n` is the
    /// one that stood at place `k + n` before.
    pub proof fn lemma_sole_shift(before: &Tokenizer, after: &Tokenizer, k: nat, n: nat)
        requires
            after.source() == before.source(),
            after.cursor() == before.behind(k),
        ensures
            Expr::lone_at(after, n) == Expr::lone_at(before, k + n),
            Expr::sole_at(after, n) == Expr::sole_at(before, k + n),
    {
        lemma_stream_shift(before.source(), before.cursor(), k, n);
        lemma_stream_shift(before.source(), before.cursor(), k, n + 1);
        lemma_stream_shift(before.source(), before.cursor(), k, n + 2);
    }

    /// Where the tokens spell a lone literal and no binary operator
    /// follows it, the literal is the expression, and its token alone is
    /// consumed.
    pub open spec fn alone(before: &Tokenizer, after: &Tokenizer, r: Result<Option<Expr>, ParserError>) -> bool {
        Expr::sole(before) is Some ==> r == Ok::<Option<Expr>, ParserError>(Expr::sole(before))
            && took(before, after, 1)
    }

    /// What reading an expression comes to where a lone literal stands
    /// first and the binary operator `op` follows it, which binds at least
    /// as tightly as `binding`: an expression must begin behind the
    /// operator, and an expression that is read is a binary operation.
    pub open spec fn joined(
        tokenizer: &Tokenizer,
        binding: usize,
        r: Result<Option<Expr>, ParserError>,
    ) -> bool {
        Expr::lone(tokenizer) is Some ==> (BinOpKind::spelled(
            tokenizer.ahead(1),
            tokenizer.ahead(2),
        ) matches Ok(Some(op)) ==> (binding <= op.spec_binding().0 ==> {
            let behind: nat = if op == BinOpKind::IsNot {
                3
            } else {
                2
            };
            if !comes_expr(tokenizer, behind) {
                refused(tokenizer, behind, "Expr::try_parse_binop"@, r)
            } else {
                r matches Ok(found) ==> found matches Some(expr) && expr.kind is BinOp
            }
        }))
    }

    /// What reading an operand with its unary operators comes to where a
    /// unary operator stands first: an expression that is read is the
    /// operation of that operator, under its own span.
    pub open spec fn signed(tokenizer: &Tokenizer, r: Result<Option<Expr>, ParserError>) -> bool {
        tokenizer.ahead(0) matches Ok(first) ==> (UnaryOpKind::spelled(first.kind) matches Some(op)
            ==> (r matches Ok(found) ==> found matches Some(expr) && Expr::applies(expr, op)))
    }

    /// The expression `expr` is an operation of the unary operator `op`.
    pub open spec fn applies(expr: Expr, op: UnaryOpKind) -> bool {
        expr.kind matches ExprKind::UnaryOp(unary) && unary.op == op && unary.slice == expr.slice
    }

    /// Reads an expression.
    pub fn try_parse(tokenizer: &mut Tokenizer) -> (r: Result<Option<Self>, ParserError>)
        requires
            old(tokenizer).wf(),
        ensures
            parsed(old(tokenizer), final(tokenizer), r),
            follows(expr_opening(old(tokenizer)), r),
            r matches Ok(Some(node)) ==> node.slice.within(old(tokenizer).source()) && spans(
                old(tokenizer),
                node.slice,
            ),
            Expr::alone(old(tokenizer), final(tokenizer), r),
            Expr::joined(old(tokenizer), 0, r),
            scanned(final(tokenizer), r) == Expr::scan(old(tokenizer).source(), old(tokenizer).cursor()),
        decreases old(tokenizer).remaining(), 10nat,
    {
        Self::try_parse_binop(tokenizer, 0)
    }

    /// Reads operands joined by binary operators that bind at least as
    /// tightly as `binding`. Operators that bind tighter group first;
    /// operators of one level group to the left.
    #[verifier::spinoff_prover]
    #[verifier::rlimit(50)]
    pub fn try_parse_binop(tokenizer: &mut Tokenizer, binding: usize) -> (r: Result<
        Option<Self>,
        ParserError,
    >)
        requires
            old(tokenizer).wf(),
        ensures
            parsed(old(tokenizer), final(tokenizer), r),
            follows(expr_opening(old(tokenizer)), r),
            r matches Ok(Some(node)) ==> node.slice.within(old(tokenizer).source()) && spans(
                old(tokenizer),
                node.slice,
            ),
            binding == 0 ==> Expr::alone(old(tokenizer), final(tokenizer), r),
            Expr::joined(old(tokenizer), binding, r),
            scanned(final(tokenizer), r) == Expr::scan_binop(old(tokenizer).source(), old(tokenizer).cursor(), binding),
        decreases old(tokenizer).remaining(), 9nat,
    {
        let ghost joins = Expr::lone(old(tokenizer)) is Some && (BinOpKind::spelled(
            old(tokenizer).ahead(1),
            old(tokenizer).ahead(2),
        ) matches Ok(Some(op)) && binding <= op.spec_binding().0);
        proof {
            lemma_stream_shift(old(tokenizer).source(), old(tokenizer).cursor(), 1, 2);
            lemma_stream_shift(old(tokenizer).source(), old(tokenizer).cursor(), 2, 0);
            lemma_stream_shift(old(tokenizer).source(), old(tokenizer).cursor(), 3, 0);
            lemma_stream_shift(old(tokenizer).source(), old(tokenizer).cursor(), 1, 0);
            lemma_stream_shift(old(tokenizer).source(), old(tokenizer).cursor(), 1, 1);
        }
        let mut expr = match Self::try_parse_unary(tokenizer)? {
            Some(expr) => expr,
            None => {
                return Ok(None);
            },
        };
        let mut more: bool = true;
        while more
            invariant
                Expr::scan_binop(old(tokenizer).source(), old(tokenizer).cursor(), binding)
                    == if more {
                    Expr::scan_ops(tokenizer.source(), tokenizer.cursor(), binding)
                } else {
                    Ok::<Option<nat>, ParserError>(Some(tokenizer.cursor()))
                },
                tokenizer.wf(),
                expr_opening(old(tokenizer)) is Begins,
                tokenizer.source() == old(tokenizer).source(),
                tokenizer.remaining() < old(tokenizer).remaining(),
                old(tokenizer).cursor() < tokenizer.cursor() <= tokenizer.source()@.len(),
                tokenizer.consumed() > old(tokenizer).consumed(),
                expr.slice.within(old(tokenizer).source()),
                spans(old(tokenizer), expr.slice),
                joins == (Expr::lone(old(tokenizer)) is Some && (BinOpKind::spelled(
                    old(tokenizer).ahead(1),
                    old(tokenizer).ahead(2),
                ) matches Ok(Some(op)) && binding <= op.spec_binding().0)),
                joins && !more ==> expr.kind is BinOp,
                joins && more ==> expr.kind is BinOp || (Some(expr) == Expr::lone(old(tokenizer))
                    && tokenizer.cursor() == old(tokenizer).behind(1)),
                joins && expr.kind is BinOp ==> comes_expr(
                    old(tokenizer),
                    if BinOpKind::spelled(old(tokenizer).ahead(1), old(tokenizer).ahead(2))
                        == Ok::<Option<BinOpKind>, ParserError>(Some(BinOpKind::IsNot)) {
                        3
                    } else {
                        2
                    },
                ),
                binding == 0 && Expr::lone(old(tokenizer)) is Some && BinOpKind::spelled(
                    old(tokenizer).ahead(1),
                    old(tokenizer).ahead(2),
                ) == Ok::<Option<BinOpKind>, ParserError>(None) ==> Some(expr) == Expr::lone(
                    old(tokenizer),
                ) && tokenizer.cursor() == old(tokenizer).behind(1),
            decreases tokenizer.remaining() + if more { 1nat } else { 0nat },
        {
            let op = match BinOpKind::try_parse(tokenizer)? {
                Some(op) => op,
                None => {
                    more = false;
                    continue ;
                },
            };
            let (lhs_binding, rhs_binding) = op.binding();
            if lhs_binding < binding {
                more = false;
                continue ;
            }
            next_token(tokenizer)?;
            if op.consume_amount() == 2 {
                next_token(tokenizer)?;
            }
            let rhs = match Self::try_parse_binop(tokenizer, rhs_binding)? {
                Some(rhs) => rhs,
                None => {
                    return Err(unexpected_next(tokenizer, "Expr::try_parse_binop"));
                },
            };
            let slice = expr.slice.merge(&rhs.slice);
            expr = Expr {
                slice: slice.duplicate(),
                kind: ExprKind::BinOp(
                    BinOpExpr { slice, lhs: Arc::new(expr), op, rhs: Arc::new(rhs) },
                ),
            };
        }
        Ok(Some(expr))
    }

    /// Reads an operand with the unary operators before it. The operator
    /// nearest to the operand applies first. Operators without an operand
    /// are an error.
    #[verifier::spinoff_prover]
    #[verifier::rlimit(50)]
    pub fn try_parse_unary(tokenizer: &mut Tokenizer) -> (r: Result<Option<Self>, ParserError>)
        requires
            old(tokenizer).wf(),
        ensures
            parsed(old(tokenizer), final(tokenizer), r),
            follows(expr_opening(old(tokenizer)), r),
            r matches Ok(Some(node)) ==> node.slice.within(old(tokenizer).source()) && spans(
                old(tokenizer),
                node.slice,
            ),
            Expr::lone(old(tokenizer)) matches Some(expr) ==> r == Ok::<Option<Expr>, ParserError>(
                Some(expr),
            ) && took(old(tokenizer), final(tokenizer), 1),
            Expr::signed(old(tokenizer), r),
            scanned(final(tokenizer), r) == Expr::scan_unary(old(tokenizer).source(), old(tokenizer).cursor()),
        decreases old(tokenizer).remaining(), 8nat,
    {
        proof {
            lemma_stream_shift(old(tokenizer).source(), old(tokenizer).cursor(), 1, 0);
            lemma_stream_shift(old(tokenizer).source(), old(tokenizer).cursor(), 1, 1);
        }
        proof {
            tokenizer.lemma_cursor_in_text();
        }
        let mut unary_ops: Vec<(StringSlice, UnaryOpKind)> = Vec::new();
        let mut more: bool = true;
        while more
            invariant
                Expr::scan_unary(old(tokenizer).source(), old(tokenizer).cursor())
                    == Expr::scan_signs(
                    tokenizer.source(),
                    tokenizer.cursor(),
                    unary_ops@.len() > 0,
                ),
                !more ==> (tokenizer.ahead(0) matches Ok(token) && UnaryOpKind::spelled(token.kind)
                    is None),
                tokenizer.wf(),
                unary_ops@.len() > 0 ==> expr_opening(old(tokenizer)) is Begins,
                !more && unary_ops@.len() == 0 ==> (old(tokenizer).ahead(0) matches Ok(token)
                    && !crate::parse_tree::is_unary(token.kind)),
                tokenizer.source() == old(tokenizer).source(),
                tokenizer.remaining() <= old(tokenizer).remaining(),
                old(tokenizer).cursor() <= tokenizer.cursor() <= tokenizer.source()@.len(),
                tokenizer.consumed() >= old(tokenizer).consumed(),
                unary_ops@.len() == 0 ==> tokenizer.consumed() == old(tokenizer).consumed(),
                unary_ops@.len() == 0 ==> tokenizer.cursor() == old(tokenizer).cursor(),
                unary_ops@.len() > 0 ==> spans(old(tokenizer), unary_ops@[0].0),
                unary_ops@.len() > 0 ==> (old(tokenizer).ahead(0) matches Ok(first)
                    && UnaryOpKind::spelled(first.kind) == Some(unary_ops@[0].1)),
                Expr::lone(old(tokenizer)) is Some ==> unary_ops@.len() == 0,
                unary_ops@.len() > 0 ==> tokenizer.consumed() > old(tokenizer).consumed()
                    && tokenizer.remaining() < old(tokenizer).remaining() && old(tokenizer).cursor()
                        < tokenizer.cursor(),
                forall|i: int|
                    0 <= i < unary_ops@.len() ==> (#[trigger] unary_ops@[i]).0.within(
                        old(tokenizer).source(),
                    ),
            decreases tokenizer.remaining() + if more { 1nat } else { 0nat },
        {
            let slice = peek_slice(tokenizer)?;
            match UnaryOpKind::try_parse(tokenizer)? {
                Some(op) => {
                    next_token(tokenizer)?;
                    unary_ops.push((slice, op));
                },
                None => {
                    more = false;
                },
            }
        }
        let mut expr = match Self::try_parse_access(tokenizer)? {
            Some(expr) => expr,
            None => {
                if unary_ops.len() > 0 {
                    return Err(unexpected_next(tokenizer, "Expr::try_parse_unary"));
                }
                return Ok(None);
            },
        };
        while unary_ops.len() > 0
            invariant
                Expr::scan_unary(old(tokenizer).source(), old(tokenizer).cursor()) == Ok::<
                    Option<nat>,
                    ParserError,
                >(Some(tokenizer.cursor())),
                tokenizer.wf(),
                expr_opening(old(tokenizer)) is Begins,
                expr.slice.within(old(tokenizer).source()),
                if unary_ops@.len() > 0 {
                    spans(old(tokenizer), unary_ops@[0].0)
                } else {
                    spans(old(tokenizer), expr.slice)
                },
                old(tokenizer).ahead(0) matches Ok(first) && match UnaryOpKind::spelled(first.kind) {
                    Some(op) => if unary_ops@.len() > 0 {
                        unary_ops@[0].1 == op
                    } else {
                        Expr::applies(expr, op)
                    },
                    None => unary_ops@.len() == 0,
                },
                Expr::lone(old(tokenizer)) is Some ==> unary_ops@.len() == 0 && Some(expr)
                    == Expr::lone(old(tokenizer)) && tokenizer.cursor() == old(tokenizer).behind(1),
                forall|i: int|
                    0 <= i < unary_ops@.len() ==> (#[trigger] unary_ops@[i]).0.within(
                        old(tokenizer).source(),
                    ),
            decreases unary_ops.len(),
        {
            if let Some((slice, op)) = unary_ops.pop() {
                let slice = slice.merge(&expr.slice);
                expr = Expr {
                    slice: slice.duplicate(),
                    kind: ExprKind::UnaryOp(UnaryOpExpr { slice, op, value: Arc::new(expr) }),
                };
            }
        }
        Ok(Some(expr))
    }

    /// Reads a value with the access arms that follow it.
    #[verifier::spinoff_prover]
    #[verifier::rlimit(50)]
    pub fn try_parse_access(tokenizer: &mut Tokenizer) -> (r: Result<Option<Self>, ParserError>)
        requires
            old(tokenizer).wf(),
        ensures
            parsed(old(tokenizer), final(tokenizer), r),
            follows(opens(old(tokenizer), |kind: TokenKind| begins_operand(kind)), r),
            r matches Ok(Some(node)) ==> node.slice.within(old(tokenizer).source()) && spans(
                old(tokenizer),
                node.slice,
            ),
            Expr::lone(old(tokenizer)) matches Some(expr) ==> r == Ok::<Option<Expr>, ParserError>(
                Some(expr),
            ) && took(old(tokenizer), final(tokenizer), 1),
            scanned(final(tokenizer), r) == Expr::scan_access(old(tokenizer).source(), old(tokenizer).cursor()),
        decreases old(tokenizer).remaining(), 7nat,
    {
        proof {
            lemma_stream_shift(old(tokenizer).source(), old(tokenizer).cursor(), 1, 0);
            lemma_stream_shift(old(tokenizer).source(), old(tokenizer).cursor(), 1, 1);
        }
        let mut value = match Self::try_parse_paren(tokenizer)? {
            Some(value) => value,
            None => {
                return Ok(None);
            },
        };
        let mut more: bool = true;
        while more
            invariant
                Expr::scan_access(old(tokenizer).source(), old(tokenizer).cursor()) == if more {
                    Expr::scan_chains(tokenizer.source(), tokenizer.cursor())
                } else {
                    Ok::<Option<nat>, ParserError>(Some(tokenizer.cursor()))
                },
                tokenizer.wf(),
                opens(old(tokenizer), |kind: TokenKind| begins_operand(kind)) is Begins,
                tokenizer.source() == old(tokenizer).source(),
                tokenizer.remaining() < old(tokenizer).remaining(),
                old(tokenizer).cursor() < tokenizer.cursor() <= tokenizer.source()@.len(),
                tokenizer.consumed() > old(tokenizer).consumed(),
                value.slice.within(old(tokenizer).source()),
                spans(old(tokenizer), value.slice),
                Expr::lone(old(tokenizer)) matches Some(expr) ==> value == expr && tokenizer.cursor()
                    == old(tokenizer).behind(1),
            decreases tokenizer.remaining() + if more { 1nat } else { 0nat },
        {
            match AccessExpr::try_parse(tokenizer, value)? {
                Ok(access) => {
                    value = Expr { slice: access.slice.duplicate(), kind: ExprKind::Access(access) };
                },
                Err(same) => {
                    value = same;
                    more = false;
                },
            }
        }
        Ok(Some(value))
    }

    /// Reads an expression in parentheses, or a value.
    pub fn try_parse_paren(tokenizer: &mut Tokenizer) -> (r: Result<Option<Self>, ParserError>)
        requires
            old(tokenizer).wf(),
        ensures
            parsed(old(tokenizer), final(tokenizer), r),
            follows(opens(old(tokenizer), |kind: TokenKind| begins_operand(kind)), r),
            r matches Ok(Some(node)) ==> node.slice.within(old(tokenizer).source()) && spans(
                old(tokenizer),
                node.slice,
            ),
            Expr::operand(old(tokenizer), final(tokenizer), r),
            scanned(final(tokenizer), r) == Expr::scan_paren(old(tokenizer).source(), old(tokenizer).cursor()),
        decreases old(tokenizer).remaining(), 6nat,
    {
        proof {
            lemma_stream_shift(old(tokenizer).source(), old(tokenizer).cursor(), 1, 0);
            lemma_stream_shift(old(tokenizer).source(), old(tokenizer).cursor(), 1, 1);
        }
        let start = peek_slice(tokenizer)?;
        if accept_symbol(tokenizer, Symbol::ParenOpen)? {
            let value = match Expr::try_parse(tokenizer)? {
                Some(value) => value,
                None => {
                    return Err(unexpected_next(tokenizer, "Expr::try_parse_paren"));
                },
            };
            let end = require_symbol(tokenizer, Symbol::ParenClose, "Expr::try_parse_paren")?;
            return Ok(Some(Expr { slice: start.merge(&end), kind: value.kind }));
        }
        Self::try_parse_value(tokenizer)
    }

    /// Reads an array literal, an object literal or a literal.
    pub fn try_parse_value(tokenizer: &mut Tokenizer) -> (r: Result<Option<Self>, ParserError>)
        requires
            old(tokenizer).wf(),
        ensures
            parsed(old(tokenizer), final(tokenizer), r),
            follows(opens(old(tokenizer), |kind: TokenKind| begins_value(kind)), r),
            r matches Ok(Some(node)) ==> node.slice.within(old(tokenizer).source()) && spans(
                old(tokenizer),
                node.slice,
            ),
            Expr::valued(old(tokenizer), final(tokenizer), r),
            scanned(final(tokenizer), r) == Expr::scan_value(old(tokenizer).source(), old(tokenizer).cursor()),
        decreases old(tokenizer).remaining(), 5nat,
    {
        if let Some(array) = ArrayExpr::try_parse(tokenizer)? {
            return Ok(Some(Expr { slice: array.slice.duplicate(), kind: ExprKind::Array(array) }));
        }
        if let Some(object) = ObjectExpr::try_parse(tokenizer)? {
            return Ok(
                Some(Expr { slice: object.slice.duplicate(), kind: ExprKind::Object(object) }),
            );
        }
        if let Some(literal) = LiteralExpr::try_parse(tokenizer)? {
            return Ok(
                Some(Expr { slice: literal.slice.duplicate(), kind: ExprKind::Literal(literal) }),
            );
        }
        Ok(None)
    }
}

} // verus!
