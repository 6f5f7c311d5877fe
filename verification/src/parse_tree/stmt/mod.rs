//! Statements and blocks.

use std::sync::Arc;
use vstd::prelude::*;

use super::decl::variable::{VariableDecl, VariableImpl};
use super::expr::Expr;
use super::{at_symbol, moves, past, scanned, stuck, tok, spans, took, Opening, accept_symbol, control_opening, follows, parsed, peek_slice, stmt_opening, variable_opening, ParserError};
use crate::tokenizer::token::Symbol;
use crate::tokenizer::{TokenizeError, Tokenizer};
use crate::bytecode::op_code::{kept, temp_free, OpCode};
use crate::bytecode::{first_fault, BytecodeGenerationError};
use crate::string::StringSlice;
use control::ControlStmt;

pub mod control;

verus! {

#[derive(Debug, PartialEq, Eq)]
pub struct Stmt {
    pub slice: StringSlice,
    pub kind: StmtKind,
}

#[derive(Debug, PartialEq, Eq)]
pub enum StmtKind {
    Control(ControlStmt),
    Expr(Expr),
    Variable(VariableImpl),
}

#[derive(Debug, PartialEq, Eq)]
pub struct Block {
    pub slice: StringSlice,
    pub stmts: Vec<Stmt>,
}

/// The instructions that the first `n` statements of a list lower to when
/// the first of them is placed at position `base`.
pub open spec fn stmts_code(stmts: &Vec<Stmt>, n: nat, base: nat) -> Seq<OpCode>
    decreases stmts, n,
{
    if n == 0 || n > stmts.len() {
        Seq::empty()
    } else {
        let prev = stmts_code(stmts, (n - 1) as nat, base);
        prev + stmts[n - 1].code(base + prev.len())
    }
}

/// The first error among the first `n` statements of a list, if any.
pub open spec fn stmts_fault(
    stmts: &Vec<Stmt>,
    n: nat,
    allow_export: bool,
    allow_break_continue: bool,
) -> Option<BytecodeGenerationError>
    decreases stmts, n,
{
    if n == 0 || n > stmts.len() {
        None
    } else {
        first_fault(
            stmts_fault(stmts, (n - 1) as nat, allow_export, allow_break_continue),
            stmts[n - 1].fault(allow_export, allow_break_continue),
        )
    }
}

/// Once a statement has an error, the first error among more statements is the same.
pub proof fn lemma_stmts_fault_stays(
    stmts: &Vec<Stmt>,
    n: nat,
    m: nat,
    allow_export: bool,
    allow_break_continue: bool,
)
    requires
        n <= m <= stmts.len(),
        stmts_fault(stmts, n, allow_export, allow_break_continue) is Some,
    ensures
        stmts_fault(stmts, m, allow_export, allow_break_continue) == stmts_fault(
            stmts,
            n,
            allow_export,
            allow_break_continue,
        ),
    decreases m,
{
    if n < m {
        lemma_stmts_fault_stays(stmts, n, (m - 1) as nat, allow_export, allow_break_continue);
    }
}

/// Lowers every statement of a list, in order.
pub fn generate_all(
    stmts: &Vec<Stmt>,
    bytecode: &mut Vec<OpCode>,
    allow_export: bool,
    allow_break_continue: bool,
) -> (r: Result<(), BytecodeGenerationError>)
    ensures
        r is Err ==> kept(old(bytecode)@, final(bytecode)@),
        match r {
            Ok(()) => {
                &&& stmts_fault(stmts, stmts.len() as nat, allow_export, allow_break_continue)
                    is None
                &&& final(bytecode)@ == old(bytecode)@ + stmts_code(
                    stmts,
                    stmts.len() as nat,
                    old(bytecode)@.len(),
                )
            },
            Err(e) => stmts_fault(stmts, stmts.len() as nat, allow_export, allow_break_continue)
                == Some(e),
        },
        r is Ok && !allow_break_continue && temp_free(old(bytecode)@) ==> temp_free(final(bytecode)@),
    decreases stmts,
{
    let len: usize = stmts.len();
    let ghost base = bytecode@.len();
    let mut index: usize = 0;
    while index < len
        invariant
            !allow_break_continue && temp_free(old(bytecode)@) ==> temp_free(bytecode@),
            len == stmts.len(),
            index <= len,
            base == old(bytecode)@.len(),
            bytecode@ == old(bytecode)@ + stmts_code(stmts, index as nat, base),
            stmts_fault(stmts, index as nat, allow_export, allow_break_continue) is None,
        decreases len - index,
    {
        match stmts[index].generate_bytecode(bytecode, allow_export, allow_break_continue) {
            Ok(()) => {},
            Err(e) => {
                proof {
                    lemma_stmts_fault_stays(
                        stmts,
                        (index + 1) as nat,
                        len as nat,
                        allow_export,
                        allow_break_continue,
                    );
                }
                return Err(e);
            },
        }
        assert(bytecode@ =~= old(bytecode)@ + stmts_code(stmts, (index + 1) as nat, base));
        index = index + 1;
    }
    Ok(())
}

impl Stmt {
    /// The instructions that the statement lowers to when placed at
    /// position `base`. An expression statement drops its value.
    pub open spec fn code(&self, base: nat) -> Seq<OpCode>
        decreases self,
    {
        seq![OpCode::SetSlice { slice: self.slice }] + match self.kind {
            StmtKind::Control(control) => control.code(base + 1),
            StmtKind::Variable(variable) => variable.code(),
            StmtKind::Expr(expr) => expr.code() + seq![OpCode::Pop],
        }
    }

    /// The first error that lowering meets, if any.
    pub open spec fn fault(&self, allow_export: bool, allow_break_continue: bool) -> Option<
        BytecodeGenerationError,
    >
        decreases self,
    {
        match self.kind {
            StmtKind::Control(control) => control.fault(allow_export, allow_break_continue),
            StmtKind::Variable(variable) => variable.fault(allow_export),
            StmtKind::Expr(expr) => expr.fault(),
        }
    }

    pub fn generate_bytecode(
        &self,
        bytecode: &mut Vec<OpCode>,
        allow_export: bool,
        allow_break_continue: bool,
    ) -> (r: Result<(), BytecodeGenerationError>)
        ensures
            r is Err ==> kept(old(bytecode)@, final(bytecode)@),
            match r {
                Ok(()) => self.fault(allow_export, allow_break_continue) is None && final(bytecode)@ == old(bytecode)@ + self.code(old(bytecode)@.len()),
                Err(e) => self.fault(allow_export, allow_break_continue) == Some(e),
            },
            r is Ok && !allow_break_continue && temp_free(old(bytecode)@) ==> temp_free(final(bytecode)@),
        decreases self,
    {
        bytecode.push(OpCode::SetSlice { slice: self.slice.duplicate() });
        match &self.kind {
            StmtKind::Control(control) => {
                control.generate_bytecode(bytecode, allow_export, allow_break_continue)?;
            },
            StmtKind::Variable(variable) => {
                variable.generate_bytecode(bytecode, allow_export)?;
            },
            StmtKind::Expr(expr) => {
                expr.generate_bytecode(bytecode)?;
                bytecode.push(OpCode::Pop);
            },
        }
        assert(bytecode@ =~= old(bytecode)@ + self.code(old(bytecode)@.len()));
        Ok(())
    }
}

impl Block {
    /// The instructions that the block lowers to when placed at position
    /// `base`: its statements, in a context of their own.
    pub open spec fn code(&self, base: nat) -> Seq<OpCode>
        decreases self,
    {
        seq![OpCode::SetSlice { slice: self.slice }, OpCode::PushContext] + stmts_code(
            &self.stmts,
            self.stmts.len() as nat,
            base + 2,
        ) + seq![OpCode::PopContext]
    }

    /// The first error that lowering meets, if any.
    pub open spec fn fault(&self, allow_export: bool, allow_break_continue: bool) -> Option<
        BytecodeGenerationError,
    >
        decreases self,
    {
        stmts_fault(&self.stmts, self.stmts.len() as nat, allow_export, allow_break_continue)
    }

    pub fn generate_bytecode(
        &self,
        bytecode: &mut Vec<OpCode>,
        allow_export: bool,
        allow_break_continue: bool,
    ) -> (r: Result<(), BytecodeGenerationError>)
        ensures
            r is Err ==> kept(old(bytecode)@, final(bytecode)@),
            match r {
                Ok(()) => self.fault(allow_export, allow_break_continue) is None && final(bytecode)@ == old(bytecode)@ + self.code(old(bytecode)@.len()),
                Err(e) => self.fault(allow_export, allow_break_continue) == Some(e),
            },
            r is Ok && !allow_break_continue && temp_free(old(bytecode)@) ==> temp_free(final(bytecode)@),
        decreases self,
    {
        bytecode.push(OpCode::SetSlice { slice: self.slice.duplicate() });
        bytecode.push(OpCode::PushContext);
        generate_all(&self.stmts, bytecode, allow_export, allow_break_continue)?;
        bytecode.push(OpCode::PopContext);
        assert(bytecode@ =~= old(bytecode)@ + self.code(old(bytecode)@.len()));
        Ok(())
    }
}

impl Stmt {
    /// What reading a statement comes to at the cursor `c`: the cursor
    /// behind it, nothing where no statement begins, or the error.
    pub open spec fn scan(src: Arc<str>, c: nat) -> Result<Option<nat>, ParserError>
        decreases src@.len() - c, 200nat,
    {
        match ControlStmt::scan(src, c) {
            Ok(None) => match VariableImpl::scan(src, c) {
                Ok(None) => Expr::scan(src, c),
                other => other,
            },
            other => other,
        }
    }
}

impl Block {
    /// What reading a block comes to at the cursor `c`: the cursor behind
    /// its statements, nothing where no statement begins, or the error.
    pub open spec fn scan(src: Arc<str>, c: nat) -> Result<Option<nat>, ParserError>
        decreases src@.len() - c, 210nat,
    {
        match tok(src, c) {
            Err(e) => Err(ParserError::TokenizeError(e)),
            Ok(_) => Block::scan_stmts(src, c, false),
        }
    }

    /// What reading the statements of a block comes to from the cursor
    /// `c` on, `any` saying whether a statement was read before:
    /// statements are read as long as one begins, and a semicolon may
    /// follow each.
    pub open spec fn scan_stmts(src: Arc<str>, c: nat, any: bool) -> Result<Option<nat>, ParserError>
        decreases src@.len() - c, 205nat,
    {
        match Stmt::scan(src, c) {
            Err(e) => Err(e),
            Ok(None) => if any {
                Ok(Some(c))
            } else {
                Ok(None)
            },
            Ok(Some(c1)) => match at_symbol(src, c1, Symbol::Semicolon) {
                Err(e) => Err(e),
                Ok(semicolon) => {
                    let c2 = if semicolon {
                        past(src, c1)
                    } else {
                        c1
                    };
                    if moves(src, c, c2) {
                        Block::scan_stmts(src, c2, true)
                    } else {
                        Err(stuck())
                    }
                },
            },
        }
    }
}

impl Block {
    /// The number of statements that reading a block finds from the
    /// cursor `c` on, `n` of which were read before.
    pub open spec fn count_stmts(src: Arc<str>, c: nat, n: nat) -> nat
        decreases src@.len() - c,
    {
        match Stmt::scan(src, c) {
            Ok(Some(c1)) => match at_symbol(src, c1, Symbol::Semicolon) {
                Err(_) => n + 1,
                Ok(semicolon) => {
                    let c2 = if semicolon {
                        past(src, c1)
                    } else {
                        c1
                    };
                    if moves(src, c, c2) {
                        Block::count_stmts(src, c2, n + 1)
                    } else {
                        n + 1
                    }
                },
            },
            _ => n,
        }
    }
}

impl Stmt {
    /// The statement `stmt` is what the tokens call for: a control
    /// statement where they open one; else a declaration of a variable
    /// where they open one; else an expression. It has the span of what it
    /// holds, and what it holds is what reading that alone comes to.
    pub open spec fn read(tokenizer: &Tokenizer, stmt: Stmt) -> bool {
        match stmt.kind {
            StmtKind::Control(control) => {
                &&& control_opening(tokenizer) is Begins
                &&& stmt.slice == control.slice
                &&& tokenizer.ahead(0) matches Ok(first) && ControlStmt::read(
                    first,
                    tokenizer.ahead(1),
                    Ok(Some(control)),
                )
            },
            StmtKind::Variable(var) => {
                &&& control_opening(tokenizer) is Declines
                &&& variable_opening(tokenizer) is Begins
                &&& stmt.slice == var.slice
                &&& VariableDecl::read(tokenizer, true, Ok(Some(var.decl)))
            },
            StmtKind::Expr(expr) => {
                &&& control_opening(tokenizer) is Declines
                &&& variable_opening(tokenizer) is Declines
                &&& stmt.slice == expr.slice
                &&& Expr::sole(tokenizer) is Some ==> Some(expr) == Expr::sole(tokenizer)
            },
        }
    }

    /// The control statement that `r` holds, if it holds one.
    pub open spec fn control_of(r: Result<Option<Stmt>, ParserError>) -> Result<
        Option<ControlStmt>,
        ParserError,
    > {
        match r {
            Err(e) => Err(e),
            Ok(Some(Stmt { kind: StmtKind::Control(control), .. })) => Ok(Some(control)),
            Ok(_) => Ok(None),
        }
    }

    /// The declaration of a variable that `r` holds, if it holds one.
    pub open spec fn variable_of(r: Result<Option<Stmt>, ParserError>) -> Result<
        Option<VariableImpl>,
        ParserError,
    > {
        match r {
            Err(e) => Err(e),
            Ok(Some(Stmt { kind: StmtKind::Variable(var), .. })) => Ok(Some(var)),
            Ok(_) => Ok(None),
        }
    }

    /// What reading a statement comes to: where the tokens open a control
    /// statement, what reading that comes to; else, where they open a
    /// declaration of a variable, what reading that comes to; else, where
    /// they spell a lone literal that no operator follows, the statement
    /// of that literal, whose token alone is consumed.
    pub open spec fn decided(before: &Tokenizer, after: &Tokenizer, r: Result<Option<Stmt>, ParserError>) -> bool {
        match control_opening(before) {
            Opening::Fault(_) => true,
            Opening::Begins => before.ahead(0) matches Ok(first) && ControlStmt::read(
                first,
                before.ahead(1),
                Stmt::control_of(r),
            ) && ControlStmt::valued(before, after, Stmt::control_of(r)),
            Opening::Declines => match variable_opening(before) {
                Opening::Fault(_) => true,
                Opening::Begins => VariableImpl::bare(before, after, Stmt::variable_of(r)),
                Opening::Declines => Expr::sole(before) matches Some(expr) ==> r == Ok::<
                    Option<Stmt>,
                    ParserError,
                >(Some(Stmt { slice: expr.slice, kind: StmtKind::Expr(expr) })) && took(
                    before,
                    after,
                    1,
                ),
            },
        }
    }

    /// Whether the tokens open a statement depends on the text and the
    /// cursor alone.
    pub proof fn lemma_same_opening(a: &Tokenizer, b: &Tokenizer)
        requires
            a.source() == b.source(),
            a.cursor() == b.cursor(),
        ensures
            stmt_opening(a) == stmt_opening(b),
    {
    }

    /// What the tokens call for depends on the text and the cursor alone.
    pub proof fn lemma_same_place(a: &Tokenizer, b: &Tokenizer, stmt: Stmt)
        requires
            a.source() == b.source(),
            a.cursor() == b.cursor(),
        ensures
            Stmt::read(a, stmt) == Stmt::read(b, stmt),
            stmt_opening(a) == stmt_opening(b),
    {
    }

    /// Reads a statement: a control statement, a variable declaration or
    /// an expression.
    #[verifier::spinoff_prover]
    #[verifier::rlimit(50)]
    pub fn try_parse(tokenizer: &mut Tokenizer) -> (r: Result<Option<Self>, ParserError>)
        requires
            old(tokenizer).wf(),
        ensures
            parsed(old(tokenizer), final(tokenizer), r),
            follows(stmt_opening(old(tokenizer)), r),
            r matches Ok(Some(node)) ==> node.slice.within(old(tokenizer).source()) && spans(
                old(tokenizer),
                node.slice,
            ),
            r matches Ok(Some(stmt)) ==> Stmt::read(old(tokenizer), stmt),
            Stmt::decided(old(tokenizer), final(tokenizer), r),
            scanned(final(tokenizer), r) == Stmt::scan(old(tokenizer).source(), old(tokenizer).cursor()),
        decreases old(tokenizer).remaining(), 20nat,
    {
        if let Some(control) = ControlStmt::try_parse(tokenizer)? {
            return Ok(
                Some(Stmt { slice: control.slice.duplicate(), kind: StmtKind::Control(control) }),
            );
        }
        if let Some(decl) = VariableImpl::try_parse(tokenizer)? {
            return Ok(Some(Stmt { slice: decl.slice.duplicate(), kind: StmtKind::Variable(decl) }));
        }
        if let Some(expr) = Expr::try_parse(tokenizer)? {
            return Ok(Some(Stmt { slice: expr.slice.duplicate(), kind: StmtKind::Expr(expr) }));
        }
        Ok(None)
    }
}

impl Block {
    /// Reads the statements of a block, at least one. A semicolon may
    /// follow each statement.
    #[verifier::spinoff_prover]
    #[verifier::rlimit(60)]
    pub fn try_parse(tokenizer: &mut Tokenizer) -> (r: Result<Option<Self>, ParserError>)
        requires
            old(tokenizer).wf(),
        ensures
            parsed(old(tokenizer), final(tokenizer), r),
            follows(stmt_opening(old(tokenizer)), r),
            r matches Ok(Some(node)) ==> node.slice.within(old(tokenizer).source()) && spans(
                old(tokenizer),
                node.slice,
            ),
            r matches Ok(Some(block)) ==> block.stmts@.len() >= 1 && Stmt::read(
                old(tokenizer),
                block.stmts@[0],
            ),
            scanned(final(tokenizer), r) == Block::scan(old(tokenizer).source(), old(tokenizer).cursor()),
            r matches Ok(Some(block)) ==> block.stmts@.len() == Block::count_stmts(
                old(tokenizer).source(),
                old(tokenizer).cursor(),
                0,
            ),
        decreases old(tokenizer).remaining(), 21nat,
    {
        let start = peek_slice(tokenizer)?;
        let mut stmts: Vec<Stmt> = Vec::new();
        let mut end = start.duplicate();
        let mut more: bool = true;
        while more
            invariant
                Block::count_stmts(old(tokenizer).source(), old(tokenizer).cursor(), 0) == if more {
                    Block::count_stmts(tokenizer.source(), tokenizer.cursor(), stmts@.len() as nat)
                } else {
                    stmts@.len() as nat
                },
                Block::scan(old(tokenizer).source(), old(tokenizer).cursor()) == if more {
                    Block::scan_stmts(tokenizer.source(), tokenizer.cursor(), stmts@.len() > 0)
                } else if stmts@.len() > 0 {
                    Ok::<Option<nat>, ParserError>(Some(tokenizer.cursor()))
                } else {
                    Ok(None)
                },
                tokenizer.wf(),
                stmts@.len() > 0 ==> stmt_opening(old(tokenizer)) is Begins,
                !more && stmts@.len() == 0 ==> stmt_opening(old(tokenizer)) is Declines,
                end.within(old(tokenizer).source()),
                start.within(old(tokenizer).source()),
                tokenizer.source() == old(tokenizer).source(),
                tokenizer.remaining() <= old(tokenizer).remaining(),
                old(tokenizer).cursor() <= tokenizer.cursor() <= tokenizer.source()@.len(),
                tokenizer.consumed() >= old(tokenizer).consumed(),
                stmts@.len() > 0 ==> tokenizer.remaining() < old(tokenizer).remaining(),
                stmts@.len() > 0 ==> old(tokenizer).cursor() < tokenizer.cursor(),
                stmts@.len() > 0 ==> tokenizer.consumed() > old(tokenizer).consumed(),
                stmts@.len() == 0 ==> tokenizer.consumed() == old(tokenizer).consumed(),
                stmts@.len() == 0 ==> tokenizer.cursor() == old(tokenizer).cursor(),
                stmts@.len() > 0 ==> Stmt::read(old(tokenizer), stmts@[0]),
            decreases tokenizer.remaining() + if more { 1nat } else { 0nat },
        {
            let ghost here = *tokenizer;
            proof {
                if stmts@.len() == 0 {
                    Stmt::lemma_same_opening(&here, old(tokenizer));
                }
            }
            match Stmt::try_parse(tokenizer)? {
                Some(stmt) => {
                    proof {
                        if stmts@.len() == 0 {
                            Stmt::lemma_same_place(&here, old(tokenizer), stmt);
                        }
                    }
                    end = stmt.slice.duplicate();
                    stmts.push(stmt);
                    let peek = peek_slice(tokenizer)?;
                    if accept_symbol(tokenizer, Symbol::Semicolon)? {
                        end = peek;
                    }
                },
                None => {
                    more = false;
                },
            }
        }
        if stmts.len() == 0 {
            return Ok(None);
        }
        Ok(Some(Block { slice: start.merge(&end), stmts }))
    }
}

} // verus!
