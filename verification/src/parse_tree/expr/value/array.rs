//! Array literals.

use std::sync::Arc;
use vstd::prelude::*;

use crate::bytecode::op_code::{kept, temp_free, OpCode};
use crate::bytecode::BytecodeGenerationError;
use crate::parse_tree::expr::Expr;
use crate::parse_tree::{at_symbol, moves, needs_symbol, past, reached, refusal, scanned, stuck, spans, accept_symbol, advances, begins_expr, comes_expr, comes_symbol, follows, lemma_stream_shift, refused, opens_symbol, parsed, peek_slice, require_symbol, took, unexpected_next, ParserError};
use crate::tokenizer::token::{Symbol, TokenKind};
use crate::tokenizer::Tokenizer;
use crate::string::StringSlice;

verus! {

#[derive(Debug, PartialEq, Eq)]
pub struct ArrayExpr {
    pub slice: StringSlice,
    pub values: Vec<Expr>,
}

impl ArrayExpr {
    /// The instructions that store the first `n` elements, each under its index.
    pub open spec fn items_code(&self, n: nat) -> Seq<OpCode>
        decreases self, n,
    {
        if n == 0 || n > self.values.len() {
            Seq::empty()
        } else {
            self.items_code((n - 1) as nat) + seq![OpCode::PushConstInt { value: (n - 1) as i64 }]
                + self.values[n - 1].code() + seq![OpCode::StoreIndex, OpCode::Pop]
        }
    }

    /// The first error among the first `n` elements, if any.
    pub open spec fn items_fault(&self, n: nat) -> Option<BytecodeGenerationError>
        decreases self, n,
    {
        if n == 0 || n > self.values.len() {
            None
        } else if self.items_fault((n - 1) as nat) is Some {
            self.items_fault((n - 1) as nat)
        } else {
            self.values[n - 1].fault()
        }
    }

    /// The instructions that the literal lowers to: a new array, then each
    /// element stored under its index. The array stays on the stack.
    pub open spec fn code(&self) -> Seq<OpCode>
        decreases self, self.values.len() + 1,
    {
        seq![
            OpCode::SetSlice { slice: self.slice },
            OpCode::PushNewArray { initial_size: self.values.len() },
        ] + self.items_code(self.values.len() as nat)
    }

    /// The first error that lowering meets, if any.
    pub open spec fn fault(&self) -> Option<BytecodeGenerationError>
        decreases self, self.values.len() + 1,
    {
        self.items_fault(self.values.len() as nat)
    }

    pub fn generate_bytecode(&self, bytecode: &mut Vec<OpCode>) -> (r: Result<
        (),
        BytecodeGenerationError,
    >)
        ensures
            r is Err ==> kept(old(bytecode)@, final(bytecode)@),
            match r {
                Ok(()) => self.fault() is None && final(bytecode)@ == old(bytecode)@ + self.code(),
                Err(e) => self.fault() == Some(e),
            },
            r is Ok && temp_free(old(bytecode)@) ==> temp_free(final(bytecode)@),
        decreases self,
    {
        bytecode.push(OpCode::SetSlice { slice: self.slice.duplicate() });
        let len: usize = self.values.len();
        bytecode.push(OpCode::PushNewArray { initial_size: len });
        let ghost head = bytecode@;
        let mut index: usize = 0;
        while index < len
            invariant
                temp_free(old(bytecode)@) ==> temp_free(bytecode@),
                len == self.values.len(),
                index <= len,
                head =~= old(bytecode)@ + seq![
                    OpCode::SetSlice { slice: self.slice },
                    OpCode::PushNewArray { initial_size: len },
                ],
                bytecode@ == head + self.items_code(index as nat),
                self.items_fault(index as nat) is None,
            decreases len - index,
        {
            bytecode.push(OpCode::PushConstInt { value: index as i64 });
            match self.values[index].generate_bytecode(bytecode) {
                Ok(()) => {},
                Err(e) => {
                    proof {
                        lemma_items_fault_stays(self, (index + 1) as nat, len as nat);
                    }
                    return Err(e);
                },
            }
            bytecode.push(OpCode::StoreIndex);
            bytecode.push(OpCode::Pop);
            assert(bytecode@ =~= head + self.items_code((index + 1) as nat));
            index = index + 1;
        }
        assert(bytecode@ =~= old(bytecode)@ + self.code());
        Ok(())
    }
}

/// Once an element has an error, the first error among more elements is the same.
pub proof fn lemma_items_fault_stays(a: &ArrayExpr, n: nat, m: nat)
    requires
        n <= m <= a.values.len(),
        a.items_fault(n) is Some,
    ensures
        a.items_fault(m) == a.items_fault(n),
    decreases m,
{
    if n < m {
        lemma_items_fault_stays(a, n, (m - 1) as nat);
    }
}

/// What reading a list of expressions up to the closing symbol `close`
/// comes to: the cursor behind `close`, or the error.
pub open spec fn scan_list(src: Arc<str>, c: nat, close: Symbol, location: Seq<char>) -> Result<
    nat,
    ParserError,
>
    decreases src@.len() - c, 110nat,
{
    match at_symbol(src, c, close) {
        Err(e) => Err(e),
        Ok(true) => Ok(past(src, c)),
        Ok(false) => scan_items(src, c, close, location),
    }
}

/// What reading the expressions of a list comes to from an expression on:
/// behind each expression the closing symbol ends the list, or a comma
/// must follow, behind which the closing symbol ends the list or an
/// expression must follow.
pub open spec fn scan_items(src: Arc<str>, c: nat, close: Symbol, location: Seq<char>) -> Result<
    nat,
    ParserError,
>
    decreases src@.len() - c, 105nat,
{
    match Expr::scan(src, c) {
        Err(e) => Err(e),
        Ok(None) => Err(refusal(src, c, location)),
        Ok(Some(c1)) => match at_symbol(src, c1, close) {
            Err(e) => Err(e),
            Ok(true) => Ok(past(src, c1)),
            Ok(false) => match needs_symbol(src, c1, Symbol::Comma, location) {
                Err(e) => Err(e),
                Ok(c2) => match at_symbol(src, c2, close) {
                    Err(e) => Err(e),
                    Ok(true) => Ok(past(src, c2)),
                    Ok(false) => if moves(src, c, c2) {
                        scan_items(src, c2, close, location)
                    } else {
                        Err(stuck())
                    },
                },
            },
        },
    }
}

/// The number of expressions that reading a list up to the closing symbol
/// `close` finds at the cursor `c`.
pub open spec fn count_list(src: Arc<str>, c: nat, close: Symbol, location: Seq<char>) -> nat {
    match at_symbol(src, c, close) {
        Ok(false) => count_items(src, c, close, location, 0),
        _ => 0,
    }
}

/// The number of expressions that reading a list finds from an expression
/// on, `n` of which were read before.
pub open spec fn count_items(src: Arc<str>, c: nat, close: Symbol, location: Seq<char>, n: nat) -> nat
    decreases src@.len() - c,
{
    match Expr::scan(src, c) {
        Ok(Some(c1)) => match at_symbol(src, c1, close) {
            Ok(false) => match needs_symbol(src, c1, Symbol::Comma, location) {
                Ok(c2) => match at_symbol(src, c2, close) {
                    Ok(false) => if moves(src, c, c2) {
                        count_items(src, c2, close, location, n + 1)
                    } else {
                        n + 1
                    },
                    _ => n + 1,
                },
                Err(_) => n + 1,
            },
            _ => n + 1,
        },
        _ => n,
    }
}

/// Reads expressions separated by commas up to the closing token
/// `close`, which is consumed, and returns them with the span of that token.
#[verifier::spinoff_prover]
#[verifier::rlimit(50)]
pub fn parse_list(tokenizer: &mut Tokenizer, close: Symbol, throwing_location: &str) -> (r: Result<
    (Vec<Expr>, StringSlice),
    ParserError,
>)
    requires
        old(tokenizer).wf(),
    ensures
        r matches Ok(list) ==> advances(old(tokenizer), final(tokenizer), true) && list.1.within(
            old(tokenizer).source(),
        ),
        match old(tokenizer).ahead(0) {
            Err(e) => r matches Err(error) && error == ParserError::TokenizeError(e),
            Ok(token) => if token.kind == TokenKind::Symbol(close) {
                &&& r matches Ok(list)
                &&& list.0@.len() == 0
                &&& list.1 == token.slice
                &&& took(old(tokenizer), final(tokenizer), 1)
            } else if !begins_expr(token.kind) {
                r matches Err(error) && error == ParserError::unexpected(token, throwing_location@)
            } else {
                !(r matches Ok(list) && list.0@.len() == 0)
            },
        },
        Expr::sole(old(tokenizer)) is Some ==> (r matches Ok(list) ==> list.0@.len() >= 1 && Some(
            list.0@[0],
        ) == Expr::sole(old(tokenizer))),
        Expr::sole(old(tokenizer)) is Some && comes_symbol(old(tokenizer), 1, close) ==> {
            &&& r matches Ok(list)
            &&& list.0@.len() == 1
            &&& old(tokenizer).ahead(1) matches Ok(second) && list.1 == second.slice
            &&& took(old(tokenizer), final(tokenizer), 2)
        },
        reached(final(tokenizer), r) == scan_list(
            old(tokenizer).source(),
            old(tokenizer).cursor(),
            close,
            throwing_location@,
        ),
        r matches Ok(list) ==> list.0@.len() == count_list(
            old(tokenizer).source(),
            old(tokenizer).cursor(),
            close,
            throwing_location@,
        ),
    decreases old(tokenizer).remaining(), 11nat,
{
    proof {
        lemma_stream_shift(old(tokenizer).source(), old(tokenizer).cursor(), 1, 0);
        lemma_stream_shift(old(tokenizer).source(), old(tokenizer).cursor(), 1, 1);
    }
    let mut values: Vec<Expr> = Vec::new();
    let mut end = peek_slice(tokenizer)?;
    let mut done: bool = accept_symbol(tokenizer, close)?;
    while !done
        invariant
            count_list(old(tokenizer).source(), old(tokenizer).cursor(), close, throwing_location@)
                == if done {
                values@.len() as nat
            } else {
                count_items(
                    tokenizer.source(),
                    tokenizer.cursor(),
                    close,
                    throwing_location@,
                    values@.len() as nat,
                )
            },
            scan_list(old(tokenizer).source(), old(tokenizer).cursor(), close, throwing_location@)
                == if done {
                Ok::<nat, ParserError>(tokenizer.cursor())
            } else {
                scan_items(tokenizer.source(), tokenizer.cursor(), close, throwing_location@)
            },
            tokenizer.wf(),
            end.within(old(tokenizer).source()),
            tokenizer.source() == old(tokenizer).source(),
            tokenizer.remaining() <= old(tokenizer).remaining(),
            old(tokenizer).cursor() <= tokenizer.cursor() <= tokenizer.source()@.len(),
            tokenizer.consumed() >= old(tokenizer).consumed(),
            done ==> tokenizer.remaining() < old(tokenizer).remaining(),
            done ==> old(tokenizer).cursor() < tokenizer.cursor(),
            done ==> tokenizer.consumed() > old(tokenizer).consumed(),
            old(tokenizer).ahead(0) is Ok,
            old(tokenizer).ahead(0)->Ok_0.kind == TokenKind::Symbol(close) ==> done && values@.len()
                == 0 && end == old(tokenizer).ahead(0)->Ok_0.slice && took(
                old(tokenizer),
                tokenizer,
                1,
            ),
            old(tokenizer).ahead(0)->Ok_0.kind != TokenKind::Symbol(close) && values@.len() == 0
                ==> !done && tokenizer.cursor() == old(tokenizer).cursor(),
            values@.len() > 0 ==> begins_expr(old(tokenizer).ahead(0)->Ok_0.kind) && old(tokenizer).ahead(0)->Ok_0.kind != TokenKind::Symbol(close),
            Expr::sole(old(tokenizer)) is Some && values@.len() > 0 ==> Some(values@[0])
                == Expr::sole(old(tokenizer)),
            Expr::sole(old(tokenizer)) is Some && comes_symbol(old(tokenizer), 1, close)
                && values@.len() > 0 ==> {
                &&& done
                &&& values@.len() == 1
                &&& old(tokenizer).ahead(1) matches Ok(second) && end == second.slice
                &&& took(old(tokenizer), tokenizer, 2)
            },
        decreases tokenizer.remaining() + if done { 0nat } else { 1nat },
    {
        let value = match Expr::try_parse(tokenizer)? {
            Some(value) => value,
            None => {
                return Err(unexpected_next(tokenizer, throwing_location));
            },
        };
        values.push(value);
        end = peek_slice(tokenizer)?;
        if accept_symbol(tokenizer, close)? {
            done = true;
        } else {
            require_symbol(tokenizer, Symbol::Comma, throwing_location)?;
            end = peek_slice(tokenizer)?;
            done = accept_symbol(tokenizer, close)?;
        }
    }
    Ok((values, end))
}

impl ArrayExpr {
    /// What reading an array at the cursor `c` comes to: the cursor behind
    /// it, nothing where no bracket opens one, or the error.
    pub open spec fn scan(src: Arc<str>, c: nat) -> Result<Option<nat>, ParserError>
        decreases src@.len() - c, 10nat,
    {
        match at_symbol(src, c, Symbol::BracketOpen) {
            Err(e) => Err(e),
            Ok(false) => Ok(None),
            Ok(true) => if moves(src, c, past(src, c)) {
                match scan_list(src, past(src, c), Symbol::BracketClose, "ArrayExpr::try_parse"@) {
                    Err(e) => Err(e),
                    Ok(c1) => Ok(Some(c1)),
                }
            } else {
                Err(stuck())
            },
        }
    }

    /// What reading an array comes to, as far as its first tokens decide:
    /// behind the bracket, the closing bracket gives the empty array,
    /// which spans both; a token that begins no expression is refused;
    /// else an array that is read is not empty. A lone literal behind the
    /// bracket, which no operator follows, is the first value; where the
    /// closing bracket follows it, it is the only one, and the array spans
    /// the three tokens.
    pub open spec fn opened(before: &Tokenizer, after: &Tokenizer, r: Result<Option<ArrayExpr>, ParserError>) -> bool {
        before.ahead(0) matches Ok(first) ==> first.kind == TokenKind::Symbol(Symbol::BracketOpen)
            ==> if comes_symbol(before, 1, Symbol::BracketClose) {
            &&& r matches Ok(Some(array))
            &&& array.values@.len() == 0
            &&& before.ahead(1) matches Ok(second) && array.slice == first.slice.spec_merge(
                &second.slice,
            )
            &&& took(before, after, 2)
        } else if !comes_expr(before, 1) {
            refused(before, 1, "ArrayExpr::try_parse"@, r)
        } else {
            &&& r matches Ok(found) ==> found matches Some(array) && array.values@.len() >= 1
            &&& Expr::sole_at(before, 1) matches Some(value) ==> (r matches Ok(Some(array))
                ==> array.values@[0] == value)
            &&& Expr::sole_at(before, 1) matches Some(value) ==> (before.ahead(2) matches Ok(last)
                ==> (last.kind == TokenKind::Symbol(Symbol::BracketClose) ==> {
                &&& r matches Ok(Some(array))
                &&& array.values@.len() == 1
                &&& array.values@[0] == value
                &&& array.slice == first.slice.spec_merge(&last.slice)
                &&& took(before, after, 3)
            }))
        }
    }

    /// Reads an array literal: `[` expressions separated by commas `]`.
    pub fn try_parse(tokenizer: &mut Tokenizer) -> (r: Result<Option<Self>, ParserError>)
        requires
            old(tokenizer).wf(),
        ensures
            parsed(old(tokenizer), final(tokenizer), r),
            follows(opens_symbol(old(tokenizer), Symbol::BracketOpen), r),
            r matches Ok(Some(node)) ==> node.slice.within(old(tokenizer).source()) && spans(
                old(tokenizer),
                node.slice,
            ),
            ArrayExpr::opened(old(tokenizer), final(tokenizer), r),
            scanned(final(tokenizer), r) == ArrayExpr::scan(old(tokenizer).source(), old(tokenizer).cursor()),
            r matches Ok(Some(array)) ==> array.values@.len() == count_list(
                old(tokenizer).source(),
                past(old(tokenizer).source(), old(tokenizer).cursor()),
                Symbol::BracketClose,
                "ArrayExpr::try_parse"@,
            ),
        decreases old(tokenizer).remaining(), 1nat,
    {
        proof {
            lemma_stream_shift(old(tokenizer).source(), old(tokenizer).cursor(), 1, 0);
            lemma_stream_shift(old(tokenizer).source(), old(tokenizer).cursor(), 1, 1);
        }
        let start = peek_slice(tokenizer)?;
        if !accept_symbol(tokenizer, Symbol::BracketOpen)? {
            return Ok(None);
        }
        proof {
            lemma_stream_shift(old(tokenizer).source(), old(tokenizer).cursor(), 1, 2);
            Expr::lemma_sole_shift(old(tokenizer), tokenizer, 1, 0);
        }
        let (values, end) = parse_list(tokenizer, Symbol::BracketClose, "ArrayExpr::try_parse")?;
        Ok(Some(ArrayExpr { slice: start.merge(&end), values }))
    }
}

} // verus!
