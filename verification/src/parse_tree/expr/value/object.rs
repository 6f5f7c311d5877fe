//! Object literals.

use std::sync::Arc;
use vstd::prelude::*;

use crate::bytecode::op_code::{kept, temp_free, OpCode};
use crate::bytecode::BytecodeGenerationError;
use crate::parse_tree::expr::Expr;
use crate::parse_tree::{at, at_symbol, moves, needs_symbol, past, refusal, scanned, stuck, spans, accept_identifier, accept_symbol, comes_expr, comes_symbol, follows, lemma_stream_shift, refused, took, opens, opens_symbol, parsed, peek_slice, require_symbol, unexpected_next, ParserError};
use crate::tokenizer::token::{Symbol, Token, TokenKind};
use crate::tokenizer::Tokenizer;
use crate::string::StringSlice;

verus! {

#[derive(Debug, PartialEq, Eq)]
pub struct ObjectExpr {
    pub slice: StringSlice,
    pub values: Vec<ObjectValue>,
}

/// One field of an object literal: `name = value`.
#[derive(Debug, PartialEq, Eq)]
pub struct ObjectValue {
    pub slice: StringSlice,
    pub name: String,
    pub value: Expr,
}

impl ObjectExpr {
    /// The instructions that store the first `n` fields, each under its name.
    pub open spec fn fields_code(&self, n: nat) -> Seq<OpCode>
        decreases self, n,
    {
        if n == 0 || n > self.values.len() {
            Seq::empty()
        } else {
            self.fields_code((n - 1) as nat) + seq![
                OpCode::PushConstString { value: self.values[n - 1].name },
            ] + self.values[n - 1].value.code() + seq![
                OpCode::SetSlice { slice: self.slice },
                OpCode::StoreIndex,
                OpCode::Pop,
            ]
        }
    }

    /// The first error among the first `n` fields, if any.
    pub open spec fn fields_fault(&self, n: nat) -> Option<BytecodeGenerationError>
        decreases self, n,
    {
        if n == 0 || n > self.values.len() {
            None
        } else if self.fields_fault((n - 1) as nat) is Some {
            self.fields_fault((n - 1) as nat)
        } else {
            self.values[n - 1].value.fault()
        }
    }

    /// The instructions that the literal lowers to: a new object, then each
    /// field stored under its name. The object stays on the stack.
    pub open spec fn code(&self) -> Seq<OpCode>
        decreases self, self.values.len() + 1,
    {
        seq![OpCode::SetSlice { slice: self.slice }, OpCode::PushNewObject] + self.fields_code(
            self.values.len() as nat,
        )
    }

    /// The first error that lowering meets, if any.
    pub open spec fn fault(&self) -> Option<BytecodeGenerationError>
        decreases self, self.values.len() + 1,
    {
        self.fields_fault(self.values.len() as nat)
    }

    pub fn generate_bytecode(&self, bytecode: &mut Vec<OpCode>) -> (r: Result<
        (),
        BytecodeGenerationError,
    >)
        ensures
            r is Err ==> kept(old(bytecode)@, final(bytecode)@),
            match r {
                Ok(()) => self.fault() is None && final(bytecode)@ == old(bytecode)@ + self.code(),
                Err(e) => self.fault() == Some(e),
            },
            r is Ok && temp_free(old(bytecode)@) ==> temp_free(final(bytecode)@),
        decreases self,
    {
        bytecode.push(OpCode::SetSlice { slice: self.slice.duplicate() });
        bytecode.push(OpCode::PushNewObject);
        let ghost head = bytecode@;
        let len: usize = self.values.len();
        let mut index: usize = 0;
        while index < len
            invariant
                temp_free(old(bytecode)@) ==> temp_free(bytecode@),
                len == self.values.len(),
                index <= len,
                head =~= old(bytecode)@ + seq![
                    OpCode::SetSlice { slice: self.slice },
                    OpCode::PushNewObject,
                ],
                bytecode@ == head + self.fields_code(index as nat),
                self.fields_fault(index as nat) is None,
            decreases len - index,
        {
            let field = &self.values[index];
            bytecode.push(OpCode::PushConstString { value: field.name.clone() });
            match field.value.generate_bytecode(bytecode) {
                Ok(()) => {},
                Err(e) => {
                    proof {
                        lemma_fields_fault_stays(self, (index + 1) as nat, len as nat);
                    }
                    return Err(e);
                },
            }
            bytecode.push(OpCode::SetSlice { slice: self.slice.duplicate() });
            bytecode.push(OpCode::StoreIndex);
            bytecode.push(OpCode::Pop);
            assert(bytecode@ =~= head + self.fields_code((index + 1) as nat));
            index = index + 1;
        }
        assert(bytecode@ =~= old(bytecode)@ + self.code());
        Ok(())
    }
}

/// Once a field has an error, the first error among more fields is the same.
pub proof fn lemma_fields_fault_stays(o: &ObjectExpr, n: nat, m: nat)
    requires
        n <= m <= o.values.len(),
        o.fields_fault(n) is Some,
    ensures
        o.fields_fault(m) == o.fields_fault(n),
    decreases m,
{
    if n < m {
        lemma_fields_fault_stays(o, n, (m - 1) as nat);
    }
}

impl ObjectExpr {
    /// What reading an object at the cursor `c` comes to: the cursor
    /// behind it, nothing where no brace opens one, or the error.
    pub open spec fn scan(src: Arc<str>, c: nat) -> Result<Option<nat>, ParserError>
        decreases src@.len() - c, 10nat,
    {
        match at_symbol(src, c, Symbol::BraceOpen) {
            Err(e) => Err(e),
            Ok(false) => Ok(None),
            Ok(true) => {
                let c1 = past(src, c);
                match at_symbol(src, c1, Symbol::BraceClose) {
                    Err(e) => Err(e),
                    Ok(true) => Ok(Some(past(src, c1))),
                    Ok(false) => if moves(src, c, c1) {
                        ObjectExpr::scan_fields(src, c1)
                    } else {
                        Err(stuck())
                    },
                }
            },
        }
    }

    /// What reading the fields of an object comes to from a field on: a
    /// comma or a semicolon may follow each field, and the closing brace
    /// ends the object.
    pub open spec fn scan_fields(src: Arc<str>, c: nat) -> Result<Option<nat>, ParserError>
        decreases src@.len() - c, 5nat,
    {
        match ObjectValue::scan(src, c) {
            Err(e) => Err(e),
            Ok(None) => Err(refusal(src, c, "ObjectExpr::try_parse"@)),
            Ok(Some(c1)) => {
                let separated = match at_symbol(src, c1, Symbol::Comma) {
                    Err(e) => Err(e),
                    Ok(true) => Ok(past(src, c1)),
                    Ok(false) => match at_symbol(src, c1, Symbol::Semicolon) {
                        Err(e) => Err(e),
                        Ok(true) => Ok(past(src, c1)),
                        Ok(false) => Ok(c1),
                    },
                };
                match separated {
                    Err(e) => Err(e),
                    Ok(c2) => match at_symbol(src, c2, Symbol::BraceClose) {
                        Err(e) => Err(e),
                        Ok(true) => Ok(Some(past(src, c2))),
                        Ok(false) => if moves(src, c, c2) {
                            ObjectExpr::scan_fields(src, c2)
                        } else {
                            Err(stuck())
                        },
                    },
                }
            },
        }
    }

    /// The number of fields that reading an object at the cursor `c` finds.
    pub open spec fn count(src: Arc<str>, c: nat) -> nat {
        match at_symbol(src, past(src, c), Symbol::BraceClose) {
            Ok(false) => ObjectExpr::count_fields(src, past(src, c), 0),
            _ => 0,
        }
    }

    /// The number of fields that reading an object finds from a field on,
    /// `n` of which were read before.
    pub open spec fn count_fields(src: Arc<str>, c: nat, n: nat) -> nat
        decreases src@.len() - c,
    {
        match ObjectValue::scan(src, c) {
            Ok(Some(c1)) => {
                let separated = match at_symbol(src, c1, Symbol::Comma) {
                    Err(e) => Err(e),
                    Ok(true) => Ok(past(src, c1)),
                    Ok(false) => match at_symbol(src, c1, Symbol::Semicolon) {
                        Err(e) => Err(e),
                        Ok(true) => Ok(past(src, c1)),
                        Ok(false) => Ok(c1),
                    },
                };
                match separated {
                    Err(_) => n + 1,
                    Ok(c2) => match at_symbol(src, c2, Symbol::BraceClose) {
                        Ok(false) => if moves(src, c, c2) {
                            ObjectExpr::count_fields(src, c2, n + 1)
                        } else {
                            n + 1
                        },
                        _ => n + 1,
                    },
                }
            },
            _ => n,
        }
    }

    /// Where the first field is a name, `=` and a lone literal that no
    /// operator follows, `field` is that field, under the span of the three
    /// tokens.
    pub open spec fn first_field(tokenizer: &Tokenizer, field: ObjectValue) -> bool {
        match (tokenizer.ahead(1), tokenizer.ahead(2), Expr::sole_at(tokenizer, 3)) {
            (
                Ok(Token { kind: TokenKind::Identifier(name), slice }),
                Ok(Token { kind: TokenKind::Symbol(Symbol::Assign), .. }),
                Some(value),
            ) => field == (ObjectValue { slice: slice.spec_merge(&value.slice), name, value }),
            _ => true,
        }
    }

    /// What reading an object comes to, as far as its first tokens
    /// decide: behind the brace, the closing brace gives the empty
    /// object, which spans both; a token that is no name is refused; else
    /// an object that is read begins with a field of that name, which is
    /// read whole where its value is a lone literal.
    pub open spec fn opened(before: &Tokenizer, after: &Tokenizer, r: Result<Option<ObjectExpr>, ParserError>) -> bool {
        before.ahead(0) matches Ok(first) ==> first.kind == TokenKind::Symbol(Symbol::BraceOpen)
            ==> match before.ahead(1) {
            Ok(Token { kind: TokenKind::Symbol(Symbol::BraceClose), slice }) => {
                &&& r matches Ok(Some(object))
                &&& object.values@.len() == 0
                &&& object.slice == first.slice.spec_merge(&slice)
                &&& took(before, after, 2)
            },
            Ok(Token { kind: TokenKind::Identifier(name), slice }) => r matches Ok(found) ==> {
                &&& found matches Some(object)
                &&& object.values@.len() >= 1
                &&& object.values@[0].name == name
                &&& ObjectExpr::first_field(before, object.values@[0])
            },
            _ => refused(before, 1, "ObjectExpr::try_parse"@, r),
        }
    }

    /// Reads an object literal: `{` fields `}`. A comma or semicolon may
    /// follow each field.
    #[verifier::spinoff_prover]
    #[verifier::rlimit(50)]
    pub fn try_parse(tokenizer: &mut Tokenizer) -> (r: Result<Option<Self>, ParserError>)
        requires
            old(tokenizer).wf(),
        ensures
            parsed(old(tokenizer), final(tokenizer), r),
            follows(opens_symbol(old(tokenizer), Symbol::BraceOpen), r),
            r matches Ok(Some(node)) ==> node.slice.within(old(tokenizer).source()) && spans(
                old(tokenizer),
                node.slice,
            ),
            ObjectExpr::opened(old(tokenizer), final(tokenizer), r),
            scanned(final(tokenizer), r) == ObjectExpr::scan(old(tokenizer).source(), old(tokenizer).cursor()),
            r matches Ok(Some(object)) ==> object.values@.len() == ObjectExpr::count(
                old(tokenizer).source(),
                old(tokenizer).cursor(),
            ),
        decreases old(tokenizer).remaining(), 1nat,
    {
        proof {
            lemma_stream_shift(old(tokenizer).source(), old(tokenizer).cursor(), 1, 0);
            lemma_stream_shift(old(tokenizer).source(), old(tokenizer).cursor(), 1, 1);
        }
        let start = peek_slice(tokenizer)?;
        if !accept_symbol(tokenizer, Symbol::BraceOpen)? {
            return Ok(None);
        }
        let mut values: Vec<ObjectValue> = Vec::new();
        let mut end = peek_slice(tokenizer)?;
        let mut done: bool = accept_symbol(tokenizer, Symbol::BraceClose)?;
        while !done
            invariant
                ObjectExpr::count(old(tokenizer).source(), old(tokenizer).cursor()) == if done {
                    values@.len() as nat
                } else {
                    ObjectExpr::count_fields(
                        tokenizer.source(),
                        tokenizer.cursor(),
                        values@.len() as nat,
                    )
                },
                ObjectExpr::scan(old(tokenizer).source(), old(tokenizer).cursor()) == if done {
                    Ok::<Option<nat>, ParserError>(Some(tokenizer.cursor()))
                } else {
                    ObjectExpr::scan_fields(tokenizer.source(), tokenizer.cursor())
                },
                tokenizer.wf(),
                opens_symbol(old(tokenizer), Symbol::BraceOpen) is Begins,
                old(tokenizer).ahead(0) matches Ok(first) && start == first.slice,
                values@.len() == 0 && !done ==> tokenizer.cursor() == old(tokenizer).behind(1)
                    && old(tokenizer).ahead(1) is Ok && !comes_symbol(
                    old(tokenizer),
                    1,
                    Symbol::BraceClose,
                ),
                values@.len() == 0 && done ==> took(old(tokenizer), tokenizer, 2) && (old(tokenizer).ahead(1) matches Ok(second) && second.kind == TokenKind::Symbol(
                    Symbol::BraceClose,
                ) && end == second.slice),
                values@.len() >= 1 ==> (old(tokenizer).ahead(1) matches Ok(second) && second.kind
                    == TokenKind::Identifier(values@[0].name)),
                values@.len() >= 1 ==> ObjectExpr::first_field(old(tokenizer), values@[0]),
                end.within(old(tokenizer).source()),
                start.within(old(tokenizer).source()),
                tokenizer.source() == old(tokenizer).source(),
                tokenizer.remaining() < old(tokenizer).remaining(),
                old(tokenizer).cursor() < tokenizer.cursor() <= tokenizer.source()@.len(),
                tokenizer.consumed() > old(tokenizer).consumed(),
            decreases tokenizer.remaining() + if done { 0nat } else { 1nat },
        {
            proof {
                if values@.len() == 0 {
                    lemma_stream_shift(old(tokenizer).source(), old(tokenizer).cursor(), 1, 1);
                    Expr::lemma_sole_shift(old(tokenizer), tokenizer, 1, 2);
                }
            }
            let value = match ObjectValue::try_parse(tokenizer)? {
                Some(value) => value,
                None => {
                    return Err(unexpected_next(tokenizer, "ObjectExpr::try_parse"));
                },
            };
            values.push(value);
            if !accept_symbol(tokenizer, Symbol::Comma)? {
                accept_symbol(tokenizer, Symbol::Semicolon)?;
            }
            end = peek_slice(tokenizer)?;
            done = accept_symbol(tokenizer, Symbol::BraceClose)?;
        }
        Ok(Some(ObjectExpr { slice: start.merge(&end), values }))
    }
}

impl ObjectValue {
    /// What reading a field at the cursor `c` comes to: the cursor behind
    /// it, nothing where no name begins one, or the error.
    pub open spec fn scan(src: Arc<str>, c: nat) -> Result<Option<nat>, ParserError>
        decreases src@.len() - c, 0nat,
    {
        match at(src, c, |kind: TokenKind| kind is Identifier) {
            Err(e) => Err(e),
            Ok(false) => Ok(None),
            Ok(true) => match needs_symbol(
                src,
                past(src, c),
                Symbol::Assign,
                "ObjectValue::try_parse"@,
            ) {
                Err(e) => Err(e),
                Ok(c2) => if moves(src, c, c2) {
                    match Expr::scan(src, c2) {
                        Err(e) => Err(e),
                        Ok(None) => Err(refusal(src, c2, "ObjectValue::try_parse"@)),
                        Ok(Some(c3)) => Ok(Some(c3)),
                    }
                } else {
                    Err(stuck())
                },
            },
        }
    }

    /// What reading a field comes to, as far as its first tokens decide:
    /// behind the name `=` must come, and an expression must begin behind
    /// it; a field that is read has that name. Where the value is a lone
    /// literal that no operator follows, the field is read whole.
    pub open spec fn headed(tokenizer: &Tokenizer, r: Result<Option<ObjectValue>, ParserError>) -> bool {
        tokenizer.ahead(0) matches Ok(first) ==> (first.kind matches TokenKind::Identifier(name)
            ==> if !comes_symbol(tokenizer, 1, Symbol::Assign) {
            refused(tokenizer, 1, "ObjectValue::try_parse"@, r)
        } else if !comes_expr(tokenizer, 2) {
            refused(tokenizer, 2, "ObjectValue::try_parse"@, r)
        } else {
            &&& r matches Ok(found) ==> found matches Some(field) && field.name == name
            &&& Expr::sole_at(tokenizer, 2) matches Some(value) ==> r == Ok::<
                Option<ObjectValue>,
                ParserError,
            >(Some(ObjectValue { slice: first.slice.spec_merge(&value.slice), name, value }))
        })
    }

    /// Reads a field of an object literal: `name = value`.
    #[verifier::spinoff_prover]
    #[verifier::rlimit(50)]
    pub fn try_parse(tokenizer: &mut Tokenizer) -> (r: Result<Option<Self>, ParserError>)
        requires
            old(tokenizer).wf(),
        ensures
            parsed(old(tokenizer), final(tokenizer), r),
            follows(opens(old(tokenizer), |kind: TokenKind| kind is Identifier), r),
            r matches Ok(Some(node)) ==> node.slice.within(old(tokenizer).source()) && spans(
                old(tokenizer),
                node.slice,
            ),
            ObjectValue::headed(old(tokenizer), r),
            comes_symbol(old(tokenizer), 1, Symbol::Assign) && Expr::sole_at(old(tokenizer), 2)
                is Some ==> (r matches Ok(Some(_)) ==> final(tokenizer).cursor() == old(tokenizer).behind(3)),
            scanned(final(tokenizer), r) == ObjectValue::scan(old(tokenizer).source(), old(tokenizer).cursor()),
        decreases old(tokenizer).remaining(), 0nat,
    {
        proof {
            lemma_stream_shift(old(tokenizer).source(), old(tokenizer).cursor(), 1, 0);
            lemma_stream_shift(old(tokenizer).source(), old(tokenizer).cursor(), 2, 0);
        }
        let start = peek_slice(tokenizer)?;
        let name = match accept_identifier(tokenizer)? {
            Some(name) => name,
            None => {
                return Ok(None);
            },
        };
        require_symbol(tokenizer, Symbol::Assign, "ObjectValue::try_parse")?;
        proof {
            lemma_stream_shift(old(tokenizer).source(), old(tokenizer).cursor(), 2, 1);
            Expr::lemma_sole_shift(old(tokenizer), tokenizer, 2, 0);
        }
        let value = match Expr::try_parse(tokenizer)? {
            Some(value) => value,
            None => {
                return Err(unexpected_next(tokenizer, "ObjectValue::try_parse"));
            },
        };
        Ok(Some(ObjectValue { slice: start.merge(&value.slice), name, value }))
    }
}

} // verus!
