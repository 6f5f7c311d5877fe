//! Variable declarations.

use std::sync::Arc;
use vstd::prelude::*;

use super::VariableName;
use crate::bytecode::op_code::{kept, temp_free, OpCode};
use crate::bytecode::BytecodeGenerationError;
use crate::parse_tree::expr::Expr;
use crate::parse_tree::{at_symbol, found_at, keyword_scan, past, reached, refusal, scanned, spans, comes_expr, refused, accept_keyword, accept_keywords, accept_symbol, follows, keyword_opening, keyword_read, keyword_tokens, lemma_stream_shift, parsed, took, peek_slice, unexpected_next, variable_opening, ParserError};
use crate::tokenizer::token::{Keyword, Symbol, Token, TokenKind};
use crate::tokenizer::{TokenizeError, Tokenizer};
use crate::string::StringSlice;

verus! {

#[derive(Debug, PartialEq, Eq)]
pub struct VariableDecl {
    pub slice: StringSlice,
    pub export: bool,
    pub is_const: bool,
    pub param: VariableName,
}

#[derive(Debug, PartialEq, Eq)]
pub struct VariableImpl {
    pub slice: StringSlice,
    pub decl: VariableDecl,
    pub init: Option<Expr>,
}

impl VariableImpl {
    /// The instructions that the declaration lowers to: the variable is
    /// created, then initialised if there is an initialiser, then marked
    /// constant and exported as declared.
    pub open spec fn code(&self) -> Seq<OpCode> {
        let name = self.decl.param.name;
        seq![OpCode::InitVariable { name }] + (match self.init {
            Some(init) => init.code() + seq![OpCode::StoreVariable { name }, OpCode::Pop],
            None => Seq::empty(),
        }) + (if self.decl.is_const {
            seq![OpCode::MarkVariableConst { name }]
        } else {
            Seq::empty()
        }) + (if self.decl.export {
            seq![OpCode::Export { name }]
        } else {
            Seq::empty()
        })
    }

    /// The first error that lowering meets, if any. An exported variable
    /// is an error where exports are not allowed.
    pub open spec fn fault(&self, allow_export: bool) -> Option<BytecodeGenerationError> {
        if !allow_export && self.decl.export {
            Some(BytecodeGenerationError::IllegalExport(self.slice))
        } else {
            match self.init {
                Some(init) => init.fault(),
                None => None,
            }
        }
    }

    pub fn generate_bytecode(&self, bytecode: &mut Vec<OpCode>, allow_export: bool) -> (r: Result<
        (),
        BytecodeGenerationError,
    >)
        ensures
            r is Err ==> kept(old(bytecode)@, final(bytecode)@),
            match r {
                Ok(()) => self.fault(allow_export) is None && final(bytecode)@ == old(bytecode)@
                    + self.code(),
                Err(e) => self.fault(allow_export) == Some(e),
            },
            r is Ok && temp_free(old(bytecode)@) ==> temp_free(final(bytecode)@),
    {
        if !allow_export && self.decl.export {
            return Err(BytecodeGenerationError::IllegalExport(self.slice.duplicate()));
        }
        let name = &self.decl.param.name;
        bytecode.push(OpCode::InitVariable { name: name.clone() });
        if let Some(init) = &self.init {
            init.generate_bytecode(bytecode)?;
            bytecode.push(OpCode::StoreVariable { name: name.clone() });
            bytecode.push(OpCode::Pop);
        }
        if self.decl.is_const {
            bytecode.push(OpCode::MarkVariableConst { name: name.clone() });
        }
        if self.decl.export {
            bytecode.push(OpCode::Export { name: name.clone() });
        }
        assert(bytecode@ =~= old(bytecode)@ + self.code());
        Ok(())
    }
}

impl VariableDecl {
    /// Reads the head of a variable declaration: `let name` or `const name`,
    /// with `export` before it if the variable is exported.
    pub fn try_parse(tokenizer: &mut Tokenizer) -> (r: Result<Option<Self>, ParserError>)
        requires
            old(tokenizer).wf(),
        ensures
            parsed(old(tokenizer), final(tokenizer), r),
            follows(variable_opening(old(tokenizer)), r),
            r matches Ok(Some(node)) ==> node.slice.within(old(tokenizer).source()) && spans(
                old(tokenizer),
                node.slice,
            ),
            VariableDecl::read(old(tokenizer), true, r),
            VariableDecl::reads_plain(
                old(tokenizer),
                final(tokenizer),
                VariableDecl::plain(old(tokenizer)),
                r,
            ),
            scanned(final(tokenizer), r) == VariableDecl::scan(old(tokenizer).source(), old(tokenizer).cursor()),
    {
        if let Some(var) = Self::try_parse_let(tokenizer)? {
            return Ok(Some(var));
        }
        if let Some(var) = Self::try_parse_const(tokenizer)? {
            return Ok(Some(var));
        }
        Ok(None)
    }

    /// What reading the head of a declaration by `keyword` comes to, as far
    /// as the keyword and the token behind it decide: nothing where the
    /// keyword is not there; an error where no name follows it; else, if a
    /// head is read, it is exported where `export` stood, it is a constant
    /// where `is_const` says so, and its name is the one that follows.
    /// Where `r` is the result of reading the head alone, which `whole`
    /// says, a name without a type gives the declaration exactly.
    pub open spec fn headed(
        tokenizer: &Tokenizer,
        keyword: Keyword,
        is_const: bool,
        whole: bool,
        r: Result<Option<VariableDecl>, ParserError>,
    ) -> bool {
        match keyword_read(tokenizer, keyword) {
            Err(e) => r matches Err(error) && error == e,
            Ok(None) => r matches Ok(None),
            Ok(Some(export)) => {
                let k: nat = if export {
                    2
                } else {
                    1
                };
                match tokenizer.ahead(k) {
                    Err(e) => r matches Err(error) && error == ParserError::TokenizeError(e),
                    Ok(token) => if !(token.kind is Identifier) {
                        r matches Err(error) && error == ParserError::unexpected(
                            token,
                            "VariableDecl::try_parse"@,
                        )
                    } else {
                        &&& r matches Ok(found) ==> found matches Some(decl) && decl.export
                            == export && decl.is_const == is_const && VariableName::named(
                            tokenizer.ahead(k),
                            tokenizer.ahead(k + 1),
                            decl.param,
                        )
                        &&& whole ==> VariableDecl::untyped(
                            tokenizer.ahead(0),
                            token,
                            tokenizer.ahead(k + 1),
                            export,
                            is_const,
                            r,
                        )
                    },
                }
            },
        }
    }

    /// What reading the head of a declaration comes to where no colon
    /// follows the name `name`: the declaration of the name without a
    /// type, which spans the tokens from the first keyword to the name.
    /// Where the token behind the name cannot be read, the error of the
    /// tokenizer comes out.
    pub open spec fn untyped(
        first: Result<Token, TokenizeError>,
        name: Token,
        next: Result<Token, TokenizeError>,
        export: bool,
        is_const: bool,
        r: Result<Option<VariableDecl>, ParserError>,
    ) -> bool {
        match (first, name.kind, next) {
            (Ok(first), TokenKind::Identifier(text), Err(e)) => r matches Err(error) && error
                == ParserError::TokenizeError(e),
            (Ok(first), TokenKind::Identifier(text), Ok(next)) => next.kind != TokenKind::Symbol(
                Symbol::Colon,
            ) ==> r == Ok::<Option<VariableDecl>, ParserError>(
                Some(
                    VariableDecl {
                        slice: first.slice.spec_merge(&name.slice),
                        export,
                        is_const,
                        param: VariableName { slice: name.slice, name: text, ty: None },
                    },
                ),
            ),
            _ => true,
        }
    }

    /// What reading the head of a declaration comes to: what reading it by
    /// `let` comes to, and by `const` where `let` is not there.
    pub open spec fn read(
        tokenizer: &Tokenizer,
        whole: bool,
        r: Result<Option<VariableDecl>, ParserError>,
    ) -> bool {
        if keyword_read(tokenizer, Keyword::Let) == Ok::<Option<bool>, ParserError>(None) {
            VariableDecl::headed(tokenizer, Keyword::Const, true, whole, r)
        } else {
            VariableDecl::headed(tokenizer, Keyword::Let, false, whole, r)
        }
    }

    /// The head of a declaration by `keyword` that the tokens spell where
    /// the name has no type, and the number of its tokens: the keyword,
    /// with `export` before it or not, and a name that no colon follows.
    pub open spec fn plain_by(tokenizer: &Tokenizer, keyword: Keyword, is_const: bool) -> Option<
        (VariableDecl, nat),
    > {
        match keyword_read(tokenizer, keyword) {
            Ok(Some(export)) => {
                let k: nat = if export {
                    2
                } else {
                    1
                };
                match (tokenizer.ahead(0), tokenizer.ahead(k), tokenizer.ahead(k + 1)) {
                    (
                        Ok(first),
                        Ok(Token { kind: TokenKind::Identifier(name), slice }),
                        Ok(next),
                    ) => if next.kind != TokenKind::Symbol(Symbol::Colon) {
                        Some(
                            (
                                VariableDecl {
                                    slice: first.slice.spec_merge(&slice),
                                    export,
                                    is_const,
                                    param: VariableName { slice, name, ty: None },
                                },
                                k + 1,
                            ),
                        )
                    } else {
                        None
                    },
                    _ => None,
                }
            },
            _ => None,
        }
    }

    /// The head of a declaration that the tokens spell where the name has
    /// no type, and the number of its tokens.
    pub open spec fn plain(tokenizer: &Tokenizer) -> Option<(VariableDecl, nat)> {
        if keyword_read(tokenizer, Keyword::Let) == Ok::<Option<bool>, ParserError>(None) {
            VariableDecl::plain_by(tokenizer, Keyword::Const, true)
        } else {
            VariableDecl::plain_by(tokenizer, Keyword::Let, false)
        }
    }

    /// Where the tokens spell the head `found` of a declaration without a
    /// type, the head is read, and its tokens are consumed.
    pub open spec fn reads_plain(
        before: &Tokenizer,
        after: &Tokenizer,
        found: Option<(VariableDecl, nat)>,
        r: Result<Option<VariableDecl>, ParserError>,
    ) -> bool {
        found matches Some(head) ==> r == Ok::<Option<VariableDecl>, ParserError>(Some(head.0))
            && took(before, after, head.1)
    }

    /// Reads `keyword` or `export keyword`, and says whether `export` was there.
    fn parse_keyword(tokenizer: &mut Tokenizer, keyword: Keyword) -> (r: Result<
        Option<bool>,
        ParserError,
    >)
        requires
            old(tokenizer).wf(),
        ensures
            parsed(old(tokenizer), final(tokenizer), r),
            follows(keyword_opening(old(tokenizer), keyword), r),
            r == keyword_read(old(tokenizer), keyword),
            took(old(tokenizer), final(tokenizer), keyword_tokens(r)),
            scanned(final(tokenizer), r) == keyword_scan(old(tokenizer).source(), old(tokenizer).cursor(), keyword),
    {
        if accept_keyword(tokenizer, keyword)? {
            return Ok(Some(false));
        }
        if accept_keywords(tokenizer, Keyword::Export, keyword)? {
            return Ok(Some(true));
        }
        Ok(None)
    }

    fn parse_keyword_let(tokenizer: &mut Tokenizer) -> (r: Result<Option<bool>, ParserError>)
        requires
            old(tokenizer).wf(),
        ensures
            parsed(old(tokenizer), final(tokenizer), r),
            follows(keyword_opening(old(tokenizer), Keyword::Let), r),
            r == keyword_read(old(tokenizer), Keyword::Let),
            took(old(tokenizer), final(tokenizer), keyword_tokens(r)),
            scanned(final(tokenizer), r) == keyword_scan(old(tokenizer).source(), old(tokenizer).cursor(), Keyword::Let),
    {
        Self::parse_keyword(tokenizer, Keyword::Let)
    }

    fn parse_keyword_const(tokenizer: &mut Tokenizer) -> (r: Result<Option<bool>, ParserError>)
        requires
            old(tokenizer).wf(),
        ensures
            parsed(old(tokenizer), final(tokenizer), r),
            follows(keyword_opening(old(tokenizer), Keyword::Const), r),
            r == keyword_read(old(tokenizer), Keyword::Const),
            took(old(tokenizer), final(tokenizer), keyword_tokens(r)),
            scanned(final(tokenizer), r) == keyword_scan(old(tokenizer).source(), old(tokenizer).cursor(), Keyword::Const),
    {
        Self::parse_keyword(tokenizer, Keyword::Const)
    }

    /// Reads the name that follows the keyword of a declaration.
    fn parse_name(tokenizer: &mut Tokenizer, start: StringSlice, export: bool, is_const: bool) -> (r:
        Result<Self, ParserError>)
        requires
            old(tokenizer).wf(),
            start.within(old(tokenizer).source()),
        ensures
            r is Ok ==> crate::parse_tree::advances(old(tokenizer), final(tokenizer), true),
            r matches Ok(decl) ==> decl.export == export && decl.is_const == is_const
                && decl.slice.within(old(tokenizer).source()),
            match old(tokenizer).ahead(0) {
                Err(e) => r matches Err(error) && error == ParserError::TokenizeError(e),
                Ok(token) => if !(token.kind is Identifier) {
                    r == Err::<VariableDecl, ParserError>(
                        ParserError::unexpected(token, "VariableDecl::try_parse"@),
                    )
                } else {
                    r matches Ok(decl) ==> VariableName::named(
                        old(tokenizer).ahead(0),
                        old(tokenizer).ahead(1),
                        decl.param,
                    )
                },
            },
            VariableName::untyped(
                old(tokenizer),
                final(tokenizer),
                match r {
                    Ok(decl) => Ok(Some(decl.param)),
                    Err(e) => Err(e),
                },
            ),
            r matches Ok(decl) ==> decl.slice == start.spec_merge(&decl.param.slice),
            reached(final(tokenizer), r) == VariableDecl::scan_name(
                old(tokenizer).source(),
                old(tokenizer).cursor(),
            ),
    {
        let param = match VariableName::try_parse(tokenizer)? {
            Some(param) => param,
            None => {
                return Err(unexpected_next(tokenizer, "VariableDecl::try_parse"));
            },
        };
        Ok(VariableDecl { slice: start.merge(&param.slice), export, is_const, param })
    }

    /// Reads the head of a declaration of a variable that can be assigned to.
    pub fn try_parse_let(tokenizer: &mut Tokenizer) -> (r: Result<Option<Self>, ParserError>)
        requires
            old(tokenizer).wf(),
        ensures
            parsed(old(tokenizer), final(tokenizer), r),
            follows(keyword_opening(old(tokenizer), Keyword::Let), r),
            r matches Ok(Some(node)) ==> node.slice.within(old(tokenizer).source()) && spans(
                old(tokenizer),
                node.slice,
            ),
            r matches Ok(Some(decl)) ==> !decl.is_const,
            VariableDecl::headed(old(tokenizer), Keyword::Let, false, true, r),
            VariableDecl::reads_plain(
                old(tokenizer),
                final(tokenizer),
                VariableDecl::plain_by(old(tokenizer), Keyword::Let, false),
                r,
            ),
            scanned(final(tokenizer), r) == VariableDecl::scan_by(old(tokenizer).source(), old(tokenizer).cursor(), Keyword::Let),
    {
        let start = peek_slice(tokenizer)?;
        let export = match Self::parse_keyword_let(tokenizer)? {
            Some(export) => export,
            None => {
                return Ok(None);
            },
        };
        proof {
            let k: nat = if export {
                2
            } else {
                1
            };
            lemma_stream_shift(old(tokenizer).source(), old(tokenizer).cursor(), k, 0);
            lemma_stream_shift(old(tokenizer).source(), old(tokenizer).cursor(), k, 1);
        }
        Ok(Some(Self::parse_name(tokenizer, start, export, false)?))
    }

    /// Reads the head of a declaration of a constant.
    pub fn try_parse_const(tokenizer: &mut Tokenizer) -> (r: Result<Option<Self>, ParserError>)
        requires
            old(tokenizer).wf(),
        ensures
            parsed(old(tokenizer), final(tokenizer), r),
            follows(keyword_opening(old(tokenizer), Keyword::Const), r),
            r matches Ok(Some(node)) ==> node.slice.within(old(tokenizer).source()) && spans(
                old(tokenizer),
                node.slice,
            ),
            r matches Ok(Some(decl)) ==> decl.is_const,
            VariableDecl::headed(old(tokenizer), Keyword::Const, true, true, r),
            VariableDecl::reads_plain(
                old(tokenizer),
                final(tokenizer),
                VariableDecl::plain_by(old(tokenizer), Keyword::Const, true),
                r,
            ),
            scanned(final(tokenizer), r) == VariableDecl::scan_by(old(tokenizer).source(), old(tokenizer).cursor(), Keyword::Const),
    {
        let start = peek_slice(tokenizer)?;
        let export = match Self::parse_keyword_const(tokenizer)? {
            Some(export) => export,
            None => {
                return Ok(None);
            },
        };
        proof {
            let k: nat = if export {
                2
            } else {
                1
            };
            lemma_stream_shift(old(tokenizer).source(), old(tokenizer).cursor(), k, 0);
            lemma_stream_shift(old(tokenizer).source(), old(tokenizer).cursor(), k, 1);
        }
        Ok(Some(Self::parse_name(tokenizer, start, export, true)?))
    }
}

impl VariableDecl {
    /// What reading the head of a declaration by `keyword` comes to at the
    /// cursor `c`: behind the keyword a name must follow.
    pub open spec fn scan_by(src: Arc<str>, c: nat, keyword: Keyword) -> Result<
        Option<nat>,
        ParserError,
    > {
        match keyword_scan(src, c, keyword) {
            Ok(Some(c1)) => found_at(VariableDecl::scan_name(src, c1)),
            other => other,
        }
    }

    /// What reading the name behind the keyword comes to.
    pub open spec fn scan_name(src: Arc<str>, c: nat) -> Result<nat, ParserError> {
        match VariableName::scan(src, c) {
            Err(e) => Err(e),
            Ok(None) => Err(refusal(src, c, "VariableDecl::try_parse"@)),
            Ok(Some(c1)) => Ok(c1),
        }
    }

    /// What reading the head of a declaration comes to at the cursor `c`:
    /// by `let`, and by `const` where `let` is not there.
    pub open spec fn scan(src: Arc<str>, c: nat) -> Result<Option<nat>, ParserError> {
        match VariableDecl::scan_by(src, c, Keyword::Let) {
            Ok(None) => VariableDecl::scan_by(src, c, Keyword::Const),
            other => other,
        }
    }
}

impl VariableImpl {
    /// What reading a declaration with its initialiser comes to at the
    /// cursor `c`: behind `=` an expression must follow.
    pub open spec fn scan(src: Arc<str>, c: nat) -> Result<Option<nat>, ParserError> {
        match VariableDecl::scan(src, c) {
            Ok(Some(c1)) => match at_symbol(src, c1, Symbol::Assign) {
                Err(e) => Err(e),
                Ok(false) => Ok(Some(c1)),
                Ok(true) => match Expr::scan(src, past(src, c1)) {
                    Err(e) => Err(e),
                    Ok(None) => Err(refusal(src, past(src, c1), "VariableImpl::try_parse"@)),
                    Ok(Some(c2)) => Ok(Some(c2)),
                },
            },
            other => other,
        }
    }

    /// The head of the declaration that `r` holds, if it holds one.
    pub open spec fn head_of(r: Result<Option<VariableImpl>, ParserError>) -> Result<
        Option<VariableDecl>,
        ParserError,
    > {
        match r {
            Err(e) => Err(e),
            Ok(Some(var)) => Ok(Some(var.decl)),
            Ok(None) => Ok(None),
        }
    }

    /// What reading a declaration comes to where the tokens spell a head
    /// without a type: the declaration without an initialiser where no
    /// `=` follows the head; with the initialiser where `=` and a lone
    /// literal that no operator follows come behind it, under the span of
    /// both. Behind `=` an expression must begin.
    pub open spec fn bare(before: &Tokenizer, after: &Tokenizer, r: Result<Option<VariableImpl>, ParserError>) -> bool {
        VariableDecl::plain(before) matches Some(head) ==> {
            let decl = head.0;
            let k = head.1;
            match before.ahead(k) {
                Err(e) => r matches Err(error) && error == ParserError::TokenizeError(e),
                Ok(token) => if token.kind != TokenKind::Symbol(Symbol::Assign) {
                    r == Ok::<Option<VariableImpl>, ParserError>(
                        Some(VariableImpl { slice: decl.slice, decl, init: None }),
                    ) && took(before, after, k)
                } else {
                    match Expr::sole_at(before, k + 1) {
                        Some(value) => r == Ok::<Option<VariableImpl>, ParserError>(
                            Some(
                                VariableImpl {
                                    slice: decl.slice.spec_merge(&value.slice),
                                    decl,
                                    init: Some(value),
                                },
                            ),
                        ) && took(before, after, k + 2),
                        None => !comes_expr(before, k + 1) ==> refused(
                            before,
                            k + 1,
                            "VariableImpl::try_parse"@,
                            r,
                        ),
                    }
                },
            }
        }
    }

    /// Reads a variable declaration with its initialiser, if it has one.
    #[verifier::spinoff_prover]
    #[verifier::rlimit(50)]
    pub fn try_parse(tokenizer: &mut Tokenizer) -> (r: Result<Option<Self>, ParserError>)
        requires
            old(tokenizer).wf(),
        ensures
            parsed(old(tokenizer), final(tokenizer), r),
            follows(variable_opening(old(tokenizer)), r),
            r matches Ok(Some(node)) ==> node.slice.within(old(tokenizer).source()) && spans(
                old(tokenizer),
                node.slice,
            ),
            VariableDecl::read(old(tokenizer), false, VariableImpl::head_of(r)),
            r matches Ok(Some(var)) ==> VariableDecl::read(old(tokenizer), true, Ok(Some(var.decl))),
            VariableImpl::bare(old(tokenizer), final(tokenizer), r),
            scanned(final(tokenizer), r) == VariableImpl::scan(old(tokenizer).source(), old(tokenizer).cursor()),
    {
        let decl = match VariableDecl::try_parse(tokenizer)? {
            Some(decl) => decl,
            None => {
                return Ok(None);
            },
        };
        proof {
            if let Some(head) = VariableDecl::plain(old(tokenizer)) {
                lemma_stream_shift(old(tokenizer).source(), old(tokenizer).cursor(), head.1, 0);
                lemma_stream_shift(old(tokenizer).source(), old(tokenizer).cursor(), head.1, 1);
                lemma_stream_shift(
                    old(tokenizer).source(),
                    old(tokenizer).cursor(),
                    head.1 + 1,
                    0,
                );
                lemma_stream_shift(
                    old(tokenizer).source(),
                    old(tokenizer).cursor(),
                    head.1 + 1,
                    1,
                );
                Expr::lemma_sole_shift(old(tokenizer), tokenizer, head.1, 1);
            }
        }
        let mut init: Option<Expr> = None;
        if accept_symbol(tokenizer, Symbol::Assign)? {
            match Expr::try_parse(tokenizer)? {
                Some(expr) => {
                    init = Some(expr);
                },
                None => {
                    return Err(unexpected_next(tokenizer, "VariableImpl::try_parse"));
                },
            }
        }
        let end = match &init {
            Some(expr) => expr.slice.duplicate(),
            None => decl.slice.duplicate(),
        };
        Ok(Some(VariableImpl { slice: decl.slice.merge(&end), decl, init }))
    }
}

} // verus!
