//! Function declarations and implementations.

use std::sync::Arc;
use vstd::prelude::*;

use super::VariableList;
use crate::parse_tree::stmt::Block;
use crate::parse_tree::{went, at_keyword, at_symbol, found_at, needs_keyword, needs_name, needs_symbol, or_stay, past, reached, refusal, scanned, tok, covers, spans, accept_keyword, accept_keywords, accept_symbol, advances, comes_keyword, refused, either, exported_function_opening, follows, function_opening, lemma_stream_shift, parsed, took, peek_slice, require_identifier, require_keyword, require_symbol, unexpected_next, ParserError};
use crate::tokenizer::token::{Keyword, Symbol, Token, TokenKind};
use crate::tokenizer::{read_end, token_from, TokenizeError, Tokenizer};
use crate::parse_tree::ty::Type;
use crate::string::StringSlice;

verus! {

#[derive(Debug, PartialEq, Eq)]
pub struct FunctionImpl {
    pub slice: StringSlice,
    pub export: bool,
    pub decl: FunctionDecl,
    pub block: Block,
}

/// The head of a function. With a `base`, the function is stored as the
/// member `name` of the variable `base`.
#[derive(Debug, PartialEq, Eq)]
pub struct FunctionDecl {
    pub slice: StringSlice,
    pub base: Option<String>,
    pub name: String,
    pub generics: Option<VariableList>,
    pub this: bool,
    pub this_ty: Option<Type>,
    pub params: Option<VariableList>,
    pub ty: Option<Type>,
}

impl FunctionDecl {
    /// The names of the parameters, in order.
    pub open spec fn param_names(&self) -> Seq<String> {
        match self.params {
            Some(list) => Seq::new(list.values.len() as nat, |i: int| list.values[i].name),
            None => Seq::empty(),
        }
    }

    /// The names of the parameters, in order.
    pub fn parameters(&self) -> (r: Vec<String>)
        ensures
            r@ == self.param_names(),
    {
        let mut names: Vec<String> = Vec::new();
        if let Some(list) = &self.params {
            let len: usize = list.values.len();
            let mut i: usize = 0;
            while i < len
                invariant
                    len == list.values.len(),
                    i <= len,
                    names@.len() == i,
                    forall|k: int| 0 <= k < i ==> names@[k] == list.values[k].name,
                decreases len - i,
            {
                names.push(list.values[i].name.clone());
                i = i + 1;
            }
        }
        assert(names@ =~= self.param_names());
        names
    }
}

impl FunctionDecl {
    /// What reading the head of a function comes to at the cursor `c`,
    /// behind `export function` if `export` says so and behind `function`
    /// if not.
    pub open spec fn scan(src: Arc<str>, c: nat, export: bool) -> Result<Option<nat>, ParserError> {
        if export {
            match tok(src, c) {
                Err(e) => Err(ParserError::TokenizeError(e)),
                Ok(one) => if one.kind != TokenKind::Keyword(Keyword::Export) {
                    Ok(None)
                } else {
                    match token_from(src, c, 1) {
                        Err(e) => Err(ParserError::TokenizeError(e)),
                        Ok(two) => if two.kind == TokenKind::Keyword(Keyword::Function) {
                            found_at(FunctionDecl::scan_base(src, read_end(src@, c, 2)))
                        } else {
                            Ok(None)
                        },
                    }
                },
            }
        } else {
            match at_keyword(src, c, Keyword::Function) {
                Err(e) => Err(e),
                Ok(false) => Ok(None),
                Ok(true) => found_at(FunctionDecl::scan_base(src, past(src, c))),
            }
        }
    }

    /// What reading what follows `function` comes to: the name, a second
    /// name behind a dot, names in brackets, the parameters in
    /// parentheses, and a type behind a colon.
    pub open spec fn scan_base(src: Arc<str>, c: nat) -> Result<nat, ParserError> {
        let location = "FunctionDecl::parse_base"@;
        match needs_name(src, c, location) {
            Err(e) => Err(e),
            Ok(c1) => match FunctionDecl::scan_member(src, c1) {
                Err(e) => Err(e),
                Ok(c2) => match VariableList::scan_bracketed(src, c2, location) {
                    Err(e) => Err(e),
                    Ok(c3) => match needs_symbol(src, c3, Symbol::ParenOpen, location) {
                        Err(e) => Err(e),
                        Ok(c4) => match FunctionDecl::scan_params(src, c4) {
                            Err(e) => Err(e),
                            Ok(c5) => FunctionDecl::scan_result(src, c5),
                        },
                    },
                },
            },
        }
    }

    /// What reading a dot and the name of the member, which may be left
    /// out, comes to.
    pub open spec fn scan_member(src: Arc<str>, c: nat) -> Result<nat, ParserError> {
        match at_symbol(src, c, Symbol::Dot) {
            Err(e) => Err(e),
            Ok(false) => Ok(c),
            Ok(true) => needs_name(src, past(src, c), "FunctionDecl::parse_base"@),
        }
    }

    /// What reading the parameters up to the closing parenthesis comes to:
    /// `this` with its type if it has one comes first if it is there, and a
    /// comma must then stand before the other parameters.
    pub open spec fn scan_params(src: Arc<str>, c: nat) -> Result<nat, ParserError> {
        let location = "FunctionDecl::parse_base"@;
        match at_keyword(src, c, Keyword::This) {
            Err(e) => Err(e),
            Ok(this) => {
                let typed = if this {
                    or_stay(Type::scan(src, past(src, c)), past(src, c))
                } else {
                    Ok(c)
                };
                match typed {
                    Err(e) => Err(e),
                    Ok(c1) => match at_symbol(src, c1, Symbol::ParenClose) {
                        Err(e) => Err(e),
                        Ok(true) => Ok(past(src, c1)),
                        Ok(false) => {
                            let separated = if this {
                                needs_symbol(src, c1, Symbol::Comma, location)
                            } else {
                                Ok(c1)
                            };
                            match separated {
                                Err(e) => Err(e),
                                Ok(c2) => match or_stay(VariableList::scan(src, c2), c2) {
                                    Err(e) => Err(e),
                                    Ok(c3) => needs_symbol(src, c3, Symbol::ParenClose, location),
                                },
                            }
                        },
                    },
                }
            },
        }
    }

    /// What reading a colon and the type of the result, which may be left
    /// out, comes to.
    pub open spec fn scan_result(src: Arc<str>, c: nat) -> Result<nat, ParserError> {
        match at_symbol(src, c, Symbol::Colon) {
            Err(e) => Err(e),
            Ok(false) => Ok(c),
            Ok(true) => match Type::scan(src, past(src, c)) {
                Err(e) => Err(e),
                Ok(None) => Err(refusal(src, past(src, c), "FunctionDecl::parse_base"@)),
                Ok(Some(c1)) => Ok(c1),
            },
        }
    }
}

impl FunctionImpl {
    /// What reading a function with its body comes to at the cursor `c`.
    pub open spec fn scan(src: Arc<str>, c: nat) -> Result<Option<nat>, ParserError> {
        let location = "FunctionImpl::try_parse"@;
        let head = match FunctionDecl::scan(src, c, true) {
            Ok(None) => FunctionDecl::scan(src, c, false),
            other => other,
        };
        match head {
            Ok(Some(c1)) => match Block::scan(src, c1) {
                Err(e) => Err(e),
                Ok(None) => Err(refusal(src, c1, location)),
                Ok(Some(c2)) => found_at(needs_keyword(src, c2, Keyword::End, location)),
            },
            other => other,
        }
    }

    /// The head of the function that `r` holds, if it holds one.
    pub open spec fn head_of(r: Result<Option<FunctionImpl>, ParserError>) -> Result<
        Option<FunctionDecl>,
        ParserError,
    > {
        match r {
            Err(e) => Err(e),
            Ok(Some(function)) => Ok(Some(function.decl)),
            Ok(None) => Ok(None),
        }
    }

    /// Reads a function with its body: the head, a block, `end`.
    pub fn try_parse(tokenizer: &mut Tokenizer) -> (r: Result<Option<Self>, ParserError>)
        requires
            old(tokenizer).wf(),
        ensures
            parsed(old(tokenizer), final(tokenizer), r),
            follows(either(exported_function_opening(old(tokenizer)), function_opening(old(tokenizer))), r),
            r matches Ok(Some(node)) ==> node.slice.within(old(tokenizer).source()) && spans(
                old(tokenizer),
                node.slice,
            ),
            r matches Ok(Some(function)) ==> function.export == comes_keyword(
                old(tokenizer),
                0,
                Keyword::Export,
            ),
            FunctionDecl::read(
                old(tokenizer),
                comes_keyword(old(tokenizer), 0, Keyword::Export),
                FunctionImpl::head_of(r),
            ),
            scanned(final(tokenizer), r) == FunctionImpl::scan(old(tokenizer).source(), old(tokenizer).cursor()),
    {
        let (decl, export) = match FunctionDecl::try_parse_with_export(tokenizer)? {
            Some(decl) => (decl, true),
            None => match FunctionDecl::try_parse(tokenizer)? {
                Some(decl) => (decl, false),
                None => {
                    return Ok(None);
                },
            },
        };
        let block = match Block::try_parse(tokenizer)? {
            Some(block) => block,
            None => {
                return Err(unexpected_next(tokenizer, "FunctionImpl::try_parse"));
            },
        };
        let end = require_keyword(tokenizer, Keyword::End, "FunctionImpl::try_parse")?;
        Ok(Some(FunctionImpl { slice: decl.slice.merge(&end), export, decl, block }))
    }
}

impl FunctionDecl {
    /// Reads the head of an exported function: `export function ...`.
    pub fn try_parse_with_export(tokenizer: &mut Tokenizer) -> (r: Result<
        Option<Self>,
        ParserError,
    >)
        requires
            old(tokenizer).wf(),
        ensures
            parsed(old(tokenizer), final(tokenizer), r),
            follows(exported_function_opening(old(tokenizer)), r),
            r matches Ok(Some(node)) ==> node.slice.within(old(tokenizer).source()) && spans(
                old(tokenizer),
                node.slice,
            ),
            FunctionDecl::read(old(tokenizer), true, r),
            comes_keyword(old(tokenizer), 0, Keyword::Export) && comes_keyword(
                old(tokenizer),
                1,
                Keyword::Function,
            ) ==> (old(tokenizer).ahead(0) matches Ok(first) && FunctionDecl::simple(
                old(tokenizer),
                final(tokenizer),
                2,
                first.slice,
                r,
            )),
            scanned(final(tokenizer), r) == FunctionDecl::scan(old(tokenizer).source(), old(tokenizer).cursor(), true),
    {
        proof {
            lemma_stream_shift(old(tokenizer).source(), old(tokenizer).cursor(), 2, 3);
            lemma_stream_shift(old(tokenizer).source(), old(tokenizer).cursor(), 5, 0);
        }
        proof {
            lemma_stream_shift(old(tokenizer).source(), old(tokenizer).cursor(), 2, 0);
            lemma_stream_shift(old(tokenizer).source(), old(tokenizer).cursor(), 2, 1);
            lemma_stream_shift(old(tokenizer).source(), old(tokenizer).cursor(), 2, 2);
        }
        let start = peek_slice(tokenizer)?;
        if !accept_keywords(tokenizer, Keyword::Export, Keyword::Function)? {
            return Ok(None);
        }
        Ok(Some(Self::parse_base(tokenizer, start)?))
    }

    /// Reads the head of a function: `function ...`.
    pub fn try_parse(tokenizer: &mut Tokenizer) -> (r: Result<Option<Self>, ParserError>)
        requires
            old(tokenizer).wf(),
        ensures
            parsed(old(tokenizer), final(tokenizer), r),
            follows(function_opening(old(tokenizer)), r),
            r matches Ok(Some(node)) ==> node.slice.within(old(tokenizer).source()) && spans(
                old(tokenizer),
                node.slice,
            ),
            FunctionDecl::read(old(tokenizer), false, r),
            comes_keyword(old(tokenizer), 0, Keyword::Function) ==> (old(tokenizer).ahead(
                0,
            ) matches Ok(first) && FunctionDecl::simple(
                old(tokenizer),
                final(tokenizer),
                1,
                first.slice,
                r,
            )),
            scanned(final(tokenizer), r) == FunctionDecl::scan(old(tokenizer).source(), old(tokenizer).cursor(), false),
    {
        proof {
            lemma_stream_shift(old(tokenizer).source(), old(tokenizer).cursor(), 1, 3);
            lemma_stream_shift(old(tokenizer).source(), old(tokenizer).cursor(), 4, 0);
        }
        proof {
            lemma_stream_shift(old(tokenizer).source(), old(tokenizer).cursor(), 1, 0);
            lemma_stream_shift(old(tokenizer).source(), old(tokenizer).cursor(), 1, 1);
            lemma_stream_shift(old(tokenizer).source(), old(tokenizer).cursor(), 1, 2);
        }
        let start = peek_slice(tokenizer)?;
        if !accept_keyword(tokenizer, Keyword::Function)? {
            return Ok(None);
        }
        Ok(Some(Self::parse_base(tokenizer, start)?))
    }

    /// The name and the base of `decl` are those that the three tokens
    /// behind `function` spell: `first` alone names a function; `first`, a
    /// dot and a second name give a member of `first`.
    pub open spec fn named(
        first: String,
        second: Result<Token, TokenizeError>,
        third: Result<Token, TokenizeError>,
        decl: FunctionDecl,
    ) -> bool {
        if second matches Ok(dot) && dot.kind == TokenKind::Symbol(Symbol::Dot) {
            &&& decl.base == Some(first)
            &&& third matches Ok(member)
            &&& member.kind == TokenKind::Identifier(decl.name)
        } else {
            decl.base is None && decl.name == first
        }
    }

    /// The head of the function `name` that has no base, no type
    /// parameters, no parameters and no type of the result.
    pub open spec fn bare(slice: StringSlice, name: String) -> FunctionDecl {
        FunctionDecl {
            slice,
            base: None,
            name,
            generics: None,
            this: false,
            this_ty: None,
            params: None,
            ty: None,
        }
    }

    /// Where the tokens from place `k` on, where the keywords end, are a
    /// name, `(`, `)` and a token that is no colon, the head is the bare
    /// head of that name, it spans the tokens from `start` to the closing
    /// parenthesis, and the tokens up to that parenthesis are consumed.
    pub open spec fn simple(
        before: &Tokenizer,
        after: &Tokenizer,
        k: nat,
        start: StringSlice,
        r: Result<Option<FunctionDecl>, ParserError>,
    ) -> bool {
        match (before.ahead(k), before.ahead(k + 1), before.ahead(k + 2), before.ahead(k + 3)) {
            (Ok(one), Ok(two), Ok(three), Ok(four)) => one.kind matches TokenKind::Identifier(name)
                ==> (two.kind == TokenKind::Symbol(Symbol::ParenOpen) && three.kind
                == TokenKind::Symbol(Symbol::ParenClose) && four.kind != TokenKind::Symbol(
                Symbol::Colon,
            ) ==> r == Ok::<Option<FunctionDecl>, ParserError>(
                Some(FunctionDecl::bare(start.spec_merge(&three.slice), name)),
            ) && took(before, after, k + 3)),
            _ => true,
        }
    }

    /// What reading the head of a function comes to, as far as the tokens
    /// from place `k` on decide, where the keywords end: a name must come
    /// there, and a head that is read has the name and the base that the
    /// tokens spell.
    pub open spec fn headed(
        tokenizer: &Tokenizer,
        k: nat,
        r: Result<Option<FunctionDecl>, ParserError>,
    ) -> bool {
        match tokenizer.ahead(k) {
            Ok(Token { kind: TokenKind::Identifier(first), .. }) => r matches Ok(found)
                ==> found matches Some(decl) && FunctionDecl::named(
                first,
                tokenizer.ahead(k + 1),
                tokenizer.ahead(k + 2),
                decl,
            ),
            _ => refused(tokenizer, k, "FunctionDecl::parse_base"@, r),
        }
    }

    /// What reading the head of a function comes to, exported or not.
    pub open spec fn read(tokenizer: &Tokenizer, export: bool, r: Result<Option<FunctionDecl>, ParserError>) -> bool {
        if export {
            comes_keyword(tokenizer, 0, Keyword::Export) && comes_keyword(
                tokenizer,
                1,
                Keyword::Function,
            ) ==> FunctionDecl::headed(tokenizer, 2, r)
        } else {
            comes_keyword(tokenizer, 0, Keyword::Function) ==> FunctionDecl::headed(tokenizer, 1, r)
        }
    }

    /// Reads the parameters up to the closing parenthesis, which is
    /// consumed: `this` first, with its type if it has one, if the function
    /// takes it; then the other parameters, behind a comma if `this` came
    /// before. Returns whether `this` was there, its type, the other
    /// parameters and the span of the parenthesis.
    #[verifier::spinoff_prover]
    #[verifier::rlimit(50)]
    fn parse_params(tokenizer: &mut Tokenizer) -> (r: Result<
        (bool, Option<Type>, Option<VariableList>, StringSlice),
        ParserError,
    >)
        requires
            old(tokenizer).wf(),
        ensures
            r matches Ok(found) ==> advances(old(tokenizer), final(tokenizer), true)
                && found.3.within(old(tokenizer).source()),
            reached(final(tokenizer), r) == FunctionDecl::scan_params(
                old(tokenizer).source(),
                old(tokenizer).cursor(),
            ),
            old(tokenizer).ahead(0) matches Ok(token) ==> (token.kind == TokenKind::Symbol(
                Symbol::ParenClose,
            ) ==> r == Ok::<(bool, Option<Type>, Option<VariableList>, StringSlice), ParserError>(
                (false, None, None, token.slice),
            ) && took(old(tokenizer), final(tokenizer), 1)),
    {
        let this = accept_keyword(tokenizer, Keyword::This)?;
        let mut this_ty: Option<Type> = None;
        if this {
            this_ty = Type::try_parse(tokenizer)?;
        }
        let mut params: Option<VariableList> = None;
        let mut end = peek_slice(tokenizer)?;
        if !accept_symbol(tokenizer, Symbol::ParenClose)? {
            if this {
                require_symbol(tokenizer, Symbol::Comma, "FunctionDecl::parse_base")?;
            }
            params = VariableList::try_parse(tokenizer)?;
            end = require_symbol(tokenizer, Symbol::ParenClose, "FunctionDecl::parse_base")?;
        }
        Ok((this, this_ty, params, end))
    }

    /// Reads the type of the result behind a colon, if a colon is there,
    /// and returns it with the span up to which the head reaches: that of
    /// the type, or `end` where there is none.
    fn parse_result(tokenizer: &mut Tokenizer, end: StringSlice) -> (r: Result<
        (Option<Type>, StringSlice),
        ParserError,
    >)
        requires
            old(tokenizer).wf(),
            end.within(old(tokenizer).source()),
        ensures
            r matches Ok(found) ==> went(old(tokenizer), final(tokenizer)) && found.1.within(
                old(tokenizer).source(),
            ),
            reached(final(tokenizer), r) == FunctionDecl::scan_result(
                old(tokenizer).source(),
                old(tokenizer).cursor(),
            ),
            old(tokenizer).ahead(0) matches Ok(token) ==> (token.kind != TokenKind::Symbol(
                Symbol::Colon,
            ) ==> r == Ok::<(Option<Type>, StringSlice), ParserError>((None, end))
                && final(tokenizer).cursor() == old(tokenizer).cursor()),
    {
        if accept_symbol(tokenizer, Symbol::Colon)? {
            return match Type::try_parse(tokenizer)? {
                Some(found) => {
                    let end = found.slice.duplicate();
                    Ok((Some(found), end))
                },
                None => Err(unexpected_next(tokenizer, "FunctionDecl::parse_base")),
            };
        }
        Ok((None, end))
    }

    /// Reads what follows `function`: the name, with a base before it if
    /// the function is a member; type parameters in brackets; the
    /// parameters in parentheses, `this` first if the function takes it;
    /// and the type of the result after a colon.
    #[verifier::spinoff_prover]
    #[verifier::rlimit(50)]
    fn parse_base(tokenizer: &mut Tokenizer, start: StringSlice) -> (r: Result<Self, ParserError>)
        requires
            old(tokenizer).wf(),
            start.within(old(tokenizer).source()),
        ensures
            r matches Ok(decl) ==> advances(old(tokenizer), final(tokenizer), true)
                && decl.slice.within(old(tokenizer).source()) && covers(decl.slice, start),
            match old(tokenizer).ahead(0) {
                Err(e) => r matches Err(error) && error == ParserError::TokenizeError(e),
                Ok(token) => if !(token.kind is Identifier) {
                    r matches Err(error) && error == ParserError::unexpected(
                        token,
                        "FunctionDecl::parse_base"@,
                    )
                } else {
                    r matches Ok(decl) ==> FunctionDecl::named(
                        token.kind->Identifier_0,
                        old(tokenizer).ahead(1),
                        old(tokenizer).ahead(2),
                        decl,
                    )
                },
            },
            FunctionDecl::simple(
                old(tokenizer),
                final(tokenizer),
                0,
                start,
                match r {
                    Ok(decl) => Ok(Some(decl)),
                    Err(e) => Err(e),
                },
            ),
            reached(final(tokenizer), r) == FunctionDecl::scan_base(
                old(tokenizer).source(),
                old(tokenizer).cursor(),
            ),
    {
        let (first, _) = require_identifier(tokenizer, "FunctionDecl::parse_base")?;
        let mut name = first;
        let mut base: Option<String> = None;
        proof {
            lemma_stream_shift(old(tokenizer).source(), old(tokenizer).cursor(), 1, 0);
            lemma_stream_shift(old(tokenizer).source(), old(tokenizer).cursor(), 1, 1);
            lemma_stream_shift(old(tokenizer).source(), old(tokenizer).cursor(), 2, 0);
            lemma_stream_shift(old(tokenizer).source(), old(tokenizer).cursor(), 2, 1);
            lemma_stream_shift(old(tokenizer).source(), old(tokenizer).cursor(), 3, 0);
        }
        if accept_symbol(tokenizer, Symbol::Dot)? {
            let (member, _) = require_identifier(tokenizer, "FunctionDecl::parse_base")?;
            base = Some(name);
            name = member;
        }
        let mut generics: Option<VariableList> = None;
        if accept_symbol(tokenizer, Symbol::BracketOpen)? {
            generics = VariableList::try_parse(tokenizer)?;
            require_symbol(tokenizer, Symbol::BracketClose, "FunctionDecl::parse_base")?;
        }
        require_symbol(tokenizer, Symbol::ParenOpen, "FunctionDecl::parse_base")?;
        let (this, this_ty, params, close) = Self::parse_params(tokenizer)?;
        let (ty, end) = Self::parse_result(tokenizer, close)?;
        Ok(FunctionDecl { slice: start.merge(&end), base, name, generics, this, this_ty, params, ty })
    }
}

} // verus!
