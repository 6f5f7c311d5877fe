//! Declarations.

use std::sync::Arc;
use vstd::prelude::*;

use super::ty::Type;
use super::{at, at_keyword, at_symbol, found_at, moves, needs, needs_keyword, needs_symbol, or_stay, past, refusal, scanned, stuck, spans, accept_identifier, accept_keyword, accept_symbol, comes, comes_keyword, follows, lemma_stream_shift, member_opening, refused, opens, opens_keyword, parsed, peek_slice, require_keyword, require_string, took, unexpected_next, ParserError};
use crate::string::StringSlice;
use crate::tokenizer::token::{Keyword, Symbol, Token, TokenKind};
use crate::tokenizer::{TokenizeError, Tokenizer};
use class::ClassDecl;
use function::FunctionDecl;
use variable::VariableDecl;

pub mod class;
pub mod function;
pub mod import;
pub mod variable;

verus! {

/// A declaration without a body, written for tools: `declare ...`.
#[derive(Debug, PartialEq, Eq)]
pub struct IdeDecl {
    pub slice: StringSlice,
    pub kind: IdeDeclKind,
}

#[derive(Debug, PartialEq, Eq)]
pub enum IdeDeclKind {
    Function(FunctionDecl),
    Class(ClassDecl),
    Variable(VariableDecl),
    Module(IdeModule),
}

#[derive(Debug, PartialEq, Eq)]
pub struct IdeModule {
    pub slice: StringSlice,
    pub name: String,
    pub values: Vec<IdeDecl>,
}

/// A name with an optional type annotation.
#[derive(Debug, PartialEq, Eq)]
pub struct VariableName {
    pub slice: StringSlice,
    pub name: String,
    pub ty: Option<Type>,
}

#[derive(Debug, PartialEq, Eq)]
pub struct VariableList {
    pub slice: StringSlice,
    pub values: Vec<VariableName>,
}

impl VariableName {
    /// What reading a name with its type comes to at the cursor `c`.
    pub open spec fn scan(src: Arc<str>, c: nat) -> Result<Option<nat>, ParserError> {
        match at(src, c, |kind: TokenKind| kind is Identifier) {
            Err(e) => Err(e),
            Ok(false) => Ok(None),
            Ok(true) => {
                let c1 = past(src, c);
                match at_symbol(src, c1, Symbol::Colon) {
                    Err(e) => Err(e),
                    Ok(false) => Ok(Some(c1)),
                    Ok(true) => match Type::scan(src, past(src, c1)) {
                        Err(e) => Err(e),
                        Ok(None) => Err(refusal(src, past(src, c1), "VariableName::try_parse"@)),
                        Ok(Some(c2)) => Ok(Some(c2)),
                    },
                }
            },
        }
    }
}

impl VariableList {
    /// What reading names separated by commas comes to at the cursor `c`.
    pub open spec fn scan(src: Arc<str>, c: nat) -> Result<Option<nat>, ParserError> {
        match VariableName::scan(src, c) {
            Ok(Some(c1)) => VariableList::scan_names(src, c1),
            other => other,
        }
    }

    /// What reading the further names comes to, `c` being the cursor
    /// behind the names read so far: behind each comma a name must follow.
    pub open spec fn scan_names(src: Arc<str>, c: nat) -> Result<Option<nat>, ParserError>
        decreases src@.len() - c,
    {
        match at_symbol(src, c, Symbol::Comma) {
            Err(e) => Err(e),
            Ok(false) => Ok(Some(c)),
            Ok(true) => match VariableName::scan(src, past(src, c)) {
                Err(e) => Err(e),
                Ok(None) => Err(refusal(src, past(src, c), "VariableList::try_parse"@)),
                Ok(Some(c2)) => if moves(src, c, c2) {
                    VariableList::scan_names(src, c2)
                } else {
                    Err(stuck())
                },
            },
        }
    }

    /// What reading names in brackets, which may be left out, comes to at
    /// the cursor `c`: the cursor behind the closing bracket, or `c`.
    pub open spec fn scan_bracketed(src: Arc<str>, c: nat, location: Seq<char>) -> Result<
        nat,
        ParserError,
    > {
        match at_symbol(src, c, Symbol::BracketOpen) {
            Err(e) => Err(e),
            Ok(false) => Ok(c),
            Ok(true) => match or_stay(VariableList::scan(src, past(src, c)), past(src, c)) {
                Err(e) => Err(e),
                Ok(c1) => needs_symbol(src, c1, Symbol::BracketClose, location),
            },
        }
    }
}

impl IdeDecl {
    /// What reading a declaration for tools comes to at the cursor `c`.
    pub open spec fn scan(src: Arc<str>, c: nat) -> Result<Option<nat>, ParserError> {
        match at_keyword(src, c, Keyword::Declare) {
            Err(e) => Err(e),
            Ok(false) => Ok(None),
            Ok(true) => {
                let c1 = past(src, c);
                match ClassDecl::scan(src, c1) {
                    Ok(None) => match VariableDecl::scan(src, c1) {
                        Ok(None) => match IdeModule::scan(src, c1) {
                            Ok(None) => match FunctionDecl::scan(src, c1, false) {
                                Ok(None) => Err(refusal(src, c1, "IdeDecl::try_parse"@)),
                                other => other,
                            },
                            other => other,
                        },
                        other => other,
                    },
                    other => other,
                }
            },
        }
    }

    /// What reading a declaration inside a declared module comes to.
    pub open spec fn scan_member(src: Arc<str>, c: nat) -> Result<Option<nat>, ParserError> {
        match ClassDecl::scan(src, c) {
            Ok(None) => match VariableDecl::scan(src, c) {
                Ok(None) => FunctionDecl::scan(src, c, false),
                other => other,
            },
            other => other,
        }
    }
}

impl IdeModule {
    /// What reading a declared module comes to at the cursor `c`.
    pub open spec fn scan(src: Arc<str>, c: nat) -> Result<Option<nat>, ParserError> {
        let location = "IdeModule::try_parse"@;
        match at_keyword(src, c, Keyword::Module) {
            Err(e) => Err(e),
            Ok(false) => Ok(None),
            Ok(true) => match needs(src, past(src, c), |kind: TokenKind| kind is String, location) {
                Err(e) => Err(e),
                Ok(c1) => match needs_keyword(src, c1, Keyword::Is, location) {
                    Err(e) => Err(e),
                    Ok(c2) => IdeModule::scan_members(src, c2),
                },
            },
        }
    }

    /// What reading the declarations of a module comes to from the cursor
    /// `c` on: declarations are read as long as one begins, and `end`
    /// must follow them.
    pub open spec fn scan_members(src: Arc<str>, c: nat) -> Result<Option<nat>, ParserError>
        decreases src@.len() - c,
    {
        match IdeDecl::scan_member(src, c) {
            Err(e) => Err(e),
            Ok(Some(c1)) => if moves(src, c, c1) {
                IdeModule::scan_members(src, c1)
            } else {
                Err(stuck())
            },
            Ok(None) => found_at(needs_keyword(src, c, Keyword::End, "IdeModule::try_parse"@)),
        }
    }
}

impl IdeDecl {
    /// The token `n` places ahead is `keyword`, or it is `export` and
    /// `keyword` follows it.
    pub open spec fn comes_exportable(tokenizer: &Tokenizer, n: nat, keyword: Keyword) -> bool {
        ||| comes_keyword(tokenizer, n, keyword)
        ||| comes_keyword(tokenizer, n, Keyword::Export) && comes_keyword(tokenizer, n + 1, keyword)
    }

    /// The declaration `decl` is of the kind that the tokens from place
    /// `n` on call for.
    pub open spec fn kinded(tokenizer: &Tokenizer, n: nat, decl: IdeDecl) -> bool {
        match decl.kind {
            IdeDeclKind::Class(_) => IdeDecl::comes_exportable(tokenizer, n, Keyword::Class),
            IdeDeclKind::Variable(var) => if var.is_const {
                IdeDecl::comes_exportable(tokenizer, n, Keyword::Const)
            } else {
                IdeDecl::comes_exportable(tokenizer, n, Keyword::Let)
            },
            IdeDeclKind::Module(_) => comes_keyword(tokenizer, n, Keyword::Module),
            IdeDeclKind::Function(_) => comes_keyword(tokenizer, n, Keyword::Function),
        }
    }

    /// A token of this kind may begin what is declared.
    pub open spec fn begins_declared(kind: TokenKind) -> bool {
        ||| kind == TokenKind::Keyword(Keyword::Class)
        ||| kind == TokenKind::Keyword(Keyword::Export)
        ||| kind == TokenKind::Keyword(Keyword::Let)
        ||| kind == TokenKind::Keyword(Keyword::Const)
        ||| kind == TokenKind::Keyword(Keyword::Module)
        ||| kind == TokenKind::Keyword(Keyword::Function)
    }

    /// What reading a declaration for tools comes to, as far as the tokens
    /// behind `declare` decide: one that begins nothing that can be
    /// declared is refused, and what is read is of the kind that they
    /// call for.
    pub open spec fn declared(tokenizer: &Tokenizer, r: Result<Option<IdeDecl>, ParserError>) -> bool {
        comes_keyword(tokenizer, 0, Keyword::Declare) ==> if !comes(
            tokenizer,
            1,
            |kind: TokenKind| IdeDecl::begins_declared(kind),
        ) {
            refused(tokenizer, 1, "IdeDecl::try_parse"@, r)
        } else {
            r matches Ok(found) ==> found matches Some(decl) && IdeDecl::kinded(tokenizer, 1, decl)
        }
    }

    /// The declaration `decl` of a member is what the tokens call for: of
    /// their kind, with the span of what it holds, and what it holds is
    /// what reading that alone comes to.
    pub open spec fn member(tokenizer: &Tokenizer, decl: IdeDecl) -> bool {
        &&& IdeDecl::kinded(tokenizer, 0, decl)
        &&& match decl.kind {
            IdeDeclKind::Class(class) => decl.slice == class.slice && ClassDecl::headed(
                tokenizer,
                Ok(Some(class)),
            ),
            IdeDeclKind::Variable(var) => decl.slice == var.slice && VariableDecl::read(tokenizer, true, Ok(Some(var))),
            IdeDeclKind::Function(function) => decl.slice == function.slice && FunctionDecl::read(
                tokenizer,
                false,
                Ok(Some(function)),
            ),
            IdeDeclKind::Module(_) => false,
        }
    }

    /// Reads a declaration for tools: `declare` and a class, a variable, a
    /// module or a function without a body.
    #[verifier::spinoff_prover]
    #[verifier::rlimit(50)]
    pub fn try_parse(tokenizer: &mut Tokenizer) -> (r: Result<Option<Self>, ParserError>)
        requires
            old(tokenizer).wf(),
        ensures
            parsed(old(tokenizer), final(tokenizer), r),
            follows(opens_keyword(old(tokenizer), Keyword::Declare), r),
            r matches Ok(Some(node)) ==> node.slice.within(old(tokenizer).source()) && spans(
                old(tokenizer),
                node.slice,
            ),
            IdeDecl::declared(old(tokenizer), r),
            scanned(final(tokenizer), r) == IdeDecl::scan(old(tokenizer).source(), old(tokenizer).cursor()),
    {
        proof {
            lemma_stream_shift(old(tokenizer).source(), old(tokenizer).cursor(), 1, 0);
            lemma_stream_shift(old(tokenizer).source(), old(tokenizer).cursor(), 1, 1);
        }
        let start = peek_slice(tokenizer)?;
        if !accept_keyword(tokenizer, Keyword::Declare)? {
            return Ok(None);
        }
        if let Some(decl) = ClassDecl::try_parse(tokenizer)? {
            return Ok(Some(IdeDecl { slice: start.merge(&decl.slice), kind: IdeDeclKind::Class(decl) }));
        }
        if let Some(decl) = VariableDecl::try_parse(tokenizer)? {
            return Ok(
                Some(IdeDecl { slice: start.merge(&decl.slice), kind: IdeDeclKind::Variable(decl) }),
            );
        }
        if let Some(decl) = IdeModule::try_parse(tokenizer)? {
            return Ok(
                Some(IdeDecl { slice: start.merge(&decl.slice), kind: IdeDeclKind::Module(decl) }),
            );
        }
        match FunctionDecl::try_parse(tokenizer)? {
            Some(decl) => Ok(
                Some(IdeDecl { slice: start.merge(&decl.slice), kind: IdeDeclKind::Function(decl) }),
            ),
            None => Err(unexpected_next(tokenizer, "IdeDecl::try_parse")),
        }
    }

    /// Reads a declaration inside a declared module, where `declare` is
    /// left out.
    fn try_parse_no_declare(tokenizer: &mut Tokenizer) -> (r: Result<Option<Self>, ParserError>)
        requires
            old(tokenizer).wf(),
        ensures
            parsed(old(tokenizer), final(tokenizer), r),
            follows(member_opening(old(tokenizer)), r),
            r matches Ok(Some(node)) ==> node.slice.within(old(tokenizer).source()) && spans(
                old(tokenizer),
                node.slice,
            ),
            r matches Ok(Some(decl)) ==> IdeDecl::member(old(tokenizer), decl),
            scanned(final(tokenizer), r) == IdeDecl::scan_member(old(tokenizer).source(), old(tokenizer).cursor()),
    {
        if let Some(decl) = ClassDecl::try_parse(tokenizer)? {
            return Ok(Some(IdeDecl { slice: decl.slice.duplicate(), kind: IdeDeclKind::Class(decl) }));
        }
        if let Some(decl) = VariableDecl::try_parse(tokenizer)? {
            return Ok(
                Some(IdeDecl { slice: decl.slice.duplicate(), kind: IdeDeclKind::Variable(decl) }),
            );
        }
        if let Some(decl) = FunctionDecl::try_parse(tokenizer)? {
            return Ok(
                Some(IdeDecl { slice: decl.slice.duplicate(), kind: IdeDeclKind::Function(decl) }),
            );
        }
        Ok(None)
    }
}

impl IdeModule {
    /// What reading a declared module comes to, as far as its three first
    /// tokens decide: `module`, a name in quotes and `is` must come in
    /// this order, and a module that is read has that name.
    pub open spec fn headed(tokenizer: &Tokenizer, r: Result<Option<IdeModule>, ParserError>) -> bool {
        comes_keyword(tokenizer, 0, Keyword::Module) ==> match tokenizer.ahead(1) {
            Ok(Token { kind: TokenKind::String(name), .. }) => if !comes_keyword(
                tokenizer,
                2,
                Keyword::Is,
            ) {
                refused(tokenizer, 2, "IdeModule::try_parse"@, r)
            } else {
                r matches Ok(found) ==> found matches Some(module) && module.name == name
            },
            _ => refused(tokenizer, 1, "IdeModule::try_parse"@, r),
        }
    }

    /// Reads a declared module: `module "name" is` declarations `end`.
    #[verifier::spinoff_prover]
    #[verifier::rlimit(50)]
    pub fn try_parse(tokenizer: &mut Tokenizer) -> (r: Result<Option<Self>, ParserError>)
        requires
            old(tokenizer).wf(),
        ensures
            parsed(old(tokenizer), final(tokenizer), r),
            follows(opens_keyword(old(tokenizer), Keyword::Module), r),
            r matches Ok(Some(node)) ==> node.slice.within(old(tokenizer).source()) && spans(
                old(tokenizer),
                node.slice,
            ),
            IdeModule::headed(old(tokenizer), r),
            scanned(final(tokenizer), r) == IdeModule::scan(old(tokenizer).source(), old(tokenizer).cursor()),
    {
        proof {
            lemma_stream_shift(old(tokenizer).source(), old(tokenizer).cursor(), 1, 0);
            lemma_stream_shift(old(tokenizer).source(), old(tokenizer).cursor(), 1, 1);
            lemma_stream_shift(old(tokenizer).source(), old(tokenizer).cursor(), 2, 0);
        }
        let start = peek_slice(tokenizer)?;
        if !accept_keyword(tokenizer, Keyword::Module)? {
            return Ok(None);
        }
        let (name, _) = require_string(tokenizer, "IdeModule::try_parse")?;
        require_keyword(tokenizer, Keyword::Is, "IdeModule::try_parse")?;
        let mut values: Vec<IdeDecl> = Vec::new();
        let mut more: bool = true;
        while more
            invariant
                IdeModule::scan(old(tokenizer).source(), old(tokenizer).cursor()) == if more {
                    IdeModule::scan_members(tokenizer.source(), tokenizer.cursor())
                } else {
                    found_at(
                        needs_keyword(
                            tokenizer.source(),
                            tokenizer.cursor(),
                            Keyword::End,
                            "IdeModule::try_parse"@,
                        ),
                    )
                },
                tokenizer.wf(),
                opens_keyword(old(tokenizer), Keyword::Module) is Begins,
                old(tokenizer).ahead(1) matches Ok(second) && second.kind == TokenKind::String(name),
                comes_keyword(old(tokenizer), 2, Keyword::Is),
                start.within(old(tokenizer).source()),
                tokenizer.source() == old(tokenizer).source(),
                tokenizer.remaining() < old(tokenizer).remaining(),
                old(tokenizer).cursor() < tokenizer.cursor() <= tokenizer.source()@.len(),
                tokenizer.consumed() > old(tokenizer).consumed(),
            decreases tokenizer.remaining() + if more { 1nat } else { 0nat },
        {
            match IdeDecl::try_parse_no_declare(tokenizer)? {
                Some(decl) => values.push(decl),
                None => {
                    more = false;
                },
            }
        }
        let end = require_keyword(tokenizer, Keyword::End, "IdeModule::try_parse")?;
        Ok(Some(IdeModule { slice: start.merge(&end), name, values }))
    }
}

impl VariableName {
    /// The name of `node` is the one that the first token spells, and it
    /// has a type where a colon follows the name, and only there.
    pub open spec fn named(
        first: Result<Token, TokenizeError>,
        second: Result<Token, TokenizeError>,
        node: VariableName,
    ) -> bool {
        &&& first matches Ok(token)
        &&& token.kind == TokenKind::Identifier(node.name)
        &&& node.ty is Some <==> (second matches Ok(colon) && colon.kind == TokenKind::Symbol(
            Symbol::Colon,
        ))
    }

    /// What reading a name comes to where no colon follows it: the name
    /// without a type, under the span of its token, which alone is
    /// consumed. Where the token behind the name cannot be read, the error
    /// of the tokenizer comes out.
    pub open spec fn untyped(before: &Tokenizer, after: &Tokenizer, r: Result<Option<VariableName>, ParserError>) -> bool {
        before.ahead(0) matches Ok(first) ==> (first.kind matches TokenKind::Identifier(name)
            ==> match before.ahead(1) {
            Err(e) => r matches Err(error) && error == ParserError::TokenizeError(e),
            Ok(second) => second.kind != TokenKind::Symbol(Symbol::Colon) ==> r == Ok::<
                Option<VariableName>,
                ParserError,
            >(Some(VariableName { slice: first.slice, name, ty: None })) && took(before, after, 1),
        })
    }

    /// Reads a name with its type, if it has one: `name` or `name: type`.
    pub fn try_parse(tokenizer: &mut Tokenizer) -> (r: Result<Option<Self>, ParserError>)
        requires
            old(tokenizer).wf(),
        ensures
            parsed(old(tokenizer), final(tokenizer), r),
            follows(opens(old(tokenizer), |kind: TokenKind| kind is Identifier), r),
            r matches Ok(Some(node)) ==> node.slice.within(old(tokenizer).source()) && spans(
                old(tokenizer),
                node.slice,
            ),
            r matches Ok(Some(node)) ==> VariableName::named(
                old(tokenizer).ahead(0),
                old(tokenizer).ahead(1),
                node,
            ),
            r matches Ok(None) ==> final(tokenizer).cursor() == old(tokenizer).cursor(),
            VariableName::untyped(old(tokenizer), final(tokenizer), r),
            scanned(final(tokenizer), r) == VariableName::scan(old(tokenizer).source(), old(tokenizer).cursor()),
    {
        let start = peek_slice(tokenizer)?;
        proof {
            lemma_stream_shift(old(tokenizer).source(), old(tokenizer).cursor(), 1, 0);
        }
        let name = match accept_identifier(tokenizer)? {
            Some(name) => name,
            None => {
                return Ok(None);
            },
        };
        let mut ty: Option<Type> = None;
        if accept_symbol(tokenizer, Symbol::Colon)? {
            match Type::try_parse(tokenizer)? {
                Some(found) => {
                    ty = Some(found);
                },
                None => {
                    return Err(unexpected_next(tokenizer, "VariableName::try_parse"));
                },
            }
        }
        let end = match &ty {
            Some(ty) => ty.slice.duplicate(),
            None => start.duplicate(),
        };
        Ok(Some(VariableName { slice: start.merge(&end), name, ty }))
    }
}

impl VariableList {
    /// Reads names separated by commas.
    #[verifier::spinoff_prover]
    #[verifier::rlimit(50)]
    pub fn try_parse(tokenizer: &mut Tokenizer) -> (r: Result<Option<Self>, ParserError>)
        requires
            old(tokenizer).wf(),
        ensures
            parsed(old(tokenizer), final(tokenizer), r),
            follows(opens(old(tokenizer), |kind: TokenKind| kind is Identifier), r),
            r matches Ok(Some(node)) ==> node.slice.within(old(tokenizer).source()) && spans(
                old(tokenizer),
                node.slice,
            ),
            r matches Ok(Some(list)) ==> list.values@.len() >= 1 && VariableName::named(
                old(tokenizer).ahead(0),
                old(tokenizer).ahead(1),
                list.values@[0],
            ),
            scanned(final(tokenizer), r) == VariableList::scan(old(tokenizer).source(), old(tokenizer).cursor()),
    {
        let start = peek_slice(tokenizer)?;
        let first = match VariableName::try_parse(tokenizer)? {
            Some(first) => first,
            None => {
                return Ok(None);
            },
        };
        let mut values: Vec<VariableName> = Vec::new();
        values.push(first);
        let mut end = start.duplicate();
        while accept_symbol(tokenizer, Symbol::Comma)?
            invariant
                VariableList::scan(old(tokenizer).source(), old(tokenizer).cursor())
                    == VariableList::scan_names(tokenizer.source(), tokenizer.cursor()),
                tokenizer.wf(),
                opens(old(tokenizer), |kind: TokenKind| kind is Identifier) is Begins,
                values@.len() >= 1 && VariableName::named(
                    old(tokenizer).ahead(0),
                    old(tokenizer).ahead(1),
                    values@[0],
                ),
                end.within(old(tokenizer).source()),
                start.within(old(tokenizer).source()),
                tokenizer.source() == old(tokenizer).source(),
                tokenizer.remaining() < old(tokenizer).remaining(),
                old(tokenizer).cursor() < tokenizer.cursor() <= tokenizer.source()@.len(),
                tokenizer.consumed() > old(tokenizer).consumed(),
            decreases tokenizer.remaining(),
        {
            match VariableName::try_parse(tokenizer)? {
                Some(var) => {
                    end = var.slice.duplicate();
                    values.push(var);
                },
                None => {
                    return Err(unexpected_next(tokenizer, "VariableList::try_parse"));
                },
            }
        }
        Ok(Some(VariableList { slice: start.merge(&end), values }))
    }
}

} // verus!
