//! Type annotations. They inform the reader and have no effect at run time.

use std::sync::Arc;
use vstd::prelude::*;

use super::{at, at_keyword, at_symbol, moves, needs_symbol, past, reached, refusal, scanned, stuck, covers, spans, accept_identifier, accept_keyword, accept_symbol, advances, begins_type, comes, comes_keyword, comes_name, comes_symbol, follows, lemma_stream_shift, refused, opens, opens_keyword, opens_symbol, parsed, peek_slice, require_symbol, took, type_opening, unexpected_next, ParserError};
use crate::string::StringSlice;
use crate::tokenizer::token::{Keyword, Symbol, Token, TokenKind};
use crate::tokenizer::Tokenizer;

verus! {

#[derive(Debug, PartialEq, Eq)]
pub struct Type {
    pub slice: StringSlice,
    pub kind: TypeKind,
}

#[derive(Debug, PartialEq, Eq)]
pub enum TypeKind {
    Value(ValueType),
    Function(FunctionType),
    Or(Vec<Type>),
    And(Vec<Type>),
    Prototype(Arc<Type>),
    Class,
    This,
    NoneType,
}

/// A named type with its type arguments.
#[derive(Debug, PartialEq, Eq)]
pub struct ValueType {
    pub slice: StringSlice,
    pub name: String,
    pub generics: Vec<Type>,
}

#[derive(Debug, PartialEq, Eq)]
pub struct FunctionType {
    pub slice: StringSlice,
    pub params: Vec<Type>,
    pub ret: Option<Arc<Type>>,
}

impl Type {
    /// What reading a type at the cursor `c` comes to: the cursor behind
    /// the type, nothing where no type begins, or the error.
    pub open spec fn scan(src: Arc<str>, c: nat) -> Result<Option<nat>, ParserError>
        decreases src@.len() - c, 70nat,
    {
        Type::scan_and(src, c)
    }

    /// What reading types joined by `and` comes to.
    pub open spec fn scan_and(src: Arc<str>, c: nat) -> Result<Option<nat>, ParserError>
        decreases src@.len() - c, 60nat,
    {
        match Type::scan_or(src, c) {
            Ok(Some(c1)) => if moves(src, c, c1) {
                Type::scan_joined(src, c1, true)
            } else {
                Err(stuck())
            },
            other => other,
        }
    }

    /// What reading types joined by `or` comes to.
    pub open spec fn scan_or(src: Arc<str>, c: nat) -> Result<Option<nat>, ParserError>
        decreases src@.len() - c, 50nat,
    {
        match Type::scan_basic(src, c) {
            Ok(Some(c1)) => if moves(src, c, c1) {
                Type::scan_joined(src, c1, false)
            } else {
                Err(stuck())
            },
            other => other,
        }
    }

    /// What reading the further types behind a type comes to, `c` being
    /// the cursor behind the types read so far: as long as the joining
    /// keyword follows, `and` if `and` says so and `or` if not, a further
    /// type must follow it.
    pub open spec fn scan_joined(src: Arc<str>, c: nat, and: bool) -> Result<
        Option<nat>,
        ParserError,
    >
        decreases src@.len() - c, 0nat,
    {
        let keyword = if and {
            Keyword::And
        } else {
            Keyword::Or
        };
        let location = if and {
            "Type::try_parse_and"@
        } else {
            "Type::try_parse_or"@
        };
        match at_keyword(src, c, keyword) {
            Err(e) => Err(e),
            Ok(false) => Ok(Some(c)),
            Ok(true) => {
                let c1 = past(src, c);
                if !moves(src, c, c1) {
                    Err(stuck())
                } else {
                    let next = if and {
                        Type::scan_or(src, c1)
                    } else {
                        Type::scan_basic(src, c1)
                    };
                    match next {
                        Err(e) => Err(e),
                        Ok(None) => Err(refusal(src, c1, location)),
                        Ok(Some(c2)) => if moves(src, c1, c2) {
                            Type::scan_joined(src, c2, and)
                        } else {
                            Err(stuck())
                        },
                    }
                }
            },
        }
    }

    /// What reading a type that is not joined from others comes to.
    pub open spec fn scan_basic(src: Arc<str>, c: nat) -> Result<Option<nat>, ParserError>
        decreases src@.len() - c, 40nat,
    {
        match Type::scan_paren(src, c) {
            Ok(None) => match FunctionType::scan(src, c) {
                Ok(None) => match Type::scan_value(src, c) {
                    Ok(None) => match Type::scan_prototype(src, c) {
                        Ok(None) => match at(src, c, |kind: TokenKind| Type::is_plain(kind)) {
                            Err(e) => Err(e),
                            Ok(true) => Ok(Some(past(src, c))),
                            Ok(false) => Ok(None),
                        },
                        other => other,
                    },
                    other => other,
                },
                other => other,
            },
            other => other,
        }
    }

    /// What reading a list of types up to the closing symbol `close` comes
    /// to: the cursor behind `close`, or the error.
    pub open spec fn scan_list(src: Arc<str>, c: nat, close: Symbol, location: Seq<char>) -> Result<
        nat,
        ParserError,
    >
        decreases src@.len() - c, 80nat,
    {
        match at_symbol(src, c, close) {
            Err(e) => Err(e),
            Ok(true) => Ok(past(src, c)),
            Ok(false) => Type::scan_items(src, c, close, location),
        }
    }

    /// What reading the types of a list comes to from a type on: behind
    /// each type the closing symbol ends the list, or a comma must follow,
    /// behind which the closing symbol ends the list or a type must follow.
    pub open spec fn scan_items(src: Arc<str>, c: nat, close: Symbol, location: Seq<char>) -> Result<
        nat,
        ParserError,
    >
        decreases src@.len() - c, 75nat,
    {
        match Type::scan(src, c) {
            Err(e) => Err(e),
            Ok(None) => Err(refusal(src, c, location)),
            Ok(Some(c1)) => match at_symbol(src, c1, close) {
                Err(e) => Err(e),
                Ok(true) => Ok(past(src, c1)),
                Ok(false) => match needs_symbol(src, c1, Symbol::Comma, location) {
                    Err(e) => Err(e),
                    Ok(c2) => match at_symbol(src, c2, close) {
                        Err(e) => Err(e),
                        Ok(true) => Ok(past(src, c2)),
                        Ok(false) => if moves(src, c, c2) {
                            Type::scan_items(src, c2, close, location)
                        } else {
                            Err(stuck())
                        },
                    },
                },
            },
        }
    }

    /// What reading a named type with its arguments comes to.
    pub open spec fn scan_value(src: Arc<str>, c: nat) -> Result<Option<nat>, ParserError>
        decreases src@.len() - c, 30nat,
    {
        match at(src, c, |kind: TokenKind| kind is Identifier) {
            Err(e) => Err(e),
            Ok(false) => Ok(None),
            Ok(true) => {
                let c1 = past(src, c);
                match at_symbol(src, c1, Symbol::BracketOpen) {
                    Err(e) => Err(e),
                    Ok(false) => Ok(Some(c1)),
                    Ok(true) => if moves(src, c, past(src, c1)) {
                        match Type::scan_list(
                            src,
                            past(src, c1),
                            Symbol::BracketClose,
                            "Type::try_parse_value"@,
                        ) {
                            Err(e) => Err(e),
                            Ok(c2) => Ok(Some(c2)),
                        }
                    } else {
                        Err(stuck())
                    },
                }
            },
        }
    }

    /// What reading a type that must stand at the cursor `c`, with the
    /// symbol `close` behind it, comes to.
    pub open spec fn scan_inside(
        src: Arc<str>,
        from: nat,
        c: nat,
        close: Symbol,
        location: Seq<char>,
    ) -> Result<Option<nat>, ParserError>
        decreases src@.len() - from, 20nat,
    {
        if !moves(src, from, c) {
            Err(stuck())
        } else {
            match Type::scan(src, c) {
                Err(e) => Err(e),
                Ok(None) => Err(refusal(src, c, location)),
                Ok(Some(c1)) => match needs_symbol(src, c1, close, location) {
                    Err(e) => Err(e),
                    Ok(c2) => Ok(Some(c2)),
                },
            }
        }
    }

    /// What reading a type in parentheses comes to.
    pub open spec fn scan_paren(src: Arc<str>, c: nat) -> Result<Option<nat>, ParserError>
        decreases src@.len() - c, 30nat,
    {
        match at_symbol(src, c, Symbol::ParenOpen) {
            Err(e) => Err(e),
            Ok(false) => Ok(None),
            Ok(true) => Type::scan_inside(
                src,
                c,
                past(src, c),
                Symbol::ParenClose,
                "Type::try_parse_paren"@,
            ),
        }
    }

    /// What reading a prototype type comes to.
    pub open spec fn scan_prototype(src: Arc<str>, c: nat) -> Result<Option<nat>, ParserError>
        decreases src@.len() - c, 30nat,
    {
        match at_keyword(src, c, Keyword::Prototype) {
            Err(e) => Err(e),
            Ok(false) => Ok(None),
            Ok(true) => match needs_symbol(
                src,
                past(src, c),
                Symbol::BracketOpen,
                "Type::try_parse_prototype"@,
            ) {
                Err(e) => Err(e),
                Ok(c1) => Type::scan_inside(
                    src,
                    c,
                    c1,
                    Symbol::BracketClose,
                    "Type::try_parse_prototype"@,
                ),
            },
        }
    }
}

impl FunctionType {
    /// What reading a function type comes to.
    pub open spec fn scan(src: Arc<str>, c: nat) -> Result<Option<nat>, ParserError>
        decreases src@.len() - c, 30nat,
    {
        match at_keyword(src, c, Keyword::Function) {
            Err(e) => Err(e),
            Ok(false) => Ok(None),
            Ok(true) => match needs_symbol(
                src,
                past(src, c),
                Symbol::ParenOpen,
                "FunctionType::try_parse"@,
            ) {
                Err(e) => Err(e),
                Ok(c1) => if !moves(src, c, c1) {
                    Err(stuck())
                } else {
                    match Type::scan_list(src, c1, Symbol::ParenClose, "FunctionType::try_parse"@) {
                        Err(e) => Err(e),
                        Ok(c2) => if !moves(src, c, c2) {
                            Err(stuck())
                        } else {
                            match Type::scan(src, c2) {
                                Err(e) => Err(e),
                                Ok(None) => Ok(Some(c2)),
                                Ok(Some(c3)) => Ok(Some(c3)),
                            }
                        },
                    }
                },
            },
        }
    }
}

impl Type {
    /// A token of this kind spells a type by itself: a name, `class`,
    /// `this` or `none`.
    pub open spec fn is_plain(kind: TokenKind) -> bool {
        ||| kind is Identifier
        ||| kind == TokenKind::Keyword(Keyword::Class)
        ||| kind == TokenKind::Keyword(Keyword::This)
        ||| kind == TokenKind::Keyword(Keyword::NoneKeyword)
    }

    /// The type `ty` is the one that `token` spells by itself: it has the
    /// span of the token, and it is the named type without arguments, or
    /// the type of the keyword.
    pub open spec fn spelled(token: Token, ty: Type) -> bool {
        &&& ty.slice == token.slice
        &&& match token.kind {
            TokenKind::Keyword(Keyword::Class) => ty.kind is Class,
            TokenKind::Keyword(Keyword::This) => ty.kind is This,
            TokenKind::Keyword(Keyword::NoneKeyword) => ty.kind is NoneType,
            TokenKind::Identifier(name) => ty.kind matches TypeKind::Value(value) && value.name
                == name && value.slice == token.slice && value.generics@.len() == 0,
            _ => false,
        }
    }

    /// A token of this kind joins a further type to a type that was read
    /// at `level`: none at the lowest level, `or` above it, `or` and `and`
    /// at the top.
    pub open spec fn joins(kind: TokenKind, level: nat) -> bool {
        ||| level >= 1 && kind == TokenKind::Keyword(Keyword::Or)
        ||| level >= 2 && kind == TokenKind::Keyword(Keyword::And)
    }

    /// The first token spells a type by itself, and the second neither
    /// opens arguments to a name nor joins a further type at `level`.
    pub open spec fn single(tokenizer: &Tokenizer, level: nat) -> bool {
        match (tokenizer.ahead(0), tokenizer.ahead(1)) {
            (Ok(first), Ok(second)) => {
                &&& Type::is_plain(first.kind)
                &&& !Type::joins(second.kind, level)
                &&& first.kind is Identifier ==> second.kind != TokenKind::Symbol(
                    Symbol::BracketOpen,
                )
            },
            _ => false,
        }
    }

    /// Where one token spells the type, the type is the one that the token
    /// spells, and that token alone is consumed.
    pub open spec fn plain(
        before: &Tokenizer,
        after: &Tokenizer,
        r: Result<Option<Type>, ParserError>,
        level: nat,
    ) -> bool {
        Type::single(before, level) ==> {
            &&& r matches Ok(Some(ty))
            &&& before.ahead(0) matches Ok(first)
            &&& Type::spelled(first, ty)
            &&& took(before, after, 1)
        }
    }

    /// The kind of type that the first token calls for, if a type is read.
    pub open spec fn kinded(tokenizer: &Tokenizer, r: Result<Option<Type>, ParserError>) -> bool {
        tokenizer.ahead(0) matches Ok(first) ==> (r matches Ok(Some(ty)) ==> match first.kind {
            TokenKind::Keyword(Keyword::Function) => ty.kind is Function,
            TokenKind::Keyword(Keyword::Prototype) => ty.kind is Prototype,
            TokenKind::Keyword(Keyword::Class) => ty.kind is Class,
            TokenKind::Keyword(Keyword::This) => ty.kind is This,
            TokenKind::Keyword(Keyword::NoneKeyword) => ty.kind is NoneType,
            TokenKind::Identifier(name) => ty.kind matches TypeKind::Value(value) && value.name
                == name,
            _ => true,
        })
    }

    /// Reads a type.
    pub fn try_parse(tokenizer: &mut Tokenizer) -> (r: Result<Option<Self>, ParserError>)
        requires
            old(tokenizer).wf(),
        ensures
            parsed(old(tokenizer), final(tokenizer), r),
            follows(type_opening(old(tokenizer)), r),
            r matches Ok(Some(node)) ==> node.slice.within(old(tokenizer).source()) && spans(
                old(tokenizer),
                node.slice,
            ),
            Type::plain(old(tokenizer), final(tokenizer), r, 2),
            scanned(final(tokenizer), r) == Type::scan(old(tokenizer).source(), old(tokenizer).cursor()),
        decreases old(tokenizer).remaining(), 7nat,
    {
        Self::try_parse_and(tokenizer)
    }

    /// Joins the types of a list into one: the only type of the list as it
    /// is, more types under a span from the first to the last.
    fn join(mut tys: Vec<Type>, and: bool, Ghost(src): Ghost<Arc<str>>) -> (r: Type)
        requires
            tys@.len() > 0,
            forall|i: int| 0 <= i < tys@.len() ==> (#[trigger] tys@[i]).slice.within(src),
        ensures
            r.slice.within(src),
            tys@.len() == 1 ==> r == tys@[0],
            covers(r.slice, tys@[0].slice),
    {
        if tys.len() == 1 {
            return tys.pop().unwrap();
        }
        let slice = tys[0].slice.merge(&tys[tys.len() - 1].slice);
        Type { slice, kind: if and { TypeKind::And(tys) } else { TypeKind::Or(tys) } }
    }

    /// Reads types joined by `and`.
    #[verifier::spinoff_prover]
    #[verifier::rlimit(50)]
    pub fn try_parse_and(tokenizer: &mut Tokenizer) -> (r: Result<Option<Self>, ParserError>)
        requires
            old(tokenizer).wf(),
        ensures
            parsed(old(tokenizer), final(tokenizer), r),
            follows(type_opening(old(tokenizer)), r),
            r matches Ok(Some(node)) ==> node.slice.within(old(tokenizer).source()) && spans(
                old(tokenizer),
                node.slice,
            ),
            Type::plain(old(tokenizer), final(tokenizer), r, 2),
            scanned(final(tokenizer), r) == Type::scan_and(old(tokenizer).source(), old(tokenizer).cursor()),
        decreases old(tokenizer).remaining(), 6nat,
    {
        proof {
            lemma_stream_shift(old(tokenizer).source(), old(tokenizer).cursor(), 1, 0);
        }
        let first = match Self::try_parse_or(tokenizer)? {
            Some(ty) => ty,
            None => {
                return Ok(None);
            },
        };
        let mut tys: Vec<Type> = Vec::new();
        tys.push(first);
        while accept_keyword(tokenizer, Keyword::And)?
            invariant
                Type::scan_and(old(tokenizer).source(), old(tokenizer).cursor())
                    == Type::scan_joined(tokenizer.source(), tokenizer.cursor(), true),
                tokenizer.wf(),
                type_opening(old(tokenizer)) is Begins,
                Type::single(old(tokenizer), 2) ==> tys@.len() == 1 && Type::plain(
                    old(tokenizer),
                    tokenizer,
                    Ok(Some(tys@[0])),
                    2,
                ),
                tokenizer.source() == old(tokenizer).source(),
                tokenizer.remaining() < old(tokenizer).remaining(),
                old(tokenizer).cursor() < tokenizer.cursor() <= tokenizer.source()@.len(),
                tokenizer.consumed() > old(tokenizer).consumed(),
                tys@.len() > 0,
                spans(old(tokenizer), tys@[0].slice),
                forall|i: int|
                    0 <= i < tys@.len() ==> (#[trigger] tys@[i]).slice.within(
                        old(tokenizer).source(),
                    ),
            decreases tokenizer.remaining(),
        {
            match Self::try_parse_or(tokenizer)? {
                Some(ty) => tys.push(ty),
                None => {
                    return Err(unexpected_next(tokenizer, "Type::try_parse_and"));
                },
            }
        }
        Ok(Some(Type::join(tys, true, Ghost(tokenizer.source()))))
    }

    /// Reads types joined by `or`.
    #[verifier::spinoff_prover]
    #[verifier::rlimit(50)]
    pub fn try_parse_or(tokenizer: &mut Tokenizer) -> (r: Result<Option<Self>, ParserError>)
        requires
            old(tokenizer).wf(),
        ensures
            parsed(old(tokenizer), final(tokenizer), r),
            follows(type_opening(old(tokenizer)), r),
            r matches Ok(Some(node)) ==> node.slice.within(old(tokenizer).source()) && spans(
                old(tokenizer),
                node.slice,
            ),
            Type::plain(old(tokenizer), final(tokenizer), r, 1),
            scanned(final(tokenizer), r) == Type::scan_or(old(tokenizer).source(), old(tokenizer).cursor()),
        decreases old(tokenizer).remaining(), 5nat,
    {
        proof {
            lemma_stream_shift(old(tokenizer).source(), old(tokenizer).cursor(), 1, 0);
        }
        let first = match Self::try_parse_basic(tokenizer)? {
            Some(ty) => ty,
            None => {
                return Ok(None);
            },
        };
        let mut tys: Vec<Type> = Vec::new();
        tys.push(first);
        while accept_keyword(tokenizer, Keyword::Or)?
            invariant
                Type::scan_or(old(tokenizer).source(), old(tokenizer).cursor())
                    == Type::scan_joined(tokenizer.source(), tokenizer.cursor(), false),
                tokenizer.wf(),
                type_opening(old(tokenizer)) is Begins,
                Type::single(old(tokenizer), 1) ==> tys@.len() == 1 && Type::plain(
                    old(tokenizer),
                    tokenizer,
                    Ok(Some(tys@[0])),
                    1,
                ),
                tokenizer.source() == old(tokenizer).source(),
                tokenizer.remaining() < old(tokenizer).remaining(),
                old(tokenizer).cursor() < tokenizer.cursor() <= tokenizer.source()@.len(),
                tokenizer.consumed() > old(tokenizer).consumed(),
                tys@.len() > 0,
                spans(old(tokenizer), tys@[0].slice),
                forall|i: int|
                    0 <= i < tys@.len() ==> (#[trigger] tys@[i]).slice.within(
                        old(tokenizer).source(),
                    ),
            decreases tokenizer.remaining(),
        {
            match Self::try_parse_basic(tokenizer)? {
                Some(ty) => tys.push(ty),
                None => {
                    return Err(unexpected_next(tokenizer, "Type::try_parse_or"));
                },
            }
        }
        Ok(Some(Type::join(tys, false, Ghost(tokenizer.source()))))
    }

    /// Reads a type that is not joined from others: a type in parentheses,
    /// a function type, a named type, a prototype type, or one of `class`,
    /// `this` and `none`.
    pub fn try_parse_basic(tokenizer: &mut Tokenizer) -> (r: Result<Option<Self>, ParserError>)
        requires
            old(tokenizer).wf(),
        ensures
            parsed(old(tokenizer), final(tokenizer), r),
            follows(type_opening(old(tokenizer)), r),
            r matches Ok(Some(node)) ==> node.slice.within(old(tokenizer).source()) && spans(
                old(tokenizer),
                node.slice,
            ),
            Type::plain(old(tokenizer), final(tokenizer), r, 0),
            Type::kinded(old(tokenizer), r),
            scanned(final(tokenizer), r) == Type::scan_basic(old(tokenizer).source(), old(tokenizer).cursor()),
        decreases old(tokenizer).remaining(), 4nat,
    {
        proof {
            lemma_stream_shift(old(tokenizer).source(), old(tokenizer).cursor(), 1, 0);
        }
        if let Some(paren) = Self::try_parse_paren(tokenizer)? {
            return Ok(Some(paren));
        }
        if let Some(func) = FunctionType::try_parse(tokenizer)? {
            return Ok(Some(Type { slice: func.slice.duplicate(), kind: TypeKind::Function(func) }));
        }
        if let Some(value) = Self::try_parse_value(tokenizer)? {
            return Ok(Some(value));
        }
        if let Some(value) = Self::try_parse_prototype(tokenizer)? {
            return Ok(Some(value));
        }
        let start = peek_slice(tokenizer)?;
        if accept_keyword(tokenizer, Keyword::Class)? {
            return Ok(Some(Type { slice: start, kind: TypeKind::Class }));
        }
        if accept_keyword(tokenizer, Keyword::This)? {
            return Ok(Some(Type { slice: start, kind: TypeKind::This }));
        }
        if accept_keyword(tokenizer, Keyword::NoneKeyword)? {
            return Ok(Some(Type { slice: start, kind: TypeKind::NoneType }));
        }
        Ok(None)
    }

    /// What reading a list of types comes to where one token spells the
    /// first type: a list that is read begins with that type; where the
    /// closing token follows it, the list holds that type alone, the span
    /// is that of the closing token, and both tokens are consumed.
    pub open spec fn listed(
        before: &Tokenizer,
        after: &Tokenizer,
        close: Symbol,
        r: Result<(Vec<Type>, StringSlice), ParserError>,
    ) -> bool {
        Type::single(before, 2) ==> (before.ahead(0) matches Ok(first) ==> {
            &&& r matches Ok(list) ==> list.0@.len() >= 1 && Type::spelled(first, list.0@[0])
            &&& before.ahead(1) matches Ok(second) ==> (second.kind == TokenKind::Symbol(close)
                ==> {
                &&& r matches Ok(list)
                &&& list.0@.len() == 1
                &&& list.1 == second.slice
                &&& took(before, after, 2)
            })
        })
    }

    /// Reads types separated by commas up to the closing token `close`,
    /// which is consumed, and returns them with the span of that token.
    #[verifier::spinoff_prover]
    #[verifier::rlimit(50)]
    fn parse_list(tokenizer: &mut Tokenizer, close: Symbol, throwing_location: &str) -> (r: Result<
        (Vec<Type>, StringSlice),
        ParserError,
    >)
        requires
            old(tokenizer).wf(),
        ensures
            r matches Ok(list) ==> advances(old(tokenizer), final(tokenizer), true)
                && list.1.within(old(tokenizer).source()),
            match old(tokenizer).ahead(0) {
                Err(e) => r matches Err(error) && error == ParserError::TokenizeError(e),
                Ok(token) => if token.kind == TokenKind::Symbol(close) {
                    &&& r matches Ok(list)
                    &&& list.0@.len() == 0
                    &&& list.1 == token.slice
                    &&& took(old(tokenizer), final(tokenizer), 1)
                } else if !begins_type(token.kind) {
                    r matches Err(error) && error == ParserError::unexpected(
                        token,
                        throwing_location@,
                    )
                } else {
                    !(r matches Ok(list) && list.0@.len() == 0)
                },
            },
            Type::listed(old(tokenizer), final(tokenizer), close, r),
            reached(final(tokenizer), r) == Type::scan_list(
                old(tokenizer).source(),
                old(tokenizer).cursor(),
                close,
                throwing_location@,
            ),
        decreases old(tokenizer).remaining(), 8nat,
    {
        proof {
            lemma_stream_shift(old(tokenizer).source(), old(tokenizer).cursor(), 1, 0);
            lemma_stream_shift(old(tokenizer).source(), old(tokenizer).cursor(), 1, 1);
        }
        let mut tys: Vec<Type> = Vec::new();
        let mut end = peek_slice(tokenizer)?;
        let mut done: bool = accept_symbol(tokenizer, close)?;
        while !done
            invariant
                Type::scan_list(
                    old(tokenizer).source(),
                    old(tokenizer).cursor(),
                    close,
                    throwing_location@,
                ) == if done {
                    Ok::<nat, ParserError>(tokenizer.cursor())
                } else {
                    Type::scan_items(
                        tokenizer.source(),
                        tokenizer.cursor(),
                        close,
                        throwing_location@,
                    )
                },
                tokenizer.wf(),
                end.within(old(tokenizer).source()),
                tokenizer.source() == old(tokenizer).source(),
                tokenizer.remaining() <= old(tokenizer).remaining(),
                old(tokenizer).cursor() <= tokenizer.cursor() <= tokenizer.source()@.len(),
                tokenizer.consumed() >= old(tokenizer).consumed(),
                done ==> tokenizer.remaining() < old(tokenizer).remaining(),
                done ==> old(tokenizer).cursor() < tokenizer.cursor(),
                done ==> tokenizer.consumed() > old(tokenizer).consumed(),
                old(tokenizer).ahead(0) is Ok,
                old(tokenizer).ahead(0)->Ok_0.kind == TokenKind::Symbol(close) ==> done
                    && tys@.len() == 0 && end == old(tokenizer).ahead(0)->Ok_0.slice && took(
                    old(tokenizer),
                    tokenizer,
                    1,
                ),
                old(tokenizer).ahead(0)->Ok_0.kind != TokenKind::Symbol(close) && tys@.len() == 0
                    ==> !done && tokenizer.cursor() == old(tokenizer).cursor(),
                tys@.len() > 0 ==> begins_type(old(tokenizer).ahead(0)->Ok_0.kind) && old(tokenizer).ahead(0)->Ok_0.kind != TokenKind::Symbol(close),
                Type::single(old(tokenizer), 2) && tys@.len() > 0 ==> Type::spelled(
                    old(tokenizer).ahead(0)->Ok_0,
                    tys@[0],
                ),
                Type::single(old(tokenizer), 2) && comes_symbol(old(tokenizer), 1, close)
                    && tys@.len() > 0 ==> {
                    &&& done
                    &&& tys@.len() == 1
                    &&& old(tokenizer).ahead(1) matches Ok(second) && end == second.slice
                    &&& took(old(tokenizer), tokenizer, 2)
                },
            decreases tokenizer.remaining() + if done { 0nat } else { 1nat },
        {
            match Type::try_parse(tokenizer)? {
                Some(ty) => tys.push(ty),
                None => {
                    return Err(unexpected_next(tokenizer, throwing_location));
                },
            }
            end = peek_slice(tokenizer)?;
            if accept_symbol(tokenizer, close)? {
                done = true;
            } else {
                require_symbol(tokenizer, Symbol::Comma, throwing_location)?;
                end = peek_slice(tokenizer)?;
                done = accept_symbol(tokenizer, close)?;
            }
        }
        Ok((tys, end))
    }

    /// Reads a named type with its type arguments, if it has any: `name`
    /// or `name[types]`.
    #[verifier::spinoff_prover]
    #[verifier::rlimit(50)]
    pub fn try_parse_value(tokenizer: &mut Tokenizer) -> (r: Result<Option<Self>, ParserError>)
        requires
            old(tokenizer).wf(),
        ensures
            parsed(old(tokenizer), final(tokenizer), r),
            follows(opens(old(tokenizer), |kind: TokenKind| kind is Identifier), r),
            r matches Ok(Some(node)) ==> node.slice.within(old(tokenizer).source()) && spans(
                old(tokenizer),
                node.slice,
            ),
            comes_name(old(tokenizer), 0) ==> Type::plain(old(tokenizer), final(tokenizer), r, 0),
            Type::kinded(old(tokenizer), r),
            comes_name(old(tokenizer), 0) && comes_symbol(old(tokenizer), 1, Symbol::BracketOpen)
                && !comes(old(tokenizer), 2, |kind: TokenKind| begins_type(kind))
                && !comes_symbol(old(tokenizer), 2, Symbol::BracketClose) ==> refused(
                old(tokenizer),
                2,
                "Type::try_parse_value"@,
                r,
            ),
            scanned(final(tokenizer), r) == Type::scan_value(old(tokenizer).source(), old(tokenizer).cursor()),
        decreases old(tokenizer).remaining(), 3nat,
    {
        proof {
            lemma_stream_shift(old(tokenizer).source(), old(tokenizer).cursor(), 1, 0);
            lemma_stream_shift(old(tokenizer).source(), old(tokenizer).cursor(), 1, 1);
            lemma_stream_shift(old(tokenizer).source(), old(tokenizer).cursor(), 2, 0);
        }
        let start = peek_slice(tokenizer)?;
        let name = match accept_identifier(tokenizer)? {
            Some(name) => name,
            None => {
                return Ok(None);
            },
        };
        if accept_symbol(tokenizer, Symbol::BracketOpen)? {
            let (generics, end) = Type::parse_list(
                tokenizer,
                Symbol::BracketClose,
                "Type::try_parse_value",
            )?;
            let slice = start.merge(&end);
            return Ok(
                Some(
                    Type {
                        slice: slice.duplicate(),
                        kind: TypeKind::Value(ValueType { slice, name, generics }),
                    },
                ),
            );
        }
        Ok(
            Some(
                Type {
                    slice: start.duplicate(),
                    kind: TypeKind::Value(ValueType { slice: start, name, generics: Vec::new() }),
                },
            ),
        )
    }

    /// Reads a type in parentheses.
    pub fn try_parse_paren(tokenizer: &mut Tokenizer) -> (r: Result<Option<Self>, ParserError>)
        requires
            old(tokenizer).wf(),
        ensures
            parsed(old(tokenizer), final(tokenizer), r),
            follows(opens_symbol(old(tokenizer), Symbol::ParenOpen), r),
            r matches Ok(Some(node)) ==> node.slice.within(old(tokenizer).source()) && spans(
                old(tokenizer),
                node.slice,
            ),
            comes_symbol(old(tokenizer), 0, Symbol::ParenOpen) && !comes(
                old(tokenizer),
                1,
                |kind: TokenKind| begins_type(kind),
            ) ==> refused(old(tokenizer), 1, "Type::try_parse_paren"@, r),
            scanned(final(tokenizer), r) == Type::scan_paren(old(tokenizer).source(), old(tokenizer).cursor()),
        decreases old(tokenizer).remaining(), 3nat,
    {
        proof {
            lemma_stream_shift(old(tokenizer).source(), old(tokenizer).cursor(), 1, 0);
        }
        let start = peek_slice(tokenizer)?;
        if !accept_symbol(tokenizer, Symbol::ParenOpen)? {
            return Ok(None);
        }
        let ty = match Type::try_parse(tokenizer)? {
            Some(ty) => ty,
            None => {
                return Err(unexpected_next(tokenizer, "Type::try_parse_paren"));
            },
        };
        let end = require_symbol(tokenizer, Symbol::ParenClose, "Type::try_parse_paren")?;
        Ok(Some(Type { slice: start.merge(&end), kind: ty.kind }))
    }

    /// Reads a prototype type: `prototype[type]`.
    pub fn try_parse_prototype(tokenizer: &mut Tokenizer) -> (r: Result<Option<Self>, ParserError>)
        requires
            old(tokenizer).wf(),
        ensures
            parsed(old(tokenizer), final(tokenizer), r),
            follows(opens_keyword(old(tokenizer), Keyword::Prototype), r),
            r matches Ok(Some(node)) ==> node.slice.within(old(tokenizer).source()) && spans(
                old(tokenizer),
                node.slice,
            ),
            Type::kinded(old(tokenizer), r),
            comes_keyword(old(tokenizer), 0, Keyword::Prototype) ==> if !comes_symbol(
                old(tokenizer),
                1,
                Symbol::BracketOpen,
            ) {
                refused(old(tokenizer), 1, "Type::try_parse_prototype"@, r)
            } else {
                !comes(old(tokenizer), 2, |kind: TokenKind| begins_type(kind)) ==> refused(
                    old(tokenizer),
                    2,
                    "Type::try_parse_prototype"@,
                    r,
                )
            },
            scanned(final(tokenizer), r) == Type::scan_prototype(old(tokenizer).source(), old(tokenizer).cursor()),
        decreases old(tokenizer).remaining(), 3nat,
    {
        proof {
            lemma_stream_shift(old(tokenizer).source(), old(tokenizer).cursor(), 1, 0);
            lemma_stream_shift(old(tokenizer).source(), old(tokenizer).cursor(), 1, 1);
            lemma_stream_shift(old(tokenizer).source(), old(tokenizer).cursor(), 2, 0);
        }
        let start = peek_slice(tokenizer)?;
        if !accept_keyword(tokenizer, Keyword::Prototype)? {
            return Ok(None);
        }
        require_symbol(tokenizer, Symbol::BracketOpen, "Type::try_parse_prototype")?;
        let ty = match Type::try_parse(tokenizer)? {
            Some(ty) => ty,
            None => {
                return Err(unexpected_next(tokenizer, "Type::try_parse_prototype"));
            },
        };
        let end = require_symbol(tokenizer, Symbol::BracketClose, "Type::try_parse_prototype")?;
        Ok(Some(Type { slice: start.merge(&end), kind: TypeKind::Prototype(Arc::new(ty)) }))
    }
}

impl FunctionType {
    /// What reading a function type comes to where its three first tokens
    /// are `function`, `(` and `)`: it has no parameters; it has a type of
    /// the result where a type begins behind them, and only there; where
    /// none begins, it is read, it spans the three tokens, and they alone
    /// are consumed.
    pub open spec fn bare(before: &Tokenizer, after: &Tokenizer, r: Result<Option<FunctionType>, ParserError>) -> bool {
        match (before.ahead(0), before.ahead(1), before.ahead(2)) {
            (Ok(first), Ok(second), Ok(third)) => first.kind == TokenKind::Keyword(
                Keyword::Function,
            ) && second.kind == TokenKind::Symbol(Symbol::ParenOpen) && third.kind
                == TokenKind::Symbol(Symbol::ParenClose) ==> match before.ahead(3) {
                Err(e) => r matches Err(error) && error == ParserError::TokenizeError(e),
                Ok(fourth) => if begins_type(fourth.kind) {
                    r matches Ok(found) ==> found matches Some(function)
                        && function.params@.len() == 0 && function.ret is Some
                } else {
                    &&& r matches Ok(Some(function))
                    &&& function.params@.len() == 0
                    &&& function.ret is None
                    &&& function.slice == first.slice.spec_merge(&third.slice)
                    &&& took(before, after, 3)
                },
            },
            _ => true,
        }
    }

    /// Reads a function type: `function(types)` and the type of the
    /// result, if one follows.
    pub fn try_parse(tokenizer: &mut Tokenizer) -> (r: Result<Option<Self>, ParserError>)
        requires
            old(tokenizer).wf(),
        ensures
            parsed(old(tokenizer), final(tokenizer), r),
            follows(opens_keyword(old(tokenizer), Keyword::Function), r),
            r matches Ok(Some(node)) ==> node.slice.within(old(tokenizer).source()) && spans(
                old(tokenizer),
                node.slice,
            ),
            comes_keyword(old(tokenizer), 0, Keyword::Function) ==> if !comes_symbol(
                old(tokenizer),
                1,
                Symbol::ParenOpen,
            ) {
                refused(old(tokenizer), 1, "FunctionType::try_parse"@, r)
            } else {
                !comes(old(tokenizer), 2, |kind: TokenKind| begins_type(kind)) && !comes_symbol(
                    old(tokenizer),
                    2,
                    Symbol::ParenClose,
                ) ==> refused(old(tokenizer), 2, "FunctionType::try_parse"@, r)
            },
            FunctionType::bare(old(tokenizer), final(tokenizer), r),
            scanned(final(tokenizer), r) == FunctionType::scan(old(tokenizer).source(), old(tokenizer).cursor()),
        decreases old(tokenizer).remaining(), 3nat,
    {
        proof {
            lemma_stream_shift(old(tokenizer).source(), old(tokenizer).cursor(), 1, 0);
            lemma_stream_shift(old(tokenizer).source(), old(tokenizer).cursor(), 1, 1);
            lemma_stream_shift(old(tokenizer).source(), old(tokenizer).cursor(), 2, 0);
        }
        let start = peek_slice(tokenizer)?;
        if !accept_keyword(tokenizer, Keyword::Function)? {
            return Ok(None);
        }
        require_symbol(tokenizer, Symbol::ParenOpen, "FunctionType::try_parse")?;
        let (params, end) = Type::parse_list(
            tokenizer,
            Symbol::ParenClose,
            "FunctionType::try_parse",
        )?;
        proof {
            lemma_stream_shift(old(tokenizer).source(), old(tokenizer).cursor(), 3, 0);
        }
        let ret = Type::try_parse(tokenizer)?;
        let end = match &ret {
            Some(ty) => ty.slice.duplicate(),
            None => end,
        };
        Ok(
            Some(
                FunctionType {
                    slice: start.merge(&end),
                    params,
                    ret: match ret {
                        Some(ty) => Some(Arc::new(ty)),
                        None => None,
                    },
                },
            ),
        )
    }
}

} // verus!
