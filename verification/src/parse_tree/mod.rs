//! The parse tree, how it is read from tokens, and its lowering to bytecode.

use vstd::prelude::*;
use vstd::string::StringExecFns;

use std::sync::Arc;

use crate::string::{owned, string_of, StringSlice};
use crate::tokenizer::token::{Keyword, Number, Symbol, Token, TokenKind};
use crate::tokenizer::{read_end, token_from, TokenizeError, Tokenizer};

pub mod decl;
pub mod expr;
pub mod stmt;
pub mod tree;
pub mod ty;

verus! {

#[derive(Debug, Clone, PartialEq, Eq)]
pub enum ParserError {
    TokenizeError(TokenizeError),
    /// A token that may not stand where it stands. `throwing_location`
    /// names the part of the grammar that met it.
    UnexpectedToken { token: Token, throwing_location: String },
}

impl ParserError {
    /// The error for `token`, met by the part of the grammar that
    /// `throwing_location` names.
    pub open spec fn unexpected(token: Token, throwing_location: Seq<char>) -> ParserError {
        ParserError::UnexpectedToken { token, throwing_location: string_of(throwing_location) }
    }

    pub fn unexpected_token(token: Token, throwing_location: &str) -> (r: Self)
        ensures
            r == ParserError::unexpected(token, throwing_location@),
            r matches ParserError::UnexpectedToken { throwing_location: location, .. }
                && location@ == throwing_location@,
    {
        ParserError::UnexpectedToken { token, throwing_location: owned(throwing_location) }
    }
}

/// An error of the tokenizer as an error of the parser.
pub open spec fn lift<T>(r: Result<T, TokenizeError>) -> Result<T, ParserError> {
    match r {
        Ok(value) => Ok(value),
        Err(e) => Err(ParserError::TokenizeError(e)),
    }
}

/// What a step of parsing may do to the tokenizer: on success it is in
/// order and reads the same text, and the cursor lies in the text and did
/// not go back. `consumed` says whether a token was consumed: if so, at
/// least one was, less is left to read and the cursor moved on; if not,
/// none was, and the tokens to come are the same.
pub open spec fn advances(before: &Tokenizer, after: &Tokenizer, consumed: bool) -> bool {
    &&& after.wf()
    &&& after.source() == before.source()
    &&& after.remaining() <= before.remaining()
    &&& before.cursor() <= after.cursor() <= after.source()@.len()
    &&& consumed ==> after.remaining() < before.remaining() && after.consumed()
        > before.consumed() && before.cursor() < after.cursor()
    &&& !consumed ==> after.consumed() == before.consumed() && after.cursor() == before.cursor()
}

/// The tokenizer is in order, reads the same text, and stands behind the
/// `n` tokens that were next.
pub open spec fn took(before: &Tokenizer, after: &Tokenizer, n: nat) -> bool {
    &&& after.wf()
    &&& after.source() == before.source()
    &&& after.cursor() == before.behind(n)
}

/// The tokenizer went on from `before` to `after`, or stayed: it is in
/// order, reads the same text, and nothing that was consumed came back.
pub open spec fn went(before: &Tokenizer, after: &Tokenizer) -> bool {
    &&& after.wf()
    &&& after.source() == before.source()
    &&& after.remaining() <= before.remaining()
    &&& after.consumed() >= before.consumed()
    &&& before.cursor() <= after.cursor() <= after.source()@.len()
}

/// The token `n` places ahead after `k` tokens were consumed is the token
/// `k + n` places ahead before.
pub proof fn lemma_stream_shift(src: Arc<str>, from: nat, k: nat, n: nat)
    ensures
        token_from(src, read_end(src@, from, k), n) == token_from(src, from, k + n),
        read_end(src@, read_end(src@, from, k), n) == read_end(src@, from, k + n),
    decreases n,
{
    assert(read_end(src@, read_end(src@, from, k), 0) == read_end(src@, from, k));
    if n > 0 {
        lemma_stream_shift(src, from, k, (n - 1) as nat);
    }
}

/// The next token, which is consumed. An error consumes nothing.
pub fn next_token(tokenizer: &mut Tokenizer) -> (r: Result<Token, ParserError>)
    requires
        old(tokenizer).wf(),
    ensures
        final(tokenizer).wf(),
        final(tokenizer).source() == old(tokenizer).source(),
        r == lift(old(tokenizer).ahead(0)),
        match r {
            Ok(token) => {
                &&& token.slice.within(old(tokenizer).source())
                &&& took(old(tokenizer), final(tokenizer), 1)
                &&& final(tokenizer).remaining() <= old(tokenizer).remaining()
                &&& !(token.kind is Eof) ==> final(tokenizer).remaining() < old(tokenizer).remaining() && final(tokenizer).consumed() > old(tokenizer).consumed() && old(tokenizer).cursor() < final(tokenizer).cursor()
                &&& old(tokenizer).cursor() <= final(tokenizer).cursor()
                    <= final(tokenizer).source()@.len()
            },
            Err(e) => final(tokenizer).cursor() == old(tokenizer).cursor(),
        },
{
    match tokenizer.next() {
        Ok(token) => Ok(token),
        Err(e) => Err(ParserError::TokenizeError(e)),
    }
}

/// The token `n` places ahead, which is not consumed.
pub fn peek_token(tokenizer: &mut Tokenizer, n: usize) -> (r: Result<Token, ParserError>)
    requires
        old(tokenizer).wf(),
    ensures
        final(tokenizer).wf(),
        final(tokenizer).source() == old(tokenizer).source(),
        final(tokenizer).cursor() == old(tokenizer).cursor(),
        final(tokenizer).consumed() == old(tokenizer).consumed(),
        r == lift(old(tokenizer).peeked(n as nat)),
        r is Ok ==> r == lift(old(tokenizer).ahead(n as nat)),
        r is Ok ==> forall|i: nat| i <= n ==> (#[trigger] old(tokenizer).ahead(i)) is Ok,
        r matches Ok(token) ==> token.slice.within(old(tokenizer).source()) && advances(
            old(tokenizer),
            final(tokenizer),
            false,
        ),
{
    match tokenizer.peek(n) {
        Ok(token) => Ok(token),
        Err(e) => Err(ParserError::TokenizeError(e)),
    }
}

/// The span of the next token.
pub fn peek_slice(tokenizer: &mut Tokenizer) -> (r: Result<StringSlice, ParserError>)
    requires
        old(tokenizer).wf(),
    ensures
        final(tokenizer).wf(),
        final(tokenizer).source() == old(tokenizer).source(),
        final(tokenizer).cursor() == old(tokenizer).cursor(),
        r == match old(tokenizer).ahead(0) {
            Ok(token) => Ok::<StringSlice, ParserError>(token.slice),
            Err(e) => Err(ParserError::TokenizeError(e)),
        },
        r matches Ok(slice) ==> advances(old(tokenizer), final(tokenizer), false) && slice.within(
            old(tokenizer).source(),
        ),
{
    Ok(peek_token(tokenizer, 0)?.slice)
}

/// Whether the token `n` places ahead is the symbol `symbol`.
pub fn peek_is_symbol(tokenizer: &mut Tokenizer, n: usize, symbol: Symbol) -> (r: Result<
    bool,
    ParserError,
>)
    requires
        old(tokenizer).wf(),
    ensures
        final(tokenizer).wf(),
        final(tokenizer).source() == old(tokenizer).source(),
        final(tokenizer).cursor() == old(tokenizer).cursor(),
        r == match old(tokenizer).peeked(n as nat) {
            Ok(token) => Ok::<bool, ParserError>(token.kind == TokenKind::Symbol(symbol)),
            Err(e) => Err(ParserError::TokenizeError(e)),
        },
        r is Ok ==> old(tokenizer).peeked(n as nat) == old(tokenizer).ahead(n as nat),
        r is Ok ==> advances(old(tokenizer), final(tokenizer), false),
{
    let token = peek_token(tokenizer, n)?;
    Ok(
        match token.kind {
            TokenKind::Symbol(found) => found == symbol,
            _ => false,
        },
    )
}

/// Whether the token `n` places ahead is the keyword `keyword`.
pub fn peek_is_keyword(tokenizer: &mut Tokenizer, n: usize, keyword: Keyword) -> (r: Result<
    bool,
    ParserError,
>)
    requires
        old(tokenizer).wf(),
    ensures
        final(tokenizer).wf(),
        final(tokenizer).source() == old(tokenizer).source(),
        final(tokenizer).cursor() == old(tokenizer).cursor(),
        r == match old(tokenizer).peeked(n as nat) {
            Ok(token) => Ok::<bool, ParserError>(token.kind == TokenKind::Keyword(keyword)),
            Err(e) => Err(ParserError::TokenizeError(e)),
        },
        r is Ok ==> old(tokenizer).peeked(n as nat) == old(tokenizer).ahead(n as nat),
        r is Ok ==> advances(old(tokenizer), final(tokenizer), false),
{
    let token = peek_token(tokenizer, n)?;
    Ok(
        match token.kind {
            TokenKind::Keyword(found) => found == keyword,
            _ => false,
        },
    )
}

/// What `accept` makes of the next token: where the token meets
/// `wanted`, it is consumed and `taken` is returned; any other token stays
/// and `left` is returned; an error of the tokenizer comes out.
pub open spec fn accepted<T>(
    before: &Tokenizer,
    after: &Tokenizer,
    r: Result<T, ParserError>,
    wanted: spec_fn(Token) -> bool,
    taken: spec_fn(Token) -> T,
    left: T,
) -> bool {
    match before.ahead(0) {
        Ok(token) => if wanted(token) {
            r == Ok::<T, ParserError>(taken(token)) && took(before, after, 1)
        } else {
            r == Ok::<T, ParserError>(left) && took(before, after, 0)
        },
        Err(e) => r == Err::<T, ParserError>(ParserError::TokenizeError(e)) && took(
            before,
            after,
            0,
        ),
    }
}

/// What `require` makes of the next token: it is consumed; where it meets
/// `wanted`, `taken` is returned, else the error that names it.
pub open spec fn required<T>(
    before: &Tokenizer,
    after: &Tokenizer,
    r: Result<T, ParserError>,
    wanted: spec_fn(Token) -> bool,
    taken: spec_fn(Token) -> T,
    throwing_location: Seq<char>,
) -> bool {
    match before.ahead(0) {
        Ok(token) => took(before, after, 1) && r == if wanted(token) {
            Ok::<T, ParserError>(taken(token))
        } else {
            Err(ParserError::unexpected(token, throwing_location))
        },
        Err(e) => r == Err::<T, ParserError>(ParserError::TokenizeError(e)) && took(
            before,
            after,
            0,
        ),
    }
}

/// Consumes the next token if it is the symbol `symbol`, and says whether
/// it was.
pub fn accept_symbol(tokenizer: &mut Tokenizer, symbol: Symbol) -> (r: Result<bool, ParserError>)
    requires
        old(tokenizer).wf(),
    ensures
        accepted(
            old(tokenizer),
            final(tokenizer),
            r,
            |token: Token| token.kind == TokenKind::Symbol(symbol),
            |token: Token| true,
            false,
        ),
        r matches Ok(found) ==> advances(old(tokenizer), final(tokenizer), found),
{
    if peek_is_symbol(tokenizer, 0, symbol)? {
        next_token(tokenizer)?;
        return Ok(true);
    }
    Ok(false)
}

/// Consumes the next token if it is the keyword `keyword`, and says
/// whether it was.
pub fn accept_keyword(tokenizer: &mut Tokenizer, keyword: Keyword) -> (r: Result<
    bool,
    ParserError,
>)
    requires
        old(tokenizer).wf(),
    ensures
        accepted(
            old(tokenizer),
            final(tokenizer),
            r,
            |token: Token| token.kind == TokenKind::Keyword(keyword),
            |token: Token| true,
            false,
        ),
        r matches Ok(found) ==> advances(old(tokenizer), final(tokenizer), found),
{
    if peek_is_keyword(tokenizer, 0, keyword)? {
        next_token(tokenizer)?;
        return Ok(true);
    }
    Ok(false)
}

/// Consumes the next token if it is an identifier, and returns its name.
pub fn accept_identifier(tokenizer: &mut Tokenizer) -> (r: Result<Option<String>, ParserError>)
    requires
        old(tokenizer).wf(),
    ensures
        accepted(
            old(tokenizer),
            final(tokenizer),
            r,
            |token: Token| token.kind is Identifier,
            |token: Token| Some(token.kind->Identifier_0),
            None,
        ),
        r matches Ok(found) ==> advances(old(tokenizer), final(tokenizer), found is Some),
{
    let token = peek_token(tokenizer, 0)?;
    if let TokenKind::Identifier(name) = token.kind {
        next_token(tokenizer)?;
        return Ok(Some(name));
    }
    Ok(None)
}

/// Consumes the next token if it is a string, and returns its text.
pub fn accept_string(tokenizer: &mut Tokenizer) -> (r: Result<Option<String>, ParserError>)
    requires
        old(tokenizer).wf(),
    ensures
        accepted(
            old(tokenizer),
            final(tokenizer),
            r,
            |token: Token| token.kind is String,
            |token: Token| Some(token.kind->String_0),
            None,
        ),
        r matches Ok(found) ==> advances(old(tokenizer), final(tokenizer), found is Some),
{
    let token = peek_token(tokenizer, 0)?;
    if let TokenKind::String(text) = token.kind {
        next_token(tokenizer)?;
        return Ok(Some(text));
    }
    Ok(None)
}

/// Consumes the next token if it is a number, and returns it.
pub fn accept_number(tokenizer: &mut Tokenizer) -> (r: Result<Option<Number>, ParserError>)
    requires
        old(tokenizer).wf(),
    ensures
        accepted(
            old(tokenizer),
            final(tokenizer),
            r,
            |token: Token| token.kind is Number,
            |token: Token| Some(token.kind->Number_0),
            None,
        ),
        r matches Ok(found) ==> advances(old(tokenizer), final(tokenizer), found is Some),
{
    let token = peek_token(tokenizer, 0)?;
    if let TokenKind::Number(number) = token.kind {
        next_token(tokenizer)?;
        return Ok(Some(number));
    }
    Ok(None)
}

/// Consumes the next token, which must be the symbol `symbol`, and returns
/// its span.
pub fn require_symbol(tokenizer: &mut Tokenizer, symbol: Symbol, throwing_location: &str) -> (r:
    Result<StringSlice, ParserError>)
    requires
        old(tokenizer).wf(),
    ensures
        final(tokenizer).wf(),
        final(tokenizer).source() == old(tokenizer).source(),
        required(
            old(tokenizer),
            final(tokenizer),
            r,
            |token: Token| token.kind == TokenKind::Symbol(symbol),
            |token: Token| token.slice,
            throwing_location@,
        ),
        r matches Ok(slice) ==> advances(old(tokenizer), final(tokenizer), true) && slice.within(
            old(tokenizer).source(),
        ),
{
    let token = next_token(tokenizer)?;
    match token.kind {
        TokenKind::Symbol(found) if found == symbol => Ok(token.slice),
        _ => Err(ParserError::unexpected_token(token, throwing_location)),
    }
}

/// Consumes the next token, which must be the keyword `keyword`, and
/// returns its span.
pub fn require_keyword(tokenizer: &mut Tokenizer, keyword: Keyword, throwing_location: &str) -> (r:
    Result<StringSlice, ParserError>)
    requires
        old(tokenizer).wf(),
    ensures
        final(tokenizer).wf(),
        final(tokenizer).source() == old(tokenizer).source(),
        required(
            old(tokenizer),
            final(tokenizer),
            r,
            |token: Token| token.kind == TokenKind::Keyword(keyword),
            |token: Token| token.slice,
            throwing_location@,
        ),
        r matches Ok(slice) ==> advances(old(tokenizer), final(tokenizer), true) && slice.within(
            old(tokenizer).source(),
        ),
{
    let token = next_token(tokenizer)?;
    match token.kind {
        TokenKind::Keyword(found) if found == keyword => Ok(token.slice),
        _ => Err(ParserError::unexpected_token(token, throwing_location)),
    }
}

/// Consumes the next token, which must be an identifier, and returns its
/// name and its span.
pub fn require_identifier(tokenizer: &mut Tokenizer, throwing_location: &str) -> (r: Result<
    (String, StringSlice),
    ParserError,
>)
    requires
        old(tokenizer).wf(),
    ensures
        final(tokenizer).wf(),
        final(tokenizer).source() == old(tokenizer).source(),
        required(
            old(tokenizer),
            final(tokenizer),
            r,
            |token: Token| token.kind is Identifier,
            |token: Token| (token.kind->Identifier_0, token.slice),
            throwing_location@,
        ),
        r matches Ok(found) ==> advances(old(tokenizer), final(tokenizer), true)
            && found.1.within(old(tokenizer).source()),
{
    let token = next_token(tokenizer)?;
    match token.kind {
        TokenKind::Identifier(name) => Ok((name, token.slice)),
        _ => Err(ParserError::unexpected_token(token, throwing_location)),
    }
}

/// Consumes the next token, which must be a string, and returns its text
/// and its span.
pub fn require_string(tokenizer: &mut Tokenizer, throwing_location: &str) -> (r: Result<
    (String, StringSlice),
    ParserError,
>)
    requires
        old(tokenizer).wf(),
    ensures
        final(tokenizer).wf(),
        final(tokenizer).source() == old(tokenizer).source(),
        required(
            old(tokenizer),
            final(tokenizer),
            r,
            |token: Token| token.kind is String,
            |token: Token| (token.kind->String_0, token.slice),
            throwing_location@,
        ),
        r matches Ok(found) ==> advances(old(tokenizer), final(tokenizer), true)
            && found.1.within(old(tokenizer).source()),
{
    let token = next_token(tokenizer)?;
    match token.kind {
        TokenKind::String(text) => Ok((text, token.slice)),
        _ => Err(ParserError::unexpected_token(token, throwing_location)),
    }
}

/// The error for the next token, which cannot begin what is required: the
/// error that names the token, or the error of the tokenizer if the token
/// cannot be read.
pub fn unexpected_next(tokenizer: &mut Tokenizer, throwing_location: &str) -> (r: ParserError)
    requires
        old(tokenizer).wf(),
    ensures
        final(tokenizer).wf(),
        final(tokenizer).source() == old(tokenizer).source(),
        final(tokenizer).cursor() == old(tokenizer).cursor(),
        r == match old(tokenizer).ahead(0) {
            Ok(token) => ParserError::unexpected(token, throwing_location@),
            Err(e) => ParserError::TokenizeError(e),
        },
{
    match peek_token(tokenizer, 0) {
        Ok(token) => ParserError::unexpected_token(token, throwing_location),
        Err(e) => e,
    }
}

/// What a parsing function that may find nothing does to the tokenizer:
/// where it finds something, at least one token was consumed; where it
/// finds nothing, none was.
pub open spec fn parsed<T>(before: &Tokenizer, after: &Tokenizer, r: Result<Option<T>, ParserError>) -> bool {
    match r {
        Ok(Some(_)) => advances(before, after, true),
        Ok(None) => advances(before, after, false),
        Err(_) => true,
    }
}

/// Consumes the next two tokens if they are the keywords `first` and
/// `second`, and says whether they were. Else nothing is consumed; the
/// second token is looked at only behind `first`.
pub fn accept_keywords(tokenizer: &mut Tokenizer, first: Keyword, second: Keyword) -> (r: Result<
    bool,
    ParserError,
>)
    requires
        old(tokenizer).wf(),
    ensures
        match old(tokenizer).ahead(0) {
            Err(e) => r == Err::<bool, ParserError>(ParserError::TokenizeError(e)) && took(
                old(tokenizer),
                final(tokenizer),
                0,
            ),
            Ok(one) => if one.kind != TokenKind::Keyword(first) {
                r == Ok::<bool, ParserError>(false) && took(old(tokenizer), final(tokenizer), 0)
            } else {
                match old(tokenizer).ahead(1) {
                    Err(e) => r == Err::<bool, ParserError>(ParserError::TokenizeError(e))
                        && took(old(tokenizer), final(tokenizer), 0),
                    Ok(two) => if two.kind == TokenKind::Keyword(second) {
                        r == Ok::<bool, ParserError>(true) && took(
                            old(tokenizer),
                            final(tokenizer),
                            2,
                        )
                    } else {
                        r == Ok::<bool, ParserError>(false) && took(
                            old(tokenizer),
                            final(tokenizer),
                            0,
                        )
                    },
                }
            },
        },
        r matches Ok(found) ==> advances(old(tokenizer), final(tokenizer), found),
{
    if !peek_is_keyword(tokenizer, 0, first)? {
        return Ok(false);
    }
    let ghost one = tokenizer.ahead(0);
    proof {
        assert(old(tokenizer).peeked(0) == old(tokenizer).ahead(0));
    }
    match peek_is_keyword(tokenizer, 1, second) {
        Ok(true) => {},
        Ok(false) => {
            return Ok(false);
        },
        Err(e) => {
            return Err(e);
        },
    }
    proof {
        lemma_stream_shift(tokenizer.source(), tokenizer.cursor(), 1, 0);
        lemma_stream_shift(tokenizer.source(), tokenizer.cursor(), 1, 1);
    }
    next_token(tokenizer)?;
    next_token(tokenizer)?;
    Ok(true)
}

/// What the tokens to come mean to a part of the grammar.
pub enum Opening {
    /// They begin it: it is read, or an error comes out.
    Begins,
    /// They do not begin it: nothing is read.
    Declines,
    /// The token that decides cannot be read.
    Fault(TokenizeError),
}

/// The opening by the next token: it begins what `wanted` says.
pub open spec fn opens(tokenizer: &Tokenizer, wanted: spec_fn(TokenKind) -> bool) -> Opening {
    match tokenizer.ahead(0) {
        Err(e) => Opening::Fault(e),
        Ok(token) => if wanted(token.kind) {
            Opening::Begins
        } else {
            Opening::Declines
        },
    }
}

/// The opening by `export` and the token behind it, which begins what
/// `wanted` says. The second token counts only behind `export`.
pub open spec fn opens_exported(tokenizer: &Tokenizer, wanted: spec_fn(TokenKind) -> bool) -> Opening {
    match tokenizer.ahead(0) {
        Err(e) => Opening::Fault(e),
        Ok(one) => if one.kind != TokenKind::Keyword(Keyword::Export) {
            Opening::Declines
        } else {
            match tokenizer.ahead(1) {
                Err(e) => Opening::Fault(e),
                Ok(two) => if wanted(two.kind) {
                    Opening::Begins
                } else {
                    Opening::Declines
                },
            }
        },
    }
}

/// The opening of a choice: that of the first part unless it declines.
pub open spec fn either(first: Opening, second: Opening) -> Opening {
    if first is Declines {
        second
    } else {
        first
    }
}

/// How the result of a part of the grammar follows its opening: where the
/// tokens decline, nothing is found; where they begin, something is found
/// or an error comes out; where the deciding token cannot be read, the
/// error of the tokenizer comes out.
pub open spec fn follows<T>(opening: Opening, r: Result<Option<T>, ParserError>) -> bool {
    match opening {
        Opening::Begins => !(r matches Ok(None)),
        Opening::Declines => r matches Ok(None),
        Opening::Fault(e) => r matches Err(error) && error == ParserError::TokenizeError(e),
    }
}

/// A token of this kind is a literal: a number, a string, a name, or one
/// of the constant keywords.
pub open spec fn is_literal(kind: TokenKind) -> bool {
    ||| kind is Number
    ||| kind is String
    ||| kind is Identifier
    ||| kind == TokenKind::Keyword(Keyword::True)
    ||| kind == TokenKind::Keyword(Keyword::False)
    ||| kind == TokenKind::Keyword(Keyword::NoneKeyword)
    ||| kind == TokenKind::Keyword(Keyword::Infinity)
    ||| kind == TokenKind::Keyword(Keyword::NaN)
    ||| kind == TokenKind::Keyword(Keyword::This)
}

/// A token of this kind begins a value: an array, an object or a literal.
pub open spec fn begins_value(kind: TokenKind) -> bool {
    ||| kind == TokenKind::Symbol(Symbol::BracketOpen)
    ||| kind == TokenKind::Symbol(Symbol::BraceOpen)
    ||| is_literal(kind)
}

/// A token of this kind begins an operand: a value, or an expression in
/// parentheses.
pub open spec fn begins_operand(kind: TokenKind) -> bool {
    kind == TokenKind::Symbol(Symbol::ParenOpen) || begins_value(kind)
}

/// A token of this kind is a unary operator.
pub open spec fn is_unary(kind: TokenKind) -> bool {
    ||| kind == TokenKind::Symbol(Symbol::Add)
    ||| kind == TokenKind::Symbol(Symbol::Sub)
    ||| kind == TokenKind::Keyword(Keyword::Not)
}

/// A token of this kind begins an expression.
pub open spec fn begins_expr(kind: TokenKind) -> bool {
    is_unary(kind) || begins_operand(kind)
}

/// A token of this kind begins a type.
pub open spec fn begins_type(kind: TokenKind) -> bool {
    ||| kind == TokenKind::Symbol(Symbol::ParenOpen)
    ||| kind == TokenKind::Keyword(Keyword::Function)
    ||| kind is Identifier
    ||| kind == TokenKind::Keyword(Keyword::Prototype)
    ||| kind == TokenKind::Keyword(Keyword::Class)
    ||| kind == TokenKind::Keyword(Keyword::This)
    ||| kind == TokenKind::Keyword(Keyword::NoneKeyword)
}

/// A token of this kind begins a control statement by itself.
pub open spec fn begins_control(kind: TokenKind) -> bool {
    ||| kind == TokenKind::Keyword(Keyword::While)
    ||| kind == TokenKind::Keyword(Keyword::Until)
    ||| kind == TokenKind::Keyword(Keyword::If)
    ||| kind == TokenKind::Keyword(Keyword::For)
    ||| kind == TokenKind::Keyword(Keyword::Try)
    ||| kind == TokenKind::Keyword(Keyword::Throw)
    ||| kind == TokenKind::Keyword(Keyword::Return)
    ||| kind == TokenKind::Keyword(Keyword::Continue)
    ||| kind == TokenKind::Keyword(Keyword::Break)
}

/// The opening of `keyword`, alone or behind `export`.
pub open spec fn keyword_opening(tokenizer: &Tokenizer, keyword: Keyword) -> Opening {
    either(
        opens(tokenizer, |kind: TokenKind| kind == TokenKind::Keyword(keyword)),
        opens_exported(tokenizer, |kind: TokenKind| kind == TokenKind::Keyword(keyword)),
    )
}

/// The opening of an expression.
pub open spec fn expr_opening(tokenizer: &Tokenizer) -> Opening {
    opens(tokenizer, |kind: TokenKind| begins_expr(kind))
}

/// The opening of a type.
pub open spec fn type_opening(tokenizer: &Tokenizer) -> Opening {
    opens(tokenizer, |kind: TokenKind| begins_type(kind))
}

/// The opening of a control statement: one of its keywords, or `export`
/// and a name.
pub open spec fn control_opening(tokenizer: &Tokenizer) -> Opening {
    either(
        opens(tokenizer, |kind: TokenKind| begins_control(kind)),
        opens_exported(tokenizer, |kind: TokenKind| kind is Identifier),
    )
}

/// The opening of a variable declaration: `let` or `const`, alone or
/// behind `export`.
pub open spec fn variable_opening(tokenizer: &Tokenizer) -> Opening {
    either(keyword_opening(tokenizer, Keyword::Let), keyword_opening(tokenizer, Keyword::Const))
}

/// The opening of a statement: that of a control statement, of a variable
/// declaration or of an expression.
pub open spec fn stmt_opening(tokenizer: &Tokenizer) -> Opening {
    either(
        control_opening(tokenizer),
        either(variable_opening(tokenizer), expr_opening(tokenizer)),
    )
}

/// The opening of the head of a function that is not exported.
pub open spec fn function_opening(tokenizer: &Tokenizer) -> Opening {
    opens(tokenizer, |kind: TokenKind| kind == TokenKind::Keyword(Keyword::Function))
}

/// The opening of the head of an exported function.
pub open spec fn exported_function_opening(tokenizer: &Tokenizer) -> Opening {
    opens_exported(tokenizer, |kind: TokenKind| kind == TokenKind::Keyword(Keyword::Function))
}

/// The opening of a declaration inside a declared module.
pub open spec fn member_opening(tokenizer: &Tokenizer) -> Opening {
    either(
        keyword_opening(tokenizer, Keyword::Class),
        either(variable_opening(tokenizer), function_opening(tokenizer)),
    )
}

/// What reading `keyword`, alone or behind `export`, comes to: whether
/// `export` was there, or nothing where the tokens spell neither. The
/// second token counts only behind `export`.
pub open spec fn keyword_read(tokenizer: &Tokenizer, keyword: Keyword) -> Result<
    Option<bool>,
    ParserError,
> {
    match tokenizer.ahead(0) {
        Err(e) => Err(ParserError::TokenizeError(e)),
        Ok(one) => if one.kind == TokenKind::Keyword(keyword) {
            Ok(Some(false))
        } else if one.kind != TokenKind::Keyword(Keyword::Export) {
            Ok(None)
        } else {
            match tokenizer.ahead(1) {
                Err(e) => Err(ParserError::TokenizeError(e)),
                Ok(two) => if two.kind == TokenKind::Keyword(keyword) {
                    Ok(Some(true))
                } else {
                    Ok(None)
                },
            }
        },
    }
}

/// The number of tokens that reading a keyword with the result `r`
/// consumed: the keyword, and `export` where it was there.
pub open spec fn keyword_tokens(r: Result<Option<bool>, ParserError>) -> nat {
    match r {
        Ok(Some(false)) => 1,
        Ok(Some(true)) => 2,
        _ => 0,
    }
}

/// The result is the error for the token `n` places ahead: the error that
/// names the token, or the error of the tokenizer where the token cannot
/// be read.
pub open spec fn refused<T>(
    tokenizer: &Tokenizer,
    n: nat,
    throwing_location: Seq<char>,
    r: Result<T, ParserError>,
) -> bool {
    r matches Err(error) && error == match tokenizer.ahead(n) {
        Ok(token) => ParserError::unexpected(token, throwing_location),
        Err(e) => ParserError::TokenizeError(e),
    }
}

/// The token `n` places ahead can be read and meets `wanted`.
pub open spec fn comes(tokenizer: &Tokenizer, n: nat, wanted: spec_fn(TokenKind) -> bool) -> bool {
    tokenizer.ahead(n) matches Ok(token) && wanted(token.kind)
}

/// The token `n` places ahead is the keyword `keyword`.
pub open spec fn comes_keyword(tokenizer: &Tokenizer, n: nat, keyword: Keyword) -> bool {
    tokenizer.ahead(n) matches Ok(token) && token.kind == TokenKind::Keyword(keyword)
}

/// The token `n` places ahead is the symbol `symbol`.
pub open spec fn comes_symbol(tokenizer: &Tokenizer, n: nat, symbol: Symbol) -> bool {
    tokenizer.ahead(n) matches Ok(token) && token.kind == TokenKind::Symbol(symbol)
}

/// The token `n` places ahead begins an expression.
pub open spec fn comes_expr(tokenizer: &Tokenizer, n: nat) -> bool {
    tokenizer.ahead(n) matches Ok(token) && begins_expr(token.kind)
}

/// A token of this kind may begin a statement: a control statement, a
/// declaration of a variable, `export` before either, or an expression.
pub open spec fn begins_stmt(kind: TokenKind) -> bool {
    ||| begins_control(kind)
    ||| kind == TokenKind::Keyword(Keyword::Export)
    ||| kind == TokenKind::Keyword(Keyword::Let)
    ||| kind == TokenKind::Keyword(Keyword::Const)
    ||| begins_expr(kind)
}

/// The token `n` places ahead may begin a statement.
pub open spec fn comes_stmt(tokenizer: &Tokenizer, n: nat) -> bool {
    tokenizer.ahead(n) matches Ok(token) && begins_stmt(token.kind)
}

/// The token `n` places ahead is a name.
pub open spec fn comes_name(tokenizer: &Tokenizer, n: nat) -> bool {
    tokenizer.ahead(n) matches Ok(token) && token.kind is Identifier
}

/// The span `outer` covers the span `inner`: it lies in the same text,
/// begins no later and ends no earlier.
pub open spec fn covers(outer: StringSlice, inner: StringSlice) -> bool {
    &&& outer.src == inner.src
    &&& outer.start <= inner.start
    &&& inner.end <= outer.end
}

/// The span `slice` covers the next token.
pub open spec fn spans(tokenizer: &Tokenizer, slice: StringSlice) -> bool {
    tokenizer.ahead(0) matches Ok(first) && covers(slice, first.slice)
}

/// The token that stands at the cursor `c` of the text `src`.
pub open spec fn tok(src: Arc<str>, c: nat) -> Result<Token, TokenizeError> {
    token_from(src, c, 0)
}

/// The cursor behind the token that stands at the cursor `c`.
pub open spec fn past(src: Arc<str>, c: nat) -> nat {
    read_end(src@, c, 1)
}

/// The error for the token at the cursor `c`, which cannot begin what is
/// required: the error that names it, or the error of the tokenizer.
pub open spec fn refusal(src: Arc<str>, c: nat, throwing_location: Seq<char>) -> ParserError {
    match tok(src, c) {
        Ok(token) => ParserError::unexpected(token, throwing_location),
        Err(e) => ParserError::TokenizeError(e),
    }
}

/// Reading moved the cursor on from `from` to `to`, inside the text. A
/// token that is consumed always does; the definitions of what reading
/// comes to ask for it where they go on behind what was read, so that
/// they end.
pub open spec fn moves(src: Arc<str>, from: nat, to: nat) -> bool {
    from < to <= src@.len()
}

/// What stands for the outcome of reading where the cursor did not move
/// on, which cannot be.
pub open spec fn stuck() -> ParserError {
    ParserError::TokenizeError(TokenizeError::UnexpectedEof)
}

/// Whether the token at the cursor `c` is of a kind that `wanted` takes,
/// or the error of the tokenizer.
pub open spec fn at(src: Arc<str>, c: nat, wanted: spec_fn(TokenKind) -> bool) -> Result<
    bool,
    ParserError,
> {
    match tok(src, c) {
        Ok(token) => Ok(wanted(token.kind)),
        Err(e) => Err(ParserError::TokenizeError(e)),
    }
}

/// Whether the token at the cursor `c` is the symbol `symbol`.
pub open spec fn at_symbol(src: Arc<str>, c: nat, symbol: Symbol) -> Result<bool, ParserError> {
    at(src, c, |kind: TokenKind| kind == TokenKind::Symbol(symbol))
}

/// Whether the token at the cursor `c` is the keyword `keyword`.
pub open spec fn at_keyword(src: Arc<str>, c: nat, keyword: Keyword) -> Result<bool, ParserError> {
    at(src, c, |kind: TokenKind| kind == TokenKind::Keyword(keyword))
}

/// The cursor behind the token at the cursor `c`, which must be of a kind
/// that `wanted` takes, or the error for it.
pub open spec fn needs(
    src: Arc<str>,
    c: nat,
    wanted: spec_fn(TokenKind) -> bool,
    throwing_location: Seq<char>,
) -> Result<nat, ParserError> {
    match tok(src, c) {
        Ok(token) => if wanted(token.kind) {
            Ok(past(src, c))
        } else {
            Err(ParserError::unexpected(token, throwing_location))
        },
        Err(e) => Err(ParserError::TokenizeError(e)),
    }
}

/// The cursor behind the symbol `symbol`, which must stand at the cursor `c`.
pub open spec fn needs_symbol(src: Arc<str>, c: nat, symbol: Symbol, throwing_location: Seq<char>) -> Result<
    nat,
    ParserError,
> {
    needs(src, c, |kind: TokenKind| kind == TokenKind::Symbol(symbol), throwing_location)
}

/// The cursor behind the keyword `keyword`, which must stand at the cursor `c`.
pub open spec fn needs_keyword(
    src: Arc<str>,
    c: nat,
    keyword: Keyword,
    throwing_location: Seq<char>,
) -> Result<nat, ParserError> {
    needs(src, c, |kind: TokenKind| kind == TokenKind::Keyword(keyword), throwing_location)
}

/// The cursor behind the name that must stand at the cursor `c`.
pub open spec fn needs_name(src: Arc<str>, c: nat, throwing_location: Seq<char>) -> Result<
    nat,
    ParserError,
> {
    needs(src, c, |kind: TokenKind| kind is Identifier, throwing_location)
}

/// The cursor behind a part of the grammar that may be left out: the
/// cursor behind it where it was read, the cursor `c` where it was not.
pub open spec fn or_stay(found: Result<Option<nat>, ParserError>, c: nat) -> Result<
    nat,
    ParserError,
> {
    match found {
        Err(e) => Err(e),
        Ok(Some(c1)) => Ok(c1),
        Ok(None) => Ok(c),
    }
}

/// What must be there was read up to the cursor `found`, or the error.
pub open spec fn found_at(found: Result<nat, ParserError>) -> Result<Option<nat>, ParserError> {
    match found {
        Err(e) => Err(e),
        Ok(c) => Ok(Some(c)),
    }
}

/// What reading `keyword`, alone or behind `export`, comes to at the
/// cursor `c`: the cursor behind the keyword, or nothing. The second token
/// counts only behind `export`.
pub open spec fn keyword_scan(src: Arc<str>, c: nat, keyword: Keyword) -> Result<
    Option<nat>,
    ParserError,
> {
    match tok(src, c) {
        Err(e) => Err(ParserError::TokenizeError(e)),
        Ok(one) => if one.kind == TokenKind::Keyword(keyword) {
            Ok(Some(past(src, c)))
        } else if one.kind != TokenKind::Keyword(Keyword::Export) {
            Ok(None)
        } else {
            match token_from(src, c, 1) {
                Err(e) => Err(ParserError::TokenizeError(e)),
                Ok(two) => if two.kind == TokenKind::Keyword(keyword) {
                    Ok(Some(read_end(src@, c, 2)))
                } else {
                    Ok(None)
                },
            }
        },
    }
}

/// The outcome `r` of reading a part of the grammar as a cursor: the
/// cursor behind what was read, nothing, or the error.
pub open spec fn scanned<T>(after: &Tokenizer, r: Result<Option<T>, ParserError>) -> Result<
    Option<nat>,
    ParserError,
> {
    match r {
        Ok(Some(_)) => Ok(Some(after.cursor())),
        Ok(None) => Ok(None),
        Err(e) => Err(e),
    }
}

/// The outcome `r` of reading a part of the grammar that must be there,
/// as a cursor: the cursor behind what was read, or the error.
pub open spec fn reached<T>(after: &Tokenizer, r: Result<T, ParserError>) -> Result<
    nat,
    ParserError,
> {
    match r {
        Ok(_) => Ok(after.cursor()),
        Err(e) => Err(e),
    }
}

/// The opening by one keyword.
pub open spec fn opens_keyword(tokenizer: &Tokenizer, keyword: Keyword) -> Opening {
    opens(tokenizer, |kind: TokenKind| kind == TokenKind::Keyword(keyword))
}

/// The opening by one symbol.
pub open spec fn opens_symbol(tokenizer: &Tokenizer, symbol: Symbol) -> Opening {
    opens(tokenizer, |kind: TokenKind| kind == TokenKind::Symbol(symbol))
}

} // verus!
