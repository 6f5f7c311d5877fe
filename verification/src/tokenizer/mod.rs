//! Turns source text into tokens.

use std::collections::VecDeque;
use std::sync::Arc;
use vstd::prelude::*;

use crate::string::parser::StringParser;
use crate::string::{owned, string_of, StringSlice};
use token::{keyword_of, Keyword, Keywords, Number, Symbol, Token, TokenKind};

pub mod token;

verus! {

/// Why the text at the cursor is no token.
#[derive(Debug, Clone, PartialEq, Eq)]
pub enum TokenizeError {
    InvalidString(StringSlice),
    InvalidChar(StringSlice),
    InvalidEscape(StringSlice),
    UnclosedStr(StringSlice),
    UnexpectedEof,
}

/// Whether `c` is alphabetic, as `char::is_alphabetic` tells.
pub uninterp spec fn is_alphabetic(c: char) -> bool;

/// Whether `c` is alphabetic or numeric, as `char::is_alphanumeric` tells.
pub uninterp spec fn is_alphanumeric(c: char) -> bool;

/// Whether `c` is numeric, as `char::is_numeric` tells.
pub uninterp spec fn is_numeric(c: char) -> bool;

/// Whether `c` is white space, as `char::is_whitespace` tells.
pub uninterp spec fn is_whitespace(c: char) -> bool;

/// Calls `char::is_alphabetic`.
#[verifier::external_body]
fn char_is_alphabetic(c: char) -> (r: bool)
    ensures
        r == is_alphabetic(c),
{
    c.is_alphabetic()
}

/// Calls `char::is_alphanumeric`.
#[verifier::external_body]
fn char_is_alphanumeric(c: char) -> (r: bool)
    ensures
        r == is_alphanumeric(c),
{
    c.is_alphanumeric()
}

/// Calls `char::is_numeric`.
#[verifier::external_body]
fn char_is_numeric(c: char) -> (r: bool)
    ensures
        r == is_numeric(c),
{
    c.is_numeric()
}

/// Calls `char::is_whitespace`.
#[verifier::external_body]
fn char_is_whitespace(c: char) -> (r: bool)
    ensures
        r == is_whitespace(c),
{
    c.is_whitespace()
}

/// A character that may begin an identifier.
pub open spec fn ident_start(c: char) -> bool {
    is_alphabetic(c) || c == '_'
}

/// A character that may continue an identifier.
pub open spec fn ident_cont(c: char) -> bool {
    is_alphanumeric(c) || c == '_'
}

pub fn valid_ident_start(c: char) -> (r: bool)
    ensures
        r == ident_start(c),
{
    char_is_alphabetic(c) || c == '_'
}

pub fn valid_ident_cont(c: char) -> (r: bool)
    ensures
        r == ident_cont(c),
{
    char_is_alphanumeric(c) || c == '_'
}

fn not_newline(c: char) -> (r: bool)
    ensures
        r == (c != '\n'),
{
    c != '\n'
}

/// Where the run of characters that `accepts` accepts, which begins at
/// `from`, ends.
pub open spec fn run_end(src: Seq<char>, from: nat, accepts: spec_fn(char) -> bool) -> nat
    decreases src.len() - from,
{
    if from < src.len() && accepts(src[from as int]) {
        run_end(src, from + 1, accepts)
    } else {
        from
    }
}

/// A stretch of accepted characters that cannot be extended is the run.
pub proof fn lemma_run_end(src: Seq<char>, from: nat, to: nat, accepts: spec_fn(char) -> bool)
    requires
        from <= to <= src.len(),
        forall|i: int| from <= i < to ==> accepts(#[trigger] src[i]),
        to < src.len() ==> !accepts(src[to as int]),
    ensures
        run_end(src, from, accepts) == to,
    decreases to - from,
{
    if from < to {
        lemma_run_end(src, from + 1, to, accepts);
    }
}

/// Where the text that is ignored from `from` on ends: white space, and
/// comments, which run from `#` to the end of the line.
pub open spec fn skip(src: Seq<char>, from: nat, in_comment: bool) -> nat
    decreases src.len() - from, in_comment as int,
{
    if from >= src.len() {
        from
    } else if in_comment {
        if src[from as int] == '\n' {
            skip(src, from, false)
        } else {
            skip(src, from + 1, true)
        }
    } else if is_whitespace(src[from as int]) {
        skip(src, from + 1, false)
    } else if src[from as int] == '#' {
        skip(src, from + 1, true)
    } else {
        from
    }
}

/// White space is skipped.
pub proof fn lemma_skip_space(src: Seq<char>, from: nat, to: nat)
    requires
        from <= to <= src.len(),
        forall|i: int| from <= i < to ==> is_whitespace(#[trigger] src[i]),
    ensures
        skip(src, from, false) == skip(src, to, false),
    decreases to - from,
{
    if from < to {
        lemma_skip_space(src, from + 1, to);
    }
}

/// A comment is skipped up to the end of its line.
pub proof fn lemma_skip_comment(src: Seq<char>, from: nat, to: nat)
    requires
        from <= to <= src.len(),
        forall|i: int| from <= i < to ==> #[trigger] src[i] != '\n',
        to < src.len() ==> src[to as int] == '\n',
    ensures
        skip(src, from, true) == skip(src, to, false),
    decreases to - from,
{
    if from < to {
        lemma_skip_comment(src, from + 1, to);
    }
}

pub struct Tokenizer {
    parser: StringParser,
    peek: VecDeque<Token>,
    taken: Ghost<nat>,
    mark: Ghost<nat>,
}

/// The number of tokens of a list that are not the end of the text.
pub open spec fn words(tokens: Seq<Token>) -> nat
    decreases tokens.len(),
{
    if tokens.len() == 0 {
        0
    } else {
        words(tokens.drop_last()) + if tokens.last().kind is Eof {
            0nat
        } else {
            1nat
        }
    }
}

/// Without its first token a list has one word less, if that token is a word.
pub proof fn lemma_words_front(tokens: Seq<Token>)
    requires
        tokens.len() > 0,
    ensures
        words(tokens) == words(tokens.subrange(1, tokens.len() as int)) + if tokens[0].kind
            is Eof {
            0nat
        } else {
            1nat
        },
    decreases tokens.len(),
{
    let rest = tokens.subrange(1, tokens.len() as int);
    if tokens.len() == 1 {
        assert(tokens.drop_last() =~= Seq::<Token>::empty());
        assert(rest =~= Seq::<Token>::empty());
    } else {
        lemma_words_front(tokens.drop_last());
        assert(tokens.drop_last().subrange(1, tokens.len() - 1) =~= rest.drop_last());
        assert(tokens.drop_last()[0] == tokens[0]);
        assert(rest.last() == tokens.last());
    }
}

impl Tokenizer {
    /// The text that is tokenized.
    pub closed spec fn source(&self) -> Arc<str> {
        self.parser.source()
    }

    /// The position up to which the text was read.
    pub closed spec fn pos(&self) -> nat {
        self.parser.pos() as nat
    }

    /// The tokens that were read ahead, the next one first.
    pub closed spec fn buffered(&self) -> Seq<Token> {
        self.peek@
    }

    /// The cursor over the text is in order and no position is saved.
    pub closed spec fn ready(&self) -> bool {
        self.parser.wf() && self.parser.marks().len() == 0
    }

    /// The tokenizer is in order: the tokens read ahead are the tokens
    /// that follow the cursor, and the text is read up to behind them.
    pub closed spec fn wf(&self) -> bool {
        &&& self.ready()
        &&& forall|i: int|
            0 <= i < self.peek@.len() ==> (#[trigger] self.peek@[i]).slice.within(
                self.parser.source(),
            )
        &&& self.parser.pos() == read_end(self.parser.source()@, self.mark@, self.peek@.len())
        &&& forall|i: int|
            0 <= i < self.peek@.len() ==> Ok::<Token, TokenizeError>(#[trigger] self.peek@[i])
                == token_from(self.parser.source(), self.mark@, i as nat)
        &&& forall|i: nat, j: nat|
            #![trigger
                read_end(self.parser.source()@, self.mark@, i),
                read_end(self.parser.source()@, self.mark@, j),
            ]
            i <= j <= self.peek@.len() ==> read_end(self.parser.source()@, self.mark@, i)
                <= read_end(self.parser.source()@, self.mark@, j)
        &&& forall|i: int|
            0 <= i < self.peek@.len() && !((#[trigger] self.peek@[i]).kind is Eof) ==> read_end(
                self.parser.source()@,
                self.mark@,
                i as nat,
            ) < read_end(self.parser.source()@, self.mark@, (i + 1) as nat)
    }

    /// The cursor of a tokenizer that is in order lies in the text.
    pub proof fn lemma_cursor_in_text(&self)
        requires
            self.wf(),
        ensures
            self.cursor() <= self.source()@.len(),
    {
        assert(read_end(self.parser.source()@, self.mark@, 0) == self.mark@);
        assert(read_end(self.parser.source()@, self.mark@, 0) <= read_end(
            self.parser.source()@,
            self.mark@,
            self.peek@.len(),
        ));
    }

    /// The position in the text behind the last token that was consumed.
    /// The tokens to come are those of the text from here on.
    pub closed spec fn cursor(&self) -> nat {
        self.mark@
    }

    /// The token `n` places ahead, or why there is none.
    pub open spec fn ahead(&self, n: nat) -> Result<Token, TokenizeError> {
        token_from(self.source(), self.cursor(), n)
    }

    /// What a look `n` places ahead comes to: the token there, or the
    /// first error on the way to it.
    pub open spec fn peeked(&self, n: nat) -> Result<Token, TokenizeError> {
        first_of(self.source(), self.cursor(), n)
    }

    /// The cursor after the next token was consumed.
    pub open spec fn behind(&self, n: nat) -> nat {
        read_end(self.source()@, self.cursor(), n)
    }

    /// The number of tokens that were consumed so far, the end of the text
    /// not counted.
    pub closed spec fn consumed(&self) -> nat {
        self.taken@
    }

    /// A bound on what is left to read: the characters that were not read
    /// yet, and the tokens read ahead that are not the end of the text.
    /// Every token that is consumed, but the end of the text, lowers it.
    pub closed spec fn remaining(&self) -> nat {
        (self.parser.source()@.len() - self.parser.pos()) as nat + words(self.peek@)
    }

    pub fn new(src: Arc<str>) -> (r: Self)
        ensures
            r.wf(),
            r.source() == src,
            r.pos() == 0,
            r.buffered() == Seq::<Token>::empty(),
            r.consumed() == 0,
            r.cursor() == 0,
    {
        Tokenizer {
            parser: StringParser::new(src),
            peek: VecDeque::new(),
            taken: Ghost(0),
            mark: Ghost(0),
        }
    }

    /// Skips white space and comments.
    fn skip_ignores(&mut self) -> (r: Result<(), TokenizeError>)
        requires
            old(self).ready(),
        ensures
            r is Ok,
            final(self).ready(),
            final(self).source() == old(self).source(),
            final(self).buffered() == old(self).buffered(),
            final(self).consumed() == old(self).consumed(),
            final(self).cursor() == old(self).cursor(),
            final(self).pos() == skip(old(self).source()@, old(self).pos(), false),
            old(self).pos() <= final(self).pos() <= final(self).source()@.len(),
    {
        let ghost src = self.source()@;
        let mut more: bool = true;
        while more
            invariant
                self.ready(),
                self.source() == old(self).source(),
                src == self.source()@,
                self.buffered() == old(self).buffered(),
                self.consumed() == old(self).consumed(),
                self.cursor() == old(self).cursor(),
                old(self).pos() <= self.pos() <= src.len(),
                more ==> skip(src, old(self).pos(), false) == skip(src, self.pos(), false),
                !more ==> skip(src, old(self).pos(), false) == self.pos(),
            decreases src.len() - self.pos() + if more { 1nat } else { 0nat },
        {
            let ghost start = self.pos();
            let mut moved: bool = false;
            if self.parser.while_func(char_is_whitespace).is_some() {
                moved = true;
            }
            let ghost middle = self.pos();
            proof {
                lemma_skip_space(src, start, middle);
            }
            if self.parser.try_consume_str("#").is_some() {
                proof {
                    reveal_strlit("#");
                    assert(src.subrange(middle as int, middle as int + 1)[0] == '#');
                }
                let ghost inside = self.pos();
                self.parser.while_func(not_newline);
                proof {
                    lemma_skip_comment(src, inside, self.pos());
                }
                moved = true;
            } else {
                proof {
                    reveal_strlit("#");
                    if middle < src.len() && src[middle as int] == '#' {
                        assert(src.subrange(middle as int, middle as int + 1) =~= "#"@);
                    }
                }
            }
            more = moved && self.parser.curr().is_some();
        }
        Ok(())
    }
}

/// The value of a decimal digit; `None` for any other character.
pub open spec fn digit(c: char) -> Option<int> {
    if '0' <= c <= '9' {
        Some(c as int - '0' as int)
    } else {
        None
    }
}

/// The number that a sequence of decimal digits denotes; `None` if a
/// character is no decimal digit.
pub open spec fn decimal(digits: Seq<char>) -> Option<int>
    decreases digits.len(),
{
    if digits.len() == 0 {
        Some(0)
    } else {
        match (decimal(digits.drop_last()), digit(digits.last())) {
            (Some(front), Some(last)) => Some(front * 10 + last),
            _ => None,
        }
    }
}

/// The integer that a sequence of decimal digits denotes, if it can be held.
pub open spec fn integer(digits: Seq<char>) -> Option<i64> {
    match decimal(digits) {
        Some(value) if value <= i64::MAX => Some(value as i64),
        _ => None,
    }
}

/// A number grows with every digit.
pub proof fn lemma_decimal_grows(digits: Seq<char>, n: int)
    requires
        0 <= n <= digits.len(),
        decimal(digits) is Some,
    ensures
        decimal(digits.take(n)) is Some,
        0 <= decimal(digits.take(n))->Some_0 <= decimal(digits)->Some_0,
    decreases digits.len() - n,
{
    if n == digits.len() {
        assert(digits.take(n) =~= digits);
        lemma_decimal_nonnegative(digits);
    } else {
        lemma_decimal_grows(digits, n + 1);
        assert(digits.take(n + 1).drop_last() =~= digits.take(n));
    }
}

proof fn lemma_decimal_nonnegative(digits: Seq<char>)
    requires
        decimal(digits) is Some,
    ensures
        decimal(digits)->Some_0 >= 0,
    decreases digits.len(),
{
    if digits.len() > 0 {
        lemma_decimal_nonnegative(digits.drop_last());
    }
}

/// Once some digits denote no number, more digits denote none.
pub proof fn lemma_decimal_none(digits: Seq<char>, n: int)
    requires
        0 <= n <= digits.len(),
        decimal(digits.take(n)) is None,
    ensures
        decimal(digits) is None,
    decreases digits.len() - n,
{
    if n == digits.len() {
        assert(digits.take(n) =~= digits);
    } else {
        assert(digits.take(n + 1).drop_last() =~= digits.take(n));
        lemma_decimal_none(digits, n + 1);
    }
}

/// The integer that the characters of `text` denote, if they are decimal
/// digits of a number that can be held.
pub fn parse_integer(text: &str) -> (r: Option<i64>)
    ensures
        r == integer(text@),
{
    let n: usize = text.unicode_len();
    let mut value: i64 = 0;
    let mut i: usize = 0;
    while i < n
        invariant
            n == text@.len(),
            i <= n,
            decimal(text@.take(i as int)) == Some(value as int),
            value >= 0,
        decreases n - i,
    {
        let c: char = text.get_char(i);
        proof {
            assert(text@.take(i + 1).drop_last() =~= text@.take(i as int));
            assert(text@.take(i + 1).last() == c);
        }
        if c < '0' || c > '9' {
            proof {
                lemma_decimal_none(text@, i + 1);
            }
            return None;
        }
        let d: i64 = (c as u32 - '0' as u32) as i64;
        if value > (i64::MAX - d) / 10 {
            proof {
                assert(value * 10 + d > i64::MAX) by (nonlinear_arith)
                    requires
                        value > (i64::MAX - d) / 10,
                        0 <= d <= 9,
                ;
                if decimal(text@) is Some {
                    lemma_decimal_grows(text@, i + 1);
                }
            }
            return None;
        }
        assert(value * 10 + d <= i64::MAX) by (nonlinear_arith)
            requires
                value <= (i64::MAX - d) / 10,
                0 <= d <= 9,
                value >= 0,
        ;
        value = value * 10 + d;
        i = i + 1;
    }
    proof {
        assert(text@.take(i as int) =~= text@);
    }
    Some(value)
}

/// What a backslash followed by `c` stands for in a string; `None` if
/// there is no such escape.
pub open spec fn escape(c: char) -> Option<char> {
    if c == 'n' {
        Some('\n')
    } else if c == 'r' {
        Some('\r')
    } else if c == '\\' {
        Some('\\')
    } else if c == 't' {
        Some('\t')
    } else if c == '"' {
        Some('"')
    } else if c == '\'' {
        Some('\'')
    } else {
        None
    }
}

/// A character that a string may hold as it is: a letter or digit of
/// ASCII, a space, or one of the marks allowed.
pub open spec fn plain(c: char) -> bool {
    ||| 'a' <= c <= 'z'
    ||| 'A' <= c <= 'Z'
    ||| '0' <= c <= '9'
    ||| c == ' '
    ||| c == '!'
    ||| c == '#'
    ||| c == '%'
    ||| c == '&'
    ||| c == '\''
    ||| c == '('
    ||| c == ')'
    ||| c == '['
    ||| c == ']'
    ||| c == '{'
    ||| c == '}'
    ||| c == '*'
    ||| c == '+'
    ||| c == ','
    ||| c == '-'
    ||| c == '.'
    ||| c == '/'
    ||| c == ':'
    ||| c == ';'
    ||| c == '<'
    ||| c == '>'
    ||| c == '='
    ||| c == '?'
    ||| c == '^'
    ||| c == '_'
    ||| c == '|'
    ||| c == '~'
}

fn is_plain(c: char) -> (r: bool)
    ensures
        r == plain(c),
{
    (c >= 'a' && c <= 'z') || (c >= 'A' && c <= 'Z') || (c >= '0' && c <= '9') || c == ' '
        || c == '!' || c == '#' || c == '%' || c == '&' || c == '\'' || c == '(' || c == ')'
        || c == '[' || c == ']' || c == '{' || c == '}' || c == '*' || c == '+' || c == ','
        || c == '-' || c == '.' || c == '/' || c == ':' || c == ';' || c == '<' || c == '>'
        || c == '=' || c == '?' || c == '^' || c == '_' || c == '|' || c == '~'
}

fn unescape(c: char) -> (r: Option<char>)
    ensures
        r == escape(c),
{
    if c == 'n' {
        Some('\n')
    } else if c == 'r' {
        Some('\r')
    } else if c == '\\' {
        Some('\\')
    } else if c == 't' {
        Some('\t')
    } else if c == '"' {
        Some('"')
    } else if c == '\'' {
        Some('\'')
    } else {
        None
    }
}

/// How the scan of a string ends.
pub enum StringScan {
    /// The string closes before `end`; it holds `text`.
    Closed { end: nat, text: Seq<char> },
    /// The text ends inside the string.
    Eof,
    /// The character at `at` follows a backslash and is no escape.
    BadEscape { at: nat },
    /// The line ends at `at` inside the string.
    Unclosed { at: nat },
    /// The character at `at` may not stand in a string.
    BadChar { at: nat },
}

/// How the scan of the inside of a string ends, from `at` on, `text` being
/// what the string holds up to there.
pub open spec fn scan_string(src: Seq<char>, at: nat, text: Seq<char>) -> StringScan
    decreases src.len() - at,
{
    if at >= src.len() {
        StringScan::Eof
    } else {
        let c = src[at as int];
        if plain(c) {
            scan_string(src, at + 1, text.push(c))
        } else if c == '\\' {
            if at + 1 >= src.len() {
                StringScan::Eof
            } else {
                match escape(src[at as int + 1]) {
                    Some(value) => scan_string(src, at + 2, text.push(value)),
                    None => StringScan::BadEscape { at: at + 1 },
                }
            }
        } else if c == '"' {
            StringScan::Closed { end: at + 1, text }
        } else if c == '\n' {
            StringScan::Unclosed { at }
        } else {
            StringScan::BadChar { at }
        }
    }
}

/// Where the run of characters that may continue an identifier, which
/// begins at `from`, ends.
pub open spec fn word_end(src: Seq<char>, from: nat) -> nat {
    run_end(src, from, |c: char| ident_cont(c))
}

/// Where the run of numeric characters that begins at `from` ends.
pub open spec fn digits_end(src: Seq<char>, from: nat) -> nat {
    run_end(src, from, |c: char| is_numeric(c))
}

/// What stands at a position of the text.
pub enum Scan {
    /// The end of the text.
    Eof,
    /// A word: an identifier or a keyword, up to `end`.
    Word { end: nat },
    /// A symbol.
    Symbol { symbol: Symbol },
    /// A number up to `end`. Its whole part ends at `whole_end`; if it has a
    /// fraction, the digits of the fraction follow the point.
    Number { whole_end: nat, end: nat },
    /// A string, or what is wrong with it.
    Text { scan: StringScan },
    /// Nothing that a token can begin with.
    Invalid,
}

/// The symbol at place `k` of the order is the first that stands at `at`.
pub open spec fn symbol_at(src: Seq<char>, at: nat, k: int) -> bool {
    &&& 0 <= k < Symbol::order().len()
    &&& stands_at(src, at, Symbol::order()[k].spelling())
    &&& forall|j: int| 0 <= j < k ==> !stands_at(src, at, #[trigger] Symbol::order()[j].spelling())
}

/// The text from `at` on begins with `word`.
pub open spec fn stands_at(src: Seq<char>, at: nat, word: Seq<char>) -> bool {
    word.len() == 0 || (at + word.len() <= src.len() && src.subrange(
        at as int,
        at as int + word.len(),
    ) == word)
}

/// Where the number that begins at `at` ends: after its digits, or after
/// the digits of its fraction if a point and a digit follow.
pub open spec fn number_end(src: Seq<char>, at: nat) -> nat {
    let whole_end = digits_end(src, at);
    if whole_end + 1 < src.len() && src[whole_end as int] == '.' && is_numeric(
        src[whole_end as int + 1],
    ) {
        digits_end(src, whole_end + 1)
    } else {
        whole_end
    }
}

/// What stands at `at`, a position where nothing is to be skipped. A word
/// is looked for first, then a symbol, a number and a string.
pub open spec fn scan_at(src: Seq<char>, at: nat) -> Scan {
    if at >= src.len() {
        Scan::Eof
    } else if ident_start(src[at as int]) && ident_cont(src[at as int]) {
        Scan::Word { end: word_end(src, at) }
    } else if exists|k: int| symbol_at(src, at, k) {
        Scan::Symbol { symbol: Symbol::order()[choose|k: int| symbol_at(src, at, k)] }
    } else if is_numeric(src[at as int]) {
        Scan::Number {
            whole_end: digits_end(src, at),
            end: number_end(src, at),
        }
    } else if src[at as int] == '"' {
        Scan::Text { scan: scan_string(src, at + 1, Seq::empty()) }
    } else {
        Scan::Invalid
    }
}

/// The token that stands at `at` in the text `src`, a position where
/// nothing is to be skipped, or why there is none. Names and texts are held
/// as the strings of their characters.
pub open spec fn token_at(src: Arc<str>, at: nat) -> Result<Token, TokenizeError> {
    let span = |start: nat, end: nat| StringSlice { src, start: start as usize, end: end as usize };
    match scan_at(src@, at) {
        Scan::Eof => Ok(Token { slice: span(at, at), kind: TokenKind::Eof }),
        Scan::Word { end } => {
            let text = src@.subrange(at as int, end as int);
            Ok(
                Token {
                    slice: span(at, end),
                    kind: match keyword_of(text) {
                        Some(keyword) => TokenKind::Keyword(keyword),
                        None => TokenKind::Identifier(string_of(text)),
                    },
                },
            )
        },
        Scan::Symbol { symbol } => Ok(
            Token {
                slice: span(at, at + symbol.spelling().len()),
                kind: TokenKind::Symbol(symbol),
            },
        ),
        Scan::Number { whole_end, end } => match integer(
            src@.subrange(at as int, whole_end as int),
        ) {
            Some(whole) => Ok(
                Token {
                    slice: span(at, end),
                    kind: TokenKind::Number(
                        if end == whole_end {
                            Number::Integer(whole)
                        } else {
                            Number::Floating {
                                whole,
                                fraction: string_of(
                                    src@.subrange(whole_end as int + 1, end as int),
                                ),
                            }
                        },
                    ),
                },
            ),
            None => Err(TokenizeError::InvalidChar(span(at, end))),
        },
        Scan::Text { scan } => match scan {
            StringScan::Closed { end, text } => Ok(
                Token { slice: span(at, end), kind: TokenKind::String(string_of(text)) },
            ),
            StringScan::Eof => Err(TokenizeError::UnexpectedEof),
            StringScan::BadEscape { at: bad } => Err(TokenizeError::InvalidEscape(span(at, bad))),
            StringScan::Unclosed { at: bad } => Err(TokenizeError::UnclosedStr(span(at, bad))),
            StringScan::BadChar { at: bad } => Err(TokenizeError::InvalidString(span(at, bad))),
        },
        Scan::Invalid => Err(TokenizeError::InvalidChar(span(at, at + 1))),
    }
}

/// Whether `r` is what the scan of `src` at `at` comes to, as a token or
/// as an error.
pub open spec fn tells(r: Result<Token, TokenizeError>, src: Arc<str>, at: nat) -> bool {
    r == token_at(src, at)
}

/// Where the cursor stands after the scan at `at`: behind the token; at
/// the place of the fault in a string that is wrong; at `at` after any
/// other error.
pub open spec fn scan_end(src: Seq<char>, at: nat) -> nat {
    match scan_at(src, at) {
        Scan::Eof => at,
        Scan::Word { end } => end,
        Scan::Symbol { symbol } => at + symbol.spelling().len(),
        Scan::Number { whole_end, end } => match integer(src.subrange(at as int, whole_end as int)) {
            Some(_) => end,
            None => at,
        },
        Scan::Text { scan } => match scan {
            StringScan::Closed { end, text } => end,
            StringScan::Eof => at,
            StringScan::BadEscape { at: bad } => bad,
            StringScan::Unclosed { at: bad } => bad,
            StringScan::BadChar { at: bad } => bad,
        },
        Scan::Invalid => at,
    }
}

impl Tokenizer {
    /// The span from `start` to `end` of the text.
    pub open spec fn span(&self, start: nat, end: nat) -> StringSlice {
        StringSlice { src: self.source(), start: start as usize, end: end as usize }
    }

    /// Consumes the word at the cursor, if one stands there.
    fn try_parse_ident(&mut self) -> (r: Option<StringSlice>)
        requires
            old(self).ready(),
            old(self).pos() < old(self).source()@.len(),
        ensures
            final(self).ready(),
            final(self).source() == old(self).source(),
            final(self).buffered() == old(self).buffered(),
            final(self).consumed() == old(self).consumed(),
            final(self).cursor() == old(self).cursor(),
            match r {
                Some(slice) => {
                    &&& scan_at(old(self).source()@, old(self).pos()) is Word
                    &&& final(self).pos() == word_end(old(self).source()@, old(self).pos())
                    &&& slice == old(self).span(old(self).pos(), final(self).pos())
                    &&& old(self).pos() < final(self).pos() <= old(self).source()@.len()
                },
                None => {
                    &&& !(scan_at(old(self).source()@, old(self).pos()) is Word)
                    &&& final(self).pos() == old(self).pos()
                },
            },
    {
        if self.parser.is_func(valid_ident_start) {
            let r = self.parser.while_func(valid_ident_cont);
            proof {
                lemma_run_end(
                    self.source()@,
                    old(self).pos(),
                    self.pos(),
                    |c: char| ident_cont(c),
                );
            }
            return r;
        }
        None
    }

    /// Consumes the number at the cursor, if one stands there.
    fn try_parse_number(&mut self) -> (r: Result<Option<(StringSlice, Number)>, TokenizeError>)
        requires
            old(self).ready(),
            old(self).pos() < old(self).source()@.len(),
        ensures
            final(self).ready(),
            final(self).source() == old(self).source(),
            final(self).buffered() == old(self).buffered(),
            final(self).consumed() == old(self).consumed(),
            final(self).cursor() == old(self).cursor(),
            ({
                let src = old(self).source()@;
                let at = old(self).pos();
                let whole_end = digits_end(src, at);
                let end = number_end(src, at);
                if is_numeric(src[at as int]) {
                    &&& at < whole_end <= end <= src.len()
                    &&& match integer(src.subrange(at as int, whole_end as int)) {
                        Some(whole) => {
                            &&& r matches Ok(Some((slice, number)))
                            &&& slice == old(self).span(at, end)
                            &&& final(self).pos() == end
                            &&& number == if end == whole_end {
                                Number::Integer(whole)
                            } else {
                                Number::Floating {
                                    whole,
                                    fraction: string_of(
                                        src.subrange(whole_end as int + 1, end as int),
                                    ),
                                }
                            }
                        },
                        None => {
                            &&& r == Err::<Option<(StringSlice, Number)>, TokenizeError>(
                                TokenizeError::InvalidChar(old(self).span(at, end)),
                            )
                            &&& final(self).pos() == at
                        },
                    }
                } else {
                    r == Ok::<Option<(StringSlice, Number)>, TokenizeError>(None) && final(self).pos() == at
                }
            }),
    {
        let ghost src = self.source()@;
        let ghost at = self.pos();
        let start: usize = self.parser.idx();
        self.parser.checkout();
        let whole_slice = match self.parser.while_func(char_is_numeric) {
            Some(whole_slice) => whole_slice,
            None => {
                self.parser.rollback();
                return Ok(None);
            },
        };
        let ghost whole_end = self.pos();
        proof {
            lemma_run_end(src, at, whole_end, |c: char| is_numeric(c));
        }
        let mut fraction: Option<StringSlice> = None;
        if self.parser.is_char('.') {
            self.parser.checkout();
            self.parser.next();
            let ghost inside = self.pos();
            match self.parser.while_func(char_is_numeric) {
                Some(digits) => {
                    proof {
                        lemma_run_end(src, inside, self.pos(), |c: char| is_numeric(c));
                    }
                    self.parser.commit();
                    fraction = Some(digits);
                },
                None => {
                    self.parser.rollback();
                },
            }
        }
        let slice = self.parser.commit().unwrap();
        let whole_text = whole_slice.value();
        let whole: i64 = match parse_integer(whole_text.as_str()) {
            Some(whole) => whole,
            None => {
                self.parser.seek(start);
                return Err(TokenizeError::InvalidChar(slice));
            },
        };
        match fraction {
            Some(digits) => {
                let written = digits.value();
                Ok(Some((slice, Number::Floating { whole, fraction: owned(written.as_str()) })))
            },
            None => Ok(Some((slice, Number::Integer(whole)))),
        }
    }
}

/// Calls `String::push`: `c` is appended to the string.
#[verifier::external_body]
fn push_char(text: &mut String, c: char)
    ensures
        final(text)@ == old(text)@.push(c),
{
    text.push(c);
}

/// The position that the text is read up to after `k` tokens were read
/// from `from` on.
pub open spec fn read_end(src: Seq<char>, from: nat, k: nat) -> nat
    decreases k,
{
    if k == 0 {
        from
    } else {
        let before = read_end(src, from, (k - 1) as nat);
        scan_end(src, skip(src, before, false))
    }
}

/// The token `n` places ahead of the position `from`, or why there is none.
pub open spec fn token_from(src: Arc<str>, from: nat, n: nat) -> Result<Token, TokenizeError> {
    token_at(src, skip(src@, read_end(src@, from, n), false))
}

/// The token `n` places ahead of the position `from`, or the first error
/// on the way to it.
pub open spec fn first_of(src: Arc<str>, from: nat, n: nat) -> Result<Token, TokenizeError>
    decreases n,
{
    if n == 0 {
        token_from(src, from, 0)
    } else {
        match first_of(src, from, (n - 1) as nat) {
            Err(e) => Err(e),
            Ok(_) => token_from(src, from, n),
        }
    }
}

/// Reading one token and then `k` more is reading `k + 1`.
pub proof fn lemma_read_end_shift(src: Seq<char>, from: nat, k: nat)
    ensures
        read_end(src, read_end(src, from, 1), k) == read_end(src, from, k + 1),
    decreases k,
{
    assert(read_end(src, from, 0) == from);
    if k > 0 {
        lemma_read_end_shift(src, from, (k - 1) as nat);
    }
}

/// Where every token up to place `n` is there, a look at place `n` finds it.
pub proof fn lemma_first_of_ok(src: Arc<str>, from: nat, n: nat)
    requires
        forall|i: nat| i <= n ==> (#[trigger] token_from(src, from, i)) is Ok,
    ensures
        first_of(src, from, n) == token_from(src, from, n),
    decreases n,
{
    if n > 0 {
        lemma_first_of_ok(src, from, (n - 1) as nat);
        assert(token_from(src, from, (n - 1) as nat) is Ok);
    }
}

/// Where the first error stands at place `k`, a look at any place from `k`
/// on finds that error.
pub proof fn lemma_first_of_err(src: Arc<str>, from: nat, k: nat, n: nat)
    requires
        k <= n,
        forall|i: nat| i < k ==> (#[trigger] token_from(src, from, i)) is Ok,
        token_from(src, from, k) is Err,
    ensures
        first_of(src, from, n) == token_from(src, from, k),
    decreases n,
{
    if n > k {
        lemma_first_of_err(src, from, k, (n - 1) as nat);
    } else if k > 0 {
        lemma_first_of_ok(src, from, (k - 1) as nat);
    }
}

/// The two symbols that are the first to stand at a place are one.
pub proof fn lemma_symbol_at_unique(src: Seq<char>, at: nat, a: int, b: int)
    requires
        symbol_at(src, at, a),
        symbol_at(src, at, b),
    ensures
        a == b,
{
    if a < b {
        assert(!stands_at(src, at, Symbol::order()[a].spelling()));
    }
    if b < a {
        assert(!stands_at(src, at, Symbol::order()[b].spelling()));
    }
}

impl Tokenizer {
    /// Consumes the string at the cursor, if one begins there.
    fn try_parse_string(&mut self) -> (r: Result<Option<(StringSlice, String)>, TokenizeError>)
        requires
            old(self).ready(),
            old(self).pos() < old(self).source()@.len(),
        ensures
            final(self).ready(),
            final(self).source() == old(self).source(),
            final(self).buffered() == old(self).buffered(),
            final(self).consumed() == old(self).consumed(),
            final(self).cursor() == old(self).cursor(),
            r matches Ok(Some(_)) ==> final(self).pos() > old(self).pos(),
            final(self).pos() >= old(self).pos(),
            ({
                let src = old(self).source()@;
                let at = old(self).pos();
                if src[at as int] == '"' {
                    match scan_string(src, at + 1, Seq::empty()) {
                        StringScan::Closed { end, text } => {
                            &&& r matches Ok(Some((slice, held)))
                            &&& slice == old(self).span(at, end)
                            &&& held@ == text
                            &&& final(self).pos() == end
                        },
                        StringScan::Eof => {
                            &&& r == Err::<Option<(StringSlice, String)>, TokenizeError>(
                                TokenizeError::UnexpectedEof,
                            )
                            &&& final(self).pos() == at
                        },
                        StringScan::BadEscape { at: bad } => {
                            &&& r == Err::<Option<(StringSlice, String)>, TokenizeError>(
                                TokenizeError::InvalidEscape(old(self).span(at, bad)),
                            )
                            &&& final(self).pos() == bad
                        },
                        StringScan::Unclosed { at: bad } => {
                            &&& r == Err::<Option<(StringSlice, String)>, TokenizeError>(
                                TokenizeError::UnclosedStr(old(self).span(at, bad)),
                            )
                            &&& final(self).pos() == bad
                        },
                        StringScan::BadChar { at: bad } => {
                            &&& r == Err::<Option<(StringSlice, String)>, TokenizeError>(
                                TokenizeError::InvalidString(old(self).span(at, bad)),
                            )
                            &&& final(self).pos() == bad
                        },
                    }
                } else {
                    r == Ok::<Option<(StringSlice, String)>, TokenizeError>(None) && final(self).pos()
                        == at
                }
            }),
    {
        if !self.parser.is_char('"') {
            return Ok(None);
        }
        let ghost src = self.source()@;
        let ghost at = self.pos();
        self.parser.checkout();
        self.parser.next();
        let mut text = String::new();
        let mut outcome: Option<Result<Option<(StringSlice, String)>, TokenizeError>> = None;
        while outcome.is_none()
            invariant
                self.parser.wf(),
                self.source() == old(self).source(),
                src == self.source()@,
                at == old(self).pos(),
                at < src.len(),
                src[at as int] == '"',
                self.buffered() == old(self).buffered(),
                self.consumed() == old(self).consumed(),
                self.cursor() == old(self).cursor(),
                outcome is None ==> {
                    &&& self.parser.marks() =~= seq![at as usize]
                    &&& at < self.pos() <= src.len()
                    &&& scan_string(src, at + 1, Seq::empty()) == scan_string(
                        src,
                        self.pos(),
                        text@,
                    )
                },
                outcome matches Some(r) ==> {
                    &&& self.parser.marks().len() == 0
                    &&& self.pos() >= at
                    &&& (r matches Ok(Some(_)) ==> self.pos() > at)
                    &&& match scan_string(src, at + 1, Seq::empty()) {
                        StringScan::Closed { end, text } => {
                            &&& r matches Ok(Some((slice, held)))
                            &&& slice == old(self).span(at, end)
                            &&& held@ == text
                            &&& self.pos() == end
                        },
                        StringScan::Eof => {
                            &&& r == Err::<Option<(StringSlice, String)>, TokenizeError>(
                                TokenizeError::UnexpectedEof,
                            )
                            &&& self.pos() == at
                        },
                        StringScan::BadEscape { at: bad } => {
                            &&& r == Err::<Option<(StringSlice, String)>, TokenizeError>(
                                TokenizeError::InvalidEscape(old(self).span(at, bad)),
                            )
                            &&& self.pos() == bad
                        },
                        StringScan::Unclosed { at: bad } => {
                            &&& r == Err::<Option<(StringSlice, String)>, TokenizeError>(
                                TokenizeError::UnclosedStr(old(self).span(at, bad)),
                            )
                            &&& self.pos() == bad
                        },
                        StringScan::BadChar { at: bad } => {
                            &&& r == Err::<Option<(StringSlice, String)>, TokenizeError>(
                                TokenizeError::InvalidString(old(self).span(at, bad)),
                            )
                            &&& self.pos() == bad
                        },
                    }
                },
            decreases if outcome is None { src.len() - self.pos() + 1 } else { 0 },
        {
            match self.parser.curr() {
                None => {
                    self.parser.rollback();
                    outcome = Some(Err(TokenizeError::UnexpectedEof));
                },
                Some(c) => {
                    if is_plain(c) {
                        push_char(&mut text, c);
                        self.parser.next();
                    } else if c == '\\' {
                        match self.parser.next() {
                            None => {
                                self.parser.rollback();
                                outcome = Some(Err(TokenizeError::UnexpectedEof));
                            },
                            Some(escaped) => match unescape(escaped) {
                                Some(value) => {
                                    push_char(&mut text, value);
                                    self.parser.next();
                                },
                                None => {
                                    let slice = self.parser.commit().unwrap();
                                    outcome = Some(Err(TokenizeError::InvalidEscape(slice)));
                                },
                            },
                        }
                    } else if c == '"' {
                        self.parser.next();
                        let slice = self.parser.commit().unwrap();
                        outcome = Some(Ok(Some((slice, text.clone()))));
                    } else if c == '\n' {
                        let slice = self.parser.commit().unwrap();
                        outcome = Some(Err(TokenizeError::UnclosedStr(slice)));
                    } else {
                        let slice = self.parser.commit().unwrap();
                        outcome = Some(Err(TokenizeError::InvalidString(slice)));
                    }
                },
            }
        }
        match outcome {
            Some(r) => r,
            None => Ok(None),
        }
    }

    /// Reads one token from the text.
    fn next_raw(&mut self) -> (r: Result<Token, TokenizeError>)
        requires
            old(self).ready(),
        ensures
            final(self).ready(),
            final(self).source() == old(self).source(),
            final(self).buffered() == old(self).buffered(),
            final(self).consumed() == old(self).consumed(),
            final(self).cursor() == old(self).cursor(),
            tells(r, old(self).source(), skip(old(self).source()@, old(self).pos(), false)),
            final(self).pos() == if r is Ok {
                read_end(old(self).source()@, old(self).pos(), 1)
            } else {
                old(self).pos()
            },
            r matches Ok(token) ==> final(self).remaining() + (if token.kind is Eof {
                0nat
            } else {
                1nat
            }) <= old(self).remaining(),
            r matches Ok(token) ==> token.slice.within(old(self).source()),
    {
        let ghost src = self.source()@;
        let origin: usize = self.parser.idx();
        self.skip_ignores()?;
        let ghost at = self.pos();
        proof {
            assert(read_end(src, old(self).pos(), 0) == old(self).pos());
        }
        if self.parser.curr().is_none() {
            self.parser.checkout();
            let slice = self.parser.commit().unwrap();
            return Ok(Token { slice, kind: TokenKind::Eof });
        }
        if let Some(slice) = self.try_parse_ident() {
            let value = slice.value();
            if let Some(keyword) = Keyword::parse(value.as_str()) {
                return Ok(Token { slice, kind: TokenKind::Keyword(keyword) });
            }
            return Ok(Token { slice, kind: TokenKind::Identifier(owned(value.as_str())) });
        }
        let ghost before = self.parser;
        if let Some((slice, symbol)) = Symbol::from(&mut self.parser) {
            proof {
                let k = choose|k: int|
                    {
                        &&& 0 <= k < Symbol::order().len()
                        &&& #[trigger] Symbol::order()[k] == symbol
                        &&& Symbol::none_of(&before, k)
                        &&& before.looking_at(symbol.spelling())
                    };
                assert(symbol_at(src, at, k)) by {
                    assert forall|j: int| 0 <= j < k implies !stands_at(
                        src,
                        at,
                        #[trigger] Symbol::order()[j].spelling(),
                    ) by {
                        assert(!before.looking_at(Symbol::order()[j].spelling()));
                    }
                }
                let chosen = choose|k: int| symbol_at(src, at, k);
                lemma_symbol_at_unique(src, at, k, chosen);
            }
            return Ok(Token { slice, kind: TokenKind::Symbol(symbol) });
        }
        proof {
            assert forall|k: int| !symbol_at(src, at, k) by {
                if 0 <= k < Symbol::order().len() {
                    assert(!before.looking_at(Symbol::order()[k].spelling()));
                }
            }
        }
        match self.try_parse_number() {
            Ok(Some((slice, number))) => {
                return Ok(Token { slice, kind: TokenKind::Number(number) });
            },
            Ok(None) => {},
            Err(e) => {
                self.parser.seek(origin);
                return Err(e);
            },
        }
        match self.try_parse_string() {
            Ok(Some((slice, text))) => {
                return Ok(Token { slice, kind: TokenKind::String(owned(text.as_str())) });
            },
            Ok(None) => {},
            Err(e) => {
                self.parser.seek(origin);
                return Err(e);
            },
        }
        let start: usize = self.parser.idx();
        let end: usize = if start < self.parser.len() { start + 1 } else { start };
        self.parser.seek(origin);
        Err(TokenizeError::InvalidChar(StringSlice::new(self.parser.text(), start, end)))
    }

    /// The next token, which is then consumed. An error consumes nothing.
    pub fn next(&mut self) -> (r: Result<Token, TokenizeError>)
        requires
            old(self).wf(),
        ensures
            final(self).wf(),
            final(self).source() == old(self).source(),
            r == old(self).ahead(0),
            final(self).cursor() == if r is Ok {
                old(self).behind(1)
            } else {
                old(self).cursor()
            },
            r matches Ok(token) ==> final(self).remaining() + (if token.kind is Eof {
                0nat
            } else {
                1nat
            }) <= old(self).remaining(),
            final(self).consumed() == old(self).consumed() + if r matches Ok(token)
                && !(token.kind is Eof) {
                1nat
            } else {
                0nat
            },
            r matches Ok(token) ==> token.slice.within(old(self).source()),
            old(self).cursor() <= final(self).cursor() <= final(self).source()@.len(),
            r matches Ok(token) ==> (!(token.kind is Eof) ==> old(self).cursor() < final(self).cursor()),
    {
        let ghost src = self.source();
        let ghost from = self.cursor();
        let ghost held = self.peek@;
        proof {
            assert(read_end(src@, from, 0) == from);
            if self.peek@.len() > 0 {
                lemma_words_front(self.peek@);
                assert(Ok::<Token, TokenizeError>(self.peek@[0]) == token_from(src, from, 0));
            }
        }
        let r = match self.peek.pop_front() {
            Some(token) => Ok(token),
            None => self.next_raw(),
        };
        if let Ok(token) = &r {
            if !token.kind.is_eof() {
                self.taken = Ghost(self.taken@ + 1);
            }
            self.mark = Ghost(read_end(src@, from, 1));
            proof {
                assert forall|i: int| 0 <= i < self.peek@.len() implies Ok::<Token, TokenizeError>(
                    #[trigger] self.peek@[i],
                ) == token_from(src, self.mark@, i as nat) by {
                    assert(self.peek@[i] == held[i + 1]);
                    assert(Ok::<Token, TokenizeError>(held[i + 1]) == token_from(
                        src,
                        from,
                        (i + 1) as nat,
                    ));
                    lemma_read_end_shift(src@, from, i as nat);
                }
                if held.len() > 0 {
                    lemma_read_end_shift(src@, from, (held.len() - 1) as nat);
                } else {
                    assert(read_end(src@, self.mark@, 0) == self.mark@);
                }
                assert(read_end(src@, from, 0) <= read_end(src@, from, 1));
                assert forall|i: nat, j: nat| i <= j <= self.peek@.len() implies read_end(
                    src@,
                    self.mark@,
                    i,
                ) <= read_end(src@, self.mark@, j) by {
                    lemma_read_end_shift(src@, from, i);
                    lemma_read_end_shift(src@, from, j);
                    if held.len() > 0 {
                        assert(read_end(src@, from, i + 1) <= read_end(src@, from, j + 1));
                    } else {
                        assert(read_end(src@, self.mark@, 0) == self.mark@);
                    }
                }
                assert forall|i: int|
                    0 <= i < self.peek@.len() && !((#[trigger] self.peek@[i]).kind
                        is Eof) implies read_end(src@, self.mark@, i as nat) < read_end(
                    src@,
                    self.mark@,
                    (i + 1) as nat,
                ) by {
                    assert(self.peek@[i] == held[i + 1]);
                    lemma_read_end_shift(src@, from, i as nat);
                    lemma_read_end_shift(src@, from, (i + 1) as nat);
                }
                assert(read_end(src@, self.mark@, 0) == self.mark@);
                assert(read_end(src@, self.mark@, 0) <= read_end(
                    src@,
                    self.mark@,
                    self.peek@.len(),
                ));
            }
        }
        r
    }

    /// The token `n` places ahead, which is not consumed. The tokens up to
    /// it are read from the text if they have not been read yet. Where a
    /// token on the way cannot be read, the error comes out.
    pub fn peek(&mut self, n: usize) -> (r: Result<Token, TokenizeError>)
        requires
            old(self).wf(),
        ensures
            final(self).wf(),
            final(self).source() == old(self).source(),
            final(self).cursor() == old(self).cursor(),
            r == old(self).peeked(n as nat),
            r is Ok ==> forall|i: nat| i <= n ==> (#[trigger] old(self).ahead(i)) is Ok,
            r is Ok ==> r == old(self).ahead(n as nat),
            r is Ok ==> final(self).remaining() <= old(self).remaining(),
            final(self).consumed() == old(self).consumed(),
            r matches Ok(token) ==> token.slice.within(old(self).source()),
            final(self).cursor() <= final(self).source()@.len(),
    {
        proof {
            self.lemma_cursor_in_text();
        }
        let ghost src = self.source();
        let ghost from = self.cursor();
        while n >= self.peek.len()
            invariant
                self.wf(),
                self.source() == src,
                src == old(self).source(),
                self.cursor() == from,
                from == old(self).cursor(),
                self.remaining() <= old(self).remaining(),
                self.consumed() == old(self).consumed(),
            decreases n + 1 - self.peek.len(),
        {
            let ghost held = self.peek@;
            let ghost reached = self.parser.pos() as nat;
            proof {
                assert(read_end(src@, reached, 0) == reached);
            }
            let token = match self.next_raw() {
                Ok(token) => token,
                Err(e) => {
                    proof {
                        assert forall|i: nat| i < held.len() implies (#[trigger] token_from(
                            src,
                            from,
                            i,
                        )) is Ok by {
                            assert(Ok::<Token, TokenizeError>(held[i as int]) == token_from(
                                src,
                                from,
                                i,
                            ));
                        }
                        lemma_first_of_err(src, from, held.len(), n as nat);
                    }
                    return Err(e);
                },
            };
            self.peek.push_back(token);
            proof {
                assert(self.peek@.drop_last() =~= held);
                assert forall|i: int| 0 <= i < self.peek@.len() implies Ok::<Token, TokenizeError>(
                    #[trigger] self.peek@[i],
                ) == token_from(src, from, i as nat) by {
                    if i < held.len() {
                        assert(self.peek@[i] == held[i]);
                    }
                }
                assert forall|i: int| 0 <= i < self.peek@.len() implies (
                #[trigger] self.peek@[i]).slice.within(src) by {
                    if i < held.len() {
                        assert(self.peek@[i] == held[i]);
                    }
                }
            }
        }
        proof {
            assert forall|i: nat| i <= n implies (#[trigger] token_from(src, from, i)) is Ok by {
                assert(Ok::<Token, TokenizeError>(self.peek@[i as int]) == token_from(
                    src,
                    from,
                    i,
                ));
            }
            lemma_first_of_ok(src, from, n as nat);
        }
        Ok(self.peek[n].duplicate())
    }
}

} // verus!
