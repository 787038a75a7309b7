//! Categories, tokens, and the classification of words.

use crate::error::TokenizationError;
use crate::text::same_word;
use vstd::prelude::*;

verus! {

/// Number of lexical categories; the ordinals are `0 .. CATEGORY_COUNT`.
pub const CATEGORY_COUNT: u8 = 20;

/// The lexical category of a token.
///
/// The order of the variants is part of the wire format: a category is
/// written as its position in this list. New variants may only be added at
/// the end.
#[derive(Clone, Copy, Debug, PartialEq, Eq, Structural)]
pub enum TokenType {
    // Keywords
    Function,
    If,
    // Brackets
    OpenParen,
    CloseParen,
    OpenCurly,
    CloseCurly,
    OpenAngle,
    CloseAngle,
    // Quotes
    DoubleQuote,
    SingleQuote,
    Backtick,
    // Separators
    TypeSeperator,
    Comma,
    // Operators
    Plus,
    Minus,
    Star,
    Slash,
    // Whitespace
    Space,
    Newline,
    /// Anything else: an identifier or a literal.
    Unknown,
}

impl TokenType {
    /// The position of the category in the catalog.
    pub open spec fn ordinal(self) -> nat {
        match self {
            TokenType::Function => 0,
            TokenType::If => 1,
            TokenType::OpenParen => 2,
            TokenType::CloseParen => 3,
            TokenType::OpenCurly => 4,
            TokenType::CloseCurly => 5,
            TokenType::OpenAngle => 6,
            TokenType::CloseAngle => 7,
            TokenType::DoubleQuote => 8,
            TokenType::SingleQuote => 9,
            TokenType::Backtick => 10,
            TokenType::TypeSeperator => 11,
            TokenType::Comma => 12,
            TokenType::Plus => 13,
            TokenType::Minus => 14,
            TokenType::Star => 15,
            TokenType::Slash => 16,
            TokenType::Space => 17,
            TokenType::Newline => 18,
            TokenType::Unknown => 19,
        }
    }

    /// The category at a position of the catalog, if the position is assigned.
    pub open spec fn at_ordinal(n: nat) -> Option<TokenType> {
        if exists|c: TokenType| c.ordinal() == n {
            Some(choose|c: TokenType| c.ordinal() == n)
        } else {
            None
        }
    }

    /// Every ordinal is below `CATEGORY_COUNT`, every number below it is the
    /// ordinal of exactly one category.
    pub proof fn lemma_ordinals()
        ensures
            forall|c: TokenType| #[trigger] c.ordinal() < CATEGORY_COUNT,
            forall|c: TokenType| #[trigger] TokenType::at_ordinal(c.ordinal()) == Some(c),
            forall|n: nat|
                n < CATEGORY_COUNT <==> (#[trigger] TokenType::at_ordinal(n)) is Some,
            forall|n: nat|
                (#[trigger] TokenType::at_ordinal(n)) matches Some(c) ==> c.ordinal() == n,
    {
        assert forall|n: nat| n < CATEGORY_COUNT implies (#[trigger] TokenType::at_ordinal(
            n,
        )) is Some by {
            let c = TokenType::witness(n);
            assert(c.ordinal() == n);
        }
    }

    spec fn witness(n: nat) -> TokenType {
        if n == 0 {
            TokenType::Function
        } else if n == 1 {
            TokenType::If
        } else if n == 2 {
            TokenType::OpenParen
        } else if n == 3 {
            TokenType::CloseParen
        } else if n == 4 {
            TokenType::OpenCurly
        } else if n == 5 {
            TokenType::CloseCurly
        } else if n == 6 {
            TokenType::OpenAngle
        } else if n == 7 {
            TokenType::CloseAngle
        } else if n == 8 {
            TokenType::DoubleQuote
        } else if n == 9 {
            TokenType::SingleQuote
        } else if n == 10 {
            TokenType::Backtick
        } else if n == 11 {
            TokenType::TypeSeperator
        } else if n == 12 {
            TokenType::Comma
        } else if n == 13 {
            TokenType::Plus
        } else if n == 14 {
            TokenType::Minus
        } else if n == 15 {
            TokenType::Star
        } else if n == 16 {
            TokenType::Slash
        } else if n == 17 {
            TokenType::Space
        } else if n == 18 {
            TokenType::Newline
        } else {
            TokenType::Unknown
        }
    }

    /// The ordinal as the byte that stands for the category on the wire.
    pub fn to_ordinal(self) -> (b: u8)
        ensures
            b == self.ordinal(),
    {
        match self {
            TokenType::Function => 0,
            TokenType::If => 1,
            TokenType::OpenParen => 2,
            TokenType::CloseParen => 3,
            TokenType::OpenCurly => 4,
            TokenType::CloseCurly => 5,
            TokenType::OpenAngle => 6,
            TokenType::CloseAngle => 7,
            TokenType::DoubleQuote => 8,
            TokenType::SingleQuote => 9,
            TokenType::Backtick => 10,
            TokenType::TypeSeperator => 11,
            TokenType::Comma => 12,
            TokenType::Plus => 13,
            TokenType::Minus => 14,
            TokenType::Star => 15,
            TokenType::Slash => 16,
            TokenType::Space => 17,
            TokenType::Newline => 18,
            TokenType::Unknown => 19,
        }
    }

    /// The category that a byte stands for, `None` for a byte that is no
    /// ordinal.
    pub fn from_ordinal(b: u8) -> (r: Option<TokenType>)
        ensures
            r == TokenType::at_ordinal(b as nat),
    {
        let r = match b {
            0 => Some(TokenType::Function),
            1 => Some(TokenType::If),
            2 => Some(TokenType::OpenParen),
            3 => Some(TokenType::CloseParen),
            4 => Some(TokenType::OpenCurly),
            5 => Some(TokenType::CloseCurly),
            6 => Some(TokenType::OpenAngle),
            7 => Some(TokenType::CloseAngle),
            8 => Some(TokenType::DoubleQuote),
            9 => Some(TokenType::SingleQuote),
            10 => Some(TokenType::Backtick),
            11 => Some(TokenType::TypeSeperator),
            12 => Some(TokenType::Comma),
            13 => Some(TokenType::Plus),
            14 => Some(TokenType::Minus),
            15 => Some(TokenType::Star),
            16 => Some(TokenType::Slash),
            17 => Some(TokenType::Space),
            18 => Some(TokenType::Newline),
            19 => Some(TokenType::Unknown),
            _ => None,
        };
        proof {
            TokenType::lemma_ordinals();
            if let Some(c) = r {
                assert(c.ordinal() == b);
            }
        }
        r
    }
}

/// A position in the source text, tagged with the category of the word that
/// starts there. A token holds no text.
#[derive(Clone, Copy, Debug, PartialEq, Eq, Structural)]
pub struct Token {
    /// Byte offset of the word in the source.
    pub loc: u32,
    /// Category of the word.
    pub ty: TokenType,
}

/// The keyword that a word spells, if it spells one.
pub open spec fn keyword_of(word: Seq<char>) -> Option<TokenType> {
    if word == "fun"@ {
        Some(TokenType::Function)
    } else if word == "if"@ {
        Some(TokenType::If)
    } else {
        None
    }
}

/// The bracket that a word spells, if it spells one.
pub open spec fn paren_of(word: Seq<char>) -> Option<TokenType> {
    if word == "("@ {
        Some(TokenType::OpenParen)
    } else if word == ")"@ {
        Some(TokenType::CloseParen)
    } else if word == "<"@ {
        Some(TokenType::OpenAngle)
    } else if word == ">"@ {
        Some(TokenType::CloseAngle)
    } else if word == "{"@ {
        Some(TokenType::OpenCurly)
    } else if word == "}"@ {
        Some(TokenType::CloseCurly)
    } else {
        None
    }
}

/// The operator that a word spells, if it spells one.
pub open spec fn operator_of(word: Seq<char>) -> Option<TokenType> {
    if word == "+"@ {
        Some(TokenType::Plus)
    } else if word == "-"@ {
        Some(TokenType::Minus)
    } else if word == "*"@ {
        Some(TokenType::Star)
    } else if word == "/"@ {
        Some(TokenType::Slash)
    } else {
        None
    }
}

/// The separator that a word spells, if it spells one.
pub open spec fn seperator_of(word: Seq<char>) -> Option<TokenType> {
    if word == ":"@ {
        Some(TokenType::TypeSeperator)
    } else if word == ","@ {
        Some(TokenType::Comma)
    } else {
        None
    }
}

/// The quote that a word spells, if it spells one.
pub open spec fn quote_of(word: Seq<char>) -> Option<TokenType> {
    if word == "\""@ {
        Some(TokenType::DoubleQuote)
    } else if word == "'"@ {
        Some(TokenType::SingleQuote)
    } else if word == "`"@ {
        Some(TokenType::Backtick)
    } else {
        None
    }
}

/// The whitespace that a word spells, if it spells any. Both line endings
/// are a `Newline`.
pub open spec fn whitespace_of(word: Seq<char>) -> Option<TokenType> {
    if word == " "@ {
        Some(TokenType::Space)
    } else if word == "\n"@ || word == "\r\n"@ {
        Some(TokenType::Newline)
    } else {
        None
    }
}

/// The first of two answers that is one.
pub open spec fn or_else(first: Option<TokenType>, second: Option<TokenType>) -> Option<
    TokenType,
> {
    if first is Some {
        first
    } else {
        second
    }
}

/// The category of a word: the answer of the first list that knows the word,
/// the lists asked in the order keyword, bracket, operator, separator,
/// whitespace, quote; `Unknown` where none knows it.
pub open spec fn category_of(word: Seq<char>) -> TokenType {
    let found = or_else(
        keyword_of(word),
        or_else(
            paren_of(word),
            or_else(
                operator_of(word),
                or_else(seperator_of(word), or_else(whitespace_of(word), quote_of(word))),
            ),
        ),
    );
    match found {
        Some(ty) => ty,
        None => TokenType::Unknown,
    }
}

/// The token at `loc` for the answer of one list.
pub open spec fn tagged(loc: u32, found: Option<TokenType>) -> Option<Token> {
    match found {
        Some(ty) => Some(Token { loc, ty }),
        None => None,
    }
}

/// The wire form of the token at `loc` for the answer of one list.
pub open spec fn tagged_packed(loc: u32, found: Option<TokenType>) -> Result<
    Seq<u8>,
    TokenizationError,
> {
    match found {
        Some(ty) => Ok(crate::wire::wire_form(Token { loc, ty })),
        None => Err(TokenizationError::NoMatch),
    }
}

/// The view of a probe's packed answer.
pub open spec fn packed_view(r: Result<[u8; 5], TokenizationError>) -> Result<
    Seq<u8>,
    TokenizationError,
> {
    match r {
        Ok(w) => Ok(w@),
        Err(e) => Err(e),
    }
}

fn tag(loc: u32, found: Option<TokenType>) -> (r: Option<Token>)
    ensures
        r == tagged(loc, found),
{
    match found {
        Some(ty) => Some(Token { loc, ty }),
        None => None,
    }
}

fn tag_packed(loc: u32, found: Option<TokenType>) -> (r: Result<[u8; 5], TokenizationError>)
    ensures
        packed_view(r) == tagged_packed(loc, found),
{
    match found {
        Some(ty) => Ok(Token { loc, ty }.pack()),
        None => Err(TokenizationError::NoMatch),
    }
}

fn keyword(word: &str) -> (r: Option<TokenType>)
    ensures
        r == keyword_of(word@),
{
    if same_word(word, "fun") {
        Some(TokenType::Function)
    } else if same_word(word, "if") {
        Some(TokenType::If)
    } else {
        None
    }
}

fn paren(word: &str) -> (r: Option<TokenType>)
    ensures
        r == paren_of(word@),
{
    if same_word(word, "(") {
        Some(TokenType::OpenParen)
    } else if same_word(word, ")") {
        Some(TokenType::CloseParen)
    } else if same_word(word, "<") {
        Some(TokenType::OpenAngle)
    } else if same_word(word, ">") {
        Some(TokenType::CloseAngle)
    } else if same_word(word, "{") {
        Some(TokenType::OpenCurly)
    } else if same_word(word, "}") {
        Some(TokenType::CloseCurly)
    } else {
        None
    }
}

fn operator(word: &str) -> (r: Option<TokenType>)
    ensures
        r == operator_of(word@),
{
    if same_word(word, "+") {
        Some(TokenType::Plus)
    } else if same_word(word, "-") {
        Some(TokenType::Minus)
    } else if same_word(word, "*") {
        Some(TokenType::Star)
    } else if same_word(word, "/") {
        Some(TokenType::Slash)
    } else {
        None
    }
}

fn seperator(word: &str) -> (r: Option<TokenType>)
    ensures
        r == seperator_of(word@),
{
    if same_word(word, ":") {
        Some(TokenType::TypeSeperator)
    } else if same_word(word, ",") {
        Some(TokenType::Comma)
    } else {
        None
    }
}

fn quote(word: &str) -> (r: Option<TokenType>)
    ensures
        r == quote_of(word@),
{
    if same_word(word, "\"") {
        Some(TokenType::DoubleQuote)
    } else if same_word(word, "'") {
        Some(TokenType::SingleQuote)
    } else if same_word(word, "`") {
        Some(TokenType::Backtick)
    } else {
        None
    }
}

fn whitespace(word: &str) -> (r: Option<TokenType>)
    ensures
        r == whitespace_of(word@),
{
    if same_word(word, " ") {
        Some(TokenType::Space)
    } else if same_word(word, "\n") {
        Some(TokenType::Newline)
    } else if same_word(word, "\r\n") {
        Some(TokenType::Newline)
    } else {
        None
    }
}

impl Token {
    /// Classifies a word that starts at `loc`. Every word gets a token: one
    /// that no list knows is `Unknown`.
    pub fn new(loc: u32, word: &str) -> (t: Token)
        ensures
            t == (Token { loc, ty: category_of(word@) }),
    {
        let found = Token::try_keyword(loc, word);
        let found = if found.is_some() {
            found
        } else {
            Token::try_paren(loc, word)
        };
        let found = if found.is_some() {
            found
        } else {
            Token::try_operator(loc, word)
        };
        let found = if found.is_some() {
            found
        } else {
            Token::try_seperator(loc, word)
        };
        let found = if found.is_some() {
            found
        } else {
            Token::try_whitespace(loc, word)
        };
        let found = if found.is_some() {
            found
        } else {
            Token::try_quote(loc, word)
        };
        match found {
            Some(t) => t,
            None => Token { loc, ty: TokenType::Unknown },
        }
    }

    /// The token at `loc` if the word is a keyword.
    pub fn try_keyword(loc: u32, word: &str) -> (r: Option<Token>)
        ensures
            r == tagged(loc, keyword_of(word@)),
    {
        tag(loc, keyword(word))
    }

    /// The wire form of the token at `loc` if the word is a keyword, `NoMatch`
    /// if it is not.
    pub fn try_keyword_packed(loc: u32, word: &str) -> (r: Result<[u8; 5], TokenizationError>)
        ensures
            packed_view(r) == tagged_packed(loc, keyword_of(word@)),
    {
        tag_packed(loc, keyword(word))
    }

    /// The token at `loc` if the word is a bracket.
    pub fn try_paren(loc: u32, word: &str) -> (r: Option<Token>)
        ensures
            r == tagged(loc, paren_of(word@)),
    {
        tag(loc, paren(word))
    }

    /// The wire form of the token at `loc` if the word is a bracket, `NoMatch`
    /// if it is not.
    pub fn try_paren_packed(loc: u32, word: &str) -> (r: Result<[u8; 5], TokenizationError>)
        ensures
            packed_view(r) == tagged_packed(loc, paren_of(word@)),
    {
        tag_packed(loc, paren(word))
    }

    /// The token at `loc` if the word is an operator.
    pub fn try_operator(loc: u32, word: &str) -> (r: Option<Token>)
        ensures
            r == tagged(loc, operator_of(word@)),
    {
        tag(loc, operator(word))
    }

    /// The wire form of the token at `loc` if the word is an operator,
    /// `NoMatch` if it is not.
    pub fn try_operator_packed(loc: u32, word: &str) -> (r: Result<[u8; 5], TokenizationError>)
        ensures
            packed_view(r) == tagged_packed(loc, operator_of(word@)),
    {
        tag_packed(loc, operator(word))
    }

    /// The token at `loc` if the word is a separator.
    pub fn try_seperator(loc: u32, word: &str) -> (r: Option<Token>)
        ensures
            r == tagged(loc, seperator_of(word@)),
    {
        tag(loc, seperator(word))
    }

    /// The wire form of the token at `loc` if the word is a separator,
    /// `NoMatch` if it is not.
    pub fn try_seperator_packed(loc: u32, word: &str) -> (r: Result<[u8; 5], TokenizationError>)
        ensures
            packed_view(r) == tagged_packed(loc, seperator_of(word@)),
    {
        tag_packed(loc, seperator(word))
    }

    /// The token at `loc` if the word is a quote.
    pub fn try_quote(loc: u32, word: &str) -> (r: Option<Token>)
        ensures
            r == tagged(loc, quote_of(word@)),
    {
        tag(loc, quote(word))
    }

    /// The wire form of the token at `loc` if the word is a quote, `NoMatch`
    /// if it is not.
    pub fn try_quote_packed(loc: u32, word: &str) -> (r: Result<[u8; 5], TokenizationError>)
        ensures
            packed_view(r) == tagged_packed(loc, quote_of(word@)),
    {
        tag_packed(loc, quote(word))
    }

    /// The token at `loc` if the word is whitespace.
    pub fn try_whitespace(loc: u32, word: &str) -> (r: Option<Token>)
        ensures
            r == tagged(loc, whitespace_of(word@)),
    {
        tag(loc, whitespace(word))
    }

    /// The wire form of the token at `loc` if the word is whitespace,
    /// `NoMatch` if it is not.
    pub fn try_whitespace_packed(loc: u32, word: &str) -> (r: Result<[u8; 5], TokenizationError>)
        ensures
            packed_view(r) == tagged_packed(loc, whitespace_of(word@)),
    {
        tag_packed(loc, whitespace(word))
    }
}

/// No word is in two lists, so the order in which the lists are asked
/// decides nothing: a word that a list knows has the category that this list
/// gives it, and a word is `Unknown` exactly if no list knows it.
pub proof fn lemma_lists_are_disjoint(word: Seq<char>)
    ensures
        keyword_of(word) matches Some(ty) ==> category_of(word) == ty,
        paren_of(word) matches Some(ty) ==> category_of(word) == ty,
        operator_of(word) matches Some(ty) ==> category_of(word) == ty,
        seperator_of(word) matches Some(ty) ==> category_of(word) == ty,
        whitespace_of(word) matches Some(ty) ==> category_of(word) == ty,
        quote_of(word) matches Some(ty) ==> category_of(word) == ty,
        category_of(word) == TokenType::Unknown <==> keyword_of(word) is None && paren_of(word)
            is None && operator_of(word) is None && seperator_of(word) is None && whitespace_of(
            word,
        ) is None && quote_of(word) is None,
{
    reveal_strlit("fun");
    reveal_strlit("if");
    reveal_strlit("(");
    reveal_strlit(")");
    reveal_strlit("<");
    reveal_strlit(">");
    reveal_strlit("{");
    reveal_strlit("}");
    reveal_strlit("+");
    reveal_strlit("-");
    reveal_strlit("*");
    reveal_strlit("/");
    reveal_strlit(":");
    reveal_strlit(",");
    reveal_strlit("\"");
    reveal_strlit("'");
    reveal_strlit("`");
    reveal_strlit(" ");
    reveal_strlit("\n");
    reveal_strlit("\r\n");
    if word.len() == 1 {
        let c = word[0];
        assert("("@[0] == '(' && ")"@[0] == ')' && "<"@[0] == '<' && ">"@[0] == '>' && "{"@[0]
            == '{' && "}"@[0] == '}');
        assert("+"@[0] == '+' && "-"@[0] == '-' && "*"@[0] == '*' && "/"@[0] == '/');
        assert(":"@[0] == ':' && ","@[0] == ',');
        assert("\""@[0] == '"' && "'"@[0] == '\'' && "`"@[0] == '`');
        assert(" "@[0] == ' ' && "\n"@[0] == '\n');
        assert("fun"@.len() == 3 && "if"@.len() == 2 && "\r\n"@.len() == 2);
    } else {
        assert("("@.len() == 1 && ")"@.len() == 1 && "<"@.len() == 1 && ">"@.len() == 1 && "{"@.len()
            == 1 && "}"@.len() == 1);
        assert("+"@.len() == 1 && "-"@.len() == 1 && "*"@.len() == 1 && "/"@.len() == 1);
        assert(":"@.len() == 1 && ","@.len() == 1);
        assert("\""@.len() == 1 && "'"@.len() == 1 && "`"@.len() == 1);
        assert(" "@.len() == 1 && "\n"@.len() == 1);
        assert("fun"@.len() == 3 && "if"@.len() == 2 && "\r\n"@.len() == 2);
        assert("if"@[0] == 'i' && "\r\n"@[0] == '\r');
    }
}

} // verus!
