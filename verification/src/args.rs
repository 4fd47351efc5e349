//! The argument of a resolution: the template, taken out of the quoted
//! string literal that stands first among the tokens handed over.

use crate::text::{ends_with, skip_first, skip_last, starts_with};
use vstd::prelude::*;
use vstd::string::*;

verus! {

/// The character that a string literal starts and ends with.
pub const QUOTE: char = '"';

/// One token of the argument list, as text.
#[derive(Debug, PartialEq, Eq)]
pub enum Token {
    /// A literal, as it is written in the source.
    Literal(String),
    /// Any other token, in its debug rendering.
    Other(String),
}

/// The arguments of one resolution.
#[derive(Debug, PartialEq, Eq)]
pub struct Args {
    /// The template, without the quotes around it.
    pub input: String,
}

/// Why the tokens hold no template.
#[derive(Debug, PartialEq, Eq)]
pub enum ArgsError {
    /// The first token is not a quoted string; it is carried along.
    InputNotStringLiteral(Token),
    /// There is no token at all.
    MissingInput,
}

/// A [`Token`] as a value.
pub enum SpecToken {
    Literal(Seq<char>),
    Other(Seq<char>),
}

/// An [`ArgsError`] as a value.
pub enum SpecArgsError {
    InputNotStringLiteral(SpecToken),
    MissingInput,
}

impl View for Token {
    type V = SpecToken;

    open spec fn view(&self) -> SpecToken {
        match self {
            Token::Literal(text) => SpecToken::Literal(text@),
            Token::Other(text) => SpecToken::Other(text@),
        }
    }
}

impl View for Args {
    type V = Seq<char>;

    open spec fn view(&self) -> Seq<char> {
        self.input@
    }
}

impl View for ArgsError {
    type V = SpecArgsError;

    open spec fn view(&self) -> SpecArgsError {
        match self {
            ArgsError::InputNotStringLiteral(token) => SpecArgsError::InputNotStringLiteral(
                token@,
            ),
            ArgsError::MissingInput => SpecArgsError::MissingInput,
        }
    }
}

impl SpecToken {
    /// The token's text.
    pub open spec fn text(self) -> Seq<char> {
        match self {
            SpecToken::Literal(text) => text,
            SpecToken::Other(text) => text,
        }
    }
}

impl SpecArgsError {
    /// The diagnostic that the error is reported with.
    pub open spec fn message(self) -> Seq<char> {
        match self {
            SpecArgsError::InputNotStringLiteral(token) => "Expected string literal, got "@
                + token.text(),
            SpecArgsError::MissingInput => "Missing input string"@,
        }
    }
}

impl ArgsError {
    /// The diagnostic that the error is reported with.
    pub fn message(&self) -> (text: String)
        ensures
            text@ == self@.message(),
    {
        match self {
            ArgsError::InputNotStringLiteral(token) => {
                let mut text = "Expected string literal, got ".to_owned();
                match token {
                    Token::Literal(literal) => text.append(literal.as_str()),
                    Token::Other(other) => text.append(other.as_str()),
                }
                text
            },
            ArgsError::MissingInput => "Missing input string".to_owned(),
        }
    }
}

/// The text of a quoted string literal: what stands between the quote that
/// the literal starts with and the quote that it ends with. `None` for any
/// text that does not start and end with a quote of its own.
pub open spec fn unquote_spec(quoted: Seq<char>) -> Option<Seq<char>> {
    if quoted.len() >= 2 && quoted[0] == QUOTE && quoted.last() == QUOTE {
        Some(quoted.subrange(1, quoted.len() - 1))
    } else {
        None
    }
}

/// What the tokens `input` hold: the template of the first token, or why
/// there is none. Tokens after the first are not looked at.
pub open spec fn from_tokens_spec(input: Seq<SpecToken>) -> Result<Seq<char>, SpecArgsError> {
    if input.len() == 0 {
        Err(SpecArgsError::MissingInput)
    } else {
        match input[0] {
            SpecToken::Literal(quoted) => match unquote_spec(quoted) {
                Some(inner) => Ok(inner),
                None => Err(SpecArgsError::InputNotStringLiteral(input[0])),
            },
            SpecToken::Other(_) => Err(SpecArgsError::InputNotStringLiteral(input[0])),
        }
    }
}

/// Takes the quotes off a string literal.
pub fn unquote<'a>(quoted: &'a str) -> (r: Option<&'a str>)
    ensures
        match unquote_spec(quoted@) {
            Some(inner) => r matches Some(text) && text@ == inner,
            None => r is None,
        },
{
    if !starts_with(quoted, QUOTE) {
        return None;
    }
    let rest = skip_first(quoted);
    if !ends_with(rest, QUOTE) {
        return None;
    }
    let inner = skip_last(rest);
    proof {
        assert(rest@.last() == quoted@.last());
        assert(inner@ =~= quoted@.subrange(1, quoted@.len() - 1));
    }
    Some(inner)
}

impl Args {
    /// Reads the arguments off the tokens handed over.
    pub fn from_tokens(input: &Vec<Token>) -> (r: Result<Args, ArgsError>)
        ensures
            match from_tokens_spec(input@.map_values(|token: Token| token@)) {
                Ok(template) => r matches Ok(args) && args@ == template,
                Err(error) => r matches Err(failed) && failed@ == error,
            },
    {
        if input.len() == 0 {
            return Err(ArgsError::MissingInput);
        }
        match &input[0] {
            Token::Literal(quoted) => match unquote(quoted.as_str()) {
                Some(inner) => Ok(Args { input: inner.to_owned() }),
                None => Err(ArgsError::InputNotStringLiteral(Token::Literal(quoted.clone()))),
            },
            Token::Other(text) => Err(ArgsError::InputNotStringLiteral(Token::Other(text.clone()))),
        }
    }
}

} // verus!
