//! The placeholder scanner: a cursor over a template that yields, one step at
//! a time, a run of plain text or the value of a `{NAME}` placeholder.

use crate::table::VariableTable;
use crate::text::{
    decimal, lemma_first_after_head, lemma_len_fits, push_decimal, skip_first, split_before,
    starts_with,
};
use vstd::prelude::*;
use vstd::string::*;

verus! {

/// The character that opens a placeholder.
pub const ARG_START: char = '{';

/// The character that closes a placeholder.
pub const ARG_END: char = '}';

/// One piece of a template, as the scanner yields it.
#[derive(Debug, Clone, Copy, PartialEq, Eq)]
pub enum Part<'a, 'b> {
    /// A run of the template's own text.
    Plain(&'a str),
    /// The value of a variable that a placeholder named.
    Argument(&'b str),
}

/// Why a template cannot be scanned further.
#[derive(Debug, Clone, Copy, PartialEq, Eq)]
pub enum FormatError<'a> {
    /// A placeholder names a variable that the table does not define.
    MissingValue(&'a str),
    /// A placeholder is opened at this offset and never closed.
    MissingClosingBracket(usize),
    /// A doubled bracket stands at this offset.
    BracketEscapeInvalid(usize),
}

/// A [`Part`] as a value: its kind and its text.
pub enum SpecPart {
    Plain(Seq<char>),
    Argument(Seq<char>),
}

/// A [`FormatError`] as a value.
pub enum SpecFormatError {
    MissingValue(Seq<char>),
    MissingClosingBracket(nat),
    BracketEscapeInvalid(nat),
}

impl<'a, 'b> View for Part<'a, 'b> {
    type V = SpecPart;

    open spec fn view(&self) -> SpecPart {
        match *self {
            Part::Plain(text) => SpecPart::Plain(text@),
            Part::Argument(value) => SpecPart::Argument(value@),
        }
    }
}

impl<'a> View for FormatError<'a> {
    type V = SpecFormatError;

    open spec fn view(&self) -> SpecFormatError {
        match *self {
            FormatError::MissingValue(name) => SpecFormatError::MissingValue(name@),
            FormatError::MissingClosingBracket(at) => SpecFormatError::MissingClosingBracket(
                at as nat,
            ),
            FormatError::BracketEscapeInvalid(at) => SpecFormatError::BracketEscapeInvalid(
                at as nat,
            ),
        }
    }
}

impl SpecFormatError {
    /// The diagnostic that the error is reported with.
    pub open spec fn message(self) -> Seq<char> {
        match self {
            SpecFormatError::MissingValue(name) => "env:"@ + name + ": missing value"@,
            SpecFormatError::MissingClosingBracket(at) => "Missing bracket at position "@
                + decimal(at),
            SpecFormatError::BracketEscapeInvalid(at) => "Unsupported bracket escape at position "@
                + decimal(at),
        }
    }
}

impl<'a> FormatError<'a> {
    /// The diagnostic that the error is reported with.
    pub fn message(&self) -> (text: String)
        ensures
            text@ == self@.message(),
    {
        match *self {
            FormatError::MissingValue(name) => {
                let mut text = "env:".to_owned();
                text.append(name);
                text.append(": missing value");
                text
            },
            FormatError::MissingClosingBracket(at) => {
                let mut text = "Missing bracket at position ".to_owned();
                push_decimal(&mut text, at);
                text
            },
            FormatError::BracketEscapeInvalid(at) => {
                let mut text = "Unsupported bracket escape at position ".to_owned();
                push_decimal(&mut text, at);
                text
            },
        }
    }
}

/// The state of a scan: what is left of the template, the table, and the
/// number of characters consumed so far.
pub struct Cursor {
    pub input: Seq<char>,
    pub vars: Map<Seq<char>, Seq<char>>,
    pub consumed: nat,
}

impl Cursor {
    /// Every offset into what is left fits in a `usize`.
    pub open spec fn in_range(self) -> bool {
        self.consumed + self.input.len() <= usize::MAX
    }

    /// The cursor moved past the first `n` characters of what is left.
    pub open spec fn advance(self, n: int) -> Cursor {
        Cursor {
            input: self.input.subrange(n, self.input.len() as int),
            vars: self.vars,
            consumed: self.consumed + n as nat,
        }
    }

    /// One scan step: `None` at the end of the template, else the part or the
    /// error that the step yields, and the cursor after it. An error leaves
    /// the cursor where it was.
    pub open spec fn step(self) -> Option<(Result<SpecPart, SpecFormatError>, Cursor)> {
        let input = self.input;
        if input.len() == 0 {
            None
        } else if input[0] == ARG_START {
            if input.len() > 1 && input[1] == ARG_START {
                Some((Err(SpecFormatError::BracketEscapeInvalid(self.consumed + 1)), self))
            } else {
                match input.index_of_first(ARG_END) {
                    None => Some((Err(SpecFormatError::MissingClosingBracket(self.consumed)), self)),
                    Some(end) => {
                        let name = input.subrange(1, end);
                        if !self.vars.contains_key(name) {
                            Some((Err(SpecFormatError::MissingValue(name)), self))
                        } else if end + 1 < input.len() && input[end + 1] == ARG_END {
                            Some(
                                (
                                    Err(
                                        SpecFormatError::BracketEscapeInvalid(
                                            self.consumed + name.len() + 1,
                                        ),
                                    ),
                                    self,
                                ),
                            )
                        } else {
                            Some(
                                (Ok(SpecPart::Argument(self.vars[name])), self.advance(end + 1)),
                            )
                        }
                    },
                }
            }
        } else {
            let end = match input.index_of_first(ARG_START) {
                Some(end) => end,
                None => input.len() as int,
            };
            Some((Ok(SpecPart::Plain(input.subrange(0, end))), self.advance(end)))
        }
    }
}

/// What a scan step's executable result stands for.
pub open spec fn outcome_view(r: Result<Part, FormatError>) -> Result<SpecPart, SpecFormatError> {
    match r {
        Ok(part) => Ok(part@),
        Err(error) => Err(error@),
    }
}

/// A scan in progress over one template and one table.
pub struct Format<'a, 'b> {
    input: &'a str,
    vars: &'b VariableTable,
    consumed: usize,
}

impl<'a, 'b> View for Format<'a, 'b> {
    type V = Cursor;

    closed spec fn view(&self) -> Cursor {
        Cursor { input: self.input@, vars: self.vars@, consumed: self.consumed as nat }
    }
}

impl<'a, 'b> Format<'a, 'b> {
    /// The count of consumed characters never leaves the machine's range:
    /// it stays within the length of the template the scan started from.
    #[verifier::type_invariant]
    spec fn in_range(&self) -> bool {
        self@.in_range()
    }

    /// A scan at the start of `input`, resolving placeholders in `vars`.
    pub fn new(input: &'a str, vars: &'b VariableTable) -> (scan: Self)
        ensures
            scan@ == (Cursor { input: input@, vars: vars@, consumed: 0 }),
            scan@.in_range(),
    {
        let bytes = input.as_bytes();
        proof {
            lemma_len_fits(input, bytes);
        }
        Format { input, vars, consumed: 0 }
    }

    /// Takes one scan step.
    pub fn next(&mut self) -> (r: Option<Result<Part<'a, 'b>, FormatError<'a>>>)
        ensures
            final(self)@.in_range(),
            match old(self)@.step() {
                None => r is None && final(self)@ == old(self)@,
                Some((outcome, after)) => {
                    &&& r matches Some(result)
                    &&& outcome_view(result) == outcome
                    &&& final(self)@ == after
                },
            },
    {
        proof {
            use_type_invariant(&*self);
            self.input@.index_of_first_ensures(ARG_START);
            self.input@.index_of_first_ensures(ARG_END);
        }
        let input = self.input;
        if input.is_empty() {
            return None;
        }
        if starts_with(input, ARG_START) {
            let inner = skip_first(input);
            if starts_with(inner, ARG_START) {
                return Some(Err(FormatError::BracketEscapeInvalid(self.consumed + 1)));
            }
            match split_before(inner, ARG_END) {
                None => {
                    proof {
                        lemma_first_after_head(input@, ARG_END);
                    }
                    Some(Err(FormatError::MissingClosingBracket(self.consumed)))
                },
                Some((name, tail)) => {
                    let ghost end: int = name@.len() as int + 1;
                    proof {
                        lemma_first_after_head(input@, ARG_END);
                        assert(input@.subrange(1, end) =~= name@);
                    }
                    match self.vars.get(name) {
                        None => Some(Err(FormatError::MissingValue(name))),
                        Some(value) => {
                            let rest = skip_first(tail);
                            let name_len = name.unicode_len();
                            proof {
                                assert(rest@ =~= input@.subrange(end + 1, input@.len() as int));
                            }
                            if starts_with(rest, ARG_END) {
                                return Some(
                                    Err(
                                        FormatError::BracketEscapeInvalid(
                                            self.consumed + name_len + 1,
                                        ),
                                    ),
                                );
                            }
                            self.input = rest;
                            self.consumed = self.consumed + name_len + 2;
                            Some(Ok(Part::Argument(value)))
                        },
                    }
                },
            }
        } else {
            match split_before(input, ARG_START) {
                Some((plain, rest)) => {
                    let plain_len = plain.unicode_len();
                    self.input = rest;
                    self.consumed = self.consumed + plain_len;
                    Some(Ok(Part::Plain(plain)))
                },
                None => {
                    let plain_len = input.unicode_len();
                    let rest = "";
                    proof {
                        reveal_strlit("");
                        assert(input@.subrange(0, input@.len() as int) =~= input@);
                        assert(input@.subrange(input@.len() as int, input@.len() as int) =~= rest@);
                    }
                    self.input = rest;
                    self.consumed = self.consumed + plain_len;
                    Some(Ok(Part::Plain(input)))
                },
            }
        }
    }
}

} // verus!
