//! Parse failures: what went wrong and where.
//!
//! A position counts characters from the start of the text that the failing
//! rule was given. When a rule fails inside another, the outer rule moves the
//! position into its own coordinates with [`ParseError::shifted`].

use vstd::prelude::*;

verus! {

/// A fixed piece of text that the grammar matches literally.
#[derive(Debug, Clone, Copy, PartialEq, Eq, Structural)]
pub enum Token {
    /// `let` and the single space that must follow it.
    Let,
    Return,
    Fn,
    Assign,
    Semicolon,
    Comma,
    OpenParen,
    CloseParen,
    OpenBrace,
    CloseBrace,
    Quote,
    True,
    False,
    Plus,
    Minus,
    Star,
    Slash,
    Caret,
    Space,
    LineFeed,
    CarriageReturn,
}

/// What a rule was looking for at the place where it failed.
#[derive(Debug, Clone, Copy, PartialEq, Eq, Structural)]
pub enum Expected {
    /// A decimal digit.
    Digit,
    /// A letter or a decimal digit.
    Alphanumeric,
    /// The content of a string literal: letters, digits, spaces, tabs.
    Text,
    /// `true` or `false`.
    Boolean,
    /// An infix operator of the precedence level being parsed.
    Operator,
    /// One particular token.
    Literal(Token),
}

/// A pair of brackets.
#[derive(Debug, Clone, Copy, PartialEq, Eq, Structural)]
pub enum Delimiter {
    Paren,
    Brace,
}

/// Why a text was not accepted.
#[derive(Debug, PartialEq, Eq)]
pub enum ParseError {
    /// The text ended where a rule needed at least one more character.
    UnexpectedEndOfInput,
    /// The character at `position` cannot start what was expected there.
    UnexpectedToken { expected: Expected, position: usize },
    /// The digit run at `position` denotes a value above `i32::MAX`.
    NumberOverflow { digits: String, position: usize },
    /// A string literal was opened, and no closing quote follows its content,
    /// which ends at `position`.
    UnterminatedString { position: usize },
    /// A bracket was opened, and its partner is not at `position`, where the
    /// bracketed content ends.
    UnbalancedDelimiter { kind: Delimiter, position: usize },
    /// A whole program was recognised, but text other than white space
    /// remains, starting at `position`.
    TrailingInput { position: usize },
}

/// The mathematical value of a [`ParseError`].
pub enum Failure {
    UnexpectedEndOfInput,
    UnexpectedToken { expected: Expected, position: nat },
    NumberOverflow { digits: Seq<char>, position: nat },
    UnterminatedString { position: nat },
    UnbalancedDelimiter { kind: Delimiter, position: nat },
    TrailingInput { position: nat },
}

impl View for ParseError {
    type V = Failure;

    open spec fn view(&self) -> Failure {
        match *self {
            ParseError::UnexpectedEndOfInput => Failure::UnexpectedEndOfInput,
            ParseError::UnexpectedToken { expected, position } => Failure::UnexpectedToken {
                expected,
                position: position as nat,
            },
            ParseError::NumberOverflow { digits, position } => Failure::NumberOverflow {
                digits: digits@,
                position: position as nat,
            },
            ParseError::UnterminatedString { position } => Failure::UnterminatedString {
                position: position as nat,
            },
            ParseError::UnbalancedDelimiter { kind, position } => Failure::UnbalancedDelimiter {
                kind,
                position: position as nat,
            },
            ParseError::TrailingInput { position } => Failure::TrailingInput {
                position: position as nat,
            },
        }
    }
}

impl Clone for ParseError {
    /// A copy that models the same failure.
    fn clone(&self) -> (copy: ParseError)
        ensures
            copy@ == self@,
    {
        match self {
            ParseError::UnexpectedEndOfInput => ParseError::UnexpectedEndOfInput,
            ParseError::UnexpectedToken { expected, position } => ParseError::UnexpectedToken {
                expected: *expected,
                position: *position,
            },
            ParseError::NumberOverflow { digits, position } => ParseError::NumberOverflow {
                digits: digits.clone(),
                position: *position,
            },
            ParseError::UnterminatedString { position } => ParseError::UnterminatedString {
                position: *position,
            },
            ParseError::UnbalancedDelimiter { kind, position } => ParseError::UnbalancedDelimiter {
                kind: *kind,
                position: *position,
            },
            ParseError::TrailingInput { position } => ParseError::TrailingInput {
                position: *position,
            },
        }
    }
}

impl Failure {
    /// The same failure seen from `by` characters further left.
    ///
    /// The end of the input is the same place from everywhere, so
    /// `UnexpectedEndOfInput` stays as it is.
    pub open spec fn shifted(self, by: nat) -> Failure {
        match self {
            Failure::UnexpectedEndOfInput => Failure::UnexpectedEndOfInput,
            Failure::UnexpectedToken { expected, position } => Failure::UnexpectedToken {
                expected,
                position: position + by,
            },
            Failure::NumberOverflow { digits, position } => Failure::NumberOverflow {
                digits,
                position: position + by,
            },
            Failure::UnterminatedString { position } => Failure::UnterminatedString {
                position: position + by,
            },
            Failure::UnbalancedDelimiter { kind, position } => Failure::UnbalancedDelimiter {
                kind,
                position: position + by,
            },
            Failure::TrailingInput { position } => Failure::TrailingInput { position: position + by },
        }
    }

    /// Whether the failure lies inside a text of `len` characters, its end
    /// included.
    pub open spec fn within(self, len: nat) -> bool {
        match self {
            Failure::UnexpectedEndOfInput => true,
            Failure::UnexpectedToken { position, .. } => position <= len,
            Failure::NumberOverflow { position, .. } => position <= len,
            Failure::UnterminatedString { position } => position <= len,
            Failure::UnbalancedDelimiter { position, .. } => position <= len,
            Failure::TrailingInput { position } => position <= len,
        }
    }

    /// Whether `self` got at least as far into the text as `other`.
    ///
    /// Nothing lies beyond the end of the input, so `UnexpectedEndOfInput`
    /// gets at least as far as every failure, and only it gets as far as
    /// itself.
    pub open spec fn reaches(self, other: Failure) -> bool {
        match (self, other) {
            (Failure::UnexpectedEndOfInput, _) => true,
            (_, Failure::UnexpectedEndOfInput) => false,
            _ => self.place() >= other.place(),
        }
    }

    /// The position that the failure carries; 0 for the one that carries none.
    pub open spec fn place(self) -> nat {
        match self {
            Failure::UnexpectedEndOfInput => 0,
            Failure::UnexpectedToken { position, .. } => position,
            Failure::NumberOverflow { position, .. } => position,
            Failure::UnterminatedString { position } => position,
            Failure::UnbalancedDelimiter { position, .. } => position,
            Failure::TrailingInput { position } => position,
        }
    }
}

/// Of the failures of two alternatives tried at the same place, the one that
/// got further; the later alternative's where both got equally far.
pub open spec fn furthest(earlier: Failure, later: Failure) -> Failure {
    if later.reaches(earlier) {
        later
    } else {
        earlier
    }
}

impl ParseError {
    /// The position that the failure carries, if it carries one.
    pub fn position(&self) -> (p: Option<usize>)
        ensures
            p == match self@ {
                Failure::UnexpectedEndOfInput => None::<usize>,
                _ => Some(self@.place() as usize),
            },
    {
        match self {
            ParseError::UnexpectedEndOfInput => None,
            ParseError::UnexpectedToken { position, .. } => Some(*position),
            ParseError::NumberOverflow { position, .. } => Some(*position),
            ParseError::UnterminatedString { position } => Some(*position),
            ParseError::UnbalancedDelimiter { position, .. } => Some(*position),
            ParseError::TrailingInput { position } => Some(*position),
        }
    }

    /// Moves the failure `by` characters to the right: the failure of a rule
    /// that ran on a suffix of a text, in the coordinates of that text.
    pub fn shifted(self, by: usize) -> (moved: ParseError)
        requires
            self@.place() + by <= usize::MAX,
        ensures
            moved@ == self@.shifted(by as nat),
    {
        match self {
            ParseError::UnexpectedEndOfInput => ParseError::UnexpectedEndOfInput,
            ParseError::UnexpectedToken { expected, position } => ParseError::UnexpectedToken {
                expected,
                position: position + by,
            },
            ParseError::NumberOverflow { digits, position } => ParseError::NumberOverflow {
                digits,
                position: position + by,
            },
            ParseError::UnterminatedString { position } => ParseError::UnterminatedString {
                position: position + by,
            },
            ParseError::UnbalancedDelimiter { kind, position } => ParseError::UnbalancedDelimiter {
                kind,
                position: position + by,
            },
            ParseError::TrailingInput { position } => ParseError::TrailingInput {
                position: position + by,
            },
        }
    }

    /// Chooses between the failures of two alternatives that were tried at
    /// the same place: `self` first, `later` second.
    pub fn furthest(self, later: ParseError) -> (chosen: ParseError)
        ensures
            chosen@ == furthest(self@, later@),
    {
        let later_reaches = match (&self, &later) {
            (_, ParseError::UnexpectedEndOfInput) => true,
            (ParseError::UnexpectedEndOfInput, _) => false,
            _ => {
                let a = self.position();
                let b = later.position();
                match (a, b) {
                    (Some(a), Some(b)) => b >= a,
                    _ => true,
                }
            },
        };
        if later_reaches {
            later
        } else {
            self
        }
    }
}

} // verus!
