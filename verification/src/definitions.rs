//! Kinds of token, as the recognizer numbers them.

use crate::interval::{numeric_to_symbol, spec_numeric_to_symbol};
use crate::text::{decimal_digits, push_digits};
use vstd::prelude::*;
use vstd::string::StringExecFns;

verus! {

/// The code of the end of input.
pub const EOF_CODE: isize = -1;

/// The code of the empty transition.
pub const EPSILON_CODE: isize = -2;

/// What a token code stands for.
#[derive(Debug, PartialEq, Eq, Structural, Clone, Copy)]
pub enum TokenType {
    InvalidType,
    Epsilon,
    EOF,
    USER(usize),
}

impl TokenType {
    /// The kind of token that the code `index` stands for.
    pub open spec fn spec_from_size(index: isize) -> TokenType {
        if index == EPSILON_CODE {
            TokenType::Epsilon
        } else if index == EOF_CODE {
            TokenType::EOF
        } else if index == 0 {
            TokenType::InvalidType
        } else {
            TokenType::USER(spec_numeric_to_symbol(index) as usize)
        }
    }

    /// The name of the kind; a number in decimal for a user's token.
    pub open spec fn spec_as_string(self) -> Seq<char> {
        match self {
            TokenType::InvalidType => "INVALID_TYPE"@,
            TokenType::Epsilon => "EPSILON"@,
            TokenType::EOF => "EOF"@,
            TokenType::USER(token) => decimal_digits(token as nat),
        }
    }

    /// The name of the kind, as text.
    pub fn as_string(&self) -> (r: String)
        ensures
            r@ == self.spec_as_string(),
    {
        match *self {
            TokenType::InvalidType => String::from_str("INVALID_TYPE"),
            TokenType::Epsilon => String::from_str("EPSILON"),
            TokenType::EOF => String::from_str("EOF"),
            TokenType::USER(token) => {
                let mut buf = String::new();
                push_digits(&mut buf, token);
                assert(Seq::<char>::empty() + decimal_digits(token as nat) =~= decimal_digits(
                    token as nat,
                ));
                buf
            },
        }
    }

    /// The kind of token that the code `index` stands for: the two
    /// reserved codes, zero for the invalid type, and any other code as a
    /// user's token under its unsigned reading.
    pub fn from_size(index: isize) -> (r: Self)
        ensures
            r == Self::spec_from_size(index),
    {
        if index == EPSILON_CODE {
            TokenType::Epsilon
        } else if index == EOF_CODE {
            TokenType::EOF
        } else if index == 0 {
            TokenType::InvalidType
        } else {
            TokenType::USER(numeric_to_symbol(index))
        }
    }
}

/// Two borrowed values side by side.
pub struct Pair<'a, A: 'a + ?Sized, B: 'a + ?Sized>(&'a A, &'a B);

/// A stream of characters.
pub trait CharStream {
    fn get_text(&self, interval: &dyn Interval) -> String;
}

/// A stretch of a stream.
pub trait Interval {

}

pub trait Recognizer {

}

pub trait Parser {

}

} // verus!
