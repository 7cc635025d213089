//! Tables of token names, looked up by token kind.

use crate::definitions::TokenType;
use crate::text::texts;
use vstd::prelude::*;
use vstd::string::StrSliceExecFns;

verus! {

/// Whether a character is uppercase in Unicode's sense, as
/// `char::is_uppercase` of the standard library tells it.
pub uninterp spec fn is_uppercase_char(c: char) -> bool;

/// `char::is_uppercase` of the standard library: the answer depends on the
/// character alone.
pub assume_specification[ char::is_uppercase ](c: char) -> (r: bool)
    ensures
        r == is_uppercase_char(c),
;

/// The names of the token kinds: how a token is spelled where it is a fixed
/// word or sign, what it is called, and what to show for it.
#[derive(Debug, PartialEq)]
pub struct Vocabulary {
    literal_names: Vec<String>,
    symbolic_names: Vec<String>,
    display_names: Vec<String>,
    max_toke_type: usize,
}

/// The greatest of three lengths.
pub open spec fn longest(a: int, b: int, c: int) -> int {
    if a >= b && a >= c {
        a
    } else if b >= c {
        b
    } else {
        c
    }
}

/// The literal names that a list of token names gives. The first character
/// of the first name decides for the whole list: where the first name is
/// empty or starts with a single quote, each name is its own literal name;
/// else no token has one.
pub open spec fn literal_names_from(names: Seq<String>) -> Seq<Seq<char>> {
    Seq::new(
        names.len(),
        |i: int|
            if names[0]@.len() == 0 || names[0]@[0] == '\'' {
                names[i]@
            } else {
                Seq::<char>::empty()
            },
    )
}

/// The symbolic names that a list of token names gives. The first character
/// of the first name decides for the whole list: where the first name is
/// empty or starts with an uppercase letter, each name is its own symbolic
/// name; else no token has one.
pub open spec fn symbolic_names_from(names: Seq<String>) -> Seq<Seq<char>> {
    Seq::new(
        names.len(),
        |i: int|
            if names[0]@.len() == 0 || (names[0]@[0] != '\'' && is_uppercase_char(names[0]@[0])) {
                names[i]@
            } else {
                Seq::<char>::empty()
            },
    )
}

impl Vocabulary {
    /// The table of literal names.
    pub closed spec fn spec_literal_names(&self) -> Seq<String> {
        self.literal_names@
    }

    /// The table of symbolic names.
    pub closed spec fn spec_symbolic_names(&self) -> Seq<String> {
        self.symbolic_names@
    }

    /// The table of names to show.
    pub closed spec fn spec_display_names(&self) -> Seq<String> {
        self.display_names@
    }

    /// The greatest token type.
    pub closed spec fn spec_max_toke_type(&self) -> usize {
        self.max_toke_type
    }

    /// The literal name of a token kind: the entry of the table for a
    /// user's token within it, else the empty text.
    pub open spec fn literal_name_of(&self, token_type: TokenType) -> Seq<char> {
        match token_type {
            TokenType::USER(token) if token < self.spec_literal_names().len() => {
                self.spec_literal_names()[token as int]@
            },
            _ => Seq::<char>::empty(),
        }
    }

    /// The symbolic name of a token kind: `EOF` for the end of input, the
    /// entry of the table for a user's token within it, else the empty
    /// text.
    pub open spec fn symbolic_name_of(&self, token_type: TokenType) -> Seq<char> {
        match token_type {
            TokenType::EOF => "EOF"@,
            TokenType::USER(token) if token < self.spec_symbolic_names().len() => {
                self.spec_symbolic_names()[token as int]@
            },
            _ => Seq::<char>::empty(),
        }
    }

    /// The name to show for a token kind: the entry of the display table
    /// for a user's token within it; else the literal name unless empty;
    /// else the symbolic name.
    pub open spec fn display_name_of(&self, token_type: TokenType) -> Seq<char> {
        match token_type {
            TokenType::USER(token) if token < self.spec_display_names().len() => {
                self.spec_display_names()[token as int]@
            },
            _ => if self.literal_name_of(token_type).len() > 0 {
                self.literal_name_of(token_type)
            } else {
                self.symbolic_name_of(token_type)
            },
        }
    }

    /// A vocabulary with copies of the three tables. The greatest token
    /// type is one less than the length of the longest table.
    pub fn new(literal_names: &[String], symbolic_names: &[String], display_names: &[String]) -> (r:
        Vocabulary)
        requires
            literal_names@.len() > 0 || symbolic_names@.len() > 0 || display_names@.len() > 0,
        ensures
            r.spec_literal_names() =~= literal_names@,
            r.spec_symbolic_names() =~= symbolic_names@,
            r.spec_display_names() =~= display_names@,
            r.spec_max_toke_type() == longest(
                literal_names@.len() as int,
                symbolic_names@.len() as int,
                display_names@.len() as int,
            ) - 1,
    {
        let mut res = Vocabulary::empty();
        res.literal_names.extend_from_slice(literal_names);
        res.symbolic_names.extend_from_slice(symbolic_names);
        res.display_names.extend_from_slice(display_names);
        let (a, b, c) = (
            res.literal_names.len(),
            res.symbolic_names.len(),
            res.display_names.len(),
        );
        let most: usize = if a >= b && a >= c {
            a
        } else if b >= c {
            b
        } else {
            c
        };
        res.max_toke_type = most - 1;
        res
    }

    /// The vocabulary without names.
    pub fn empty() -> (r: Vocabulary)
        ensures
            r.spec_literal_names().len() == 0,
            r.spec_symbolic_names().len() == 0,
            r.spec_display_names().len() == 0,
            r.spec_max_toke_type() == 0,
    {
        Vocabulary {
            literal_names: Vec::new(),
            symbolic_names: Vec::new(),
            display_names: Vec::new(),
            max_toke_type: 0,
        }
    }

    /// The vocabulary that a list of token names stands for: each name is
    /// shown as it is, and is a literal name, a symbolic name, both or
    /// neither by the first character of the first name of the list.
    pub fn from_token_names(token_names: &Vec<String>) -> (r: Vocabulary)
        ensures
            texts(r.spec_literal_names()) =~= literal_names_from(token_names@),
            texts(r.spec_symbolic_names()) =~= symbolic_names_from(token_names@),
            texts(r.spec_display_names()) =~= texts(token_names@),
            r.spec_max_toke_type() == (if token_names@.len() == 0 {
                0
            } else {
                token_names@.len() - 1
            }),
    {
        if token_names.is_empty() {
            return Vocabulary::empty();
        }
        let (mut literal_names, mut symbolic_names) = (token_names.clone(), token_names.clone());
        let n = token_names.len();
        let ghost names = token_names@;
        let mut i: usize = 0;
        while i < n
            invariant
                n == names.len(),
                names == token_names@,
                n > 0,
                i <= n,
                literal_names@.len() == n,
                symbolic_names@.len() == n,
                forall|k: int|
                    0 <= k < i ==> (#[trigger] literal_names@[k])@ == literal_names_from(names)[k],
                forall|k: int| i <= k < n ==> (#[trigger] literal_names@[k])@ == names[k]@,
                forall|k: int|
                    0 <= k < i ==> (#[trigger] symbolic_names@[k])@ == symbolic_names_from(
                        names,
                    )[k],
                forall|k: int| i <= k < n ==> (#[trigger] symbolic_names@[k])@ == names[k]@,
            decreases n - i,
        {
            let token_name = &token_names[0];
            if token_name.as_str().is_empty() {
                i += 1;
                continue ;
            }
            let first_char = token_name.as_str().get_char(0);
            if first_char == '\'' {
                symbolic_names[i] = String::new();
                i += 1;
                continue ;
            } else if first_char.is_uppercase() {
                literal_names[i] = String::new();
                i += 1;
                continue ;
            }
            literal_names[i] = String::new();
            symbolic_names[i] = String::new();
            i += 1;
        }
        Vocabulary::new(literal_names.as_slice(), symbolic_names.as_slice(), token_names.as_slice())
    }

    /// The greatest token type of the vocabulary.
    pub fn get_max_toke_type(&self) -> (r: usize)
        ensures
            r == self.spec_max_toke_type(),
    {
        self.max_toke_type
    }

    /// The literal name of a token kind, empty where it has none.
    pub fn get_literal_name(&self, token_type: &TokenType) -> (r: &str)
        ensures
            r@ == self.literal_name_of(*token_type),
    {
        if let TokenType::USER(token) = *token_type {
            if token < self.literal_names.len() {
                return self.literal_names[token].as_str();
            }
        }
        proof {
            reveal_strlit("");
            assert(""@ =~= Seq::<char>::empty());
        }
        ""
    }

    /// The symbolic name of a token kind, empty where it has none.
    pub fn get_symbolic_name(&self, token_type: &TokenType) -> (r: &str)
        ensures
            r@ == self.symbolic_name_of(*token_type),
    {
        proof {
            reveal_strlit("");
            assert(""@ =~= Seq::<char>::empty());
        }
        match *token_type {
            TokenType::EOF => "EOF",
            TokenType::USER(token) => {
                if token < self.symbolic_names.len() {
                    self.symbolic_names[token].as_str()
                } else {
                    ""
                }
            },
            _ => "",
        }
    }

    /// The name to show for a token kind, empty where no table names it.
    pub fn get_display_name(&self, token_type: &TokenType) -> (r: &str)
        ensures
            r@ == self.display_name_of(*token_type),
    {
        if let TokenType::USER(token) = *token_type {
            if token < self.display_names.len() {
                return self.display_names[token].as_str();
            }
        }
        let literal_name = self.get_literal_name(token_type);
        if !literal_name.is_empty() {
            return literal_name;
        }
        let symbolic_name = self.get_symbolic_name(token_type);
        if !symbolic_name.is_empty() {
            return symbolic_name;
        }
        proof {
            reveal_strlit("");
            assert(""@ =~= Seq::<char>::empty());
        }
        ""
    }
}

} // verus!
