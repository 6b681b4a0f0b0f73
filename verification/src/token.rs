//! Lexemes with their place in the source.

use vstd::prelude::*;
use vstd::std_specs::cmp::PartialEqSpecImpl;

verus! {

/// A lexeme and the place in the source where it was read.
pub ghost struct TokenView {
    pub data: Seq<char>,
    pub line: Seq<char>,
    pub row: nat,
    pub column: nat,
}

#[derive(Debug)]
pub struct Token<'text> {
    pub data: String,
    pub line: &'text str,
    pub row: usize,
    pub column: usize,
}

impl<'text> View for Token<'text> {
    type V = TokenView;

    open spec fn view(&self) -> TokenView {
        TokenView {
            data: self.data@,
            line: self.line@,
            row: self.row as nat,
            column: self.column as nat,
        }
    }
}

/// The views of a run of tokens, in order.
pub open spec fn views(tokens: Seq<Token<'_>>) -> Seq<TokenView> {
    tokens.map_values(|token: Token<'_>| token@)
}

impl<'text> Clone for Token<'text> {
    fn clone(&self) -> (r: Self)
        ensures
            r == *self,
    {
        Token { data: self.data.clone(), line: self.line, row: self.row, column: self.column }
    }
}

/// Two tokens are equal when their text is: the place is not compared.
impl<'text> PartialEq for Token<'text> {
    fn eq(&self, other: &Self) -> (r: bool) {
        self.data == other.data
    }
}

impl<'text> PartialEqSpecImpl for Token<'text> {
    open spec fn obeys_eq_spec() -> bool {
        true
    }

    open spec fn eq_spec(&self, other: &Self) -> bool {
        self.data@ == other.data@
    }
}

impl<'text> Token<'text> {
    /// Whether the token's text is the single character `character`.
    pub fn is_char(&self, character: char) -> (r: bool)
        ensures
            r == (self@.data == seq![character]),
    {
        let mut single = String::new();
        single.push(character);
        assert(single@ =~= seq![character]);
        self.data == single
    }
}

} // verus!
