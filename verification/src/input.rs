//! The table of significant tokens that the parser reads.

use vstd::prelude::*;

use crate::syntax_kind::SyntaxKind;

verus! {

/// A significant token as the parser sees it: its kind and the column at which it starts.
#[derive(Debug, Clone, Copy, PartialEq, Eq, Structural)]
pub struct Token {
    pub kind: SyntaxKind,
    pub col: u32,
}

/// The token a lookup yields past the end of the table.
pub open spec fn eof_token() -> Token {
    Token { kind: SyntaxKind::EOF, col: 0 }
}

/// The token at `idx` of `tokens`; the end-of-input token where there is none.
pub open spec fn token_at(tokens: Seq<Token>, idx: int) -> Token {
    if 0 <= idx < tokens.len() {
        tokens[idx]
    } else {
        eof_token()
    }
}

/// The table of significant tokens that a parse reads. Trivia never enters it.
pub struct Input {
    tokens: Vec<Token>,
}

impl View for Input {
    type V = Seq<Token>;

    closed spec fn view(&self) -> Seq<Token> {
        self.tokens@
    }
}

impl Default for Input {
    fn default() -> (r: Input)
        ensures
            r@ == Seq::<Token>::empty(),
    {
        Input { tokens: Vec::new() }
    }
}

impl Input {
    /// The token at `idx`, or the end-of-input token at column 0 past the end.
    pub fn token(&self, idx: usize) -> (t: Token)
        ensures
            t == token_at(self@, idx as int),
    {
        if idx < self.tokens.len() {
            self.tokens[idx]
        } else {
            Token { kind: SyntaxKind::EOF, col: 0 }
        }
    }

    /// Appends a token.
    pub fn push(&mut self, kind: SyntaxKind, col: u32)
        ensures
            final(self)@ == old(self)@.push(Token { kind, col }),
    {
        self.tokens.push(Token { kind, col });
    }

    /// The table is a vector, so its length fits a machine word.
    pub proof fn lemma_len_fits(&self)
        ensures
            self@.len() <= usize::MAX,
    {
        assert(self.tokens@.len() == self.tokens.len());
    }

    /// The number of tokens in the table.
    pub fn len(&self) -> (n: usize)
        ensures
            n == self@.len(),
    {
        self.tokens.len()
    }
}

} // verus!
