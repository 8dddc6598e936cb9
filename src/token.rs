use vstd::prelude::*;

verus! {

/// A span of source text with the 1-based position of its first character.
#[derive(Debug)]
pub struct Token {
    pub line: usize,
    pub column: usize,
    pub literal: String,
}

/// The mathematical value of a `Token`.
pub ghost struct TokenView {
    pub line: nat,
    pub column: nat,
    pub literal: Seq<char>,
}

impl View for Token {
    type V = TokenView;

    open spec fn view(&self) -> TokenView {
        TokenView { line: self.line as nat, column: self.column as nat, literal: self.literal@ }
    }
}

impl Token {
    pub fn new(line: usize, column: usize, literal: String) -> (r: Token)
        ensures
            r.line == line,
            r.column == column,
            r.literal@ == literal@,
    {
        Token { line, column, literal }
    }
}

/// The views of a sequence of tokens, in order.
pub open spec fn tokens_view(ts: Seq<Token>) -> Seq<TokenView> {
    ts.map_values(|t: Token| t@)
}

} // verus!
