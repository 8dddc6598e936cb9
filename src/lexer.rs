//! The scanner: a cursor over the input's code points that produces tokens.
use crate::grammar::{
    at, ats_end, block_from, digits_end, eof_error, escape_fits, escape_width, ident_end,
    identifier, lex_from, line_col, line_end, literal_end, number_end, opens_type, parameter,
    prefixed, quoted_from, reports, result_view, scan_error, step, token_of, tokenized, trim_end,
    triple_at, triple_from, ws_end, ErrorView, Scan,
};
use crate::text::{
    chars_of, digit, is_digit, is_end_of_line, is_valid_1st_char_of_ident,
    is_valid_char_of_ident, is_whitespace, string_of, to_uppercase,
};
use crate::token::{tokens_view, Token};
use vstd::prelude::*;

verus! {

/// A failure to scan a well-formed token, with the position where it arose.
#[derive(Debug)]
pub struct LexerError {
    line: usize,
    column: usize,
    message: String,
}

impl View for LexerError {
    type V = ErrorView;

    closed spec fn view(&self) -> ErrorView {
        ErrorView { line: self.line as nat, column: self.column as nat, message: self.message@ }
    }
}

impl LexerError {
    pub fn new(line: usize, column: usize, message: &str) -> (r: LexerError)
        ensures
            r@ == (ErrorView { line: line as nat, column: column as nat, message: message@ }),
    {
        LexerError { line, column, message: message.to_owned() }
    }

    /// The error for input that ran out inside an open construct.
    pub fn eof(line: usize, column: usize) -> (r: LexerError)
        ensures
            r@ == (ErrorView { line: line as nat, column: column as nat, message: "Unexpected EOF."@ }),
    {
        LexerError::new(line, column, "Unexpected EOF.")
    }

    pub fn line(&self) -> (r: usize)
        ensures
            r == self@.line,
    {
        self.line
    }

    pub fn column(&self) -> (r: usize)
        ensures
            r == self@.column,
    {
        self.column
    }

    pub fn message(&self) -> (r: String)
        ensures
            r@ == self@.message,
    {
        self.message.clone()
    }
}

/// A scanner over one input, held as code points, with its cursor, the depth
/// of open type syntax, and the tokens scanned so far.
pub struct Lexer {
    input: Vec<char>,
    position: usize,
    line: usize,
    column: usize,
    type_declaration_depth: usize,
    pub tokens: Vec<Token>,
}

/// Line and column never run ahead of the number of characters passed.
proof fn lemma_line_col_bound(s: Seq<char>, p: int)
    requires
        0 <= p,
    ensures
        1 <= line_col(s, p).0 <= p + 1,
        1 <= line_col(s, p).1 <= p + 1,
    decreases p,
{
    if p > 0 {
        lemma_line_col_bound(s, p - 1);
    }
}

impl Lexer {
    /// The input being scanned.
    pub closed spec fn text(&self) -> Seq<char> {
        self.input@
    }

    /// The index of the next character to scan.
    pub closed spec fn cursor(&self) -> nat {
        self.position as nat
    }

    /// How many levels of type syntax are believed open.
    pub closed spec fn depth(&self) -> nat {
        self.type_declaration_depth as nat
    }

    /// The tokens scanned so far.
    pub closed spec fn held(&self) -> Seq<crate::token::TokenView> {
        tokens_view(self.tokens@)
    }

    /// Whether the last token scanned opens type syntax when a `<` follows it.
    pub closed spec fn after_type(&self) -> bool {
        self.tokens@.len() > 0 && opens_type(self.tokens@.last().literal@)
    }

    /// The cursor lies within the input, its line and column follow from the
    /// characters passed, and the depth is bounded by them.
    pub closed spec fn wf(&self) -> bool {
        &&& self.position <= self.input@.len() < usize::MAX
        &&& self.line == line_col(self.input@, self.position as int).0
        &&& self.column == line_col(self.input@, self.position as int).1
        &&& self.type_declaration_depth <= self.position
    }

    /// What the rest of the scan yields from this state, ahead of the tokens already held.
    pub open spec fn outcome(&self) -> Result<Seq<crate::token::TokenView>, ErrorView> {
        lex_from(self.text(), self.cursor() as int, self.depth(), self.after_type())
    }

    /// Input, tokens and depth are those of `o`.
    closed spec fn same(&self, o: &Lexer) -> bool {
        &&& self.input@ == o.input@
        &&& self.tokens@ == o.tokens@
        &&& self.type_declaration_depth == o.type_declaration_depth
    }

    pub fn new(input: String) -> (r: Lexer)
        requires
            input@.len() < usize::MAX,
        ensures
            r.wf(),
            r.text() == input@,
            r.cursor() == 0,
            r.depth() == 0,
            r.held().len() == 0,
            r.outcome() == tokenized(input@),
    {
        let chars = chars_of(&input);
        Lexer {
            input: chars,
            position: 0,
            line: 1,
            column: 1,
            type_declaration_depth: 0,
            tokens: Vec::new(),
        }
    }

    fn get_char(&self, offset: usize) -> (r: Option<char>)
        requires
            self.wf(),
        ensures
            r == at(self.input@, self.position + offset),
    {
        if offset < self.input.len() - self.position {
            Some(self.input[self.position + offset])
        } else {
            None
        }
    }

    fn next_char(&mut self) -> (r: Result<(), LexerError>)
        requires
            old(self).wf(),
        ensures
            final(self).wf(),
            final(self).same(old(self)),
            old(self).position < old(self).input@.len() ==> r is Ok && final(self).position
                == old(self).position + 1,
            old(self).position >= old(self).input@.len() ==> (r matches Err(e) && e@ == eof_error(
                old(self).input@,
            )),
    {
        if self.position < self.input.len() {
            proof {
                lemma_line_col_bound(self.input@, self.position as int);
            }
            if self.input[self.position] == '\n' {
                self.column = 1;
                self.line = self.line + 1;
            } else {
                self.column = self.column + 1;
            }
            self.position = self.position + 1;
            Ok(())
        } else {
            Err(LexerError::eof(self.line, self.column))
        }
    }

    fn skip_whitespace(&mut self) -> (r: Result<(), LexerError>)
        requires
            old(self).wf(),
        ensures
            final(self).wf(),
            final(self).same(old(self)),
            r is Ok,
            old(self).position <= final(self).position,
            final(self).position == ws_end(old(self).input@, old(self).position as int),
    {
        while is_whitespace(&self.get_char(0))
            invariant
                self.wf(),
                self.same(old(self)),
                old(self).position <= self.position,
                ws_end(self.input@, old(self).position as int) == ws_end(
                    self.input@,
                    self.position as int,
                ),
            decreases self.input@.len() - self.position,
        {
            self.next_char()?;
        }
        Ok(())
    }

    fn read_comment(&mut self) -> (r: Result<String, LexerError>)
        requires
            old(self).wf(),
            at(old(self).input@, old(self).position as int) matches Some(c) && c != '\n',
        ensures
            final(self).wf(),
            final(self).same(old(self)),
            old(self).position < final(self).position,
            final(self).position == line_end(old(self).input@, old(self).position as int),
            r matches Ok(lit) && lit@ == old(self).input@.subrange(
                old(self).position as int,
                trim_end(old(self).input@, old(self).position as int, final(self).position as int),
            ),
    {
        let first_position = self.position;
        while !is_end_of_line(&self.get_char(0))
            invariant
                self.wf(),
                self.same(old(self)),
                first_position == old(self).position <= self.position,
                line_end(self.input@, first_position as int) == line_end(
                    self.input@,
                    self.position as int,
                ),
            decreases self.input@.len() - self.position,
        {
            self.next_char()?;
        }
        let mut end = self.position;
        while end > first_position && is_whitespace(&Some(self.input[end - 1]))
            invariant
                self.wf(),
                first_position <= end <= self.position,
                trim_end(self.input@, first_position as int, self.position as int) == trim_end(
                    self.input@,
                    first_position as int,
                    end as int,
                ),
            decreases end,
        {
            end = end - 1;
        }
        Ok(string_of(&self.input, first_position, end))
    }

    fn skip_escaped_char(&mut self) -> (r: Result<(), LexerError>)
        requires
            old(self).wf(),
            at(old(self).input@, old(self).position as int) == Some('\\'),
        ensures
            final(self).wf(),
            final(self).same(old(self)),
            escape_fits(old(self).input@, old(self).position as int) ==> (r is Ok
                && final(self).position == old(self).position + escape_width(
                old(self).input@[old(self).position + 1],
            )),
            !escape_fits(old(self).input@, old(self).position as int) ==> (r matches Err(e)
                && e@ == eof_error(old(self).input@)),
    {
        self.next_char()?;
        let more: usize = match self.get_char(0) {
            Some('x') => 2,
            Some('u') => 4,
            Some('U') => 8,
            Some(c) => if '0' <= c && c <= '7' {
                2
            } else {
                0
            },
            None => return Err(LexerError::eof(self.line, self.column)),
        };
        let start = self.position;
        let mut k: usize = 0;
        while k <= more
            invariant
                self.wf(),
                self.same(old(self)),
                self.position == start + k,
                k <= more + 1,
                start == old(self).position + 1,
                start < self.input@.len(),
                more + 2 == escape_width(self.input@[start as int]),
            decreases more + 1 - k,
        {
            self.next_char()?;
            k = k + 1;
        }
        Ok(())
    }

    fn read_quoted(&mut self) -> (r: Result<String, LexerError>)
        requires
            old(self).wf(),
            old(self).position < old(self).input@.len(),
        ensures
            final(self).wf(),
            final(self).same(old(self)),
            r is Ok ==> old(self).position < final(self).position,
            reports(
                old(self).input@,
                old(self).position as int,
                quoted_from(
                    old(self).input@,
                    old(self).input@[old(self).position as int],
                    old(self).position + 1,
                ),
                r,
                final(self).position as int,
            ),
    {
        let ghost s = self.input@;
        let quote = self.get_char(0);
        let first_position = self.position;
        self.next_char()?;
        while self.get_char(0) != quote
            invariant
                self.wf(),
                self.same(old(self)),
                s == self.input@,
                first_position == old(self).position < self.position,
                quote == Some(s[first_position as int]),
                quoted_from(s, s[first_position as int], first_position + 1) == quoted_from(
                    s,
                    s[first_position as int],
                    self.position as int,
                ),
            decreases s.len() - self.position,
        {
            if self.get_char(0) == Some('\\') {
                self.skip_escaped_char()?;
            } else {
                self.next_char()?;
            }
        }
        self.next_char()?;
        Ok(string_of(&self.input, first_position, self.position))
    }

    fn read_multiline_string(&mut self) -> (r: Result<String, LexerError>)
        requires
            old(self).wf(),
            triple_at(
                old(self).input@,
                old(self).input@[old(self).position as int],
                old(self).position as int,
            ),
        ensures
            final(self).wf(),
            final(self).same(old(self)),
            r is Ok ==> old(self).position < final(self).position,
            reports(
                old(self).input@,
                old(self).position as int,
                triple_from(
                    old(self).input@,
                    old(self).input@[old(self).position as int],
                    old(self).position + 3,
                ),
                r,
                final(self).position as int,
            ),
    {
        let ghost s = self.input@;
        let first_position = self.position;
        let ch = self.get_char(0);
        self.next_char()?;
        self.next_char()?;
        self.next_char()?;
        while !(self.get_char(0) == ch && self.get_char(1) == ch && self.get_char(2) == ch)
            invariant
                self.wf(),
                self.same(old(self)),
                s == self.input@,
                first_position == old(self).position < self.position,
                ch == Some(s[first_position as int]),
                triple_from(s, s[first_position as int], first_position + 3) == triple_from(
                    s,
                    s[first_position as int],
                    self.position as int,
                ),
            decreases s.len() - self.position,
        {
            if self.get_char(0) == Some('\\') {
                self.skip_escaped_char()?;
            } else {
                self.next_char()?;
            }
        }
        self.next_char()?;
        self.next_char()?;
        self.next_char()?;
        Ok(string_of(&self.input, first_position, self.position))
    }

    fn read_multiline_comment(&mut self) -> (r: Result<String, LexerError>)
        requires
            old(self).wf(),
        ensures
            final(self).wf(),
            final(self).same(old(self)),
            r is Ok ==> old(self).position < final(self).position,
            reports(
                old(self).input@,
                old(self).position as int,
                block_from(old(self).input@, old(self).position as int),
                r,
                final(self).position as int,
            ),
    {
        let ghost s = self.input@;
        let first_position = self.position;
        while !(self.get_char(0) == Some('*') && self.get_char(1) == Some('/'))
            invariant
                self.wf(),
                self.same(old(self)),
                s == self.input@,
                first_position == old(self).position <= self.position,
                block_from(s, first_position as int) == block_from(s, self.position as int),
            decreases s.len() - self.position,
        {
            self.next_char()?;
        }
        self.next_char()?;
        self.next_char()?;
        Ok(string_of(&self.input, first_position, self.position))
    }

    fn read_number(&mut self) -> (r: Result<String, LexerError>)
        requires
            old(self).wf(),
            at(old(self).input@, old(self).position as int) matches Some(c) && (digit(c) || c
                == '.'),
        ensures
            final(self).wf(),
            final(self).same(old(self)),
            r is Ok ==> old(self).position < final(self).position,
            reports(
                old(self).input@,
                old(self).position as int,
                Scan::Ends(number_end(old(self).input@, old(self).position as int)),
                r,
                final(self).position as int,
            ),
    {
        let ghost s = self.input@;
        let first_position = self.position;
        while is_digit(&self.get_char(0))
            invariant
                self.wf(),
                self.same(old(self)),
                s == self.input@,
                first_position == old(self).position <= self.position,
                digits_end(s, first_position as int) == digits_end(s, self.position as int),
            decreases s.len() - self.position,
        {
            self.next_char()?;
        }
        let ghost a = self.position as int;
        if self.get_char(0) == Some('.') {
            self.next_char()?;
            while is_digit(&self.get_char(0))
                invariant
                    self.wf(),
                    self.same(old(self)),
                    s == self.input@,
                    a < self.position,
                    first_position < self.position,
                    digits_end(s, a + 1) == digits_end(s, self.position as int),
                decreases s.len() - self.position,
            {
                self.next_char()?;
            }
        }
        let ghost b = self.position as int;
        let c = self.get_char(0);
        if c == Some('E') || c == Some('e') {
            self.next_char()?;
            let d = self.get_char(0);
            if d == Some('+') || d == Some('-') {
                self.next_char()?;
            }
            let ghost c0 = self.position as int;
            while is_digit(&self.get_char(0))
                invariant
                    self.wf(),
                    self.same(old(self)),
                    s == self.input@,
                    c0 <= self.position,
                    first_position < self.position,
                    digits_end(s, c0) == digits_end(s, self.position as int),
                decreases s.len() - self.position,
            {
                self.next_char()?;
            }
        }
        Ok(string_of(&self.input, first_position, self.position))
    }

    fn read_identifier(&mut self) -> (r: Result<String, LexerError>)
        requires
            old(self).wf(),
        ensures
            final(self).wf(),
            final(self).same(old(self)),
            r is Ok ==> old(self).position < final(self).position,
            reports(
                old(self).input@,
                old(self).position as int,
                identifier(old(self).input@, old(self).position as int),
                r,
                final(self).position as int,
            ),
    {
        let ghost s = self.input@;
        let first_position = self.position;
        let first_char = self.get_char(0);
        if !is_valid_1st_char_of_ident(&first_char) {
            return Err(LexerError::new(self.line, self.column, "Invalid character as an identifier."));
        }
        self.next_char()?;
        while is_valid_char_of_ident(&self.get_char(0))
            invariant
                self.wf(),
                self.same(old(self)),
                s == self.input@,
                first_position == old(self).position < self.position,
                ident_end(s, first_position + 1) == ident_end(s, self.position as int),
            decreases s.len() - self.position,
        {
            self.next_char()?;
        }
        Ok(string_of(&self.input, first_position, self.position))
    }

    fn read_parameter(&mut self) -> (r: Result<String, LexerError>)
        requires
            old(self).wf(),
        ensures
            final(self).wf(),
            final(self).same(old(self)),
            r is Ok ==> old(self).position < final(self).position,
            reports(
                old(self).input@,
                old(self).position as int,
                parameter(old(self).input@, old(self).position as int),
                r,
                final(self).position as int,
            ),
    {
        let ghost s = self.input@;
        let first_position = self.position;
        while self.get_char(0) == Some('@')
            invariant
                self.wf(),
                self.same(old(self)),
                s == self.input@,
                first_position == old(self).position <= self.position,
                ats_end(s, first_position as int) == ats_end(s, self.position as int),
            decreases s.len() - self.position,
        {
            self.next_char()?;
        }
        if self.get_char(0) == Some('`') {
            self.read_quoted()?;
        } else {
            self.read_identifier()?;
        }
        Ok(string_of(&self.input, first_position, self.position))
    }

    fn construct_token(&mut self, line: usize, column: usize, literal: String)
        requires
            old(self).wf(),
        ensures
            final(self).wf(),
            final(self).input@ == old(self).input@,
            final(self).position == old(self).position,
            final(self).type_declaration_depth == old(self).type_declaration_depth,
            final(self).held() == old(self).held().push(
                crate::token::TokenView { line: line as nat, column: column as nat, literal: literal@ },
            ),
            final(self).tokens@.last().literal@ == literal@,
    {
        let token = Token::new(line, column, literal);
        self.tokens.push(token);
        proof {
            assert(tokens_view(self.tokens@) =~= tokens_view(old(self).tokens@).push(token@));
        }
    }

    /// Whether the last token scanned opens type syntax.
    fn last_opens_type(&self) -> (r: bool)
        ensures
            r == self.after_type(),
    {
        let n = self.tokens.len();
        if n == 0 {
            false
        } else {
            let up = to_uppercase(&self.tokens[n - 1].literal);
            up == "ARRAY".to_owned() || up == "STRUCT".to_owned()
        }
    }

    /// Scans the next token and appends it; `false` once only whitespace is left.
    fn next_token(&mut self) -> (r: Result<bool, LexerError>)
        requires
            old(self).wf(),
        ensures
            final(self).wf(),
            final(self).input@ == old(self).input@,
            old(self).position <= ws_end(old(self).input@, old(self).position as int),
            ({
                let s = old(self).input@;
                let q = ws_end(s, old(self).position as int);
                if q >= s.len() {
                    &&& r matches Ok(more) && !more
                    &&& final(self).position == s.len()
                    &&& final(self).tokens@ == old(self).tokens@
                    &&& final(self).type_declaration_depth == old(self).type_declaration_depth
                } else {
                    match step(s, q, old(self).depth(), old(self).after_type()) {
                        (Scan::Ends(e), d) => {
                            &&& r matches Ok(more) && more
                            &&& old(self).position <= q < e <= s.len()
                            &&& final(self).position == e
                            &&& final(self).depth() == d
                            &&& final(self).held() == old(self).held().push(
                                token_of(s, q, literal_end(s, q, e)),
                            )
                            &&& final(self).tokens@.last().literal@ == s.subrange(
                                q,
                                literal_end(s, q, e),
                            )
                        },
                        (sc, _) => r matches Err(x) && x@ == scan_error(s, sc),
                    }
                }
            }),
    {
        proof {
            reveal(step);
        }
        self.skip_whitespace()?;
        let ch = match self.get_char(0) {
            Some(c) => c,
            None => {
                return Ok(false);
            },
        };
        let start = self.position;
        let line = self.line;
        let column = self.column;
        let literal = if ch == '.' {
            if is_digit(&self.get_char(1)) {
                self.read_number()?
            } else {
                self.next_char()?;
                string_of(&self.input, start, self.position)
            }
        } else if ch == '#' {
            self.read_comment()?
        } else if ch == '`' {
            self.read_quoted()?
        } else if ch == '"' || ch == '\'' {
            if self.get_char(1) == Some(ch) && self.get_char(2) == Some(ch) {
                self.read_multiline_string()?
            } else {
                self.read_quoted()?
            }
        } else if ch == '-' {
            if self.get_char(1) == Some('-') {
                self.read_comment()?
            } else {
                self.next_char()?;
                string_of(&self.input, start, self.position)
            }
        } else if ch == '/' {
            if self.get_char(1) == Some('*') {
                self.read_multiline_comment()?
            } else {
                self.next_char()?;
                string_of(&self.input, start, self.position)
            }
        } else if ch == '<' {
            let next = self.get_char(1);
            if next == Some('<') || next == Some('=') || next == Some('>') {
                self.next_char()?;
                self.next_char()?;
            } else {
                let opens = self.last_opens_type();
                self.next_char()?;
                if opens {
                    self.type_declaration_depth = self.type_declaration_depth + 1;
                }
            }
            string_of(&self.input, start, self.position)
        } else if ch == '>' {
            let next = self.get_char(1);
            if 0 < self.type_declaration_depth {
                self.type_declaration_depth = self.type_declaration_depth - 1;
                self.next_char()?;
            } else if next == Some('>') || next == Some('=') {
                self.next_char()?;
                self.next_char()?;
            } else {
                self.next_char()?;
            }
            string_of(&self.input, start, self.position)
        } else if ch == '|' || ch == '=' || ch == '!' {
            let second = if ch == '|' {
                '|'
            } else if ch == '=' {
                '>'
            } else {
                '='
            };
            if self.get_char(1) == Some(second) {
                self.next_char()?;
            }
            self.next_char()?;
            string_of(&self.input, start, self.position)
        } else if ch == '@' {
            self.read_parameter()?
        } else if '0' <= ch && ch <= '9' {
            self.read_number()?
        } else if is_valid_1st_char_of_ident(&Some(ch)) {
            self.read_identifier()?
        } else {
            self.next_char()?;
            string_of(&self.input, start, self.position)
        };
        self.construct_token(line, column, literal);
        Ok(true)
    }

    /// Scans the rest of the input. The tokens already held come first, and the
    /// end-of-stream token last; the first error aborts the whole scan.
    pub fn tokenize_code(self) -> (r: Result<Vec<Token>, LexerError>)
        requires
            self.wf(),
        ensures
            prefixed(self.held(), self.outcome()) == result_view(r),
    {
        let mut lx = self;
        let ghost s = lx.input@;
        let ghost whole = prefixed(lx.held(), lx.outcome());
        let mut more = true;
        while more
            invariant
                lx.wf(),
                lx.input@ == s,
                whole == prefixed(lx.held(), lx.outcome()),
                whole == prefixed(self.held(), self.outcome()),
                !more ==> lx.position == s.len(),
                !more ==> lx.outcome() == Ok::<Seq<crate::token::TokenView>, ErrorView>(
                    seq![token_of(s, s.len() as int, s.len() as int)],
                ),
            decreases s.len() - lx.position + (if more {
                1int
            } else {
                0int
            }),
        {
            let ghost before = lx.outcome();
            let ghost held = lx.held();
            let ghost p0 = lx.position as int;
            let ghost d0 = lx.depth();
            let ghost a0 = lx.after_type();
            let res = lx.next_token();
            proof {
                let q = ws_end(s, p0);
                assert(before == lex_from(s, p0, d0, a0));
                if 0 <= q < s.len() {
                    match step(s, q, d0, a0) {
                        (Scan::Ends(e), d) => {
                            let t = literal_end(s, q, e);
                            assert(lx.tokens@.len() == lx.held().len());
                            assert(lx.after_type() == opens_type(s.subrange(q, t)));
                            match lex_from(s, e, d, opens_type(s.subrange(q, t))) {
                                Ok(rest) => {
                                    assert(held.push(token_of(s, q, t)) + rest =~= held + (seq![
                                        token_of(s, q, t),
                                    ] + rest));
                                },
                                Err(_) => {},
                            }
                        },
                        _ => {},
                    }
                }
            }
            more = res?;
        }
        let ghost held = lx.held();
        let eof = Token::new(lx.line, lx.column, String::new());
        lx.tokens.push(eof);
        proof {
            let n = s.len() as int;
            assert(s.subrange(n, n) =~= Seq::<char>::empty());
            assert(lx.held() =~= held + seq![token_of(s, n, n)]);
        }
        Ok(lx.tokens)
    }
}

} // verus!
