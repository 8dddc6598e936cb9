//! The lexical grammar as mathematics: where each kind of token ends, how the
//! cursor's line and column follow the text, and what a whole scan yields.
use crate::text::{digit, ident_char, ident_start, upper_of, white_space};
use crate::token::TokenView;
use vstd::prelude::*;

verus! {

/// The outcome of scanning one construct that starts at a known index.
pub ghost enum Scan {
    /// The construct ends just before this index.
    Ends(int),
    /// The input ran out while the construct was still open.
    Eof,
    /// An identifier was expected at this index and none starts there.
    BadIdent(int),
}

/// The value of a scan error: its position and its message.
pub ghost struct ErrorView {
    pub line: nat,
    pub column: nat,
    pub message: Seq<char>,
}

/// The character at index `i`, if there is one.
pub open spec fn at(s: Seq<char>, i: int) -> Option<char> {
    if 0 <= i < s.len() {
        Some(s[i])
    } else {
        None
    }
}

/// Line and column of the cursor after it has passed the first `p` characters.
pub open spec fn line_col(s: Seq<char>, p: int) -> (nat, nat)
    decreases p,
{
    if p <= 0 {
        (1, 1)
    } else {
        let (l, c) = line_col(s, p - 1);
        if s[p - 1] == '\n' {
            (l + 1, 1)
        } else {
            (l, c + 1)
        }
    }
}

/// The first index at or after `i` that holds no whitespace.
pub open spec fn ws_end(s: Seq<char>, i: int) -> int
    decreases s.len() - i,
{
    if 0 <= i < s.len() && white_space(s[i]) {
        ws_end(s, i + 1)
    } else {
        i
    }
}

/// How many characters an escape sequence takes, backslash included, given the
/// character that follows the backslash.
pub open spec fn escape_width(c: char) -> int {
    if c == 'x' {
        4
    } else if c == 'u' {
        6
    } else if c == 'U' {
        10
    } else if '0' <= c && c <= '7' {
        4
    } else {
        2
    }
}

/// Whether the escape sequence whose backslash is at `i` lies wholly in the input.
pub open spec fn escape_fits(s: Seq<char>, i: int) -> bool {
    i + 1 < s.len() && i + escape_width(s[i + 1]) <= s.len()
}

/// The rest of a quoted form delimited by `q`, from index `i` on.
pub open spec fn quoted_from(s: Seq<char>, q: char, i: int) -> Scan
    decreases s.len() - i,
{
    if i < 0 || i >= s.len() {
        Scan::Eof
    } else if s[i] == q {
        Scan::Ends(i + 1)
    } else if s[i] == '\\' {
        if escape_fits(s, i) {
            quoted_from(s, q, i + escape_width(s[i + 1]))
        } else {
            Scan::Eof
        }
    } else {
        quoted_from(s, q, i + 1)
    }
}

/// Whether `q` stands at `i`, `i + 1` and `i + 2`.
pub open spec fn triple_at(s: Seq<char>, q: char, i: int) -> bool {
    0 <= i && i + 2 < s.len() && s[i] == q && s[i + 1] == q && s[i + 2] == q
}

/// The rest of a triple-quoted string delimited by `q`, from index `i` on.
pub open spec fn triple_from(s: Seq<char>, q: char, i: int) -> Scan
    decreases s.len() - i,
{
    if i < 0 || i >= s.len() {
        Scan::Eof
    } else if triple_at(s, q, i) {
        Scan::Ends(i + 3)
    } else if s[i] == '\\' {
        if escape_fits(s, i) {
            triple_from(s, q, i + escape_width(s[i + 1]))
        } else {
            Scan::Eof
        }
    } else {
        triple_from(s, q, i + 1)
    }
}

/// A block comment searched for its closing `*/` from index `i` on.
pub open spec fn block_from(s: Seq<char>, i: int) -> Scan
    decreases s.len() - i,
{
    if i < 0 || i >= s.len() {
        Scan::Eof
    } else if i + 1 < s.len() && s[i] == '*' && s[i + 1] == '/' {
        Scan::Ends(i + 2)
    } else {
        block_from(s, i + 1)
    }
}

/// The first index at or after `i` that is the end of the input or holds a newline.
pub open spec fn line_end(s: Seq<char>, i: int) -> int
    decreases s.len() - i,
{
    if 0 <= i < s.len() && s[i] != '\n' {
        line_end(s, i + 1)
    } else {
        i
    }
}

/// `e` moved back over the whitespace that ends `s[lo..e]`.
pub open spec fn trim_end(s: Seq<char>, lo: int, e: int) -> int
    decreases e - lo,
{
    if lo < e && white_space(s[e - 1]) {
        trim_end(s, lo, e - 1)
    } else {
        e
    }
}

/// The end of the run of decimal digits that starts at `i`.
pub open spec fn digits_end(s: Seq<char>, i: int) -> int
    decreases s.len() - i,
{
    if 0 <= i < s.len() && digit(s[i]) {
        digits_end(s, i + 1)
    } else {
        i
    }
}

/// The end of the numeric literal at `p`: digits, an optional fraction, an
/// optional exponent with an optional sign.
pub open spec fn number_end(s: Seq<char>, p: int) -> int {
    let a = digits_end(s, p);
    let b = if at(s, a) == Some('.') {
        digits_end(s, a + 1)
    } else {
        a
    };
    if at(s, b) == Some('e') || at(s, b) == Some('E') {
        if at(s, b + 1) == Some('+') || at(s, b + 1) == Some('-') {
            digits_end(s, b + 2)
        } else {
            digits_end(s, b + 1)
        }
    } else {
        b
    }
}

/// The end of the run of identifier characters that starts at `i`.
pub open spec fn ident_end(s: Seq<char>, i: int) -> int
    decreases s.len() - i,
{
    if 0 <= i < s.len() && ident_char(s[i]) {
        ident_end(s, i + 1)
    } else {
        i
    }
}

/// An identifier expected at `p`.
pub open spec fn identifier(s: Seq<char>, p: int) -> Scan {
    if 0 <= p < s.len() && ident_start(s[p]) {
        Scan::Ends(ident_end(s, p + 1))
    } else {
        Scan::BadIdent(p)
    }
}

/// The end of the run of `@` that starts at `i`.
pub open spec fn ats_end(s: Seq<char>, i: int) -> int
    decreases s.len() - i,
{
    if 0 <= i < s.len() && s[i] == '@' {
        ats_end(s, i + 1)
    } else {
        i
    }
}

/// A bind parameter at `p`: `@`s, then a quoted identifier or a plain one.
pub open spec fn parameter(s: Seq<char>, p: int) -> Scan {
    let a = ats_end(s, p);
    if at(s, a) == Some('`') {
        quoted_from(s, '`', a + 1)
    } else {
        identifier(s, a)
    }
}

/// Whether a token literal opens type syntax when a `<` follows it.
pub open spec fn opens_type(lit: Seq<char>) -> bool {
    upper_of(lit) == "ARRAY"@ || upper_of(lit) == "STRUCT"@
}

/// One token that starts at `p`, given the depth of open type syntax and
/// whether the previous token opens type syntax: how its scan ends, and the
/// depth after it.
#[verifier::opaque]
pub open spec fn step(s: Seq<char>, p: int, depth: nat, after_type: bool) -> (Scan, nat) {
    let c = s[p];
    let n1 = at(s, p + 1);
    let n2 = at(s, p + 2);
    let single = Scan::Ends(p + 1);
    let double = Scan::Ends(p + 2);
    if c == '.' {
        if n1 matches Some(d) && digit(d) {
            (Scan::Ends(number_end(s, p)), depth)
        } else {
            (single, depth)
        }
    } else if c == '#' {
        (Scan::Ends(line_end(s, p)), depth)
    } else if c == '`' {
        (quoted_from(s, c, p + 1), depth)
    } else if c == '"' || c == '\'' {
        if n1 == Some(c) && n2 == Some(c) {
            (triple_from(s, c, p + 3), depth)
        } else {
            (quoted_from(s, c, p + 1), depth)
        }
    } else if c == '-' {
        if n1 == Some('-') {
            (Scan::Ends(line_end(s, p)), depth)
        } else {
            (single, depth)
        }
    } else if c == '/' {
        if n1 == Some('*') {
            (block_from(s, p), depth)
        } else {
            (single, depth)
        }
    } else if c == '|' {
        if n1 == Some('|') {
            (double, depth)
        } else {
            (single, depth)
        }
    } else if c == '<' {
        if n1 == Some('<') || n1 == Some('=') || n1 == Some('>') {
            (double, depth)
        } else if after_type {
            (single, depth + 1)
        } else {
            (single, depth)
        }
    } else if c == '>' {
        if depth > 0 {
            (single, (depth - 1) as nat)
        } else if n1 == Some('>') || n1 == Some('=') {
            (double, depth)
        } else {
            (single, depth)
        }
    } else if c == '=' {
        if n1 == Some('>') {
            (double, depth)
        } else {
            (single, depth)
        }
    } else if c == '!' {
        if n1 == Some('=') {
            (double, depth)
        } else {
            (single, depth)
        }
    } else if c == '@' {
        (parameter(s, p), depth)
    } else if digit(c) {
        (Scan::Ends(number_end(s, p)), depth)
    } else if ident_start(c) {
        (Scan::Ends(ident_end(s, p + 1)), depth)
    } else {
        (single, depth)
    }
}

/// Whether the token at `p` is a line comment, whose literal drops trailing whitespace.
pub open spec fn line_comment_at(s: Seq<char>, p: int) -> bool {
    s[p] == '#' || (s[p] == '-' && at(s, p + 1) == Some('-'))
}

/// Where the literal of the token that starts at `p` and is scanned up to `e` ends.
pub open spec fn literal_end(s: Seq<char>, p: int, e: int) -> int {
    if line_comment_at(s, p) {
        trim_end(s, p, e)
    } else {
        e
    }
}

/// The token with the text `s[p..t]`, positioned at `p`.
pub open spec fn token_of(s: Seq<char>, p: int, t: int) -> TokenView {
    TokenView { line: line_col(s, p).0, column: line_col(s, p).1, literal: s.subrange(p, t) }
}

/// The error raised when the input runs out inside an open construct.
pub open spec fn eof_error(s: Seq<char>) -> ErrorView {
    ErrorView {
        line: line_col(s, s.len() as int).0,
        column: line_col(s, s.len() as int).1,
        message: "Unexpected EOF."@,
    }
}

/// The error raised when an identifier is expected at `i` and none starts there.
pub open spec fn bad_ident_error(s: Seq<char>, i: int) -> ErrorView {
    ErrorView {
        line: line_col(s, i).0,
        column: line_col(s, i).1,
        message: "Invalid character as an identifier."@,
    }
}

/// The error a failed scan raises.
pub open spec fn scan_error(s: Seq<char>, r: Scan) -> ErrorView {
    match r {
        Scan::BadIdent(i) => bad_ident_error(s, i),
        _ => eof_error(s),
    }
}

/// The tokens scanned from index `p` to the end, the end-of-stream token
/// included, or the first error.
pub open spec fn lex_from(s: Seq<char>, p: int, depth: nat, after_type: bool) -> Result<
    Seq<TokenView>,
    ErrorView,
>
    decreases s.len() - p,
{
    let q = ws_end(s, p);
    if q < 0 || q >= s.len() {
        Ok(seq![token_of(s, s.len() as int, s.len() as int)])
    } else {
        match step(s, q, depth, after_type) {
            (Scan::Ends(e), d) => {
                if p <= q < e <= s.len() {
                    let t = literal_end(s, q, e);
                    match lex_from(s, e, d, opens_type(s.subrange(q, t))) {
                        Ok(rest) => Ok(seq![token_of(s, q, t)] + rest),
                        Err(x) => Err(x),
                    }
                } else {
                    Err(eof_error(s))
                }
            },
            (r, _) => Err(scan_error(s, r)),
        }
    }
}

/// Whether `r` is what scanning a construct at `p` owes: the text up to the
/// construct's end, with the cursor left at `end`, or the error its failure raises.
pub open spec fn reports(
    s: Seq<char>,
    p: int,
    sc: Scan,
    r: Result<String, crate::lexer::LexerError>,
    end: int,
) -> bool {
    match sc {
        Scan::Ends(e) => r matches Ok(lit) && lit@ == s.subrange(p, e) && end == e,
        _ => r matches Err(x) && x@ == scan_error(s, sc),
    }
}

/// `head` placed before the tokens of `r`, or the error of `r`.
pub open spec fn prefixed(head: Seq<TokenView>, r: Result<Seq<TokenView>, ErrorView>) -> Result<
    Seq<TokenView>,
    ErrorView,
> {
    match r {
        Ok(ts) => Ok(head + ts),
        Err(e) => Err(e),
    }
}

/// The value of what a scan returns.
pub open spec fn result_view(r: Result<Vec<crate::token::Token>, crate::lexer::LexerError>) -> Result<
    Seq<TokenView>,
    ErrorView,
> {
    match r {
        Ok(v) => Ok(crate::token::tokens_view(v@)),
        Err(e) => Err(e@),
    }
}

/// What scanning the whole text yields.
pub open spec fn tokenized(s: Seq<char>) -> Result<Seq<TokenView>, ErrorView> {
    lex_from(s, 0, 0, false)
}

} // verus!
