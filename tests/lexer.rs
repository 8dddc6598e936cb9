use sqlscan::lexer::{Lexer, LexerError};
use sqlscan::token::Token;

fn scan(input: &str) -> Result<Vec<Token>, LexerError> {
    Lexer::new(input.to_string()).tokenize_code()
}

fn literals(input: &str) -> Vec<String> {
    scan(input).unwrap().into_iter().map(|t| t.literal).collect()
}

fn positions(input: &str) -> Vec<(usize, usize)> {
    scan(input).unwrap().into_iter().map(|t| (t.line, t.column)).collect()
}

#[test]
fn whitespace_only_gives_end_token() {
    let tokens = scan("  \n\t ").unwrap();
    assert_eq!(tokens.len(), 1);
    assert_eq!(tokens[0].literal, "");
    assert_eq!((tokens[0].line, tokens[0].column), (2, 3));
}

#[test]
fn empty_input_gives_end_token() {
    let tokens = scan("").unwrap();
    assert_eq!(tokens.len(), 1);
    assert_eq!((tokens[0].line, tokens[0].column, tokens[0].literal.as_str()), (1, 1, ""));
}

#[test]
fn unicode_whitespace_is_skipped() {
    assert_eq!(literals("a\u{3000}b\u{a0}c"), vec!["a", "b", "c", ""]);
}

#[test]
fn literals_and_gaps_rebuild_input() {
    let input = "SELECT a,\n  b -- trailing  \nFROM t";
    let tokens = scan(input).unwrap();
    let joined: String = tokens.iter().map(|t| t.literal.as_str()).collect();
    let stripped: String = input.chars().filter(|c| !c.is_whitespace()).collect();
    assert_eq!(joined.chars().filter(|c| !c.is_whitespace()).collect::<String>(), stripped);
    assert_eq!(
        literals(input),
        vec!["SELECT", "a", ",", "b", "-- trailing", "FROM", "t", ""]
    );
}

#[test]
fn positions_of_a_prefix_agree() {
    let full = positions("SELECT x\n  FROM t WHERE y");
    let prefix = positions("SELECT x\n  FROM");
    assert_eq!(&full[..3], &prefix[..3]);
    assert_eq!(full[..5].to_vec(), vec![(1, 1), (1, 8), (2, 3), (2, 8), (2, 10)]);
}

#[test]
fn angle_brackets_in_type_syntax() {
    assert_eq!(
        literals("ARRAY<STRUCT<INT64, INT64>>"),
        vec!["ARRAY", "<", "STRUCT", "<", "INT64", ",", "INT64", ">", ">", ""]
    );
}

#[test]
fn type_keywords_match_in_any_case() {
    assert_eq!(literals("array<int64>>x"), vec!["array", "<", "int64", ">", ">", "x", ""]);
}

#[test]
fn closing_bracket_does_not_join_equals() {
    assert_eq!(literals("STRUCT<a>=b"), vec!["STRUCT", "<", "a", ">", "=", "b", ""]);
}

#[test]
fn comparison_after_type_syntax_closes() {
    assert_eq!(
        literals("ARRAY<INT64> x >= 1"),
        vec!["ARRAY", "<", "INT64", ">", "x", ">=", "1", ""]
    );
}

#[test]
fn shifts_outside_type_syntax() {
    assert_eq!(literals("1<<2"), vec!["1", "<<", "2", ""]);
    assert_eq!(literals("1>>2"), vec!["1", ">>", "2", ""]);
}

#[test]
fn plain_less_than_opens_nothing() {
    assert_eq!(literals("a<b>>c"), vec!["a", "<", "b", ">>", "c", ""]);
}

#[test]
fn two_character_operators() {
    assert_eq!(
        literals("a<=b<>c=>d!=e||f"),
        vec!["a", "<=", "b", "<>", "c", "=>", "d", "!=", "e", "||", "f", ""]
    );
}

#[test]
fn single_character_operators() {
    assert_eq!(
        literals("-/|=!< >.+"),
        vec!["-", "/", "|", "=", "!", "<", ">", ".", "+", ""]
    );
}

#[test]
fn string_escape_kept_verbatim() {
    assert_eq!(literals("'a\\x41b'"), vec!["'a\\x41b'", ""]);
}

#[test]
fn escapes_of_each_width() {
    assert_eq!(literals("'\\u00e9' x"), vec!["'\\u00e9'", "x", ""]);
    assert_eq!(literals("'\\U0001F600'"), vec!["'\\U0001F600'", ""]);
    assert_eq!(literals("'\\101'"), vec!["'\\101'", ""]);
    assert_eq!(literals("'it\\'s'"), vec!["'it\\'s'", ""]);
    assert_eq!(literals("\"a\\\"b\""), vec!["\"a\\\"b\"", ""]);
}

#[test]
fn escape_cut_short_is_an_error() {
    let e = scan("'\\x4").err().unwrap();
    assert_eq!((e.line(), e.column(), e.message()), (1, 5, "Unexpected EOF.".to_string()));
    let e = scan("'\\").err().unwrap();
    assert_eq!((e.line(), e.column()), (1, 3));
}

#[test]
fn multiline_string_is_one_token() {
    let tokens = scan("'''line1\nline2'''").unwrap();
    assert_eq!(tokens.len(), 2);
    assert_eq!(tokens[0].literal, "'''line1\nline2'''");
    assert_eq!((tokens[0].line, tokens[0].column), (1, 1));
    assert_eq!((tokens[1].line, tokens[1].column), (2, 9));
}

#[test]
fn triple_quoted_forms() {
    assert_eq!(literals("\"\"\"a\"b\"\"\""), vec!["\"\"\"a\"b\"\"\"", ""]);
    assert_eq!(literals("''''''"), vec!["''''''", ""]);
    assert_eq!(literals("'''a''''b'"), vec!["'''a'''", "'b'", ""]);
}

#[test]
fn empty_quoted_string() {
    assert_eq!(literals("'' x"), vec!["''", "x", ""]);
}

#[test]
fn unterminated_string_fails_at_end() {
    let e = scan("\"abc").err().unwrap();
    assert_eq!((e.line(), e.column(), e.message()), (1, 5, "Unexpected EOF.".to_string()));
}

#[test]
fn unterminated_string_on_later_line() {
    let e = scan("x\n'''ab\ncd").err().unwrap();
    assert_eq!((e.line(), e.column()), (3, 3));
}

#[test]
fn unterminated_block_comment_fails() {
    let e = scan("/* open").err().unwrap();
    assert_eq!((e.line(), e.column(), e.message()), (1, 8, "Unexpected EOF.".to_string()));
}

#[test]
fn block_comment_keeps_its_whitespace() {
    assert_eq!(literals("/* a\n b */ x"), vec!["/* a\n b */", "x", ""]);
    assert_eq!(positions("/* a\n b */ x")[1], (2, 7));
}

#[test]
fn line_comments_are_trimmed() {
    assert_eq!(literals("# hash  \t\n-- dash "), vec!["# hash", "-- dash", ""]);
}

#[test]
fn bind_parameters() {
    assert_eq!(literals("@@session_var"), vec!["@@session_var", ""]);
    assert_eq!(literals("@`quoted param`"), vec!["@`quoted param`", ""]);
    assert_eq!(literals("@p1 + 1"), vec!["@p1", "+", "1", ""]);
}

#[test]
fn bind_parameter_without_name_fails() {
    let e = scan("x @1").err().unwrap();
    assert_eq!(
        (e.line(), e.column(), e.message()),
        (1, 4, "Invalid character as an identifier.".to_string())
    );
    let e = scan("@").err().unwrap();
    assert_eq!((e.line(), e.column()), (1, 2));
}

#[test]
fn numbers() {
    assert_eq!(
        literals("1 12.5 .5 1e10 2.5E-3 7e+ a.b"),
        vec!["1", "12.5", ".5", "1e10", "2.5E-3", "7e+", "a", ".", "b", ""]
    );
}

#[test]
fn identifiers_and_quoted_identifiers() {
    assert_eq!(
        literals("_x1 été `my table` 9a"),
        vec!["_x1", "été", "`my table`", "9", "a", ""]
    );
}

#[test]
fn positions_follow_lines() {
    assert_eq!(positions("a\n  bc d\n\ne"), vec![(1, 1), (2, 3), (2, 6), (4, 1), (4, 2)]);
}

#[test]
fn error_constructors() {
    let e = LexerError::new(3, 4, "boom");
    assert_eq!((e.line(), e.column(), e.message()), (3, 4, "boom".to_string()));
    let e = LexerError::eof(1, 2);
    assert_eq!(e.message(), "Unexpected EOF.");
}

#[test]
fn tokens_already_held_come_first() {
    let mut lexer = Lexer::new("<a>>".to_string());
    lexer.tokens.push(Token::new(1, 1, "ARRAY".to_string()));
    let lits: Vec<String> = lexer.tokenize_code().unwrap().into_iter().map(|t| t.literal).collect();
    assert_eq!(lits, vec!["ARRAY", "<", "a", ">", ">", ""]);
}
