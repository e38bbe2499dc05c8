use tinybasic::error::CompileError;
use tinybasic::lexer::Lexer;
use tinybasic::token::{classify_ident, Token, TokenType};

fn chars(s: &str) -> Vec<char> {
    s.chars().collect()
}

fn lex_all(source: &str) -> Result<Vec<(String, TokenType)>, CompileError> {
    let mut lexer = Lexer::new(chars(source));
    let mut out = Vec::new();
    loop {
        let tok = lexer.get_token()?;
        let done = tok.ttype == TokenType::EOF;
        out.push((tok.text, tok.ttype));
        if done {
            return Ok(out);
        }
    }
}

#[test]
fn single_char_operators() {
    let toks = lex_all("+- */").unwrap();
    let kinds: Vec<TokenType> = toks.iter().map(|t| t.1).collect();
    assert_eq!(
        kinds,
        vec![
            TokenType::PLUS,
            TokenType::MINUS,
            TokenType::ASTERISK,
            TokenType::SLASH,
            TokenType::NEWLINE,
            TokenType::EOF,
        ]
    );
}

#[test]
fn two_char_operators_take_priority() {
    let toks = lex_all(">= <= == != > < = !").unwrap();
    let kinds: Vec<TokenType> = toks.iter().map(|t| t.1).collect();
    assert_eq!(
        kinds,
        vec![
            TokenType::GTEQ,
            TokenType::LTEQ,
            TokenType::EQEQ,
            TokenType::NOTEQ,
            TokenType::GT,
            TokenType::LT,
            TokenType::EQ,
            TokenType::NOT,
            TokenType::NEWLINE,
            TokenType::EOF,
        ]
    );
    assert_eq!(toks[0].0, ">=");
    assert_eq!(toks[4].0, ">");
}

#[test]
fn comment_runs_to_line_end() {
    let toks = lex_all("+ -- this is a comment\n*").unwrap();
    let kinds: Vec<TokenType> = toks.iter().map(|t| t.1).collect();
    assert_eq!(
        kinds,
        vec![
            TokenType::PLUS,
            TokenType::NEWLINE,
            TokenType::ASTERISK,
            TokenType::NEWLINE,
            TokenType::EOF,
        ]
    );
}

#[test]
fn string_literal_keeps_exact_text() {
    let toks = lex_all("\"This is a string\"").unwrap();
    assert_eq!(toks[0].0, "This is a string");
    assert_eq!(toks[0].1, TokenType::STRING);
}

#[test]
fn string_with_percent_is_lexical_failure() {
    let mut lexer = Lexer::new(chars("\"a%b\""));
    assert_eq!(lexer.get_token().unwrap_err(), CompileError::IllegalStringChar);
}

#[test]
fn string_with_newline_is_lexical_failure() {
    let mut lexer = Lexer::new(chars("\"abc"));
    // The literal is never closed, so the sentinel newline is met inside it.
    assert_eq!(lexer.get_token().unwrap_err(), CompileError::IllegalStringChar);
}

#[test]
fn number_with_fraction() {
    let toks = lex_all("+-123 9.8654*/").unwrap();
    assert_eq!(toks[2].0, "123");
    assert_eq!(toks[2].1, TokenType::NUMBER);
    assert_eq!(toks[3].0, "9.8654");
    assert_eq!(toks[3].1, TokenType::NUMBER);
}

#[test]
fn trailing_dot_is_lexical_failure() {
    let mut lexer = Lexer::new(chars("1."));
    assert_eq!(lexer.get_token().unwrap_err(), CompileError::IllegalNumberChar);
}

#[test]
fn unknown_character_is_lexical_failure() {
    let mut lexer = Lexer::new(chars("@"));
    assert_eq!(lexer.get_token().unwrap_err(), CompileError::UnknownToken);
}

#[test]
fn keywords_match_case_insensitively() {
    let toks = lex_all("IF+-123 foo*THEN/").unwrap();
    assert_eq!(toks[0].1, TokenType::IF);
    assert_eq!(toks[4].1, TokenType::IDENT);
    assert_eq!(toks[4].0, "foo");
    assert_eq!(toks[6].1, TokenType::THEN);
    let lower = lex_all("label goto print input let if then endif while repeat endwhile").unwrap();
    let kinds: Vec<TokenType> = lower.iter().map(|t| t.1).collect();
    assert_eq!(
        kinds,
        vec![
            TokenType::LABEL,
            TokenType::GOTO,
            TokenType::PRINT,
            TokenType::INPUT,
            TokenType::LET,
            TokenType::IF,
            TokenType::THEN,
            TokenType::ENDIF,
            TokenType::WHILE,
            TokenType::REPEAT,
            TokenType::ENDWHILE,
            TokenType::NEWLINE,
            TokenType::EOF,
        ]
    );
}

#[test]
fn keyword_lexeme_is_kept_verbatim() {
    let toks = lex_all("Label spot").unwrap();
    assert_eq!(toks[0].0, "Label");
    assert_eq!(toks[0].1, TokenType::LABEL);
    assert_eq!(toks[1].0, "spot");
    assert_eq!(toks[1].1, TokenType::IDENT);
}

#[test]
fn classify_ident_distinguishes_keywords() {
    assert_eq!(classify_ident(&chars("while")), TokenType::WHILE);
    assert_eq!(classify_ident(&chars("WHILE")), TokenType::WHILE);
    assert_eq!(classify_ident(&chars("whilex")), TokenType::IDENT);
    assert_eq!(classify_ident(&chars("x")), TokenType::IDENT);
}

#[test]
fn token_new_keeps_text_and_type() {
    let t = Token::new(String::from("abc"), TokenType::IDENT);
    assert_eq!(t.text, "abc");
    assert_eq!(t.ttype, TokenType::IDENT);
}

#[test]
fn emitted_number_texts_relex_to_the_same_token() {
    // Token texts that a successful parse re-emits lex back without failure.
    for text in ["5", "123", "9.8654", "0.5"] {
        let toks = lex_all(text).unwrap();
        assert_eq!(toks[0].0, text);
        assert_eq!(toks[0].1, TokenType::NUMBER);
    }
}

#[test]
fn emitted_ident_texts_relex_to_the_same_token() {
    for text in ["x", "foo42", "loopVar"] {
        let toks = lex_all(text).unwrap();
        assert_eq!(toks[0].0, text);
        assert_eq!(toks[0].1, TokenType::IDENT);
    }
}

#[test]
fn eof_repeats_after_end() {
    let mut lexer = Lexer::new(chars(""));
    assert_eq!(lexer.get_token().unwrap().ttype, TokenType::NEWLINE);
    assert_eq!(lexer.get_token().unwrap().ttype, TokenType::EOF);
    assert_eq!(lexer.get_token().unwrap().ttype, TokenType::EOF);
}
