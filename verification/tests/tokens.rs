use lci::lexer::{scan_buffer, Lexeme, LexemeList};
use lci::tokenizer::{parse_string_literal, tokenize_lexemes, Token, TokenType};

fn tokens(src: &str) -> Vec<Token> {
    let list = scan_buffer(src, "t.lol").unwrap();
    tokenize_lexemes(&list).unwrap()
}

fn types(src: &str) -> Vec<TokenType> {
    tokens(src).into_iter().map(|t| t.token_type).collect()
}

#[test]
fn tokenize_small_program() {
    let ts = tokens("HAI 1.2\nVISIBLE \"HAI:)\"\nKTHXBYE");
    let tt: Vec<TokenType> = ts.iter().map(|t| t.token_type.clone()).collect();
    assert_eq!(
        tt,
        vec![
            TokenType::Hai,
            TokenType::Float("1.2".to_string()),
            TokenType::Newline,
            TokenType::Visible,
            TokenType::String("HAI\n".to_string()),
            TokenType::Newline,
            TokenType::KThxBye,
            TokenType::Eof,
        ]
    );
    let last = ts.last().unwrap();
    assert_eq!(last.image, "");
    assert_eq!(last.line, 3);
    assert_eq!(last.fname, "t.lol");
    assert_eq!(ts[4].image, "\"HAI:)\"");
}

#[test]
fn tokenize_two_word_keywords() {
    assert_eq!(
        types("HAS A x"),
        vec![TokenType::HasA, TokenType::Identifier("x".to_string()), TokenType::Eof]
    );
    assert_eq!(
        types("SUM OF 2 AN 3"),
        vec![
            TokenType::SumOf,
            TokenType::Integer(2),
            TokenType::An,
            TokenType::Integer(3),
            TokenType::Eof
        ]
    );
    assert_eq!(types("BOTH SAEM"), vec![TokenType::BothSaem, TokenType::Eof]);
    assert_eq!(types("FOUND YR"), vec![TokenType::FoundYr, TokenType::Eof]);
}

#[test]
fn tokenize_keyword_image_is_first_word() {
    let ts = tokens("HAS A x");
    assert_eq!(ts[0].image, "HAS");
    assert_eq!(ts[1].image, "x");
}

#[test]
fn tokenize_longer_keywords() {
    assert_eq!(
        types("IM IN YR loop"),
        vec![TokenType::ImInYr, TokenType::Identifier("loop".to_string()), TokenType::Eof]
    );
    assert_eq!(types("IF U SAY SO"), vec![TokenType::IfUSaySo, TokenType::Eof]);
    assert_eq!(types("IS NOW A"), vec![TokenType::IsNowA, TokenType::Eof]);
}

#[test]
fn tokenize_keywords_at_their_own_word_count() {
    assert_eq!(
        types("IM OUTTA YR loop"),
        vec![TokenType::ImOuttaYr, TokenType::Identifier("loop".to_string()), TokenType::Eof]
    );
    assert_eq!(types("ITZ LIEK A"), vec![TokenType::ItzLiekA, TokenType::Eof]);
    assert_eq!(types("O RLY?"), vec![TokenType::ORly, TokenType::Eof]);
    assert_eq!(types("YA RLY"), vec![TokenType::YaRly, TokenType::Eof]);
    assert_eq!(types("NO WAI"), vec![TokenType::NoWai, TokenType::Eof]);
    assert_eq!(types("IM LIEK"), vec![TokenType::ImLiek, TokenType::Eof]);
    assert_eq!(types("ITZ A"), vec![TokenType::ItzA, TokenType::Eof]);
    assert_eq!(types("O HAI IM"), vec![TokenType::OHaiIm, TokenType::Eof]);
    let ts = tokens("IM OUTTA YR loop");
    assert_eq!(ts[1].image, "loop");
}

#[test]
fn tokenize_literals() {
    assert_eq!(
        types("WIN FAIL -5 +7 1e3 inf abc"),
        vec![
            TokenType::Boolean(true),
            TokenType::Boolean(false),
            TokenType::Integer(-5),
            TokenType::Integer(7),
            TokenType::Float("1e3".to_string()),
            TokenType::Float("inf".to_string()),
            TokenType::Identifier("abc".to_string()),
            TokenType::Eof,
        ]
    );
}

#[test]
fn tokenize_integer_out_of_range_is_float() {
    assert_eq!(
        types("99999999999999999999"),
        vec![TokenType::Float("99999999999999999999".to_string()), TokenType::Eof]
    );
}

#[test]
fn tokenize_single_word_keywords() {
    assert_eq!(
        types("VISIBLE INVISIBLE GIMMEH GTFO NOOB IT ! 'Z"),
        vec![
            TokenType::Visible,
            TokenType::Invisible,
            TokenType::Gimmeh,
            TokenType::Gtfo,
            TokenType::Noob,
            TokenType::It,
            TokenType::Bang,
            TokenType::ApostropheZ,
            TokenType::Eof,
        ]
    );
}

#[test]
fn tokenize_itz_diffrint_and_wtf() {
    assert_eq!(
        types("ITZ\nDIFFRINT\nWTF?"),
        vec![
            TokenType::Itz,
            TokenType::Newline,
            TokenType::Diffrint,
            TokenType::Newline,
            TokenType::Wtf,
            TokenType::Eof
        ]
    );
}

#[test]
fn tokenize_empty_list() {
    let list = LexemeList::new();
    assert!(tokenize_lexemes(&list).unwrap().is_empty());
}

#[test]
fn tokenize_ends_with_one_end_of_input() {
    let ts = types("HAI\nVISIBLE 1, VISIBLE 2\nKTHXBYE");
    assert_eq!(ts.last(), Some(&TokenType::Eof));
    assert_eq!(ts.iter().filter(|t| **t == TokenType::Eof).count(), 1);
}

#[test]
fn tokenize_keeps_lexeme_lines() {
    let mut list = LexemeList::new();
    list.add(Lexeme::new("HAS".to_string(), "f".to_string(), 4));
    list.add(Lexeme::new("A".to_string(), "f".to_string(), 4));
    list.add(Lexeme::new("x".to_string(), "g".to_string(), 5));
    let ts = tokenize_lexemes(&list).unwrap();
    assert_eq!(ts.len(), 3);
    assert_eq!(ts[0].line, 4);
    assert_eq!(ts[1].line, 5);
    assert_eq!(ts[2].token_type, TokenType::Eof);
    assert_eq!(ts[2].fname, "g");
    assert_eq!(ts[2].line, 5);
}

#[test]
fn string_literal_escapes() {
    assert_eq!(parse_string_literal("\"a:>b::c:\"d\"").unwrap(), "a\tb:c\"d");
    assert_eq!(parse_string_literal("\":)\"").unwrap(), "\n");
    assert_eq!(parse_string_literal("\":o\"").unwrap(), "\u{7}");
    assert_eq!(parse_string_literal("\":x\"").unwrap(), ":x");
}

#[test]
fn string_literal_without_quote_is_kept() {
    assert_eq!(parse_string_literal("abc").unwrap(), "abc");
    assert_eq!(parse_string_literal("").unwrap(), "");
}

#[test]
fn string_literal_stops_at_closing_quote() {
    assert_eq!(parse_string_literal("\"abc\"def").unwrap(), "abc");
    assert_eq!(parse_string_literal("\"abc").unwrap(), "abc");
    assert_eq!(parse_string_literal("\"ab:").unwrap(), "ab:");
}

#[test]
fn token_new_keeps_fields() {
    let t = Token::new(TokenType::Integer(3), "3".to_string(), "f".to_string(), 2);
    assert_eq!(t.token_type, TokenType::Integer(3));
    assert_eq!(t.image, "3");
    assert_eq!(t.fname, "f");
    assert_eq!(t.line, 2);
}
