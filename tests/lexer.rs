use asm6502::lexer::{Lexer, TokenValue};

#[test]
fn lexer_misc_chars() {
    let string = String::from(".< >()\n#~");
    let mut lexer = Lexer::new(&string);
    assert_eq!(lexer.next().unwrap().token_value, TokenValue::Dot);
    assert_eq!(lexer.next().unwrap().token_value, TokenValue::LT);
    assert_eq!(lexer.next().unwrap().token_value, TokenValue::GT);
    assert_eq!(lexer.next().unwrap().token_value, TokenValue::LParen);
    assert_eq!(lexer.next().unwrap().token_value, TokenValue::RParen);
    assert_eq!(lexer.next().unwrap().token_value, TokenValue::Newline);
    assert_eq!(lexer.next().unwrap().token_value, TokenValue::Hash);
    assert_eq!(lexer.next().unwrap().token_value, TokenValue::Error(String::from("~")));
    assert!(if let None = lexer.next() { true } else { false });
}

#[test]
fn lexer_symbols() {
    let string = String::from("hewwo HEWWO _underscore");
    let mut lexer = Lexer::new(&string);
    assert_eq!(lexer.next().unwrap().token_value, TokenValue::Symbol(String::from("hewwo")));
    assert_eq!(lexer.next().unwrap().token_value, TokenValue::Symbol(String::from("HEWWO")));
    assert_eq!(lexer.next().unwrap().token_value, TokenValue::Symbol(String::from("_underscore")));
    assert!(if let None = lexer.next() { true } else { false });
}

#[test]
fn lexer_numbers() {
    let string = String::from("%00101010 052 42 $2a $2A");
    let mut lexer = Lexer::new(&string);
    assert_eq!(lexer.next().unwrap().token_value, TokenValue::Bin(42));
    assert_eq!(lexer.next().unwrap().token_value, TokenValue::Oct(42));
    assert_eq!(lexer.next().unwrap().token_value, TokenValue::Dec(42));
    assert_eq!(lexer.next().unwrap().token_value, TokenValue::Hex(42));
    assert_eq!(lexer.next().unwrap().token_value, TokenValue::Hex(42));
    assert!(if let None = lexer.next() { true } else { false });
}

#[test]
fn lexer_strings() {
    let string = String::from("\"hewwo\" \"this is a string\" \"this\nis\na\nmultiline\nstring\n\" \"this is an invalid string");
    let mut lexer = Lexer::new(&string);
    assert_eq!(lexer.next().unwrap().token_value, TokenValue::String(String::from("hewwo")));
    assert_eq!(lexer.next().unwrap().token_value, TokenValue::String(String::from("this is a string")));
    assert_eq!(lexer.next().unwrap().token_value, TokenValue::String(String::from("this\nis\na\nmultiline\nstring\n")));
    assert_eq!(lexer.next().unwrap().token_value, TokenValue::Error(String::from("\"this is an invalid string")));
    assert!(if let None = lexer.next() { true } else { false });
}

#[test]
fn lexer_number_edge_cases() {
    let string = String::from("0 $ffff $10000 % 1,x: 65536");
    let mut lexer = Lexer::new(&string);
    assert_eq!(lexer.next().unwrap().token_value, TokenValue::Oct(0));
    assert_eq!(lexer.next().unwrap().token_value, TokenValue::Hex(0xffff));
    assert_eq!(lexer.next().unwrap().token_value, TokenValue::Error(String::from("$10000")));
    assert_eq!(lexer.next().unwrap().token_value, TokenValue::Error(String::from("%")));
    assert_eq!(lexer.next().unwrap().token_value, TokenValue::Dec(1));
    assert_eq!(lexer.next().unwrap().token_value, TokenValue::Comma);
    assert_eq!(lexer.next().unwrap().token_value, TokenValue::Symbol(String::from("x")));
    assert_eq!(lexer.next().unwrap().token_value, TokenValue::Colon);
    assert_eq!(lexer.next().unwrap().token_value, TokenValue::Error(String::from("65536")));
    assert!(lexer.next().is_none());
}

#[test]
fn lexer_token_positions() {
    let string = String::from("  lda #$2a");
    let mut lexer = Lexer::new(&string);
    let t = lexer.next().unwrap();
    assert_eq!((t.start, t.end), (2, 5));
    let t = lexer.next().unwrap();
    assert_eq!((t.start, t.end), (6, 7));
    let t = lexer.next().unwrap();
    assert_eq!((t.start, t.end), (7, 10));
    assert_eq!(t.token_value, TokenValue::Hex(0x2a));
}

#[test]
fn lexer_empty_and_blank_input() {
    let empty = String::new();
    let mut lexer = Lexer::new(&empty);
    assert!(lexer.next().is_none());
    let blank = String::from(" \t\r ");
    let mut lexer = Lexer::new(&blank);
    assert!(lexer.next().is_none());
    let string = String::from("\"\"");
    let mut lexer = Lexer::new(&string);
    assert_eq!(lexer.next().unwrap().token_value, TokenValue::String(String::new()));
    assert!(lexer.next().is_none());
}
