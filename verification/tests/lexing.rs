use stackasm::lexer::{Lexer, Token};

#[test]
fn test1() {
    let mut l = Lexer::new("label: instr 1 2 3 ;comment äöü");
    while let Some(t) = l.next() {
        println!("{:?}", t);
    }
}

#[test]
fn hands_out_one_character_per_token() {
    let mut l = Lexer::new("ab");
    match l.next() {
        Some(Token::LABEL(s)) => assert_eq!(s, "a"),
        other => panic!("unexpected token: {:?}", other),
    }
    match l.next() {
        Some(Token::LABEL(s)) => assert_eq!(s, "b"),
        other => panic!("unexpected token: {:?}", other),
    }
    assert!(l.next().is_none());
}
