use kernel_lex::primitives::Clamp;
use kernel_lex::token::Delimiter;
use kernel_lex::token::Keyword;
use kernel_lex::token::Operator;
use kernel_lex::lexer::is_valid_for_ident;
use kernel_lex::lexer::is_valid_for_numlit;
use kernel_lex::lexer::is_valid_ident_start;
use kernel_lex::lexer::is_valid_numlit_start;

#[test]
fn clamp_integers() {
    assert_eq!(Clamp::clamp(5i32, 0, 10), 5);
    assert_eq!(Clamp::clamp(-5i32, 0, 10), 0);
    assert_eq!(Clamp::clamp(15i32, 0, 10), 10);
    assert_eq!(Clamp::clamp(200u8, 10, 20), 20);
    assert_eq!(Clamp::clamp(5u64, 10, 20), 10);
    assert_eq!(Clamp::clamp(-7i64, -10, -1), -7);
}

#[test]
fn identifier_character_classes() {
    assert!(is_valid_ident_start('_'));
    assert!(is_valid_ident_start('a'));
    assert!(is_valid_ident_start('Z'));
    assert!(!is_valid_ident_start('0'));
    assert!(!is_valid_ident_start('-'));
    assert!(is_valid_for_ident('0'));
    assert!(is_valid_for_ident('x'));
    assert!(!is_valid_for_ident(' '));
    assert!(is_valid_numlit_start('7'));
    assert!(!is_valid_numlit_start('x'));
    assert!(is_valid_for_numlit('F'));
    assert!(is_valid_for_numlit('_'));
    assert!(!is_valid_for_numlit('.'));
}

#[test]
fn vocabulary_variants_exist() {
    let kw = Keyword::Fn;
    assert!(matches!(kw, Keyword::Fn));
    let op = Operator::LessThen;
    assert!(matches!(op, Operator::LessThen));
    let de = Delimiter::LParen;
    assert!(matches!(de, Delimiter::LParen));
}
