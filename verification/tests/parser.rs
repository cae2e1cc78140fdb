use gmailrs::parser::infix_to_postfix;
use gmailrs::parser::ParseError;

#[test]
fn postfix_of_a_chain() {
    assert_eq!(infix_to_postfix("2+3-4"), Ok(String::from("23+4-")));
    assert_eq!(infix_to_postfix("7"), Ok(String::from("7")));
    assert_eq!(infix_to_postfix("1-2"), Ok(String::from("12-")));
    assert_eq!(infix_to_postfix("9-8+7-6+5"), Ok(String::from("98-7+6-5+")));
}

#[test]
fn postfix_unexpected_end() {
    assert_eq!(infix_to_postfix(""), Err(ParseError::UnexpectedEnd));
    assert_eq!(infix_to_postfix("2+"), Err(ParseError::UnexpectedEnd));
    assert_eq!(infix_to_postfix("2+3-"), Err(ParseError::UnexpectedEnd));
}

#[test]
fn postfix_unexpected_char() {
    assert_eq!(infix_to_postfix("+"), Err(ParseError::UnexpectedChar('+')));
    assert_eq!(infix_to_postfix("23"), Err(ParseError::UnexpectedChar('3')));
    assert_eq!(infix_to_postfix("2+a"), Err(ParseError::UnexpectedChar('a')));
    assert_eq!(infix_to_postfix("2*3"), Err(ParseError::UnexpectedChar('*')));
    assert_eq!(infix_to_postfix("2 + 3"), Err(ParseError::UnexpectedChar(' ')));
    assert_eq!(infix_to_postfix("2++3"), Err(ParseError::UnexpectedChar('+')));
    assert_eq!(infix_to_postfix("\u{663}"), Err(ParseError::UnexpectedChar('\u{663}')));
}
