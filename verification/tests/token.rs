use macro_expander::exception::{ErrorKind, Exception};
use macro_expander::token::Token;

#[test]
fn tokens_compare_by_text() {
    let a = Token { data: "(".to_string(), line: "@(x)", row: 0, column: 1 };
    let b = Token { data: "(".to_string(), line: "other", row: 3, column: 7 };
    let c = Token { data: ")".to_string(), line: "@(x)", row: 0, column: 1 };
    assert!(a == b);
    assert!(a != c);
    assert!(a.is_char('('));
    assert!(!a.is_char(')'));
    assert!(!Token { data: "((".to_string(), line: "", row: 0, column: 0 }.is_char('('));
    assert!(!Token { data: "".to_string(), line: "", row: 0, column: 0 }.is_char('('));
}

#[test]
fn clone_keeps_text_and_place() {
    let a = Token { data: "name".to_string(), line: "a line", row: 2, column: 5 };
    let b = a.clone();
    assert_eq!(b.data, "name");
    assert_eq!(b.line, "a line");
    assert_eq!(b.row, 2);
    assert_eq!(b.column, 5);
}

#[test]
fn each_kind_has_its_message() {
    assert_eq!(ErrorKind::ExcessClosingBracket.message(), "Excess closing bracket.");
    assert_eq!(ErrorKind::EmptyCall.message(), "Empty call.");
    assert_eq!(ErrorKind::UnterminatedCommencement.message(), "Unterminated commencement character.");
    assert_eq!(ErrorKind::UnterminatedString.message(), "Unterminated string.");
    assert_eq!(ErrorKind::UnterminatedBracket.message(), "Unterminated bracket.");
    assert_eq!(ErrorKind::ArgumentCountMismatch.message(), "Argument count mismatch.");
}

#[test]
fn exception_carries_kind_message_and_token() {
    let token = Token { data: ")".to_string(), line: "@()", row: 0, column: 2 };
    let exception = Exception::new(ErrorKind::EmptyCall, token);
    assert_eq!(exception.kind, ErrorKind::EmptyCall);
    assert_eq!(exception.message, "Empty call.");
    assert_eq!(exception.token.data, ")");
    assert_eq!(exception.token.column, 2);
}
