use macro_expander::exception::ErrorKind;
use macro_expander::scanner::{close_call, single, Request, Scanner};
use macro_expander::token::Token;
use std::collections::VecDeque;

fn token(data: &str) -> Token<'static> {
    Token { data: data.to_string(), line: "", row: 0, column: 0 }
}

fn texts(tokens: &VecDeque<Token<'static>>) -> Vec<String> {
    tokens.iter().map(|token| token.data.clone()).collect()
}

/// Feeds a line to the scanner, with `separator` as the only white space,
/// and answers every request with `answer`. Gives the requests back.
fn feed<'text>(
    scanner: &mut Scanner<'text>,
    line: &'text str,
    row: usize,
    separator: char,
    answer: &str,
) -> Vec<String> {
    let mut requests = Vec::new();
    for (column, character) in line.char_indices() {
        match scanner.step(character, character == separator, line, row, column).unwrap() {
            Request::Nothing => {}
            Request::Special(special) => {
                requests.push(format!("special {}", special));
                scanner.answer(answer.to_string(), line, row, column);
            }
            Request::Call(head, body) => {
                let mut request = format!("call {}", head.data);
                for argument in body.iter() {
                    request.push(' ');
                    request.push_str(argument.data.as_str());
                }
                requests.push(request);
                scanner.answer(answer.to_string(), line, row, column);
            }
        }
    }
    requests
}

#[test]
fn closing_without_an_opening_bracket_is_excess() {
    let mut pending = VecDeque::new();
    pending.push_back(token("a"));
    pending.push_back(token("b"));
    assert_eq!(close_call(&mut pending).unwrap_err(), ErrorKind::ExcessClosingBracket);
    assert_eq!(texts(&pending), vec!["a".to_string(), "b".to_string()]);
    let mut nothing: VecDeque<Token<'static>> = VecDeque::new();
    assert_eq!(close_call(&mut nothing).unwrap_err(), ErrorKind::ExcessClosingBracket);
}

#[test]
fn closing_behind_the_bracket_is_an_empty_call() {
    let mut pending = VecDeque::new();
    pending.push_back(token("("));
    pending.push_back(token("outer"));
    pending.push_back(token("("));
    assert_eq!(close_call(&mut pending).unwrap_err(), ErrorKind::EmptyCall);
    assert_eq!(texts(&pending), vec!["(".to_string(), "outer".to_string()]);
}

#[test]
fn closing_takes_the_innermost_call() {
    let mut pending = VecDeque::new();
    for data in ["(", "outer", "x", "(", "inner", "1", "2"] {
        pending.push_back(token(data));
    }
    let (head, body) = close_call(&mut pending).unwrap();
    assert_eq!(head.data, "inner");
    assert_eq!(texts(&body), vec!["1".to_string(), "2".to_string()]);
    assert_eq!(texts(&pending), vec!["(".to_string(), "outer".to_string(), "x".to_string()]);
    let (head, body) = close_call(&mut pending).unwrap();
    assert_eq!(head.data, "outer");
    assert_eq!(texts(&body), vec!["x".to_string()]);
    assert!(pending.is_empty());
}

#[test]
fn single_is_one_character() {
    assert_eq!(single('('), "(".to_string());
    assert_eq!(single('\u{20ac}'), "\u{20ac}".to_string());
}

#[test]
fn steps_outside_a_call_copy_the_character() {
    let mut scanner = Scanner::new();
    let requests = feed(&mut scanner, "a )\"", 0, ' ', "unused");
    assert!(requests.is_empty());
    scanner.end_of_line("a )\"", 0, false).unwrap();
    assert_eq!(scanner.finish().unwrap(), "a )\"\n".to_string());
}

#[test]
fn step_asks_for_specials_and_calls() {
    let line = "x@y @(a b @(c) @_) z";
    let mut scanner = Scanner::new();
    let requests = feed(&mut scanner, line, 0, ' ', "!");
    assert_eq!(
        requests,
        vec![
            "special y".to_string(),
            "call c".to_string(),
            "special _".to_string(),
            "call a b ! !".to_string(),
        ]
    );
    scanner.end_of_line(line, 0, true).unwrap();
    assert_eq!(scanner.finish().unwrap(), "x! ! z".to_string());
}

#[test]
fn step_takes_white_space_as_it_is_told() {
    let line = "@(set-a b)";
    let mut scanner = Scanner::new();
    let requests = feed(&mut scanner, line, 0, '-', "");
    assert_eq!(requests, vec!["call set a b".to_string()]);

    let mut scanner = Scanner::new();
    let requests = feed(&mut scanner, line, 0, ' ', "");
    assert_eq!(requests, vec!["call set-a b".to_string()]);
}

#[test]
fn step_keeps_the_place_of_a_token() {
    let line = "@(head  tail)";
    let mut scanner = Scanner::new();
    let mut found = None;
    for (column, character) in line.char_indices() {
        if let Request::Call(head, body) =
            scanner.step(character, character == ' ', line, 7, column).unwrap()
        {
            found = Some((head, body));
        }
    }
    let (head, body) = found.unwrap();
    assert_eq!(head.data, "head");
    assert_eq!(head.line, line);
    assert_eq!(head.row, 7);
    assert_eq!(head.column, 6);
    assert_eq!(body.len(), 1);
    assert_eq!(body[0].data, "tail");
    assert_eq!(body[0].column, 12);
}

#[test]
fn step_fails_at_an_empty_call() {
    let line = "@( )";
    let mut scanner = Scanner::new();
    scanner.step('@', false, line, 0, 0).unwrap();
    scanner.step('(', false, line, 0, 1).unwrap();
    scanner.step(' ', true, line, 0, 2).unwrap();
    let error = scanner.step(')', false, line, 0, 3).unwrap_err();
    assert_eq!(error.kind, ErrorKind::EmptyCall);
    assert_eq!(error.token.data, ")");
    assert_eq!(error.token.column, 3);
}

#[test]
fn answer_outside_a_call_goes_to_the_output() {
    let mut scanner = Scanner::new();
    scanner.answer("one".to_string(), "", 0, 0);
    scanner.answer("two".to_string(), "", 0, 0);
    scanner.end_of_line("", 0, true).unwrap();
    assert_eq!(scanner.finish().unwrap(), "onetwo".to_string());
}

#[test]
fn end_of_line_behind_a_marker_fails() {
    let mut scanner = Scanner::new();
    scanner.step('@', false, "@", 4, 0).unwrap();
    let error = scanner.end_of_line("@", 4, true).unwrap_err();
    assert_eq!(error.kind, ErrorKind::UnterminatedCommencement);
    assert_eq!(error.token.row, 4);
    assert_eq!(error.token.column, 0);
}

#[test]
fn end_of_an_empty_line_behind_a_marker_points_at_its_start() {
    let mut scanner = Scanner::new();
    scanner.step('@', false, "@", 0, 0).unwrap();
    let error = scanner.end_of_line("", 1, true).unwrap_err();
    assert_eq!(error.kind, ErrorKind::UnterminatedCommencement);
    assert_eq!(error.token.line, "");
    assert_eq!(error.token.column, 0);
}

#[test]
fn end_of_line_inside_quotes_fails() {
    let line = "@(a \"b";
    let mut scanner = Scanner::new();
    let requests = feed(&mut scanner, line, 2, ' ', "");
    assert!(requests.is_empty());
    let error = scanner.end_of_line(line, 2, false).unwrap_err();
    assert_eq!(error.kind, ErrorKind::UnterminatedString);
    assert_eq!(error.token.row, 2);
    assert_eq!(error.token.column, 5);
}

#[test]
fn finish_inside_a_call_fails() {
    let mut scanner = Scanner::new();
    let line = "@(a b";
    let requests = feed(&mut scanner, line, 0, ' ', "");
    assert!(requests.is_empty());
    scanner.end_of_line(line, 0, true).unwrap();
    let error = scanner.finish().unwrap_err();
    assert_eq!(error.kind, ErrorKind::UnterminatedBracket);
    assert_eq!(error.token.data, "a");
    assert_eq!(error.token.column, 3);
}
