use macro_expander::exception::{ErrorKind, Exception};
use macro_expander::executor::Executor;
use macro_expander::token::Token;
use std::collections::VecDeque;

struct Recorder {
    calls: Vec<String>,
}

impl Executor for Recorder {
    type State = ();

    fn get<'text>(&mut self, character: char) -> Result<String, Exception<'text>> {
        Ok(format!("<{}>", character))
    }

    fn call<'text>(
        &mut self,
        head: Token<'text>,
        body: VecDeque<Token<'text>>,
    ) -> Result<String, Exception<'text>> {
        if head.data == "fail" {
            return Err(Exception::new(ErrorKind::ArgumentCountMismatch, head));
        }
        let mut text = head.data.clone();
        for token in body {
            text.push(',');
            text.push_str(token.data.as_str());
        }
        self.calls.push(text.clone());
        Ok(format!("[{}]", text))
    }
}

#[test]
fn calls_reach_the_executor_innermost_first() {
    let mut recorder = Recorder { calls: Vec::new() };
    let result = recorder.execute("x @(a @(b c) d) y").unwrap();
    assert_eq!(result, "x [a,[b,c],d] y".to_string());
    assert_eq!(recorder.calls, vec!["b,c".to_string(), "a,[b,c],d".to_string()]);
}

#[test]
fn characters_behind_the_marker_reach_the_executor() {
    let mut recorder = Recorder { calls: Vec::new() };
    assert_eq!(recorder.execute("a@bc").unwrap(), "a<b>c".to_string());
    assert_eq!(recorder.execute("@(f @x)").unwrap(), "[f,<x>]".to_string());
}

#[test]
fn lines_are_joined_as_they_were() {
    let mut recorder = Recorder { calls: Vec::new() };
    assert_eq!(recorder.execute("a\n@(b)\n").unwrap(), "a\n[b]\n".to_string());
    assert_eq!(recorder.execute("").unwrap(), "".to_string());
    assert_eq!(recorder.execute("\n").unwrap(), "\n".to_string());
}

#[test]
fn exception_of_the_executor_ends_the_expansion() {
    let mut recorder = Recorder { calls: Vec::new() };
    let error = recorder.execute("@(ok)\n @(fail now)@(never)").unwrap_err();
    assert_eq!(error.kind, ErrorKind::ArgumentCountMismatch);
    assert_eq!(error.token.data, "fail");
    assert_eq!(error.token.line, " @(fail now)@(never)");
    assert_eq!(error.token.row, 1);
    assert_eq!(error.token.column, 7);
    assert_eq!(recorder.calls, vec!["ok".to_string()]);
}

#[test]
fn token_stands_where_it_was_completed() {
    let mut recorder = Recorder { calls: Vec::new() };
    let error = recorder.execute("\u{e9}@(fail)").unwrap_err();
    assert_eq!(error.token.data, "fail");
    assert_eq!(error.token.line, "\u{e9}@(fail)");
    assert_eq!(error.token.column, 8);
}

struct Scripted {
    inner: &'static str,
    asked: Vec<String>,
}

impl Executor for Scripted {
    type State = ();

    fn get<'text>(&mut self, _character: char) -> Result<String, Exception<'text>> {
        Ok(String::new())
    }

    fn call<'text>(
        &mut self,
        head: Token<'text>,
        body: VecDeque<Token<'text>>,
    ) -> Result<String, Exception<'text>> {
        let mut asked = head.data.clone();
        for token in body.iter() {
            asked.push('|');
            asked.push_str(token.data.as_str());
        }
        self.asked.push(asked);
        if head.data == "b" {
            Ok(self.inner.to_string())
        } else {
            Ok("outer answer".to_string())
        }
    }
}

#[test]
fn inner_call_is_asked_for_first_and_is_the_argument_of_the_outer() {
    let mut scripted = Scripted { inner: "inner answer", asked: Vec::new() };
    assert_eq!(scripted.execute("@(a @(b))").unwrap(), "outer answer".to_string());
    assert_eq!(scripted.asked, vec!["b".to_string(), "a|inner answer".to_string()]);
}

#[test]
fn inner_answer_that_reads_as_a_bracket_opens_a_call() {
    let mut scripted = Scripted { inner: "(", asked: Vec::new() };
    let error = scripted.execute("@(a @(b))").unwrap_err();
    assert_eq!(error.kind, ErrorKind::EmptyCall);
    assert_eq!(scripted.asked, vec!["b".to_string()]);
}
