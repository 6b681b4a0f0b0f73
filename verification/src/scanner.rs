//! The state machine that reads a text character by character, and what
//! the expansion of a text is.
//!
//! Between two characters the scanner holds the output so far, the tokens
//! of the calls that are open, the characters of the token that is being
//! read, and whether a commencement character or an opening quote came
//! last. A character moves it on as [`step`] says:
//!
//! - behind a commencement character, an opening bracket opens a call and
//!   any other character is a special character, for which the executor
//!   is asked;
//! - inside quotes every character but the closing quote is taken as it
//!   is;
//! - a commencement character waits for the next character;
//! - outside a call every other character goes to the output;
//! - inside a call an opening bracket opens a further call, a closing
//!   bracket completes the innermost call, for which the executor is
//!   asked, white space ends the token that is being read, a quote opens a
//!   quoted stretch, and any other character joins the token that is being
//!   read.
//!
//! The scanner itself asks nobody: a step says what is to be asked, and
//! the answer is handed back to the scanner, where it goes to the output
//! or, inside a call, becomes an argument of the call around. What an
//! executor answers enters [`expand`] as a pair of functions.
//!
//! A token is a bracket by its text alone, so a result that reads `(`
//! opens a call like a bracket in the text. The token that is being read
//! ends at white space and at a closing bracket only: it runs on over a
//! line break, a quoted stretch and a call that opens inside it.

use crate::exception::{outcome, raised, ErrorKind, Exception, ExceptionView};
use crate::text::{
    byte_length, lemma_line_length, lemma_line_length_unique, line_length, utf8_len, white_space,
    CLOSE_BRACKET_CHARACTER, COMMENCEMENT_CHARACTER, NEWLINE_CHARACTER, OPEN_BRACKET_CHARACTER,
    QUOTE_CHARACTER, SPACE_CHARACTER,
};
use crate::token::{views, Token, TokenView};
use std::collections::VecDeque;
use vstd::prelude::*;
use vstd::string::StringExecFns;

verus! {

/// Where a character stands: its line, the line's number and the byte
/// offset of the character in the line.
pub ghost struct Place {
    pub line: Seq<char>,
    pub row: nat,
    pub column: nat,
}

pub open spec fn token_at(data: Seq<char>, place: Place) -> TokenView {
    TokenView { data, line: place.line, row: place.row, column: place.column }
}

/// The text of the token that marks an opened call.
pub open spec fn bracket() -> Seq<char> {
    seq![OPEN_BRACKET_CHARACTER]
}

/// What the scanner holds between two characters.
pub ghost struct ScannerView {
    /// The expanded text so far.
    pub output: Seq<char>,
    /// The tokens of the calls that are open, outermost first.
    pub pending: Seq<TokenView>,
    /// The characters of the token that is being read.
    pub buffer: Seq<char>,
    /// Whether the last character was a commencement character.
    pub commencing: bool,
    /// Whether a quoted token is open.
    pub quoting: bool,
}

/// The scanner before the first character.
pub open spec fn initial() -> ScannerView {
    ScannerView {
        output: Seq::empty(),
        pending: Seq::empty(),
        buffer: Seq::empty(),
        commencing: false,
        quoting: false,
    }
}

/// The buffer, if it holds anything, becomes the newest pending token.
pub open spec fn flushed(scanner: ScannerView, place: Place) -> ScannerView {
    if scanner.buffer.len() == 0 {
        scanner
    } else {
        ScannerView {
            pending: scanner.pending.push(token_at(scanner.buffer, place)),
            buffer: Seq::empty(),
            ..scanner
        }
    }
}

/// A call is opened: its bracket becomes the newest pending token.
pub open spec fn opened(scanner: ScannerView, place: Place) -> ScannerView {
    ScannerView { pending: scanner.pending.push(token_at(bracket(), place)), ..scanner }
}

/// A result goes to the output where no call is open, and else becomes an
/// argument of the innermost open call.
pub open spec fn emitted(scanner: ScannerView, text: Seq<char>, place: Place) -> ScannerView {
    if scanner.pending.len() == 0 {
        ScannerView { output: scanner.output + text, ..scanner }
    } else {
        ScannerView { pending: scanner.pending.push(token_at(text, place)), ..scanner }
    }
}

/// The index of the last pending token whose text is an opening bracket,
/// or -1 where there is none.
pub open spec fn last_bracket(pending: Seq<TokenView>) -> int
    decreases pending.len(),
{
    if pending.len() == 0 {
        -1
    } else if pending.last().data == bracket() {
        pending.len() - 1
    } else {
        last_bracket(pending.drop_last())
    }
}

/// What a closing bracket finds among the pending tokens.
pub ghost enum Closing {
    /// No opening bracket.
    Excess,
    /// An opening bracket with nothing behind it.
    Empty { rest: Seq<TokenView> },
    /// The innermost call: what stands before its bracket, its head and
    /// its arguments.
    Call { rest: Seq<TokenView>, head: TokenView, body: Seq<TokenView> },
}

pub open spec fn closing(pending: Seq<TokenView>) -> Closing {
    let at = last_bracket(pending);
    if at < 0 {
        Closing::Excess
    } else if at + 1 == pending.len() {
        Closing::Empty { rest: pending.take(at) }
    } else {
        Closing::Call { rest: pending.take(at), head: pending[at + 1], body: pending.skip(at + 2) }
    }
}

/// What a character brings about.
pub ghost enum Event {
    /// The scanner moves on by itself.
    Read { scanner: ScannerView },
    /// A special character was read: what stands for it is to be asked.
    Special { scanner: ScannerView, character: char },
    /// A call was completed: what it stands for is to be asked.
    Call { scanner: ScannerView, head: TokenView, body: Seq<TokenView> },
    /// The expansion ends.
    Failed { exception: ExceptionView },
}

/// The scanner reads a closing bracket inside a call.
pub open spec fn closed(scanner: ScannerView, place: Place) -> Event {
    let scanner = flushed(scanner, place);
    let closer = token_at(seq![CLOSE_BRACKET_CHARACTER], place);
    match closing(scanner.pending) {
        Closing::Excess => Event::Failed {
            exception: raised(ErrorKind::ExcessClosingBracket, closer),
        },
        Closing::Empty { .. } => Event::Failed { exception: raised(ErrorKind::EmptyCall, closer) },
        Closing::Call { rest, head, body } => Event::Call {
            scanner: ScannerView { pending: rest, ..scanner },
            head,
            body,
        },
    }
}

/// The scanner reads one character of a line. `whitespace` says whether the
/// character counts as white space.
pub open spec fn step(
    scanner: ScannerView,
    character: char,
    whitespace: bool,
    place: Place,
) -> Event {
    if scanner.commencing {
        let scanner = ScannerView { commencing: false, ..scanner };
        if character == OPEN_BRACKET_CHARACTER {
            Event::Read { scanner: opened(scanner, place) }
        } else {
            Event::Special { scanner, character }
        }
    } else if scanner.quoting {
        if character == QUOTE_CHARACTER {
            Event::Read { scanner: ScannerView { quoting: false, ..scanner } }
        } else {
            Event::Read {
                scanner: ScannerView { buffer: scanner.buffer.push(character), ..scanner },
            }
        }
    } else if character == COMMENCEMENT_CHARACTER {
        Event::Read { scanner: ScannerView { commencing: true, ..scanner } }
    } else if scanner.pending.len() == 0 {
        Event::Read { scanner: ScannerView { output: scanner.output.push(character), ..scanner } }
    } else if character == OPEN_BRACKET_CHARACTER {
        Event::Read { scanner: opened(scanner, place) }
    } else if character == CLOSE_BRACKET_CHARACTER {
        closed(scanner, place)
    } else if character == QUOTE_CHARACTER {
        Event::Read { scanner: ScannerView { quoting: true, ..scanner } }
    } else if whitespace {
        Event::Read { scanner: flushed(scanner, place) }
    } else {
        Event::Read { scanner: ScannerView { buffer: scanner.buffer.push(character), ..scanner } }
    }
}

/// What an executor answers, as a pair of functions of its state: the
/// text that stands for a special character, and the text that a call
/// stands for, or an exception, each with the state that the executor is
/// left in.
#[verifier::reject_recursive_types(S)]
pub ghost struct Models<S> {
    pub get: spec_fn(S, char) -> (Result<Seq<char>, ExceptionView>, S),
    pub call: spec_fn(S, TokenView, Seq<TokenView>) -> (Result<Seq<char>, ExceptionView>, S),
}

/// Scanner and executor after some characters, or the exception that ended
/// the expansion and the executor as it was left.
pub ghost enum Progress<S> {
    Running { scanner: ScannerView, executor: S },
    Failed { exception: ExceptionView, executor: S },
}

/// An answer of the executor goes where results go, and an exception ends
/// the expansion.
pub open spec fn answered<S>(
    scanner: ScannerView,
    answer: (Result<Seq<char>, ExceptionView>, S),
    place: Place,
) -> Progress<S> {
    match answer.0 {
        Ok(text) => Progress::Running { scanner: emitted(scanner, text, place), executor: answer.1 },
        Err(exception) => Progress::Failed { exception, executor: answer.1 },
    }
}

/// The scanner reads one character, and the executor answers what the
/// character brings up.
pub open spec fn advance<S>(
    scanner: ScannerView,
    executor: S,
    character: char,
    whitespace: bool,
    place: Place,
    models: Models<S>,
) -> Progress<S> {
    match step(scanner, character, whitespace, place) {
        Event::Read { scanner } => Progress::Running { scanner, executor },
        Event::Special { scanner, character } => answered(
            scanner,
            (models.get)(executor, character),
            place,
        ),
        Event::Call { scanner, head, body } => answered(
            scanner,
            (models.call)(executor, head, body),
            place,
        ),
        Event::Failed { exception } => Progress::Failed { exception, executor },
    }
}

/// The place of the last byte of line `row`.
pub open spec fn line_end(line: Seq<char>, row: nat) -> Place {
    Place { line, row, column: if utf8_len(line) == 0 { 0 } else { (utf8_len(line) - 1) as nat } }
}

/// The scanner reaches the end of a line. A line that another line follows
/// ends in a newline, which goes to the output.
pub open spec fn line_ended<S>(
    scanner: ScannerView,
    executor: S,
    line: Seq<char>,
    row: nat,
    last: bool,
) -> Progress<S> {
    let end = token_at(seq![NEWLINE_CHARACTER], line_end(line, row));
    if scanner.commencing {
        Progress::Failed { exception: raised(ErrorKind::UnterminatedCommencement, end), executor }
    } else if scanner.quoting {
        Progress::Failed { exception: raised(ErrorKind::UnterminatedString, end), executor }
    } else if last {
        Progress::Running { scanner, executor }
    } else {
        Progress::Running {
            scanner: ScannerView { output: scanner.output.push(NEWLINE_CHARACTER), ..scanner },
            executor,
        }
    }
}

/// The scanner reads the characters of `line` from the one at `from` on.
pub open spec fn scan_line<S>(
    scanner: ScannerView,
    executor: S,
    line: Seq<char>,
    row: nat,
    from: int,
    models: Models<S>,
) -> Progress<S>
    decreases line.len() - from,
{
    if from < 0 || from >= line.len() {
        Progress::Running { scanner, executor }
    } else {
        let place = Place { line, row, column: utf8_len(line.take(from)) };
        match advance(scanner, executor, line[from], white_space(line[from]), place, models) {
            Progress::Running { scanner, executor } => scan_line(
                scanner,
                executor,
                line,
                row,
                from + 1,
                models,
            ),
            failed => failed,
        }
    }
}

/// The scanner reads `rest`, whose first line is line `row` of the text.
pub open spec fn scan_text<S>(
    scanner: ScannerView,
    executor: S,
    rest: Seq<char>,
    row: nat,
    models: Models<S>,
) -> Progress<S>
    decreases rest.len(),
{
    let length = line_length(rest) as int;
    let line = rest.take(length);
    let last = length >= rest.len();
    match scan_line(scanner, executor, line, row, 0, models) {
        Progress::Running { scanner, executor } => match line_ended(
            scanner,
            executor,
            line,
            row,
            last,
        ) {
            Progress::Running { scanner, executor } => if last {
                Progress::Running { scanner, executor }
            } else {
                scan_text(scanner, executor, rest.skip(length + 1), row + 1, models)
            },
            failed => failed,
        },
        failed => failed,
    }
}

/// What is left when the text has ended: the output, unless a call is
/// still open.
pub open spec fn finished<S>(progress: Progress<S>) -> (Result<Seq<char>, ExceptionView>, S) {
    match progress {
        Progress::Running { scanner, executor } => if scanner.pending.len() == 0 {
            (Ok(scanner.output), executor)
        } else {
            (Err(raised(ErrorKind::UnterminatedBracket, scanner.pending.last())), executor)
        },
        Progress::Failed { exception, executor } => (Err(exception), executor),
    }
}

/// The expansion of `text` by an executor that is in state `executor` and
/// answers as `models` say: the expanded text or the exception that ended
/// the expansion, and the state in which the executor is left.
pub open spec fn expand<S>(text: Seq<char>, executor: S, models: Models<S>) -> (
    Result<Seq<char>, ExceptionView>,
    S,
) {
    finished(scan_text(initial(), executor, text, 0, models))
}

/// The place of the character at byte `column` of line `row`.
pub open spec fn place(line: &str, row: usize, column: usize) -> Place {
    Place { line: line@, row: row as nat, column: column as nat }
}

/// A string of one character.
pub fn single(character: char) -> (r: String)
    ensures
        r@ == seq![character],
{
    let mut text = String::new();
    text.push(character);
    assert(text@ =~= seq![character]);
    text
}

pub proof fn lemma_views_push(tokens: Seq<Token<'_>>, token: Token<'_>)
    ensures
        views(tokens.push(token)) == views(tokens).push(token@),
{
    assert(views(tokens.push(token)) =~= views(tokens).push(token@));
}

pub proof fn lemma_views_subrange(tokens: Seq<Token<'_>>, from: int, to: int)
    requires
        0 <= from <= to <= tokens.len(),
    ensures
        views(tokens.subrange(from, to)) == views(tokens).subrange(from, to),
{
    assert(views(tokens.subrange(from, to)) =~= views(tokens).subrange(from, to));
}

/// Takes the innermost open call off the pending tokens: the tokens behind
/// the last opening bracket, the first of them as the head and the others
/// as the body. The bracket leaves with them.
///
/// Without an opening bracket nothing is taken. With nothing behind the
/// bracket only the bracket is taken.
pub fn close_call<'text>(pending: &mut VecDeque<Token<'text>>) -> (r: Result<
    (Token<'text>, VecDeque<Token<'text>>),
    ErrorKind,
>)
    ensures
        match closing(views(old(pending)@)) {
            Closing::Excess => r == Err::<(Token<'text>, VecDeque<Token<'text>>), _>(
                ErrorKind::ExcessClosingBracket,
            ) && final(pending)@ == old(pending)@,
            Closing::Empty { rest } => r == Err::<(Token<'text>, VecDeque<Token<'text>>), _>(
                ErrorKind::EmptyCall,
            ) && views(final(pending)@) == rest,
            Closing::Call { rest, head, body } => {
                &&& r matches Ok((found, arguments))
                &&& found@ == head
                &&& views(arguments@) == body
                &&& views(final(pending)@) == rest
            },
        },
{
    let mark = single(OPEN_BRACKET_CHARACTER);
    let ghost all = pending@;
    let mut at: usize = pending.len();
    assert(all.take(at as int) =~= all);
    while at > 0 && pending[at - 1].data != mark
        invariant
            pending@ == all,
            at <= all.len(),
            mark@ == bracket(),
            last_bracket(views(all)) == last_bracket(views(all.take(at as int))),
        decreases at,
    {
        proof {
            let shown = views(all.take(at as int));
            assert(shown.last() == all[at - 1]@);
            assert(shown.drop_last() =~= views(all.take(at - 1)));
        }
        at = at - 1;
    }
    proof {
        let shown = views(all.take(at as int));
        if at > 0 {
            assert(shown.last() == all[at - 1]@);
        }
        assert(last_bracket(views(all)) == at - 1);
    }
    if at == 0 {
        return Err(ErrorKind::ExcessClosingBracket);
    }
    let mut call = pending.split_off(at - 1);
    let _ = call.pop_front();
    proof {
        lemma_views_subrange(all, 0, at - 1);
        assert(views(all).take(at - 1) =~= views(all).subrange(0, at - 1));
    }
    match call.pop_front() {
        None => Err(ErrorKind::EmptyCall),
        Some(head) => {
            proof {
                assert(call@ =~= all.skip(at + 1));
                assert(views(call@) =~= views(all).skip(at + 1));
            }
            Ok((head, call))
        },
    }
}

/// What a step asks of the executor.
#[derive(Debug)]
pub enum Request<'text> {
    /// Nothing.
    Nothing,
    /// The text that stands for a special character.
    Special(char),
    /// The text that the call of a head with its arguments stands for.
    Call(Token<'text>, VecDeque<Token<'text>>),
}

/// What a step of the scanner came to, as contracts see it.
pub open spec fn event(result: Result<Request<'_>, Exception<'_>>, scanner: ScannerView) -> Event {
    match result {
        Ok(Request::Nothing) => Event::Read { scanner },
        Ok(Request::Special(character)) => Event::Special { scanner, character },
        Ok(Request::Call(head, body)) => Event::Call { scanner, head: head@, body: views(body@) },
        Err(exception) => Event::Failed { exception: exception@ },
    }
}

/// What the end of a line came to, as contracts see it.
pub open spec fn progress<S>(
    result: Result<(), Exception<'_>>,
    scanner: ScannerView,
    executor: S,
) -> Progress<S> {
    match result {
        Ok(_) => Progress::Running { scanner, executor },
        Err(exception) => Progress::Failed { exception: exception@, executor },
    }
}

/// The scanner's state between two characters of a text.
pub struct Scanner<'text> {
    output: String,
    pending: VecDeque<Token<'text>>,
    buffer: String,
    commencing: bool,
    quoting: bool,
}

impl<'text> View for Scanner<'text> {
    type V = ScannerView;

    closed spec fn view(&self) -> ScannerView {
        ScannerView {
            output: self.output@,
            pending: views(self.pending@),
            buffer: self.buffer@,
            commencing: self.commencing,
            quoting: self.quoting,
        }
    }
}

impl<'text> Scanner<'text> {
    pub fn new() -> (r: Self)
        ensures
            r@ == initial(),
    {
        let scanner = Scanner {
            output: String::new(),
            pending: VecDeque::new(),
            buffer: String::new(),
            commencing: false,
            quoting: false,
        };
        assert(views(scanner.pending@) =~= Seq::empty());
        scanner
    }

    fn push(&mut self, data: String, line: &'text str, row: usize, column: usize)
        ensures
            final(self)@ == (ScannerView {
                pending: old(self)@.pending.push(token_at(data@, place(line, row, column))),
                ..old(self)@
            }),
    {
        let token = Token { data, line, row, column };
        proof {
            lemma_views_push(self.pending@, token);
        }
        self.pending.push_back(token);
    }

    fn flush(&mut self, line: &'text str, row: usize, column: usize)
        ensures
            final(self)@ == flushed(old(self)@, place(line, row, column)),
    {
        if !self.buffer.as_str().is_empty() {
            let mut data = String::new();
            std::mem::swap(&mut data, &mut self.buffer);
            self.push(data, line, row, column);
        }
    }

    /// Takes an answer of the executor: it goes to the output where no
    /// call is open, and else becomes an argument of the innermost open
    /// call, with the place given.
    pub fn answer(&mut self, text: String, line: &'text str, row: usize, column: usize)
        ensures
            final(self)@ == emitted(old(self)@, text@, place(line, row, column)),
    {
        if self.pending.len() == 0 {
            self.output.append(text.as_str());
        } else {
            self.push(text, line, row, column);
        }
    }

    fn close(&mut self, line: &'text str, row: usize, column: usize) -> (r: Result<
        Request<'text>,
        Exception<'text>,
    >)
        ensures
            event(r, final(self)@) == closed(old(self)@, place(line, row, column)),
    {
        self.flush(line, row, column);
        match close_call(&mut self.pending) {
            Err(kind) => {
                let closer = Token { data: single(CLOSE_BRACKET_CHARACTER), line, row, column };
                Err(Exception::new(kind, closer))
            },
            Ok((head, body)) => Ok(Request::Call(head, body)),
        }
    }

    /// Reads one character of a line, and says what is to be asked of the
    /// executor. `whitespace` says whether the character counts as white
    /// space; `column` is the byte offset of the character in `line`, and
    /// `row` the number of the line.
    pub fn step(
        &mut self,
        character: char,
        whitespace: bool,
        line: &'text str,
        row: usize,
        column: usize,
    ) -> (r: Result<Request<'text>, Exception<'text>>)
        ensures
            event(r, final(self)@) == step(
                old(self)@,
                character,
                whitespace,
                place(line, row, column),
            ),
    {
        if self.commencing {
            self.commencing = false;
            if character == OPEN_BRACKET_CHARACTER {
                self.push(single(character), line, row, column);
                Ok(Request::Nothing)
            } else {
                Ok(Request::Special(character))
            }
        } else if self.quoting {
            if character == QUOTE_CHARACTER {
                self.quoting = false;
            } else {
                self.buffer.push(character);
            }
            Ok(Request::Nothing)
        } else if character == COMMENCEMENT_CHARACTER {
            self.commencing = true;
            Ok(Request::Nothing)
        } else if self.pending.len() == 0 {
            self.output.push(character);
            Ok(Request::Nothing)
        } else if character == OPEN_BRACKET_CHARACTER {
            self.push(single(character), line, row, column);
            Ok(Request::Nothing)
        } else if character == CLOSE_BRACKET_CHARACTER {
            self.close(line, row, column)
        } else if character == QUOTE_CHARACTER {
            self.quoting = true;
            Ok(Request::Nothing)
        } else if whitespace {
            self.flush(line, row, column);
            Ok(Request::Nothing)
        } else {
            self.buffer.push(character);
            Ok(Request::Nothing)
        }
    }

    /// Ends line `row`. `last` says whether the text ends with the line.
    pub fn end_of_line(&mut self, line: &'text str, row: usize, last: bool) -> (r: Result<
        (),
        Exception<'text>,
    >)
        ensures
            progress(r, final(self)@, ()) == line_ended(old(self)@, (), line@, row as nat, last),
    {
        if self.commencing || self.quoting {
            let width = byte_length(line);
            let column = if width == 0 {
                0
            } else {
                width - 1
            };
            let end = Token { data: single(NEWLINE_CHARACTER), line, row, column };
            if self.commencing {
                Err(Exception::new(ErrorKind::UnterminatedCommencement, end))
            } else {
                Err(Exception::new(ErrorKind::UnterminatedString, end))
            }
        } else {
            if !last {
                self.output.push(NEWLINE_CHARACTER);
            }
            Ok(())
        }
    }

    /// Ends the text: the output, unless a call is still open.
    pub fn finish(self) -> (r: Result<String, Exception<'text>>)
        ensures
            outcome(r) == finished(Progress::Running { scanner: self@, executor: () }).0,
    {
        let mut scanner = self;
        match scanner.pending.pop_back() {
            None => Ok(scanner.output),
            Some(token) => Err(Exception::new(ErrorKind::UnterminatedBracket, token)),
        }
    }
}

/// No call is open and no commencement character or quote is waiting.
pub open spec fn idle(scanner: ScannerView) -> bool {
    &&& scanner.pending.len() == 0
    &&& !scanner.commencing
    &&& !scanner.quoting
}

/// An idle scanner copies what is left of a line without a commencement
/// character to the output.
pub proof fn lemma_plain_line<S>(
    scanner: ScannerView,
    executor: S,
    line: Seq<char>,
    row: nat,
    from: int,
    models: Models<S>,
)
    requires
        idle(scanner),
        0 <= from <= line.len(),
        forall|i: int| from <= i < line.len() ==> line[i] != COMMENCEMENT_CHARACTER,
    ensures
        scan_line(scanner, executor, line, row, from, models) == (Progress::Running {
            scanner: ScannerView { output: scanner.output + line.skip(from), ..scanner },
            executor,
        }),
    decreases line.len() - from,
{
    if from >= line.len() {
        assert(scanner.output + line.skip(from) =~= scanner.output);
    } else {
        let next = ScannerView { output: scanner.output.push(line[from]), ..scanner };
        lemma_plain_line(next, executor, line, row, from + 1, models);
        assert(next.output + line.skip(from + 1) =~= scanner.output + line.skip(from));
    }
}

/// An idle scanner copies a text without a commencement character to the
/// output.
pub proof fn lemma_plain_text<S>(
    scanner: ScannerView,
    executor: S,
    rest: Seq<char>,
    row: nat,
    models: Models<S>,
)
    requires
        idle(scanner),
        !rest.contains(COMMENCEMENT_CHARACTER),
    ensures
        scan_text(scanner, executor, rest, row, models) == (Progress::Running {
            scanner: ScannerView { output: scanner.output + rest, ..scanner },
            executor,
        }),
    decreases rest.len(),
{
    lemma_line_length(rest);
    let length = line_length(rest) as int;
    let line = rest.take(length);
    assert forall|i: int| 0 <= i < line.len() implies line[i] != COMMENCEMENT_CHARACTER by {
        assert(rest.contains(rest[i]));
    }
    lemma_plain_line(scanner, executor, line, row, 0, models);
    assert(line.skip(0) =~= line);
    let copied = ScannerView { output: scanner.output + line, ..scanner };
    if length >= rest.len() {
        assert(line =~= rest);
    } else {
        let ended = ScannerView { output: copied.output.push(NEWLINE_CHARACTER), ..copied };
        let tail = rest.skip(length + 1);
        assert forall|c: char| tail.contains(c) implies rest.contains(c) by {
            let i = choose|i: int| 0 <= i < tail.len() && tail[i] == c;
            assert(rest[length + 1 + i] == c);
        }
        lemma_plain_text(ended, executor, tail, row + 1, models);
        assert(ended.output + tail =~= scanner.output + rest);
    }
}

/// A text without a commencement character expands to itself, and the
/// executor is not asked and stays as it is.
pub proof fn law_plain_text_is_unchanged<S>(text: Seq<char>, executor: S, models: Models<S>)
    requires
        !text.contains(COMMENCEMENT_CHARACTER),
    ensures
        expand(text, executor, models) == (Ok::<_, ExceptionView>(text), executor),
{
    lemma_plain_text(initial(), executor, text, 0, models);
    assert(initial().output + text =~= text);
}

/// Where an expansion succeeds and its result holds no commencement
/// character, expanding the result again gives the result, and leaves the
/// executor as the first expansion left it.
pub proof fn law_expansion_is_idempotent<S>(text: Seq<char>, executor: S, models: Models<S>)
    requires
        expand(text, executor, models).0 is Ok,
        !expand(text, executor, models).0->Ok_0.contains(COMMENCEMENT_CHARACTER),
    ensures
        expand(expand(text, executor, models).0->Ok_0, expand(text, executor, models).1, models)
            == expand(text, executor, models),
{
    law_plain_text_is_unchanged(
        expand(text, executor, models).0->Ok_0,
        expand(text, executor, models).1,
        models,
    );
}

/// Outside a call a closing bracket is text like any other character: it
/// goes to the output, and nothing is resolved.
pub proof fn law_closing_bracket_outside_a_call_is_text(
    scanner: ScannerView,
    whitespace: bool,
    place: Place,
)
    requires
        idle(scanner),
    ensures
        step(scanner, CLOSE_BRACKET_CHARACTER, whitespace, place) == (Event::Read {
            scanner: ScannerView {
                output: scanner.output.push(CLOSE_BRACKET_CHARACTER),
                ..scanner
            },
        }),
{
}

/// What holds of the scanner in every state that an expansion reaches:
/// the pending tokens, where there are any, begin with the bracket of the
/// outermost open call, and outside a call no token is being read and no
/// quote is open.
pub open spec fn anchored(scanner: ScannerView) -> bool {
    &&& scanner.pending.len() > 0 ==> scanner.pending[0].data == bracket()
    &&& scanner.pending.len() == 0 ==> scanner.buffer.len() == 0 && !scanner.quoting
}

proof fn lemma_last_bracket(pending: Seq<TokenView>)
    ensures
        -1 <= last_bracket(pending) < pending.len(),
        last_bracket(pending) >= 0 ==> pending[last_bracket(pending)].data == bracket(),
        forall|i: int| last_bracket(pending) < i < pending.len() ==> pending[i].data != bracket(),
    decreases pending.len(),
{
    if pending.len() > 0 && pending.last().data != bracket() {
        let front = pending.drop_last();
        lemma_last_bracket(front);
        assert forall|i: int| last_bracket(pending) < i < pending.len() implies pending[i].data
            != bracket() by {
            if i < front.len() {
                assert(pending[i] == front[i]);
            }
        }
    }
}

/// Inside a call a closing bracket always finds an opening bracket, and
/// what it leaves pending begins with a bracket again.
pub proof fn law_open_call_has_its_bracket(scanner: ScannerView, place: Place)
    requires
        scanner.pending.len() > 0,
        scanner.pending[0].data == bracket(),
    ensures
        !(closing(flushed(scanner, place).pending) is Excess),
        match closing(flushed(scanner, place).pending) {
            Closing::Excess => true,
            Closing::Empty { rest } => rest.len() > 0 ==> rest[0].data == bracket(),
            Closing::Call { rest, .. } => rest.len() > 0 ==> rest[0].data == bracket(),
        },
{
    let pending = flushed(scanner, place).pending;
    assert(pending[0] == scanner.pending[0]);
    lemma_last_bracket(pending);
}

/// A step keeps the scanner anchored, whatever the executor then answers,
/// and never fails for want of an opening bracket.
pub proof fn law_step_keeps_the_anchor(
    scanner: ScannerView,
    character: char,
    whitespace: bool,
    place: Place,
    answer: Seq<char>,
)
    requires
        anchored(scanner),
    ensures
        match step(scanner, character, whitespace, place) {
            Event::Read { scanner: next } => anchored(next),
            Event::Special { scanner: next, .. } => anchored(emitted(next, answer, place)),
            Event::Call { scanner: next, .. } => anchored(emitted(next, answer, place)),
            Event::Failed { exception } => exception.kind != ErrorKind::ExcessClosingBracket,
        },
{
    if scanner.pending.len() > 0 {
        law_open_call_has_its_bracket(scanner, place);
    }
}

proof fn lemma_advance_keeps_the_anchor<S>(
    scanner: ScannerView,
    executor: S,
    character: char,
    whitespace: bool,
    place: Place,
    models: Models<S>,
)
    requires
        anchored(scanner),
    ensures
        match advance(scanner, executor, character, whitespace, place, models) {
            Progress::Running { scanner: next, .. } => anchored(next),
            Progress::Failed { .. } => true,
        },
{
    match step(scanner, character, whitespace, place) {
        Event::Special { character: special, .. } => {
            match (models.get)(executor, special).0 {
                Ok(text) => law_step_keeps_the_anchor(scanner, character, whitespace, place, text),
                Err(_) => {},
            }
        },
        Event::Call { head, body, .. } => {
            match (models.call)(executor, head, body).0 {
                Ok(text) => law_step_keeps_the_anchor(scanner, character, whitespace, place, text),
                Err(_) => {},
            }
        },
        _ => {
            law_step_keeps_the_anchor(scanner, character, whitespace, place, Seq::empty());
        },
    }
}

proof fn lemma_line_keeps_the_anchor<S>(
    scanner: ScannerView,
    executor: S,
    line: Seq<char>,
    row: nat,
    from: int,
    models: Models<S>,
)
    requires
        anchored(scanner),
    ensures
        match scan_line(scanner, executor, line, row, from, models) {
            Progress::Running { scanner: next, .. } => anchored(next),
            Progress::Failed { .. } => true,
        },
    decreases line.len() - from,
{
    if 0 <= from < line.len() {
        let place = Place { line, row, column: utf8_len(line.take(from)) };
        lemma_advance_keeps_the_anchor(
            scanner,
            executor,
            line[from],
            white_space(line[from]),
            place,
            models,
        );
        match advance(scanner, executor, line[from], white_space(line[from]), place, models) {
            Progress::Running { scanner: next, executor: left } => {
                lemma_line_keeps_the_anchor(next, left, line, row, from + 1, models);
            },
            Progress::Failed { .. } => {},
        }
    }
}

proof fn lemma_text_keeps_the_anchor<S>(
    scanner: ScannerView,
    executor: S,
    rest: Seq<char>,
    row: nat,
    models: Models<S>,
)
    requires
        anchored(scanner),
    ensures
        match scan_text(scanner, executor, rest, row, models) {
            Progress::Running { scanner: next, .. } => anchored(next),
            Progress::Failed { .. } => true,
        },
    decreases rest.len(),
{
    let length = line_length(rest) as int;
    let line = rest.take(length);
    let last = length >= rest.len();
    lemma_line_keeps_the_anchor(scanner, executor, line, row, 0, models);
    match scan_line(scanner, executor, line, row, 0, models) {
        Progress::Running { scanner: read, executor: left } => {
            match line_ended(read, left, line, row, last) {
                Progress::Running { scanner: ended, executor: left } => {
                    if !last {
                        lemma_text_keeps_the_anchor(
                            ended,
                            left,
                            rest.skip(length + 1),
                            row + 1,
                            models,
                        );
                    }
                },
                Progress::Failed { .. } => {},
            }
        },
        Progress::Failed { .. } => {},
    }
}

/// Whatever the text and the executor, the scanner stays anchored: a
/// closing bracket inside a call finds its opening bracket in every state
/// that an expansion reaches, and a text that ends outside a call leaves
/// no token unread.
pub proof fn law_scanner_stays_anchored<S>(text: Seq<char>, executor: S, models: Models<S>)
    ensures
        match scan_text(initial(), executor, text, 0, models) {
            Progress::Running { scanner, .. } => anchored(scanner),
            Progress::Failed { .. } => true,
        },
{
    lemma_text_keeps_the_anchor(initial(), executor, text, 0, models);
}

/// A character that can stand in a name: none of the characters of the
/// grammar, and no white space.
pub open spec fn plain(character: char) -> bool {
    &&& character != COMMENCEMENT_CHARACTER
    &&& character != OPEN_BRACKET_CHARACTER
    &&& character != CLOSE_BRACKET_CHARACTER
    &&& character != QUOTE_CHARACTER
    &&& !white_space(character)
}

/// A name: one plain character or more.
pub open spec fn name(text: Seq<char>) -> bool {
    &&& text.len() > 0
    &&& forall|i: int| 0 <= i < text.len() ==> plain(#[trigger] text[i])
}

/// The call of `outer` with the call of `inner` as its argument:
/// `@(outer @(inner))`.
pub open spec fn nested(outer: Seq<char>, inner: Seq<char>) -> Seq<char> {
    seq![COMMENCEMENT_CHARACTER, OPEN_BRACKET_CHARACTER] + outer + seq![
        SPACE_CHARACTER,
        COMMENCEMENT_CHARACTER,
        OPEN_BRACKET_CHARACTER,
    ] + inner + seq![CLOSE_BRACKET_CHARACTER, CLOSE_BRACKET_CHARACTER]
}

/// Inside a call, plain characters join the token that is being read.
proof fn lemma_reads_a_name<S>(
    scanner: ScannerView,
    executor: S,
    line: Seq<char>,
    row: nat,
    from: int,
    to: int,
    models: Models<S>,
)
    requires
        0 <= from <= to <= line.len(),
        !scanner.commencing,
        !scanner.quoting,
        scanner.pending.len() > 0,
        forall|i: int| from <= i < to ==> plain(#[trigger] line[i]),
    ensures
        scan_line(scanner, executor, line, row, from, models) == scan_line(
            ScannerView { buffer: scanner.buffer + line.subrange(from, to), ..scanner },
            executor,
            line,
            row,
            to,
            models,
        ),
    decreases to - from,
{
    if from == to {
        assert(scanner.buffer + line.subrange(from, to) =~= scanner.buffer);
    } else {
        assert(plain(line[from]));
        let next = ScannerView { buffer: scanner.buffer.push(line[from]), ..scanner };
        lemma_reads_a_name(next, executor, line, row, from + 1, to, models);
        assert(next.buffer + line.subrange(from + 1, to) =~= scanner.buffer + line.subrange(
            from,
            to,
        ));
    }
}

/// Calls are resolved innermost first: in `@(outer @(inner))` the executor
/// is asked for the inner call first, with no argument, and then for the
/// outer call, with the answer to the inner call as its one argument. What
/// it answers then is the expansion. An exception for the inner call ends
/// the expansion before the outer call is asked for.
///
/// An answer to the inner call that reads as an opening bracket is left
/// out: like a bracket in the text it opens a call.
pub proof fn law_inner_call_is_resolved_first<S>(
    outer: Seq<char>,
    inner: Seq<char>,
    executor: S,
    models: Models<S>,
)
    requires
        name(outer),
        name(inner),
        ({
            let text = nested(outer, inner);
            let closer = Place { line: text, row: 0, column: utf8_len(text.take(text.len() - 2)) };
            (models.call)(executor, token_at(inner, closer), Seq::empty()).0 != Ok::<
                _,
                ExceptionView,
            >(bracket())
        }),
    ensures
        ({
            let text = nested(outer, inner);
            let space = Place { line: text, row: 0, column: utf8_len(text.take(outer.len() as int + 2)) };
            let closer = Place { line: text, row: 0, column: utf8_len(text.take(text.len() - 2)) };
            let first = (models.call)(executor, token_at(inner, closer), Seq::empty());
            expand(text, executor, models) == match first.0 {
                Ok(answer) => (models.call)(
                    first.1,
                    token_at(outer, space),
                    seq![token_at(answer, closer)],
                ),
                Err(exception) => (Err(exception), first.1),
            }
        }),
{
    let text = nested(outer, inner);
    let n = outer.len() as int;
    let m = inner.len() as int;
    let total = n + m + 7;
    assert(text.len() == total);
    assert(text[0] == COMMENCEMENT_CHARACTER);
    assert(text[1] == OPEN_BRACKET_CHARACTER);
    assert forall|i: int| 2 <= i < n + 2 implies plain(#[trigger] text[i]) by {
        assert(text[i] == outer[i - 2]);
    }
    assert(text[n + 2] == SPACE_CHARACTER);
    assert(text[n + 3] == COMMENCEMENT_CHARACTER);
    assert(text[n + 4] == OPEN_BRACKET_CHARACTER);
    assert forall|i: int| n + 5 <= i < n + m + 5 implies plain(#[trigger] text[i]) by {
        assert(text[i] == inner[i - n - 5]);
    }
    assert(text[n + m + 5] == CLOSE_BRACKET_CHARACTER);
    assert(text[n + m + 6] == CLOSE_BRACKET_CHARACTER);
    assert(text.subrange(2, n + 2) =~= outer);
    assert(text.subrange(n + 5, n + m + 5) =~= inner);
    assert forall|i: int| 0 <= i < total implies text[i] != NEWLINE_CHARACTER by {
        if 2 <= i < n + 2 || n + 5 <= i < n + m + 5 {
            assert(plain(text[i]));
        }
    }
    lemma_line_length_unique(text, total);
    assert(text.take(total) =~= text);

    let at = |i: int| Place { line: text, row: 0, column: utf8_len(text.take(i)) };
    let bracket_token = |i: int| token_at(bracket(), at(i));
    let space = at(n + 2);
    let closer = at(n + m + 5);
    let s0 = initial();
    // the commencement character and the bracket that opens the outer call
    let s1 = ScannerView { commencing: true, ..s0 };
    assert(advance(s0, executor, text[0], white_space(text[0]), at(0), models)
        == Progress::Running { scanner: s1, executor });
    let s2 = ScannerView { pending: seq![bracket_token(1)], ..s0 };
    assert(opened(ScannerView { commencing: false, ..s1 }, at(1)).pending =~= s2.pending);
    assert(advance(s1, executor, text[1], white_space(text[1]), at(1), models)
        == Progress::Running { scanner: s2, executor });
    // the name of the outer call, and the space behind it
    lemma_reads_a_name(s2, executor, text, 0, 2, n + 2, models);
    let s3 = ScannerView { buffer: outer, ..s2 };
    assert(s2.buffer + text.subrange(2, n + 2) =~= outer);
    let s4 = ScannerView { pending: seq![bracket_token(1), token_at(outer, space)], ..s0 };
    assert(flushed(s3, space).pending =~= s4.pending);
    assert(advance(s3, executor, text[n + 2], white_space(text[n + 2]), space, models)
        == Progress::Running { scanner: s4, executor });
    // the inner call opens
    let s5 = ScannerView { commencing: true, ..s4 };
    assert(advance(s4, executor, text[n + 3], white_space(text[n + 3]), at(n + 3), models)
        == Progress::Running { scanner: s5, executor });
    let s6 = ScannerView {
        pending: seq![bracket_token(1), token_at(outer, space), bracket_token(n + 4)],
        ..s0
    };
    assert(opened(ScannerView { commencing: false, ..s5 }, at(n + 4)).pending =~= s6.pending);
    assert(advance(s5, executor, text[n + 4], white_space(text[n + 4]), at(n + 4), models)
        == Progress::Running { scanner: s6, executor });
    // the name of the inner call, and the bracket that closes it
    lemma_reads_a_name(s6, executor, text, 0, n + 5, n + m + 5, models);
    let s7 = ScannerView { buffer: inner, ..s6 };
    assert(s6.buffer + text.subrange(n + 5, n + m + 5) =~= inner);
    let read = flushed(s7, closer).pending;
    assert(read =~= s6.pending.push(token_at(inner, closer)));
    assert(inner != bracket()) by {
        assert(plain(inner[0]));
    }
    assert(outer != bracket()) by {
        assert(plain(outer[0]));
    }
    assert(last_bracket(read) == 2) by {
        reveal_with_fuel(last_bracket, 3);
        assert(read.drop_last() =~= s6.pending);
    }
    assert(read.take(2) =~= s4.pending);
    assert(read.skip(4) =~= Seq::<TokenView>::empty());
    let first = (models.call)(executor, token_at(inner, closer), Seq::empty());
    assert(step(s7, text[n + m + 5], white_space(text[n + m + 5]), closer) == Event::Call {
        scanner: s4,
        head: token_at(inner, closer),
        body: Seq::empty(),
    });
    let inner_progress = advance(
        s7,
        executor,
        text[n + m + 5],
        white_space(text[n + m + 5]),
        closer,
        models,
    );
    assert(inner_progress == answered(s4, first, closer));
    reveal_with_fuel(scan_line, 3);
    match first.0 {
        Err(exception) => {
            assert(scan_line(s7, executor, text, 0, n + m + 5, models) == Progress::Failed {
                exception,
                executor: first.1,
            });
        },
        Ok(answer) => {
            // the answer is the argument of the outer call, which closes
            let last = at(n + m + 6);
            let s8 = ScannerView {
                pending: seq![
                    bracket_token(1),
                    token_at(outer, space),
                    token_at(answer, closer),
                ],
                ..s0
            };
            assert(emitted(s4, answer, closer).pending =~= s8.pending);
            assert(inner_progress == Progress::Running { scanner: s8, executor: first.1 });
            assert(last_bracket(s8.pending) == 0) by {
                reveal_with_fuel(last_bracket, 4);
                assert(s8.pending.drop_last() =~= s4.pending);
                assert(s4.pending.drop_last() =~= seq![bracket_token(1)]);
            }
            assert(s8.pending.take(0) =~= Seq::<TokenView>::empty());
            assert(s8.pending.skip(2) =~= seq![token_at(answer, closer)]);
            let second = (models.call)(
                first.1,
                token_at(outer, space),
                seq![token_at(answer, closer)],
            );
            assert(step(s8, text[n + m + 6], white_space(text[n + m + 6]), last) == Event::Call {
                scanner: s0,
                head: token_at(outer, space),
                body: seq![token_at(answer, closer)],
            });
            let outer_progress = advance(
                s8,
                first.1,
                text[n + m + 6],
                white_space(text[n + m + 6]),
                last,
                models,
            );
            assert(outer_progress == answered(s0, second, last));
            assert(scan_line(s8, first.1, text, 0, n + m + 6, models) == match outer_progress {
                Progress::Running { scanner, executor } => Progress::Running { scanner, executor },
                failed => failed,
            });
            match second.0 {
                Ok(result) => {
                    assert(s0.output + result =~= result);
                },
                Err(_) => {},
            }
            assert(scan_line(s7, executor, text, 0, n + m + 5, models) == outer_progress);
        },
    }
    let tail = scan_line(s7, executor, text, 0, n + m + 5, models);
    assert(scan_line(s6, executor, text, 0, n + 5, models) == tail);
    assert(scan_line(s5, executor, text, 0, n + 4, models) == tail);
    assert(scan_line(s4, executor, text, 0, n + 3, models) == tail);
    assert(scan_line(s3, executor, text, 0, n + 2, models) == tail);
    assert(scan_line(s2, executor, text, 0, 2, models) == tail);
    assert(scan_line(s1, executor, text, 0, 1, models) == tail);
    assert(scan_line(s0, executor, text, 0, 0, models) == tail);
}

} // verus!
