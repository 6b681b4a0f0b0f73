//! What the scanner's requests go to, and the expansion of a text by any
//! executor.

use crate::exception::{outcome, Exception, ExceptionView};
use crate::scanner::{expand, finished, scan_line, scan_text, Models, Request, Scanner};
use crate::text::{
    byte_length, chars_of, lemma_line_length_unique, lemma_utf8_len_concat, lemma_utf8_len_next,
    line_length, slice, utf8_len, width_of, NEWLINE_CHARACTER,
};
use crate::token::{views, Token, TokenView};
use std::collections::VecDeque;
use vstd::prelude::*;

verus! {

/// What answers the scanner's requests: the text that stands for a special
/// character, and the text that a completed call stands for.
///
/// An executor answers as a function of its state: `models` says what
/// `get` and `call` return in a state and what state they leave. An
/// implementation gives `state` and `models` a body.
pub trait Executor {
    /// What of the executor its answers depend on.
    type State;

    /// The state of the executor.
    open spec fn state(&self) -> Self::State {
        arbitrary()
    }

    /// What `get` and `call` answer.
    open spec fn models() -> Models<Self::State> {
        arbitrary()
    }

    /// The text that stands for `character` behind a commencement character.
    fn get<'text>(&mut self, character: char) -> (r: Result<String, Exception<'text>>)
        ensures
            (outcome(r), final(self).state()) == (Self::models().get)(old(self).state(), character),
    ;

    /// The text that the call of `head` with the arguments `body` stands for.
    fn call<'text>(&mut self, head: Token<'text>, body: VecDeque<Token<'text>>) -> (r: Result<
        String,
        Exception<'text>,
    >)
        ensures
            (outcome(r), final(self).state()) == (Self::models().call)(
                old(self).state(),
                head@,
                views(body@),
            ),
    ;

    /// Expands `text`: reads it line by line and character by character,
    /// asks for each completed call, innermost first, what it stands for,
    /// and puts the answer in the call's place. The lines of the result
    /// are joined by newlines as those of `text` are.
    ///
    /// An exception ends the expansion at once; what the executor did
    /// before stays done.
    fn execute<'text>(&mut self, text: &'text str) -> (r: Result<String, Exception<'text>>)
        ensures
            (outcome(r), final(self).state()) == expand(
                text@,
                old(self).state(),
                Self::models(),
            ),
    {
        let ghost before = self.state();
        let ghost models = Self::models();
        let chars = chars_of(text);
        let total = byte_length(text);
        let mut scanner = Scanner::new();
        let mut start: usize = 0;
        let mut start_byte: usize = 0;
        let mut row: usize = 0;
        assert(text@.skip(0) =~= text@);
        assert(text@.take(0) =~= Seq::<char>::empty());
        loop
            invariant
                before == old(self).state(),
                models == Self::models(),
                chars@ == text@,
                total == utf8_len(text@),
                row <= start <= chars.len(),
                start_byte == utf8_len(text@.take(start as int)),
                finished(
                    scan_text(scanner@, self.state(), text@.skip(start as int), row as nat, models),
                ) == expand(text@, before, models),
            decreases chars.len() - start,
        {
            let ghost rest = text@.skip(start as int);
            let ghost line_scanner = scanner@;
            let ghost line_executor = self.state();
            let mut end: usize = start;
            let mut end_byte: usize = start_byte;
            while end < chars.len() && chars[end] != NEWLINE_CHARACTER
                invariant
                    chars@ == text@,
                    total == utf8_len(text@),
                    start <= end <= chars.len(),
                    end_byte == utf8_len(text@.take(end as int)),
                    forall|k: int| start <= k < end ==> text@[k] != NEWLINE_CHARACTER,
                decreases chars.len() - end,
            {
                proof {
                    lemma_utf8_len_next(text@, end as int);
                }
                end_byte = end_byte + width_of(chars[end]);
                end = end + 1;
            }
            let last = end == chars.len();
            let line = slice(text, start_byte, end_byte, Ghost(start as int), Ghost(end as int));
            proof {
                lemma_line_length_unique(rest, end - start);
                assert(line@ =~= rest.take(end - start));
                lemma_utf8_len_concat(text@.take(start as int), line@);
                assert(text@.take(end as int) =~= text@.take(start as int) + line@);
                assert(line@.take(0) =~= Seq::<char>::empty());
            }
            let mut at: usize = start;
            let mut column: usize = 0;
            while at < end
                invariant
                    before == old(self).state(),
                    models == Self::models(),
                    chars@ == text@,
                    start <= at <= end <= chars.len(),
                    line@ == text@.subrange(start as int, end as int),
                    utf8_len(line@) == end_byte - start_byte,
                    column == utf8_len(line@.take(at - start)),
                    scan_line(scanner@, self.state(), line@, row as nat, at - start, models)
                        == scan_line(line_scanner, line_executor, line@, row as nat, 0, models),
                    rest == text@.skip(start as int),
                    line@ == rest.take(line_length(rest) as int),
                    finished(scan_text(line_scanner, line_executor, rest, row as nat, models))
                        == expand(text@, before, models),
                decreases end - at,
            {
                let character = chars[at];
                let whitespace = character.is_whitespace();
                proof {
                    assert(line@[at - start] == character);
                    lemma_utf8_len_next(line@, at - start);
                }
                let answer = match scanner.step(character, whitespace, line, row, column) {
                    Err(exception) => {
                        return Err(exception);
                    },
                    Ok(Request::Nothing) => None,
                    Ok(Request::Special(special)) => Some(self.get(special)),
                    Ok(Request::Call(head, body)) => Some(self.call(head, body)),
                };
                match answer {
                    None => {},
                    Some(Ok(found)) => {
                        scanner.answer(found, line, row, column);
                    },
                    Some(Err(exception)) => {
                        return Err(exception);
                    },
                }
                column = column + width_of(character);
                at = at + 1;
            }
            match scanner.end_of_line(line, row, last) {
                Ok(_) => {},
                Err(exception) => {
                    return Err(exception);
                },
            }
            if last {
                return scanner.finish();
            }
            proof {
                lemma_utf8_len_next(text@, end as int);
                assert(rest.skip(end - start + 1) =~= text@.skip(end + 1));
            }
            start = end + 1;
            start_byte = end_byte + 1;
            row = row + 1;
        }
    }
}

} // verus!
