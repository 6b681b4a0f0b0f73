//! The command `set`.

use crate::context::{Behaviour, Callee, CalleeView};
use crate::exception::{raised, ErrorKind, Exception, ExceptionView};
use crate::scanner::lemma_views_subrange;
use crate::store::{assign, Frame, Store};
use crate::text::SPACE_CHARACTER;
use crate::token::{views, Token, TokenView};
use std::collections::VecDeque;
use vstd::prelude::*;
use vstd::string::StringExecFns;

verus! {

/// The texts of `tokens` in order, with one space between neighbours.
pub open spec fn joined(tokens: Seq<TokenView>) -> Seq<char>
    decreases tokens.len(),
{
    if tokens.len() == 0 {
        Seq::empty()
    } else if tokens.len() == 1 {
        tokens[0].data
    } else {
        joined(tokens.drop_last()) + seq![SPACE_CHARACTER] + tokens.last().data
    }
}

/// The command `set`: called with a name and any number of values, it
/// gives the name the values, joined by spaces, in the innermost frame
/// that declares the name, or declares the name in the innermost frame
/// where none does. It stands for nothing. A call without a name is
/// refused.
pub struct SetCallee {}

pub open spec fn set_behaviour() -> Behaviour {
    |store: Seq<Frame>, head: TokenView, body: Seq<TokenView>|
        if body.len() >= 1 {
            (
                Ok::<Seq<char>, ExceptionView>(Seq::empty()),
                assign(store, body[0].data, joined(body.skip(1))),
            )
        } else {
            (Err(raised(ErrorKind::ArgumentCountMismatch, head)), store)
        }
}

/// The texts of `tokens` in order, with one space between neighbours.
pub fn join<'text>(tokens: &VecDeque<Token<'text>>) -> (r: String)
    ensures
        r@ == joined(views(tokens@)),
{
    let ghost all = views(tokens@);
    let mut text = String::new();
    let mut at: usize = 0;
    assert(all.take(0).len() == 0);
    while at < tokens.len()
        invariant
            all == views(tokens@),
            at <= tokens.len(),
            text@ == joined(all.take(at as int)),
        decreases tokens.len() - at,
    {
        let ghost before = all.take(at as int);
        let ghost after = all.take(at + 1);
        proof {
            assert(after.drop_last() =~= before);
            assert(after.last() == tokens@[at as int]@);
        }
        if at > 0 {
            text.push(SPACE_CHARACTER);
            assert(text@ =~= joined(before) + seq![SPACE_CHARACTER]);
        }
        text.append(tokens[at].data.as_str());
        proof {
            if at == 0 {
                assert(text@ =~= after[0].data);
            }
        }
        at = at + 1;
    }
    assert(all.take(at as int) =~= all);
    text
}

impl Default for SetCallee {
    fn default() -> Self {
        SetCallee {}
    }
}

impl Callee for SetCallee {
    open spec fn view(&self) -> CalleeView {
        CalleeView { name: "set"@, behaviour: set_behaviour() }
    }

    fn name(&self) -> (r: &'static str) {
        "set"
    }

    fn call<'text>(
        &mut self,
        store: &mut Store,
        head: Token<'text>,
        body: VecDeque<Token<'text>>,
    ) -> (r: Result<String, Exception<'text>>) {
        let ghost all = body@;
        let mut body = body;
        match body.pop_front() {
            Some(key) => {
                proof {
                    lemma_views_subrange(all, 1, all.len() as int);
                }
                let value = join(&body);
                store.set(key.data, value);
                Ok(String::new())
            },
            None => Err(Exception::new(ErrorKind::ArgumentCountMismatch, head)),
        }
    }
}

} // verus!
