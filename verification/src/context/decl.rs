//! The command `decl`.

use crate::context::{Behaviour, Callee, CalleeView};
use crate::exception::{raised, ErrorKind, Exception, ExceptionView};
use crate::store::{declare, Frame, Store};
use crate::token::{Token, TokenView};
use std::collections::VecDeque;
use vstd::prelude::*;

verus! {

/// The command `decl`: called with a name and a value, it declares the
/// name in the innermost frame, with the value, whatever outer frames hold
/// for the name. It stands for nothing. Any other number of arguments is
/// refused.
pub struct DeclCallee {}

pub open spec fn decl_behaviour() -> Behaviour {
    |store: Seq<Frame>, head: TokenView, body: Seq<TokenView>|
        if body.len() == 2 {
            (
                Ok::<Seq<char>, ExceptionView>(Seq::empty()),
                declare(store, body[0].data, body[1].data),
            )
        } else {
            (Err(raised(ErrorKind::ArgumentCountMismatch, head)), store)
        }
}

impl Default for DeclCallee {
    fn default() -> Self {
        DeclCallee {}
    }
}

impl Callee for DeclCallee {
    open spec fn view(&self) -> CalleeView {
        CalleeView { name: "decl"@, behaviour: decl_behaviour() }
    }

    fn name(&self) -> (r: &'static str) {
        "decl"
    }

    fn call<'text>(
        &mut self,
        store: &mut Store,
        head: Token<'text>,
        body: VecDeque<Token<'text>>,
    ) -> (r: Result<String, Exception<'text>>) {
        let mut body = body;
        if body.len() != 2 {
            return Err(Exception::new(ErrorKind::ArgumentCountMismatch, head));
        }
        let key = body.pop_front();
        let value = body.pop_front();
        match (key, value) {
            (Some(key), Some(value)) => {
                store.decl(key.data, value.data);
                Ok(String::new())
            },
            _ => Err(Exception::new(ErrorKind::ArgumentCountMismatch, head)),
        }
    }
}

} // verus!
