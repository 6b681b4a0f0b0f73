//! Variables and commands together: what calls are resolved against.
//!
//! The head of a call that names a registered command has the command
//! run; any other head is read as a variable, and a variable that no
//! frame declares reads as nothing. A fresh context knows the commands
//! `set` and `decl`; further commands are registered by the host.

use crate::context::decl::{decl_behaviour, DeclCallee};
use crate::context::set::{set_behaviour, SetCallee};
use crate::entries::{entries_of, last_position, last_wins, lemma_push, lemma_update, Entry};
use crate::exception::{outcome, Exception, ExceptionView};
use crate::executor::Executor;
use crate::scanner::{expand, single, Models};
use crate::store::{lookup, Frame, Store};
use crate::text::{same_text, COMMENCEMENT_CHARACTER, SPACE_CHARACTER, UNDERSCORE_CHARACTER};
use crate::token::{views, Token, TokenView};
use std::collections::VecDeque;
use vstd::prelude::*;

pub mod decl;
pub mod set;

verus! {

/// What a command does: from the store, the head of the call and its
/// arguments to the text that the call stands for, or an exception, and
/// the store as the command leaves it.
pub type Behaviour = spec_fn(Seq<Frame>, TokenView, Seq<TokenView>) -> (
    Result<Seq<char>, ExceptionView>,
    Seq<Frame>,
);

/// A command as contracts see it.
pub ghost struct CalleeView {
    pub name: Seq<char>,
    pub behaviour: Behaviour,
}

/// A command that a call can name.
///
/// What a command answers and does to the store is a function of the
/// store and of the call; a call leaves name and behaviour as they are.
/// An implementation says which name and which behaviour are its own by
/// giving `view` a body.
pub trait Callee {
    open spec fn view(&self) -> CalleeView {
        arbitrary()
    }

    /// The name under which the command is called.
    fn name(&self) -> (r: &'static str)
        ensures
            r@ == self@.name,
    ;

    /// Runs the command for the call of `head` with the arguments `body`.
    fn call<'text>(
        &mut self,
        store: &mut Store,
        head: Token<'text>,
        body: VecDeque<Token<'text>>,
    ) -> (r: Result<String, Exception<'text>>)
        ensures
            final(self)@ == old(self)@,
            (outcome(r), final(store)@) == (old(self)@.behaviour)(
                old(store)@,
                head@,
                views(body@),
            ),
    ;
}

/// A registered command.
pub struct Slot<C: Callee + ?Sized> {
    callee: Box<C>,
}

impl<C: Callee + ?Sized> Entry for Slot<C> {
    type Value = Behaviour;

    closed spec fn entry(&self) -> (Seq<char>, Behaviour) {
        (self.callee@.name, self.callee@.behaviour)
    }

    fn has_name(&self, name: &str) -> (r: bool) {
        same_text(self.callee.name(), name)
    }
}

/// Commands by name. A command registered later replaces an earlier one of
/// the same name.
pub struct Registry<C: Callee + ?Sized> {
    callees: Vec<Slot<C>>,
}

impl<C: Callee + ?Sized> Registry<C> {
    pub closed spec fn view(&self) -> Map<Seq<char>, Behaviour> {
        last_wins(entries_of(self.callees@))
    }

    /// A registry without a command.
    pub fn new() -> (r: Self)
        ensures
            r@ == Map::<Seq<char>, Behaviour>::empty(),
    {
        Registry { callees: Vec::new() }
    }

    /// Registers `callee` under its name, in place of what the name stood
    /// for before.
    pub fn register(&mut self, callee: Box<C>)
        ensures
            final(self)@ == old(self)@.insert(callee@.name, callee@.behaviour),
    {
        let ghost before = self.callees@;
        match last_position(&self.callees, callee.name()) {
            Some(at) => {
                let slot = Slot { callee };
                proof {
                    lemma_update(entries_of(before), at as int, callee@.behaviour);
                    assert(entries_of(before.update(at as int, slot)) =~= entries_of(
                        before,
                    ).update(at as int, (callee@.name, callee@.behaviour)));
                }
                self.callees[at] = slot;
            },
            None => {
                let slot = Slot { callee };
                proof {
                    lemma_push(entries_of(before), (callee@.name, callee@.behaviour));
                    assert(entries_of(before.push(slot)) =~= entries_of(before).push(
                        (callee@.name, callee@.behaviour),
                    ));
                }
                self.callees.push(slot);
            },
        }
    }

    /// Runs the command that the head of a call names, if it names one.
    /// The call comes back where it names none.
    pub fn invoke<'text>(
        &mut self,
        store: &mut Store,
        head: Token<'text>,
        body: VecDeque<Token<'text>>,
    ) -> (r: Result<Result<String, Exception<'text>>, (Token<'text>, VecDeque<Token<'text>>)>)
        ensures
            final(self)@ == old(self)@,
            match r {
                Ok(result) => {
                    &&& old(self)@.contains_key(head@.data)
                    &&& (outcome(result), final(store)@) == (old(self)@[head@.data])(
                        old(store)@,
                        head@,
                        views(body@),
                    )
                },
                Err((same_head, same_body)) => {
                    &&& !old(self)@.contains_key(head@.data)
                    &&& same_head == head
                    &&& same_body == body
                    &&& final(store)@ == old(store)@
                },
            },
    {
        match last_position(&self.callees, head.data.as_str()) {
            Some(at) => {
                let result = self.callees[at].callee.call(store, head, body);
                assert(entries_of(self.callees@) =~= entries_of(old(self).callees@));
                Ok(result)
            },
            None => Err((head, body)),
        }
    }
}

/// A context as contracts see it: its variables and its commands.
pub ghost struct ContextView {
    pub store: Seq<Frame>,
    pub registry: Map<Seq<char>, Behaviour>,
}

/// The text that stands for `character` behind a commencement character:
/// the commencement character stands for itself, the underscore for a
/// space, and any other character for nothing.
pub open spec fn special_text(character: char) -> Seq<char> {
    if character == COMMENCEMENT_CHARACTER {
        seq![COMMENCEMENT_CHARACTER]
    } else if character == UNDERSCORE_CHARACTER {
        seq![SPACE_CHARACTER]
    } else {
        Seq::empty()
    }
}

/// The value of the variable `key`, or nothing where no frame declares it.
pub open spec fn value_of(store: Seq<Frame>, key: Seq<char>) -> Seq<char> {
    match lookup(store, key) {
        Some(value) => value,
        None => Seq::empty(),
    }
}

/// What a call comes to in a context. A head that names a command has the
/// command run; any other head is read as a variable.
pub open spec fn called(context: ContextView, head: TokenView, body: Seq<TokenView>) -> (
    Result<Seq<char>, ExceptionView>,
    ContextView,
) {
    if context.registry.contains_key(head.data) {
        let (result, store) = (context.registry[head.data])(context.store, head, body);
        (result, ContextView { store, ..context })
    } else {
        (Ok(value_of(context.store, head.data)), context)
    }
}

/// What a context answers the scanner: a special character stands for its
/// text, and a call for what it comes to in the context.
pub open spec fn answers() -> Models<ContextView> {
    Models {
        get: |context: ContextView, character: char|
            (Ok::<_, ExceptionView>(special_text(character)), context),
        call: |context: ContextView, head: TokenView, body: Seq<TokenView>|
            called(context, head, body),
    }
}

/// The variables and commands of an expansion.
///
/// A context holds commands of one kind `C`. Left unsaid, the kind is any
/// command: commands of different types are registered side by side.
pub struct Context<C: Callee + ?Sized = dyn Callee> {
    pub store: Store,
    pub registry: Registry<C>,
}

impl<C: Callee + ?Sized> Context<C> {
    pub open spec fn view(&self) -> ContextView {
        ContextView { store: self.store@, registry: self.registry@ }
    }

    /// A context without variables and without commands.
    pub fn empty() -> (r: Self)
        ensures
            r@ == (ContextView { store: Seq::empty(), registry: Map::empty() }),
    {
        Context { store: Store::new(), registry: Registry::new() }
    }

    /// Registers `callee` under its name, in place of what the name stood
    /// for before.
    pub fn register_callee(&mut self, callee: Box<C>)
        ensures
            final(self)@ == (ContextView {
                registry: old(self)@.registry.insert(callee@.name, callee@.behaviour),
                ..old(self)@
            }),
    {
        self.registry.register(callee);
    }

    /// Resolves the call of `head` with the arguments `body`.
    pub fn call<'text>(&mut self, head: Token<'text>, body: VecDeque<Token<'text>>) -> (r: Result<
        String,
        Exception<'text>,
    >)
        ensures
            (outcome(r), final(self)@) == called(old(self)@, head@, views(body@)),
    {
        match self.registry.invoke(&mut self.store, head, body) {
            Ok(result) => result,
            Err((head, _)) => match self.store.get(head.data.as_str()) {
                Some(value) => Ok(value),
                None => Ok(String::new()),
            },
        }
    }

    /// The text that stands for `character` behind a commencement
    /// character.
    pub fn special<'text>(&mut self, character: char) -> (r: Result<String, Exception<'text>>)
        ensures
            outcome(r) == Ok::<_, ExceptionView>(special_text(character)),
            final(self)@ == old(self)@,
    {
        if character == COMMENCEMENT_CHARACTER {
            Ok(single(COMMENCEMENT_CHARACTER))
        } else if character == UNDERSCORE_CHARACTER {
            Ok(single(SPACE_CHARACTER))
        } else {
            Ok(String::new())
        }
    }

    /// Expands `text` with the variables and commands of the context. What
    /// earlier calls of the text did to the variables stays done when a
    /// later one fails.
    pub fn execute<'text>(&mut self, text: &'text str) -> (r: Result<String, Exception<'text>>)
        ensures
            (outcome(r), final(self)@) == expand(text@, old(self)@, answers()),
    {
        Executor::execute(self, text)
    }
}

impl<C: Callee + ?Sized> Executor for Context<C> {
    type State = ContextView;

    open spec fn state(&self) -> ContextView {
        self@
    }

    open spec fn models() -> Models<ContextView> {
        answers()
    }

    fn get<'text>(&mut self, character: char) -> (r: Result<String, Exception<'text>>) {
        self.special(character)
    }

    fn call<'text>(&mut self, head: Token<'text>, body: VecDeque<Token<'text>>) -> (r: Result<
        String,
        Exception<'text>,
    >) {
        Context::call(self, head, body)
    }
}

/// The commands of a fresh context.
pub open spec fn builtins() -> Map<Seq<char>, Behaviour> {
    Map::<Seq<char>, Behaviour>::empty().insert("set"@, set_behaviour()).insert(
        "decl"@,
        decl_behaviour(),
    )
}

impl Default for Context<dyn Callee> {
    /// A context without variables, with the commands `set` and `decl`.
    fn default() -> (r: Self)
        ensures
            r@ == (ContextView { store: Seq::empty(), registry: builtins() }),
    {
        let mut context: Context<dyn Callee> = Context::empty();
        context.register_callee(Box::new(SetCallee {}));
        context.register_callee(Box::new(DeclCallee {}));
        context
    }
}

} // verus!
