//! The variables of an expansion: a stack of scopes.

use crate::entries::{
    entries_of, last_position, last_wins, lemma_push, lemma_update, Entry,
};
use crate::text::same_text;
use vstd::prelude::*;

verus! {

/// One scope: the names it declares, each with its value.
pub type Frame = Map<Seq<char>, Seq<char>>;

/// The index of the innermost frame that declares `key`, or -1 where no
/// frame does. The last frame is the innermost.
pub open spec fn nearest(frames: Seq<Frame>, key: Seq<char>) -> int
    decreases frames.len(),
{
    if frames.len() == 0 {
        -1
    } else if frames.last().contains_key(key) {
        frames.len() - 1
    } else {
        nearest(frames.drop_last(), key)
    }
}

/// The value of `key`: that of the innermost frame that declares it.
pub open spec fn lookup(frames: Seq<Frame>, key: Seq<char>) -> Option<Seq<char>> {
    let at = nearest(frames, key);
    if at < 0 {
        None
    } else {
        Some(frames[at][key])
    }
}

/// `key` is declared in the innermost frame, with `value`. Where there is
/// no frame yet, one is made.
pub open spec fn declare(frames: Seq<Frame>, key: Seq<char>, value: Seq<char>) -> Seq<Frame> {
    if frames.len() == 0 {
        seq![Map::<Seq<char>, Seq<char>>::empty().insert(key, value)]
    } else {
        frames.update(frames.len() - 1, frames.last().insert(key, value))
    }
}

/// `key` gets `value` in the innermost frame that declares it. Where no
/// frame does, it is declared in the innermost.
pub open spec fn assign(frames: Seq<Frame>, key: Seq<char>, value: Seq<char>) -> Seq<Frame> {
    let at = nearest(frames, key);
    if at < 0 {
        declare(frames, key, value)
    } else {
        frames.update(at, frames[at].insert(key, value))
    }
}

pub proof fn lemma_nearest(frames: Seq<Frame>, key: Seq<char>)
    ensures
        -1 <= nearest(frames, key) < frames.len(),
        nearest(frames, key) >= 0 ==> frames[nearest(frames, key)].contains_key(key),
        forall|i: int| nearest(frames, key) < i < frames.len() ==> !frames[i].contains_key(key),
    decreases frames.len(),
{
    if frames.len() > 0 && !frames.last().contains_key(key) {
        let outer = frames.drop_last();
        lemma_nearest(outer, key);
        assert forall|i: int| nearest(frames, key) < i < frames.len() implies !frames[i].contains_key(
            key,
        ) by {
            if i < outer.len() {
                assert(frames[i] == outer[i]);
            }
        }
    }
}

/// The innermost frame that declares `key` is the last that does.
pub proof fn lemma_nearest_unique(frames: Seq<Frame>, key: Seq<char>, at: int)
    requires
        -1 <= at < frames.len(),
        at >= 0 ==> frames[at].contains_key(key),
        forall|i: int| at < i < frames.len() ==> !frames[i].contains_key(key),
    ensures
        nearest(frames, key) == at,
{
    lemma_nearest(frames, key);
}

/// A value set for a name that only an outer frame declares goes to that
/// frame: the frames inside it stay as they are and do not come to declare
/// the name, and the name then reads as the new value.
pub proof fn law_set_reaches_the_declaring_frame(
    frames: Seq<Frame>,
    outer: int,
    key: Seq<char>,
    value: Seq<char>,
)
    requires
        0 <= outer < frames.len(),
        frames[outer].contains_key(key),
        forall|i: int| outer < i < frames.len() ==> !frames[i].contains_key(key),
    ensures
        assign(frames, key, value) == frames.update(outer, frames[outer].insert(key, value)),
        forall|i: int|
            outer < i < frames.len() ==> assign(frames, key, value)[i] == frames[i] && !assign(
                frames,
                key,
                value,
            )[i].contains_key(key),
        lookup(assign(frames, key, value), key) == Some(value),
{
    lemma_nearest_unique(frames, key, outer);
    lemma_nearest_unique(assign(frames, key, value), key, outer);
}

/// A name declared in the innermost frame hides what outer frames hold for
/// it for as long as that frame stays: the name reads as the declared
/// value, the outer frames are as they were, and once the innermost frame
/// is gone the name reads as it did without that frame.
pub proof fn law_decl_shadows_until_popped(frames: Seq<Frame>, key: Seq<char>, value: Seq<char>)
    requires
        frames.len() > 0,
    ensures
        lookup(declare(frames, key, value), key) == Some(value),
        declare(frames, key, value).drop_last() == frames.drop_last(),
        lookup(declare(frames, key, value).drop_last(), key) == lookup(frames.drop_last(), key),
{
    lemma_nearest_unique(declare(frames, key, value), key, frames.len() - 1);
    assert(declare(frames, key, value).drop_last() =~= frames.drop_last());
}

/// A name with its value, as a frame keeps it.
pub struct Binding {
    key: String,
    value: String,
}

impl Entry for Binding {
    type Value = Seq<char>;

    closed spec fn entry(&self) -> (Seq<char>, Seq<char>) {
        (self.key@, self.value@)
    }

    fn has_name(&self, name: &str) -> (r: bool) {
        same_text(self.key.as_str(), name)
    }
}

/// What a run of bindings comes to: a later binding of a name replaces an
/// earlier one.
pub closed spec fn bound(bindings: Seq<Binding>) -> Frame {
    last_wins(entries_of(bindings))
}

/// The variables of an expansion: a stack of frames, the innermost last.
/// A name is read from the innermost frame that declares it.
pub struct Store {
    frames: Vec<Vec<Binding>>,
}

impl View for Store {
    type V = Seq<Frame>;

    closed spec fn view(&self) -> Seq<Frame> {
        Seq::new(self.frames@.len(), |i: int| bound(self.frames@[i]@))
    }
}

impl Default for Store {
    fn default() -> (r: Self)
        ensures
            r@ == Seq::<Frame>::empty(),
    {
        Store::new()
    }
}

impl Store {
    /// A store without a frame.
    pub fn new() -> (r: Self)
        ensures
            r@ == Seq::<Frame>::empty(),
    {
        let store = Store { frames: Vec::new() };
        assert(store@ =~= Seq::<Frame>::empty());
        store
    }

    /// The number of frames.
    pub fn depth(&self) -> (r: usize)
        ensures
            r == self@.len(),
    {
        self.frames.len()
    }

    /// Opens a scope: an empty frame becomes the innermost.
    pub fn push_frame(&mut self)
        ensures
            final(self)@ == old(self)@.push(Map::<Seq<char>, Seq<char>>::empty()),
    {
        self.frames.push(Vec::new());
        assert(self@ =~= old(self)@.push(Map::<Seq<char>, Seq<char>>::empty()));
    }

    /// Closes the innermost scope, and says whether there was one.
    pub fn pop_frame(&mut self) -> (r: bool)
        ensures
            r == (old(self)@.len() > 0),
            r ==> final(self)@ == old(self)@.drop_last(),
            !r ==> final(self)@ == old(self)@,
    {
        match self.frames.pop() {
            Some(_) => {
                assert(self@ =~= old(self)@.drop_last());
                true
            },
            None => false,
        }
    }

    /// The value of `key`, where a frame declares it.
    pub fn get(&self, key: &str) -> (r: Option<String>)
        ensures
            match lookup(self@, key@) {
                Some(value) => r matches Some(found) && found@ == value,
                None => r is None,
            },
    {
        let mut depth: usize = self.frames.len();
        while depth > 0
            invariant
                depth <= self.frames.len(),
                forall|i: int| depth <= i < self@.len() ==> !self@[i].contains_key(key@),
            decreases depth,
        {
            depth = depth - 1;
            match last_position(&self.frames[depth], key) {
                Some(at) => {
                    proof {
                        lemma_nearest_unique(self@, key@, depth as int);
                    }
                    return Some(self.frames[depth][at].value.clone());
                },
                None => {},
            }
        }
        proof {
            lemma_nearest_unique(self@, key@, -1);
        }
        None
    }

    /// Declares `key` in the innermost frame, with `value`, and gives back
    /// what that frame held for it. Where there is no frame yet, one is
    /// made.
    pub fn insert(&mut self, key: String, value: String) -> (r: Option<String>)
        ensures
            final(self)@ == declare(old(self)@, key@, value@),
            match r {
                Some(previous) => {
                    &&& old(self)@.len() > 0
                    &&& old(self)@.last().contains_key(key@)
                    &&& old(self)@.last()[key@] == previous@
                },
                None => old(self)@.len() == 0 || !old(self)@.last().contains_key(key@),
            },
    {
        if self.frames.len() == 0 {
            self.frames.push(Vec::new());
        }
        let innermost = self.frames.len() - 1;
        let ghost bindings = self.frames@[innermost as int]@;
        match last_position(&self.frames[innermost], key.as_str()) {
            Some(at) => {
                let mut binding = Binding { key, value };
                proof {
                    lemma_update(entries_of(bindings), at as int, value@);
                    assert(entries_of(bindings.update(at as int, binding)) =~= entries_of(
                        bindings,
                    ).update(at as int, (key@, value@)));
                }
                std::mem::swap(&mut self.frames[innermost][at], &mut binding);
                assert(self@ =~= declare(old(self)@, key@, value@));
                Some(binding.value)
            },
            None => {
                let binding = Binding { key, value };
                proof {
                    lemma_push(entries_of(bindings), (key@, value@));
                    assert(entries_of(bindings.push(binding)) =~= entries_of(bindings).push(
                        (key@, value@),
                    ));
                }
                self.frames[innermost].push(binding);
                assert(self@ =~= declare(old(self)@, key@, value@));
                None
            },
        }
    }

    /// Declares `key` in the innermost frame, with `value`, whatever outer
    /// frames hold for it.
    pub fn decl(&mut self, key: String, value: String)
        ensures
            final(self)@ == declare(old(self)@, key@, value@),
    {
        let _ = self.insert(key, value);
    }

    /// Gives `key` the value `value` in the innermost frame that declares
    /// it. Where no frame does, declares it in the innermost.
    pub fn set(&mut self, key: String, value: String)
        ensures
            final(self)@ == assign(old(self)@, key@, value@),
    {
        let mut depth: usize = self.frames.len();
        while depth > 0
            invariant
                self@ == old(self)@,
                depth <= self.frames.len(),
                forall|i: int| depth <= i < self@.len() ==> !self@[i].contains_key(key@),
            decreases depth,
        {
            depth = depth - 1;
            match last_position(&self.frames[depth], key.as_str()) {
                Some(at) => {
                    let ghost bindings = self.frames@[depth as int]@;
                    let binding = Binding { key, value };
                    proof {
                        lemma_nearest_unique(self@, key@, depth as int);
                        lemma_update(entries_of(bindings), at as int, value@);
                        assert(entries_of(bindings.update(at as int, binding)) =~= entries_of(
                            bindings,
                        ).update(at as int, (key@, value@)));
                    }
                    self.frames[depth][at] = binding;
                    assert(self@ =~= assign(old(self)@, key@, value@));
                    return ;
                },
                None => {},
            }
        }
        proof {
            lemma_nearest_unique(self@, key@, -1);
        }
        self.decl(key, value);
    }
}

} // verus!
