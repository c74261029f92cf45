//! The handler registry: which handler runs the tasks of which type.

use vstd::hash_map::StringHashMap;
use vstd::prelude::*;

verus! {

/// The registered handlers by task type. A handler is whatever the host
/// hands in; the registry stores it and gives it back, and never calls it.
#[verifier::reject_recursive_types(H)]
pub struct HandlerRegistry<H> {
    handlers: StringHashMap<H>,
}

impl<H> View for HandlerRegistry<H> {
    type V = Map<Seq<char>, H>;

    closed spec fn view(&self) -> Map<Seq<char>, H> {
        self.handlers@
    }
}

impl<H> HandlerRegistry<H> {
    /// A registry without handlers.
    pub fn new() -> (registry: HandlerRegistry<H>)
        ensures
            registry@ == Map::<Seq<char>, H>::empty(),
    {
        HandlerRegistry { handlers: StringHashMap::new() }
    }

    /// Registers `handler` for the tasks of type `task_type`. A handler that
    /// was registered for the same type before is forgotten.
    pub fn register(&mut self, task_type: &str, handler: H)
        ensures
            final(self)@ == old(self)@.insert(task_type@, handler),
    {
        self.handlers.insert(task_type.to_owned(), handler);
    }

    /// The handler registered for the tasks of type `task_type`, if any.
    pub fn lookup<'a>(&'a self, task_type: &str) -> (found: Option<&'a H>)
        ensures
            match found {
                Some(handler) => self@.contains_key(task_type@) && *handler == self@[task_type@],
                None => !self@.contains_key(task_type@),
            },
    {
        self.handlers.get(task_type)
    }

    /// Registers every handler of `other`. Where both registries have a
    /// handler for a type, the one of `other` stays.
    pub fn register_all(&mut self, other: HandlerRegistry<H>)
        ensures
            final(self)@ == old(self)@.union_prefer_right(other@),
    {
        self.handlers.union_prefer_right(other.handlers);
    }
}

} // verus!
