//! The input history of the interactive shell.
use crate::text::{trim, trimmed};
use vstd::prelude::*;

verus! {

/// The lines entered so far, and the line being entered.
pub struct InputHistory {
    history: Vec<String>,
    current: String,
    current_index: usize,
}

impl InputHistory {
    /// The lines entered so far, oldest first.
    pub closed spec fn entries(&self) -> Seq<Seq<char>> {
        self.history@.map_values(|line: String| line@)
    }

    /// The line being entered.
    pub closed spec fn current(&self) -> Seq<char> {
        self.current@
    }

    /// The index in the history that browsing starts from.
    pub closed spec fn current_index(&self) -> nat {
        self.current_index as nat
    }

    pub fn new() -> (r: Self)
        ensures
            r.entries() == Seq::<Seq<char>>::empty(),
            r.current() == Seq::<char>::empty(),
            r.current_index() == 0,
    {
        let r = Self { history: Vec::new(), current: String::new(), current_index: 0 };
        assert(r.entries() =~= Seq::<Seq<char>>::empty());
        r
    }

    /// Starts a new line: clears the line being entered and hands it out to
    /// be written to.
    pub fn push(&mut self) -> (r: &mut String)
        ensures
            r@ == Seq::<char>::empty(),
            final(self).current() == final(r)@,
            final(self).entries() == old(self).entries(),
            final(self).current_index() == old(self).current_index(),
    {
        self.current = String::new();
        &mut self.current
    }

    /// Ends the line: the line without white space at either end is added to
    /// the history, browsing starts after it, and it is returned.
    pub fn get(&mut self) -> (r: &str)
        ensures
            r@ == trimmed(old(self).current()),
            final(self).current() == trimmed(old(self).current()),
            final(self).entries() == old(self).entries().push(trimmed(old(self).current())),
            final(self).current_index() == final(self).entries().len(),
    {
        // remove trailing newline character
        self.current = trim(self.current.as_str());
        let ghost before = self.history@;
        self.history.push(self.current.clone());
        self.current_index = self.history.len();
        assert(self.history@.map_values(|line: String| line@) =~= before.map_values(
            |line: String| line@,
        ).push(self.current@));
        self.current.as_str()
    }
}

} // verus!
