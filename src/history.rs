//! The session's history of commands, kept in the order they were entered.
use vstd::prelude::*;

verus! {

pub struct History {
    pub commands: Vec<String>,
}

impl History {
    pub fn new() -> (r: Self)
        ensures
            r.commands@.len() == 0,
    {
        Self { commands: Vec::new() }
    }

    pub fn append(&mut self, command: String)
        ensures
            final(self).commands@ == old(self).commands@.push(command),
    {
        self.commands.push(command);
    }

    /// Takes out the newest entry; entries come out newest first.
    pub fn next(&mut self) -> (r: Option<String>)
        ensures
            old(self).commands@.len() == 0 ==> r is None && final(self).commands@.len() == 0,
            old(self).commands@.len() > 0 ==> r == Some(old(self).commands@.last())
                && final(self).commands@ == old(self).commands@.drop_last(),
    {
        self.commands.pop()
    }
}

} // verus!
