//! A to-do entry: a text and a completion flag.

use vstd::prelude::*;

verus! {

/// One to-do entry.
pub struct Todo {
    text: String,
    completed: bool,
}

impl Todo {
    /// The entry's text.
    pub closed spec fn spec_text(&self) -> Seq<char> {
        self.text@
    }

    /// Whether the entry is done.
    pub closed spec fn spec_completed(&self) -> bool {
        self.completed
    }

    /// A fresh, not yet completed entry.
    pub fn new(text: String) -> (t: Todo)
        ensures
            t.spec_text() == text@,
            !t.spec_completed(),
    {
        Todo { text, completed: false }
    }

    /// The entry's text.
    pub fn text(&self) -> (r: &str)
        ensures
            r@ == self.spec_text(),
    {
        self.text.as_str()
    }

    /// Whether the entry is done.
    pub fn is_completed(&self) -> (r: bool)
        ensures
            r == self.spec_completed(),
    {
        self.completed
    }

    /// Flips the completion flag.
    pub fn toggle(&mut self)
        ensures
            final(self).spec_completed() == !old(self).spec_completed(),
            final(self).spec_text() == old(self).spec_text(),
    {
        self.completed = !self.completed;
    }

    /// Replaces the entry's text.
    pub fn set_text(&mut self, text: String)
        ensures
            final(self).spec_text() == text@,
            final(self).spec_completed() == old(self).spec_completed(),
    {
        self.text = text;
    }
}

} // verus!
