//! Session state for the read-eval-print loop: the command history, and
//! the decision that ends an interactive session.
//!
//! The history is an append-only list of the lines entered, with a cursor
//! for up/down recall.  Recall is best-effort: it never affects evaluation.

use vstd::prelude::*;

verus! {

/// A layout character of a session line: space, tab, carriage return or
/// newline.
pub open spec fn is_layout_char(c: char) -> bool {
    c == ' ' || c == '\t' || c == '\r' || c == '\n'
}

/// The first position at or after `pos` whose character is not layout.
pub open spec fn layout_prefix_end(s: Seq<char>, pos: int) -> int
    decreases s.len() - pos,
{
    if 0 <= pos < s.len() && is_layout_char(s[pos]) {
        layout_prefix_end(s, pos + 1)
    } else {
        pos
    }
}

/// One past the last non-layout character before `pos`.
pub open spec fn layout_suffix_start(s: Seq<char>, pos: int) -> int
    decreases pos,
{
    if 0 < pos <= s.len() && is_layout_char(s[pos - 1]) {
        layout_suffix_start(s, pos - 1)
    } else {
        pos
    }
}

/// The line with its leading and trailing layout stripped.
pub open spec fn spec_trim_layout(s: Seq<char>) -> Seq<char> {
    let b = layout_prefix_end(s, 0);
    let e = layout_suffix_start(s, s.len() as int);
    if b <= e {
        s.subrange(b, e)
    } else {
        Seq::empty()
    }
}

/// The word that ends an interactive session.
pub open spec fn spec_exit_word() -> Seq<char> {
    seq!['e', 'x', 'i', 't']
}

/// Whether a session line, its surrounding layout aside, is the `exit`
/// command that ends an interactive session.
#[verifier::loop_isolation(false)]
pub fn is_exit_command(line: &str) -> (r: bool)
    ensures
        r == (spec_trim_layout(line@) == spec_exit_word()),
{
    let ghost s = line@;
    let chars = crate::tokenizer::str_to_chars(line);
    let n = chars.len();
    let mut b: usize = 0;
    while b < n && layout_char(chars[b])
        invariant
            b <= n,
            n == s.len(),
            chars@ == s,
            layout_prefix_end(s, 0) == layout_prefix_end(s, b as int),
        decreases n - b,
    {
        b += 1;
    }
    if b == n {
        // Nothing but layout: the trimmed line is empty.
        proof {
            lemma_layout_suffix_bounds(s, n as int);
            assert(spec_trim_layout(s).len() == 0);
        }
        return false;
    }
    let mut e: usize = n;
    while e > 0 && layout_char(chars[e - 1])
        invariant
            b < e <= n,
            n == s.len(),
            chars@ == s,
            !is_layout_char(s[b as int]),
            layout_suffix_start(s, n as int) == layout_suffix_start(s, e as int),
        decreases e,
    {
        e -= 1;
    }
    proof {
        assert(spec_trim_layout(s) =~= s.subrange(b as int, e as int));
    }
    if e - b == 4 && chars[b] == 'e' && chars[b + 1] == 'x' && chars[b + 2] == 'i' && chars[b + 3]
        == 't' {
        proof {
            assert(s.subrange(b as int, e as int) =~= spec_exit_word());
        }
        true
    } else {
        proof {
            if s.subrange(b as int, e as int) == spec_exit_word() {
                assert(s.subrange(b as int, e as int)[0] == 'e');
                assert(s.subrange(b as int, e as int)[1] == 'x');
                assert(s.subrange(b as int, e as int)[2] == 'i');
                assert(s.subrange(b as int, e as int)[3] == 't');
            }
        }
        false
    }
}

/// A layout character, executably.
fn layout_char(c: char) -> (r: bool)
    ensures
        r == is_layout_char(c),
{
    c == ' ' || c == '\t' || c == '\r' || c == '\n'
}

/// The suffix scan never leaves the line.
proof fn lemma_layout_suffix_bounds(s: Seq<char>, pos: int)
    requires
        0 <= pos <= s.len(),
    ensures
        0 <= layout_suffix_start(s, pos) <= pos,
    decreases pos,
{
    if 0 < pos && is_layout_char(s[pos - 1]) {
        lemma_layout_suffix_bounds(s, pos - 1);
    }
}

/// The command history of one session.
#[derive(Debug)]
pub struct History {
    history: Vec<String>,
    history_index: usize,
}

impl History {
    /// The cursor never stands further than one past the last entry.
    pub closed spec fn wf(&self) -> bool {
        self.history_index <= self.history@.len()
    }

    /// The lines entered, oldest first.
    pub closed spec fn spec_entries(&self) -> Seq<Seq<char>> {
        self.history.deep_view()
    }

    /// The recall cursor.
    pub closed spec fn spec_cursor(&self) -> int {
        self.history_index as int
    }

    /// An empty history.
    pub fn new() -> (h: History)
        ensures
            h.wf(),
            h.spec_entries() == Seq::<Seq<char>>::empty(),
            h.spec_cursor() == 0,
    {
        let h = History { history: Vec::new(), history_index: 0 };
        proof {
            assert(h.spec_entries() =~= Seq::<Seq<char>>::empty());
        }
        h
    }

    /// Appends one line and puts the cursor just past it.
    pub fn add(&mut self, input: String)
        requires
            old(self).wf(),
        ensures
            final(self).wf(),
            final(self).spec_entries() == old(self).spec_entries().push(input@),
            final(self).spec_cursor() == final(self).spec_entries().len(),
    {
        let ghost before = self.history@;
        self.history.push(input);
        self.history_index = self.history.len();
        proof {
            assert(final(self).spec_entries() =~= old(self).spec_entries().push(input@));
        }
    }

    /// Moves the cursor one entry up (towards the oldest) and recalls the
    /// line there, if any.
    pub fn up(&mut self) -> (r: Option<String>)
        requires
            old(self).wf(),
        ensures
            final(self).wf(),
            final(self).spec_entries() == old(self).spec_entries(),
            final(self).spec_cursor() == if old(self).spec_cursor() > 0 {
                old(self).spec_cursor() - 1
            } else {
                0
            },
            match r {
                Some(line) => final(self).spec_cursor() < final(self).spec_entries().len()
                    && line@ == final(self).spec_entries()[final(self).spec_cursor()],
                None => final(self).spec_cursor() >= final(self).spec_entries().len(),
            },
    {
        if self.history_index > 0 {
            self.history_index = self.history_index - 1;
        }
        self.recall()
    }

    /// Moves the cursor one entry down (towards the newest) and recalls the
    /// line there, if any.
    pub fn down(&mut self) -> (r: Option<String>)
        requires
            old(self).wf(),
        ensures
            final(self).wf(),
            final(self).spec_entries() == old(self).spec_entries(),
            final(self).spec_cursor() == if old(self).spec_cursor() < old(
                self,
            ).spec_entries().len() {
                old(self).spec_cursor() + 1
            } else {
                old(self).spec_cursor()
            },
            match r {
                Some(line) => final(self).spec_cursor() < final(self).spec_entries().len()
                    && line@ == final(self).spec_entries()[final(self).spec_cursor()],
                None => final(self).spec_cursor() >= final(self).spec_entries().len(),
            },
    {
        if self.history_index < self.history.len() {
            self.history_index = self.history_index + 1;
        }
        self.recall()
    }

    /// The line under the cursor, if the cursor stands on one.
    fn recall(&self) -> (r: Option<String>)
        requires
            self.wf(),
        ensures
            match r {
                Some(line) => self.spec_cursor() < self.spec_entries().len() && line@
                    == self.spec_entries()[self.spec_cursor()],
                None => self.spec_cursor() >= self.spec_entries().len(),
            },
    {
        if self.history_index < self.history.len() {
            proof {
                assert(self.spec_entries()[self.spec_cursor()] == self.history@[
                    self.history_index as int
                ]@);
            }
            Some(self.history[self.history_index].clone())
        } else {
            None
        }
    }
}

} // verus!
