//! Previously committed inputs, browsable newest first.

use vstd::prelude::*;

use crate::text::views;

verus! {

/// Committed inputs, newest first.  While the user browses (`current != 0`),
/// the front entry is a scratch slot that keeps the text being edited when
/// browsing started, so that the user can get back to it.
pub struct History {
    entries: Vec<String>,
    current: usize,
    /// The committed inputs, newest first, without the scratch slot.
    committed: Ghost<Seq<Seq<char>>>,
}

impl History {
    /// The scratch slot is there exactly while browsing, and `current` then
    /// points at a committed entry.
    pub closed spec fn wf(&self) -> bool {
        if self.current == 0 {
            views(self.entries@) == self.committed@
        } else {
            &&& self.entries@.len() >= 2
            &&& self.current < self.entries@.len()
            &&& views(self.entries@).skip(1) == self.committed@
        }
    }

    /// Index of the entry shown while browsing; `0` when not browsing.
    pub closed spec fn current(&self) -> nat {
        self.current as nat
    }

    /// The committed inputs, newest first.
    pub closed spec fn committed(&self) -> Seq<Seq<char>> {
        self.committed@
    }

    /// All entries, the scratch slot included while browsing.
    pub closed spec fn entries(&self) -> Seq<Seq<char>> {
        views(self.entries@)
    }

    /// The text kept in the scratch slot, if any.
    pub closed spec fn scratch(&self) -> Option<Seq<char>> {
        if self.current == 0 {
            None
        } else {
            Some(views(self.entries@)[0])
        }
    }

    pub fn new() -> (r: Self)
        ensures
            r.wf(),
            r.current() == 0,
            r.committed() == Seq::<Seq<char>>::empty(),
    {
        let r = History { entries: Vec::new(), current: 0, committed: Ghost(Seq::empty()) };
        assert(views(r.entries@) =~= Seq::<Seq<char>>::empty());
        r
    }

    /// Steps to an older entry and returns it.  On the first step the text
    /// being edited is kept in the scratch slot.  `current` never moves past
    /// the last but one entry.
    pub fn prev(&mut self, current: String) -> (r: String)
        requires
            old(self).wf(),
        ensures
            prev_step(*old(self), current@, *final(self), r@),
    {
        if self.entries.len() == 0 {
            return current;
        }
        if self.current == 0 {
            self.entries.insert(0, current);
            self.current = 1;
            assert(views(self.entries@).skip(1) =~= views(old(self).entries@));
        } else if self.current < self.entries.len() - 1 {
            self.current += 1;
        }
        self.entries[self.current].clone()
    }

    /// Steps to a newer entry and returns it.  Stepping past the newest
    /// committed entry ends browsing and returns the scratch slot's text.
    pub fn next(&mut self, current: String) -> (r: String)
        requires
            old(self).wf(),
        ensures
            next_step(*old(self), current@, *final(self), r@),
    {
        if self.current == 0 || self.entries.len() == 0 {
            return current;
        }
        if self.current == 1 {
            self.current = 0;
            let r = self.entries.remove(0);
            assert(views(self.entries@) =~= views(old(self).entries@).skip(1));
            r
        } else {
            self.current -= 1;
            self.entries[self.current].clone()
        }
    }

    /// Records a committed input as the newest entry and ends browsing,
    /// dropping the scratch slot.
    pub fn append(&mut self, input: String)
        requires
            old(self).wf(),
        ensures
            final(self).wf(),
            final(self).current() == 0,
            final(self).committed() == seq![input@] + old(self).committed(),
    {
        if self.current != 0 {
            let _ = self.entries.remove(0);
            self.current = 0;
            assert(views(self.entries@) =~= views(old(self).entries@).skip(1));
        }
        let ghost before = views(self.entries@);
        self.entries.insert(0, input);
        self.committed = Ghost(seq![input@] + old(self).committed@);
        assert(views(self.entries@) =~= seq![input@] + before);
    }
}

/// `h1` and `r` are what stepping back from `h0` gives, with `cur` the
/// text being edited.
pub open spec fn prev_step(h0: History, cur: Seq<char>, h1: History, r: Seq<char>) -> bool {
    &&& h1.wf()
    &&& h1.committed() == h0.committed()
    &&& h0.entries().len() == 0 ==> r == cur && h1 == h0
    &&& h0.entries().len() > 0 && h0.current() == 0 ==> {
        &&& h1.current() == 1
        &&& h1.scratch() == Some(cur)
        &&& r == h0.committed()[0]
    }
    &&& h0.current() != 0 ==> {
        &&& h1.current() == (if h0.current() + 1 < h0.entries().len() {
            h0.current() + 1
        } else {
            h0.current()
        })
        &&& h1.scratch() == h0.scratch()
        &&& r == h1.entries()[h1.current() as int]
    }
}

/// `h1` and `r` are what stepping forward from `h0` gives, with `cur` the
/// text being edited.
pub open spec fn next_step(h0: History, cur: Seq<char>, h1: History, r: Seq<char>) -> bool {
    &&& h1.wf()
    &&& h1.committed() == h0.committed()
    &&& h0.current() == 0 ==> r == cur && h1 == h0
    &&& h0.current() == 1 ==> h1.current() == 0 && Some(r) == h0.scratch()
    &&& h0.current() > 1 ==> {
        &&& h1.current() == h0.current() - 1
        &&& h1.scratch() == h0.scratch()
        &&& r == h1.entries()[h1.current() as int]
    }
}

/// The scratch slot is there exactly while browsing; while browsing the
/// entries are the scratch slot followed by the committed inputs, and
/// outside browsing they are the committed inputs.
pub proof fn lemma_scratch_iff_browsing(h: History)
    requires
        h.wf(),
    ensures
        h.scratch() is Some <==> h.current() != 0,
        h.current() == 0 ==> h.entries() == h.committed(),
        h.current() != 0 ==> h.entries().len() == h.committed().len() + 1 && h.current() < h.entries().len(),
        h.current() != 0 ==> h.entries() == seq![h.scratch()->0] + h.committed(),
{
    if h.current() != 0 {
        assert(views(h.entries@).skip(1).len() == views(h.entries@).len() - 1);
        assert(views(h.entries@) =~= seq![views(h.entries@)[0]] + views(h.entries@).skip(1));
    }
}

} // verus!
