//! The parser stack: the ordered record of which syntactic contexts are open.
//!
//! The engine never recurses; the depth of nesting lives entirely in a value
//! implementing [`Stack`].  A fixed-capacity implementation, [`ConstStack`],
//! rejects pushes beyond its bound, defending against unbounded-nesting
//! denial of service; the growable `Vec<State>` implementation has no bound.

use vstd::prelude::*;

use crate::StackError;

verus! {

/// An item within the stack, representing the state during deserialization.
#[derive(Clone, Copy, Debug, PartialEq, Eq, Structural)]
pub enum State {
    /// Corresponds to `{`, used for representing objects.
    Object,
    /// Corresponds to `[`, used for representing arrays.
    Array,
    /// An unknown item is being read.
    Unknown,
}

/// A trait representing a stack of parser states.
///
/// The contract is stated over [`Stack::states`], the mathematical sequence of
/// entries from bottom to top.  An implementation is free to refuse a push
/// (a fixed-capacity stack does so at its bound) but must say so, leaving the
/// contents unchanged.
pub trait Stack: Sized {
    /// The entries currently on the stack, bottom first.
    spec fn states(&self) -> Seq<State>;

    /// Whether a push onto the given contents is admitted: a fixed-capacity
    /// stack refuses at its bound, an unbounded one never.
    spec fn can_push(st: Seq<State>) -> bool;

    /// Create an empty stack.
    fn empty() -> (s: Self)
        ensures
            s.states() == Seq::<State>::empty(),
    ;

    /// The current stack depth.
    fn depth(&self) -> (r: usize)
        ensures
            r == self.states().len(),
    ;

    /// Peek at the current item on the stack.
    fn peek(&self) -> (r: Option<State>)
        ensures
            match r {
                Some(s) => self.states().len() > 0 && s == self.states().last(),
                None => self.states().len() == 0,
            },
    ;

    /// Pop the next item from the stack.
    fn pop(&mut self) -> (r: Option<State>)
        ensures
            match r {
                Some(s) => {
                    &&& old(self).states().len() > 0
                    &&& s == old(self).states().last()
                    &&& final(self).states() == old(self).states().drop_last()
                },
                None => {
                    &&& old(self).states().len() == 0
                    &&& final(self).states() == old(self).states()
                },
            },
    ;

    /// Push an item onto the stack.
    ///
    /// Succeeds exactly when a push onto the current contents is admitted.
    fn push(&mut self, item: State) -> (r: Result<(), StackError>)
        ensures
            match r {
                Ok(()) => {
                    &&& final(self).states() == old(self).states().push(item)
                    &&& Self::can_push(old(self).states())
                },
                Err(e) => {
                    &&& final(self).states() == old(self).states()
                    &&& !Self::can_push(old(self).states())
                    &&& e == StackError::StackTooDeep
                },
            },
    ;
}

/// A bounded, non-allocating-in-spirit `Stack`.
///
/// The capacity is four entries for each unit of `QUARTER_DEPTH`, following a
/// packed layout of two bits per entry; this implementation stores the entries
/// as plain tagged values, a substitute with the same observable behaviour.
pub struct ConstStack<const QUARTER_DEPTH: usize> {
    items: Vec<State>,
}

impl<const QUARTER_DEPTH: usize> ConstStack<QUARTER_DEPTH> {
    /// The depth bound: every stack built from `empty` by pushes and pops
    /// stays within it — `empty` starts there, a refused push changes
    /// nothing, an accepted push stays within it, and a pop only shrinks —
    /// so a refused push happens at exactly the capacity.
    pub open spec fn within_capacity(&self) -> bool {
        self.states().len() <= 4 * QUARTER_DEPTH
    }
}

impl<const QUARTER_DEPTH: usize> Stack for ConstStack<QUARTER_DEPTH> {
    closed spec fn states(&self) -> Seq<State> {
        self.items@
    }

    open spec fn can_push(st: Seq<State>) -> bool {
        st.len() < 4 * QUARTER_DEPTH
    }

    fn empty() -> (s: Self)
        ensures
            s.states() == Seq::<State>::empty(),
    {
        ConstStack { items: Vec::new() }
    }

    fn depth(&self) -> (r: usize)
        ensures
            r == self.states().len(),
    {
        self.items.len()
    }

    fn peek(&self) -> (r: Option<State>)
        ensures
            match r {
                Some(s) => self.states().len() > 0 && s == self.states().last(),
                None => self.states().len() == 0,
            },
    {
        if self.items.len() == 0 {
            None
        } else {
            Some(self.items[self.items.len() - 1])
        }
    }

    fn pop(&mut self) -> (r: Option<State>)
        ensures
            match r {
                Some(s) => {
                    &&& old(self).states().len() > 0
                    &&& s == old(self).states().last()
                    &&& final(self).states() == old(self).states().drop_last()
                },
                None => {
                    &&& old(self).states().len() == 0
                    &&& final(self).states() == old(self).states()
                },
            },
    {
        self.items.pop()
    }

    /// Pushing fails with [`StackError::StackTooDeep`] exactly when the stack
    /// already holds four entries per unit of capacity: deeper nesting is
    /// reported as an error, never a crash.
    fn push(&mut self, item: State) -> (r: Result<(), StackError>)
        ensures
            match r {
                Ok(()) => {
                    &&& final(self).states() == old(self).states().push(item)
                    &&& old(self).states().len() < 4 * QUARTER_DEPTH
                    &&& final(self).within_capacity()
                },
                Err(e) => {
                    &&& final(self).states() == old(self).states()
                    &&& old(self).states().len() >= 4 * QUARTER_DEPTH
                    &&& e == StackError::StackTooDeep
                },
            },
    {
        // Depth never exceeds the capacity, so comparing the quotient avoids
        // computing `4 * QUARTER_DEPTH`, which could overflow.
        if self.items.len() / 4 >= QUARTER_DEPTH {
            Err(StackError::StackTooDeep)
        } else {
            self.items.push(item);
            Ok(())
        }
    }
}

/// An unbounded `Stack` premised on the allocating `Vec`.
///
/// This allows serializations to use an unbounded amount of memory to
/// represent objects of arbitrary depth.  It is here solely to offer complete
/// support for all possible serializations compliant with RFC 8259; pushing
/// never fails.
pub struct GrowStack {
    items: Vec<State>,
}

impl Stack for GrowStack {
    closed spec fn states(&self) -> Seq<State> {
        self.items@
    }

    open spec fn can_push(st: Seq<State>) -> bool {
        true
    }

    fn empty() -> (s: Self)
        ensures
            s.states() == Seq::<State>::empty(),
    {
        GrowStack { items: Vec::new() }
    }

    fn depth(&self) -> (r: usize)
        ensures
            r == self.states().len(),
    {
        self.items.len()
    }

    fn peek(&self) -> (r: Option<State>)
        ensures
            match r {
                Some(s) => self.states().len() > 0 && s == self.states().last(),
                None => self.states().len() == 0,
            },
    {
        if self.items.len() == 0 {
            None
        } else {
            Some(self.items[self.items.len() - 1])
        }
    }

    fn pop(&mut self) -> (r: Option<State>)
        ensures
            match r {
                Some(s) => {
                    &&& old(self).states().len() > 0
                    &&& s == old(self).states().last()
                    &&& final(self).states() == old(self).states().drop_last()
                },
                None => {
                    &&& old(self).states().len() == 0
                    &&& final(self).states() == old(self).states()
                },
            },
    {
        self.items.pop()
    }

    /// Pushing never fails.
    fn push(&mut self, item: State) -> (r: Result<(), StackError>)
        ensures
            r == Ok::<(), StackError>(()),
            final(self).states() == old(self).states().push(item),
    {
        self.items.push(item);
        Ok(())
    }
}

} // verus!
