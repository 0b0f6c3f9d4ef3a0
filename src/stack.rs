//! A growable LIFO container.
//!
//! Items are pushed on top and popped from the top. The stack keeps a
//! logical capacity that grows by a fixed increment each time a push finds
//! it exhausted.

use vstd::prelude::*;

verus! {

/// How far the capacity grows each time a push finds the stack full.
pub const GROWTH_INCREMENT: usize = 32;

/// What a pop (or a peek) hands out for the given contents: the top item,
/// or nothing when the stack is empty.
pub open spec fn top_of<T>(s: Seq<T>) -> Option<T> {
    if s.len() == 0 {
        None
    } else {
        Some(s.last())
    }
}

/// The contents left after a pop: the top item removed, or the same empty
/// contents.
pub open spec fn after_pop<T>(s: Seq<T>) -> Seq<T> {
    if s.len() == 0 {
        s
    } else {
        s.drop_last()
    }
}

/// The contents after pushing each of `vals` in order.
pub open spec fn push_all<T>(s: Seq<T>, vals: Seq<T>) -> Seq<T>
    decreases vals.len(),
{
    if vals.len() == 0 {
        s
    } else {
        push_all(s, vals.drop_last()).push(vals.last())
    }
}

/// What `n` pops in a row return, in the order they return it.
pub open spec fn pops<T>(s: Seq<T>, n: nat) -> Seq<Option<T>>
    decreases n,
{
    if n == 0 {
        Seq::empty()
    } else {
        seq![top_of(s)] + pops(after_pop(s), (n - 1) as nat)
    }
}

/// The contents left after `n` pops in a row.
pub open spec fn after_pops<T>(s: Seq<T>, n: nat) -> Seq<T>
    decreases n,
{
    if n == 0 {
        s
    } else {
        after_pops(after_pop(s), (n - 1) as nat)
    }
}

/// Stack law: after any values are pushed onto a stack, as many pops return
/// them in exact reverse order of their pushes and leave the stack as it was
/// before; a pop on an empty stack returns `None` and changes nothing.
///
/// `push_all(s@, vals)` is the contents after `Stack::push` is called with
/// each of `vals` in turn (each call ends in `old@.push(v)`), and `pops` and
/// `after_pops` are what `n` calls of `Stack::pop` return and leave (each
/// call returns `top_of(old@)` and leaves `after_pop(old@)`). So the law
/// holds of every sequence of those calls.
pub proof fn lemma_lifo<T>(s: Seq<T>, vals: Seq<T>)
    ensures
        pops(push_all(s, vals), vals.len()).len() == vals.len(),
        forall|i: int|
            0 <= i < vals.len() ==> #[trigger] pops(push_all(s, vals), vals.len())[i] == Some(
                vals[vals.len() - 1 - i],
            ),
        after_pops(push_all(s, vals), vals.len()) == s,
        top_of(Seq::<T>::empty()) == None::<T>,
        after_pop(Seq::<T>::empty()) == Seq::<T>::empty(),
    decreases vals.len(),
{
    if vals.len() > 0 {
        let rest = vals.drop_last();
        let below = push_all(s, rest);
        lemma_lifo(s, rest);
        assert(push_all(s, vals) == below.push(vals.last()));
        assert(below.push(vals.last()).drop_last() == below);
        let n = (vals.len() - 1) as nat;
        assert(pops(push_all(s, vals), vals.len()) == seq![Some(vals.last())] + pops(below, n));
        assert forall|i: int| 0 <= i < vals.len() implies #[trigger] pops(
            push_all(s, vals),
            vals.len(),
        )[i] == Some(vals[vals.len() - 1 - i]) by {
            if i > 0 {
                assert(pops(below, n)[i - 1] == Some(rest[rest.len() - 1 - (i - 1)]));
            }
        }
    }
}

/// Data structure of type LIFO (last in, first out), growable in size.
#[derive(Debug)]
pub struct Stack<T> {
    items: Vec<T>,
    capacity: usize,
    increment: usize,
}

impl<T> View for Stack<T> {
    type V = Seq<T>;

    /// The items, bottom first: the top of the stack is the last one.
    closed spec fn view(&self) -> Seq<T> {
        self.items@
    }
}

impl<T> Stack<T> {
    /// Well-formed: the items fit in the capacity, and the capacity grows by a
    /// positive amount.
    pub closed spec fn wf(&self) -> bool {
        &&& self.items.len() <= self.capacity
        &&& self.increment > 0
    }

    /// The capacity the stack holds before it next has to grow.
    pub closed spec fn spec_cap(&self) -> nat {
        self.capacity as nat
    }

    /// The amount by which the capacity grows when the stack is full.
    pub closed spec fn spec_increment(&self) -> nat {
        self.increment as nat
    }

    /// A well-formed stack holds at most `usize::MAX` items.
    pub proof fn lemma_len_bounded(&self)
        requires
            self.wf(),
        ensures
            self@.len() <= usize::MAX,
    {
    }

    fn cap(&self) -> (r: usize)
        ensures
            r == self.spec_cap(),
    {
        self.capacity
    }

    /// Creates a new empty stack with no capacity reserved.
    pub fn new() -> (r: Self)
        ensures
            r@ == Seq::<T>::empty(),
            r.spec_cap() == 0,
            r.spec_increment() == GROWTH_INCREMENT,
            r.wf(),
    {
        Stack { items: Vec::new(), capacity: 0, increment: GROWTH_INCREMENT }
    }

    /// Creates an empty stack with room for `init_cap` items before it grows.
    pub fn with_capacity(init_cap: usize) -> (r: Self)
        requires
            init_cap as nat * vstd::layout::size_of::<T>() <= isize::MAX,
        ensures
            r@ == Seq::<T>::empty(),
            r.spec_cap() == init_cap,
            r.spec_increment() == GROWTH_INCREMENT,
            r.wf(),
    {
        Stack { items: Vec::with_capacity(init_cap), capacity: init_cap, increment: GROWTH_INCREMENT }
    }

    /// Creates an empty stack with room for `init_cap` items, whose capacity
    /// grows by `increment` each time it is exhausted.
    pub fn with_growth(init_cap: usize, increment: usize) -> (r: Self)
        requires
            init_cap as nat * vstd::layout::size_of::<T>() <= isize::MAX,
            increment > 0,
        ensures
            r@ == Seq::<T>::empty(),
            r.spec_cap() == init_cap,
            r.spec_increment() == increment,
            r.wf(),
    {
        Stack { items: Vec::with_capacity(init_cap), capacity: init_cap, increment }
    }

    /// The number of items on the stack.
    pub fn len(&self) -> (r: usize)
        ensures
            r == self@.len(),
    {
        self.items.len()
    }

    /// Inserts an element at the top of the stack, growing the capacity by
    /// the increment first when the stack is full.
    pub fn push(&mut self, elem: T)
        requires
            old(self).wf(),
            old(self)@.len() < usize::MAX,
        ensures
            final(self).wf(),
            final(self)@ == old(self)@.push(elem),
            final(self).spec_increment() == old(self).spec_increment(),
            old(self)@.len() < old(self).spec_cap() ==> final(self).spec_cap() == old(self).spec_cap(),
            old(self)@.len() == old(self).spec_cap() ==> final(self).spec_cap() == if old(
                self,
            ).spec_cap() + old(self).spec_increment() <= usize::MAX {
                old(self).spec_cap() + old(self).spec_increment()
            } else {
                usize::MAX as nat
            },
    {
        if self.items.len() == self.cap() {
            self.capacity = self.capacity.saturating_add(self.increment);
            // A reservation the allocator refuses leaves the items as they
            // are; the push below then grows the storage itself.
            let _ = self.items.try_reserve(self.increment);
        }
        self.items.push(elem);
    }

    /// Removes the top element and returns it, or returns `None` and leaves
    /// the stack as it is when it is empty.
    pub fn pop(&mut self) -> (r: Option<T>)
        requires
            old(self).wf(),
        ensures
            final(self).wf(),
            r == top_of(old(self)@),
            final(self)@ == after_pop(old(self)@),
            final(self).spec_cap() == old(self).spec_cap(),
            final(self).spec_increment() == old(self).spec_increment(),
    {
        self.items.pop()
    }

    /// A view of the top element, or `None` when the stack is empty.
    pub fn peek(&self) -> (r: Option<&T>)
        ensures
            r == (match top_of(self@) {
                Some(t) => Some(&t),
                None => None::<&T>,
            }),
    {
        let n = self.items.len();
        if n == 0 {
            None
        } else {
            Some(&self.items[n - 1])
        }
    }

    /// Returns `true` if the stack holds no elements.
    pub fn is_empty(&self) -> (r: bool)
        ensures
            r == (self@.len() == 0),
    {
        self.items.len() == 0
    }
}

} // verus!
