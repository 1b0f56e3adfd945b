//! A singly linked list whose nodes are each owned by their predecessor.
use vstd::prelude::*;

verus! {

/// An owning link to the rest of a chain.
pub type Link<T> = Option<Box<Node<T>>>;

/// One cell of a chain: an element and the link to its successor.
#[derive(PartialEq, Eq, Debug)]
pub struct Node<T> {
    pub elm: T,
    pub next: Link<T>,
}

/// The elements of a chain, head to tail.
pub open spec fn link_seq<T>(link: Link<T>) -> Seq<T>
    decreases link,
{
    match link {
        None => Seq::empty(),
        Some(node) => seq![node.elm] + link_seq(node.next),
    }
}

impl<T> Node<T> {
    /// A node holding `elm` with no successor.
    pub fn new(elm: T) -> (node: Self)
        ensures
            node.elm == elm,
            node.next.is_none(),
    {
        Self { elm, next: None }
    }
}

impl<T: Clone> Clone for Node<T> {
    /// A node with a clone of the element and of the whole rest of the chain.
    fn clone(&self) -> (r: Self)
        ensures
            node_seq(r).len() == node_seq(*self).len(),
            forall|i: int|
                0 <= i < node_seq(*self).len() ==> cloned::<T>(#[trigger] node_seq(*self)[i], node_seq(r)[i]),
        decreases self,
    {
        let elm = self.elm.clone();
        let next: Link<T> = match &self.next {
            None => None,
            Some(boxed) => Some(Box::new((**boxed).clone())),
        };
        let r = Node { elm, next };
        proof {
            assert forall|i: int| 0 <= i < node_seq(*self).len() implies cloned::<T>(
                #[trigger] node_seq(*self)[i],
                node_seq(r)[i],
            ) by {
                if i > 0 {
                    assert(node_seq(*self)[i] == link_seq(self.next)[i - 1]);
                    assert(node_seq(r)[i] == link_seq(r.next)[i - 1]);
                }
            }
        }
        r
    }
}

/// A mutable singly linked list; the list owns its head node.
pub struct LinkedList<T> {
    head: Link<T>,
}

impl<T> View for LinkedList<T> {
    type V = Seq<T>;

    /// The elements, head first.
    closed spec fn view(&self) -> Seq<T> {
        link_seq(self.head)
    }
}

impl<T> LinkedList<T> {
    /// An empty list.
    pub fn new() -> (list: Self)
        ensures
            list@ == Seq::<T>::empty(),
    {
        Self { head: None }
    }

    /// Puts `elm` in front of the current elements.
    pub fn push_front(&mut self, elm: T)
        ensures
            final(self)@ == seq![elm] + old(self)@,
    {
        let new_node = Box::new(Node { elm, next: self.head.take() });
        self.head = Some(new_node);
    }

    /// Removes and returns the first element, if any.
    pub fn pop_front(&mut self) -> (r: Option<T>)
        ensures
            old(self)@.len() == 0 ==> r.is_none() && final(self)@ == old(self)@,
            old(self)@.len() > 0 ==> r == Some(old(self)@[0]) && final(self)@ == old(self)@.drop_first(),
    {
        match self.head.take() {
            None => None,
            Some(node) => {
                let node = *node;
                proof {
                    assert(link_seq(Some(Box::new(node))).drop_first() =~= link_seq(node.next));
                }
                self.head = node.next;
                Some(node.elm)
            },
        }
    }

    /// The first element, left in place.
    pub fn peek(&self) -> (r: Option<&T>)
        ensures
            self@.len() == 0 ==> r.is_none(),
            self@.len() > 0 ==> r == Some(&self@[0]),
    {
        match &self.head {
            None => None,
            Some(node) => Some(&node.elm),
        }
    }

    /// Exclusive access to the first element; writes through it change the list's head.
    pub fn peek_mut(&mut self) -> (r: Option<&mut T>)
        ensures
            old(self)@.len() == 0 ==> r.is_none() && final(self)@ == old(self)@,
            old(self)@.len() > 0 ==> r.is_some() && *r.unwrap() == old(self)@[0]
                && final(self)@ == old(self)@.update(0, *final(r.unwrap())),
    {
        match &mut self.head {
            None => None,
            Some(node) => Some(&mut node.elm),
        }
    }

    /// Whether the list holds no element.
    pub fn is_empty(&self) -> (r: bool)
        ensures
            r == (self@.len() == 0),
    {
        self.head.is_none()
    }
}

/// The elements of a chain that starts at `node`, head to tail.
pub open spec fn node_seq<T>(node: Node<T>) -> Seq<T> {
    seq![node.elm] + link_seq(node.next)
}

/// Hands out the list's elements by value, emptying it.
pub struct IntoIter<T>(LinkedList<T>);

impl<T> View for IntoIter<T> {
    type V = Seq<T>;

    /// The elements still to come.
    closed spec fn view(&self) -> Seq<T> {
        self.0@
    }
}

impl<T> IntoIter<T> {
    /// The next element, removed from the list; nothing once it is empty.
    pub fn next(&mut self) -> (r: Option<T>)
        ensures
            old(self)@.len() == 0 ==> r.is_none() && final(self)@ == old(self)@,
            old(self)@.len() > 0 ==> r == Some(old(self)@[0]) && final(self)@ == old(self)@.drop_first(),
    {
        self.0.pop_front()
    }
}

/// Walks a list by shared reference.
pub struct Iter<'a, T> {
    next: Option<&'a Node<T>>,
}

impl<'a, T> View for Iter<'a, T> {
    type V = Seq<T>;

    /// The elements still to come.
    closed spec fn view(&self) -> Seq<T> {
        match self.next {
            None => Seq::empty(),
            Some(node) => node_seq(*node),
        }
    }
}

impl<'a, T> Iter<'a, T> {
    /// A reference to the next element; nothing once the walk is over.
    pub fn next(&mut self) -> (r: Option<&'a T>)
        ensures
            old(self)@.len() == 0 ==> r.is_none() && final(self)@ == old(self)@,
            old(self)@.len() > 0 ==> r == Some(&old(self)@[0]) && final(self)@ == old(self)@.drop_first(),
    {
        match self.next {
            None => None,
            Some(node) => {
                proof {
                    assert(node_seq(*node).drop_first() =~= link_seq(node.next));
                }
                self.next = match &node.next {
                    None => None,
                    Some(boxed) => Some(&**boxed),
                };
                Some(&node.elm)
            },
        }
    }
}

/// Walks a list handing out exclusive references to its elements.
pub struct IterMut<'a, T> {
    pub next: Option<&'a mut Node<T>>,
}

impl<'a, T> IterMut<'a, T> {
    /// The elements still to come, as they are now.
    pub open spec fn current(&self) -> Seq<T> {
        match self.next {
            None => Seq::empty(),
            Some(node) => node_seq(*node),
        }
    }
}

impl<'a, T> IterMut<'a, T> {
    /// An exclusive reference to the next element; nothing once the walk is
    /// over. What is written through it becomes that element of the list.
    pub fn next(&mut self) -> (r: Option<&'a mut T>)
        ensures
            old(self).current().len() == 0 ==> r.is_none() && final(self).next.is_none(),
            old(self).current().len() > 0 ==> {
                &&& r.is_some()
                &&& *r.unwrap() == old(self).current()[0]
                &&& final(self).current() == old(self).current().drop_first()
            },
            match old(self).next {
                None => true,
                Some(node) => node_seq(*final(node)) == seq![*final(r.unwrap())] + match final(self).next {
                    None => Seq::empty(),
                    Some(rest) => node_seq(*final(rest)),
                },
            },
    {
        match self.next.take() {
            None => None,
            Some(node) => {
                proof {
                    assert(node_seq(*node).drop_first() =~= link_seq(node.next));
                }
                self.next = match &mut node.next {
                    None => None,
                    Some(boxed) => Some(&mut **boxed),
                };
                Some(&mut node.elm)
            },
        }
    }
}

impl<T> LinkedList<T> {
    /// Consumes the list into a walk over its elements by value.
    pub fn into_iter(self) -> (it: IntoIter<T>)
        ensures
            it@ == self@,
    {
        IntoIter(self)
    }

    /// A walk over the elements by shared reference, head first.
    pub fn iter(&self) -> (it: Iter<'_, T>)
        ensures
            it@ == self@,
    {
        Iter {
            next: match &self.head {
                None => None,
                Some(boxed) => Some(&**boxed),
            },
        }
    }

    /// A walk over the elements by exclusive reference, head first; the list
    /// ends up holding whatever was written through the walk.
    pub fn iter_mut(&mut self) -> (it: IterMut<'_, T>)
        ensures
            it.current() == old(self)@,
            final(self)@ == (match it.next {
                None => Seq::empty(),
                Some(node) => node_seq(*final(node)),
            }),
    {
        IterMut {
            next: match &mut self.head {
                None => None,
                Some(boxed) => Some(&mut **boxed),
            },
        }
    }
}

/// The elements of a list that held `start` after `xs` were pushed to its
/// front, first to last.
pub open spec fn pushed_all<T>(start: Seq<T>, xs: Seq<T>) -> Seq<T>
    decreases xs.len(),
{
    if xs.len() == 0 {
        start
    } else {
        seq![xs.last()] + pushed_all(start, xs.drop_last())
    }
}

/// What `k` calls of `pop_front` hand back, in order, on a list of elements `s`.
pub open spec fn pops<T>(s: Seq<T>, k: nat) -> Seq<Option<T>>
    decreases k,
{
    if k == 0 {
        Seq::empty()
    } else if s.len() == 0 {
        seq![None] + pops(s, (k - 1) as nat)
    } else {
        seq![Some(s[0])] + pops(s.drop_first(), (k - 1) as nat)
    }
}

/// The elements left after `k` calls of `pop_front` on a list of elements `s`.
pub open spec fn after_pops<T>(s: Seq<T>, k: nat) -> Seq<T>
    decreases k,
{
    if k == 0 || s.len() == 0 {
        s
    } else {
        after_pops(s.drop_first(), (k - 1) as nat)
    }
}

proof fn lemma_pops<T>(s: Seq<T>, k: nat)
    ensures
        pops(s, k).len() == k,
        forall|i: int| 0 <= i < k ==> pops(s, k)[i] == (if i < s.len() { Some(s[i]) } else { None }),
        k <= s.len() ==> after_pops(s, k) == s.skip(k as int),
        k >= s.len() ==> after_pops(s, k).len() == 0,
    decreases k,
{
    if k > 0 {
        if s.len() == 0 {
            lemma_pops(s, (k - 1) as nat);
        } else {
            lemma_pops(s.drop_first(), (k - 1) as nat);
            if k <= s.len() {
                assert(s.drop_first().skip(k - 1) =~= s.skip(k as int));
            }
        }
    } else {
        assert(s.skip(0) =~= s);
    }
}

proof fn lemma_pushed_all<T>(start: Seq<T>, xs: Seq<T>)
    ensures
        pushed_all(start, xs) == xs.reverse() + start,
    decreases xs.len(),
{
    if xs.len() == 0 {
        assert(xs.reverse() + start =~= start);
    } else {
        lemma_pushed_all(start, xs.drop_last());
        assert(seq![xs.last()] + (xs.drop_last().reverse() + start) =~= xs.reverse() + start);
    }
}

/// Pushing `x1, ..., xn` to the front of an empty list and then popping
/// `n + 1` times hands back `xn, ..., x1` and then nothing.
pub proof fn lemma_pop_reverses_push<T>(xs: Seq<T>)
    ensures
        pops(pushed_all(Seq::empty(), xs), xs.len() + 1) == xs.reverse().map_values(|x: T| Some(x)) + seq![None::<T>],
{
    let s = pushed_all(Seq::empty(), xs);
    lemma_pushed_all(Seq::empty(), xs);
    assert(s =~= xs.reverse());
    lemma_pops(s, xs.len() + 1);
    assert(pops(s, xs.len() + 1) =~= xs.reverse().map_values(|x: T| Some(x)) + seq![None::<T>]);
}

/// While `x1, ..., xn` are pushed to an empty list, then popped again, the
/// list is empty exactly before the first push and once all `n` are popped.
pub proof fn lemma_empty_only_at_the_ends<T>(xs: Seq<T>, j: nat, k: nat)
    requires
        j <= xs.len(),
        k <= xs.len(),
    ensures
        (pushed_all(Seq::empty(), xs.take(j as int)).len() == 0) == (j == 0),
        (after_pops(pushed_all(Seq::empty(), xs), k).len() == 0) == (k == xs.len()),
{
    lemma_pushed_all(Seq::empty(), xs.take(j as int));
    lemma_pushed_all(Seq::empty(), xs);
    lemma_pops(pushed_all(Seq::empty(), xs), k);
}

/// A call on a list, for stating what a run of calls does.
pub enum ListCall<T> {
    PushFront(T),
    PopFront,
    Peek,
}

/// The elements of a list of elements `s` after `call`, as the contracts of
/// `push_front`, `pop_front` and `peek` give them.
pub open spec fn after_call<T>(s: Seq<T>, call: ListCall<T>) -> Seq<T> {
    match call {
        ListCall::PushFront(x) => seq![x] + s,
        ListCall::PopFront => if s.len() == 0 { s } else { s.drop_first() },
        ListCall::Peek => s,
    }
}

/// The element that `pop_front` or `peek` gives on a list of elements `s`.
pub open spec fn front<T>(s: Seq<T>) -> Option<T> {
    if s.len() == 0 { None } else { Some(s[0]) }
}

/// The elements after the calls `calls`, made in order on a list of elements `s`.
pub open spec fn after_calls<T>(s: Seq<T>, calls: Seq<ListCall<T>>) -> Seq<T>
    decreases calls.len(),
{
    if calls.len() == 0 {
        s
    } else {
        after_call(after_calls(s, calls.drop_last()), calls.last())
    }
}

/// What the calls of `pop_front` among `calls` hand back, in order.
pub open spec fn pop_results<T>(s: Seq<T>, calls: Seq<ListCall<T>>) -> Seq<Option<T>>
    decreases calls.len(),
{
    if calls.len() == 0 {
        Seq::empty()
    } else {
        let earlier = pop_results(s, calls.drop_last());
        match calls.last() {
            ListCall::PopFront => earlier.push(front(after_calls(s, calls.drop_last()))),
            _ => earlier,
        }
    }
}

/// `calls` with every `Peek` left out.
pub open spec fn without_peeks<T>(calls: Seq<ListCall<T>>) -> Seq<ListCall<T>>
    decreases calls.len(),
{
    if calls.len() == 0 {
        calls
    } else {
        match calls.last() {
            ListCall::Peek => without_peeks(calls.drop_last()),
            _ => without_peeks(calls.drop_last()).push(calls.last()),
        }
    }
}

/// How many of `calls` are pushes.
pub open spec fn push_count<T>(calls: Seq<ListCall<T>>) -> nat
    decreases calls.len(),
{
    if calls.len() == 0 {
        0
    } else {
        push_count(calls.drop_last()) + match calls.last() {
            ListCall::PushFront(_) => 1nat,
            _ => 0nat,
        }
    }
}

/// How many of `results` hold an element.
pub open spec fn some_count<T>(results: Seq<Option<T>>) -> nat
    decreases results.len(),
{
    if results.len() == 0 {
        0
    } else {
        some_count(results.drop_last()) + if results.last() is Some { 1nat } else { 0nat }
    }
}

/// Peeking changes nothing: two peeks in a row see the same element, and
/// any run of pushes, pops and peeks leaves the same elements and has its
/// pops hand back the same results as the run with the peeks left out.
pub proof fn lemma_peek_changes_nothing<T>(s: Seq<T>, calls: Seq<ListCall<T>>)
    ensures
        after_call(s, ListCall::Peek) == s,
        after_calls(s, calls) == after_calls(s, without_peeks(calls)),
        pop_results(s, calls) == pop_results(s, without_peeks(calls)),
    decreases calls.len(),
{
    if calls.len() > 0 {
        lemma_peek_changes_nothing(s, calls.drop_last());
        match calls.last() {
            ListCall::Peek => {},
            _ => {
                let w = without_peeks(calls.drop_last());
                assert(w.push(calls.last()).drop_last() =~= w);
            },
        }
    }
}

/// Over any run of pushes, pops and peeks on a list, the length is the
/// starting length plus the pushes less the pops that handed back an
/// element; so a list that started empty is empty exactly when every pushed
/// element has been popped again.
pub proof fn lemma_empty_tracks_pushes_and_pops<T>(s: Seq<T>, calls: Seq<ListCall<T>>)
    ensures
        after_calls(s, calls).len() + some_count(pop_results(s, calls)) == s.len() + push_count(calls),
        s.len() == 0 ==> ((after_calls(s, calls).len() == 0) == (push_count(calls) == some_count(
            pop_results(s, calls),
        ))),
    decreases calls.len(),
{
    if calls.len() > 0 {
        lemma_empty_tracks_pushes_and_pops(s, calls.drop_last());
        let earlier = pop_results(s, calls.drop_last());
        match calls.last() {
            ListCall::PopFront => {
                let r = front(after_calls(s, calls.drop_last()));
                assert(earlier.push(r).drop_last() =~= earlier);
            },
            _ => {},
        }
    }
}

impl<T> Drop for LinkedList<T> {
    /// Releases the chain one node at a time, detaching each node's successor
    /// before the node goes, so that a long list is not torn down by one nested
    /// call per node.
    fn drop(&mut self)
        ensures
            final(self)@.len() == 0,
        opens_invariants none
        no_unwind
    {
        let mut curr_link: Link<T> = None;
        core::mem::swap(&mut self.head, &mut curr_link);
        loop
            decreases link_seq(curr_link).len(),
        {
            match curr_link {
                None => break,
                Some(node) => {
                    let mut node = node;
                    let mut next: Link<T> = None;
                    core::mem::swap(&mut node.next, &mut next);
                    curr_link = next;
                },
            }
        }
    }
}

} // verus!
