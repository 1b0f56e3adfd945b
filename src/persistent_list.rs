//! An immutable singly linked list whose values share common suffixes.
use std::rc::Rc;
use vstd::prelude::*;

verus! {

/// Relies on `Rc::clone`: the new handle points at the same allocation, so it
/// holds the same value; no value is copied.
#[verifier::external_body]
fn rc_clone<T>(rc: &Rc<T>) -> (r: Rc<T>)
    ensures
        r == *rc,
{
    Rc::clone(rc)
}

/// Relies on `Rc::try_unwrap`: it hands back the value when the handle is the
/// only strong one, and the handle itself otherwise. It only compares the
/// reference count, so it does not unwind and can run during a drop.
#[verifier::external_body]
fn rc_try_unwrap<T>(rc: Rc<T>) -> (r: Result<T, Rc<T>>)
    ensures
        match r {
            Ok(t) => t == rc,
            Err(e) => e == rc,
        },
    opens_invariants none
    no_unwind
{
    Rc::try_unwrap(rc)
}

/// A shared link to the rest of a chain.
pub type Link<T> = Option<Rc<Node<T>>>;

/// One cell of a chain: an element and a shared link to its successor.
#[derive(PartialEq, Eq, Clone, Debug)]
pub struct Node<T> {
    pub elm: T,
    pub next: Link<T>,
}

/// The elements of a chain, head to tail.
pub open spec fn link_seq<T>(link: Link<T>) -> Seq<T>
    decreases link,
{
    match link {
        None => Seq::empty(),
        Some(node) => seq![node.elm] + link_seq(node.next),
    }
}

impl<T> Node<T> {
    /// A node holding `elm` with no successor.
    pub fn new(elm: T) -> (node: Self)
        ensures
            node.elm == elm,
            node.next.is_none(),
    {
        Self { elm, next: None }
    }
}

/// A persistent list: a handle on a chain that other lists may share.
pub struct PersistentList<T> {
    head: Link<T>,
}

impl<T> View for PersistentList<T> {
    type V = Seq<T>;

    /// The elements, head first.
    closed spec fn view(&self) -> Seq<T> {
        link_seq(self.head)
    }
}

/// Another handle on the same chain.
fn share<T>(link: &Link<T>) -> (r: Link<T>)
    ensures
        r == *link,
{
    match link {
        None => None,
        Some(node) => Some(rc_clone(node)),
    }
}

impl<T> PersistentList<T> {
    /// An empty list.
    pub fn new() -> (list: Self)
        ensures
            list@ == Seq::<T>::empty(),
    {
        Self { head: None }
    }

    /// A new list of `elm` followed by this list's elements, sharing this
    /// list's chain; `self` is left as it was.
    pub fn prepend(&self, elm: T) -> (list: Self)
        ensures
            list@ == seq![elm] + self@,
    {
        let new_node = Rc::new(Node { elm, next: share(&self.head) });
        Self { head: Some(new_node) }
    }

    /// The list without its first element, sharing the rest of the chain; the
    /// tail of an empty list is empty.
    pub fn tail(&self) -> (list: Self)
        ensures
            self@.len() == 0 ==> list@ == self@,
            self@.len() > 0 ==> list@ == self@.drop_first(),
    {
        match &self.head {
            None => Self { head: None },
            Some(node) => {
                proof {
                    assert(link_seq(self.head).drop_first() =~= link_seq(node.next));
                }
                Self { head: share(&node.next) }
            },
        }
    }

    /// The first element, if any.
    pub fn head(&self) -> (r: Option<&T>)
        ensures
            self@.len() == 0 ==> r.is_none(),
            self@.len() > 0 ==> r == Some(&self@[0]),
    {
        match &self.head {
            None => None,
            Some(node) => Some(&node.elm),
        }
    }

    /// Whether the list holds no element.
    pub fn is_empty(&self) -> (r: bool)
        ensures
            r == (self@.len() == 0),
    {
        self.head.is_none()
    }
}

/// The elements of a chain that starts at `node`, head to tail.
pub open spec fn node_seq<T>(node: Node<T>) -> Seq<T> {
    seq![node.elm] + link_seq(node.next)
}

/// Walks a persistent list by shared reference.
pub struct Iter<'a, T> {
    next: Option<&'a Node<T>>,
}

impl<'a, T> View for Iter<'a, T> {
    type V = Seq<T>;

    /// The elements still to come.
    closed spec fn view(&self) -> Seq<T> {
        match self.next {
            None => Seq::empty(),
            Some(node) => node_seq(*node),
        }
    }
}

impl<'a, T> Iter<'a, T> {
    /// A reference to the next element; nothing once the walk is over.
    pub fn next(&mut self) -> (r: Option<&'a T>)
        ensures
            old(self)@.len() == 0 ==> r.is_none() && final(self)@ == old(self)@,
            old(self)@.len() > 0 ==> r == Some(&old(self)@[0]) && final(self)@ == old(self)@.drop_first(),
    {
        match self.next {
            None => None,
            Some(node) => {
                proof {
                    assert(node_seq(*node).drop_first() =~= link_seq(node.next));
                }
                self.next = match &node.next {
                    None => None,
                    Some(rc) => Some(&**rc),
                };
                Some(&node.elm)
            },
        }
    }
}

impl<T> PersistentList<T> {
    /// A walk over the elements by shared reference, head first.
    pub fn iter(&self) -> (it: Iter<'_, T>)
        ensures
            it@ == self@,
    {
        Iter {
            next: match &self.head {
                None => None,
                Some(rc) => Some(&**rc),
            },
        }
    }
}

/// Two lists made by prepending different elements to one list both have
/// that list's elements as their tail.
pub proof fn lemma_prepend_shares_suffix<T>(list: Seq<T>, x: T, y: T)
    ensures
        (seq![x] + list).drop_first() == list,
        (seq![y] + list).drop_first() == list,
        (seq![x] + list).drop_first() == (seq![y] + list).drop_first(),
{
    assert((seq![x] + list).drop_first() =~= list);
    assert((seq![y] + list).drop_first() =~= list);
}

/// Releases a chain node by node while the chain holds the only handle on
/// the next node, and stops at the first node that is still shared.
fn release_chain<T>(link: &mut Link<T>)
    ensures
        final(link).is_none(),
    opens_invariants none
    no_unwind
{
    let mut curr_link: Link<T> = None;
    core::mem::swap(link, &mut curr_link);
    loop
        decreases link_seq(curr_link).len(),
    {
        match curr_link {
            None => break,
            Some(node) => {
                match rc_try_unwrap(node) {
                    Ok(node) => {
                        let mut node = node;
                        let mut next: Link<T> = None;
                        core::mem::swap(&mut node.next, &mut next);
                        curr_link = next;
                    },
                    Err(_) => break,
                }
            },
        }
    }
}

impl<T> Drop for PersistentList<T> {
    /// Walks the chain iteratively, so that a long list is not torn down by
    /// one nested call per node.
    fn drop(&mut self)
        ensures
            final(self)@.len() == 0,
        opens_invariants none
        no_unwind
    {
        release_chain(&mut self.head);
    }
}

} // verus!
