//! Small verified types used by the test-writing demonstrations.

use vstd::prelude::*;

verus! {

/// An axis-aligned rectangle described by its width and height.
#[derive(Debug, Clone, Copy, PartialEq, Eq, Structural)]
pub struct Rectangle {
    pub width: u32,
    pub height: u32,
}

impl Rectangle {
    /// True exactly when `other` fits strictly inside `self` on both axes.
    pub fn can_hold(&self, other: &Rectangle) -> (r: bool)
        ensures
            r == (self.width > other.width && self.height > other.height),
    {
        self.width > other.width && self.height > other.height
    }
}

/// A singly linked chain of integers on the heap.
#[derive(Debug)]
pub struct Node {
    /// This link's value.
    pub value: i32,
    /// The rest of the chain, if any.
    pub next: Option<Box<Node>>,
}

/// The values along the chain, front to back.
pub open spec fn chain_values(n: Node) -> Seq<i32>
    decreases n,
{
    seq![n.value] + match n.next {
        Option::Some(b) => chain_values(*b),
        Option::None => Seq::empty(),
    }
}

/// The chain walkthrough: a two-link chain is built, its head value
/// rewritten, the second link's value changed, and then the tail replaced
/// whole.  The two observed chains come back, in that order.
pub fn test() -> (r: (Node, Node))
    ensures
        chain_values(r.0) == seq![3i32, 4i32],
        chain_values(r.1) == seq![3i32, 5i32],
{
    let mut n = Node { value: 1, next: Some(Box::new(Node { value: 2, next: None })) };
    n.value = 3;
    n.next = Some(Box::new(Node { value: 4, next: None }));
    let first = n;
    let second = Node { value: first.value, next: Some(Box::new(Node { value: 5, next: None })) };
    proof {
        reveal_with_fuel(chain_values, 3);
        assert(chain_values(first) =~= seq![3i32, 4i32]);
        assert(chain_values(second) =~= seq![3i32, 5i32]);
    }
    (first, second)
}

} // verus!
