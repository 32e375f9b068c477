use vstd::prelude::*;
use crate::base::rng::Rng;
use crate::base::{Objective, Problem};

verus! {

/// A tree of subproblems over a problem. Every method is a function of the
/// tree space and its arguments.
///
/// The spec functions are what the contracts of the methods speak of; an
/// implementation gives them their bodies.
pub trait Tree<P: Problem>: Sized {
    type Node: Clone;

    /// The problem that the tree space was built from.
    open spec fn spec_problem(&self) -> P {
        arbitrary()
    }

    /// The tree space that `from` builds for a problem.
    open spec fn spec_from(p: &P) -> Self {
        arbitrary()
    }

    open spec fn spec_root(&self) -> Self::Node {
        arbitrary()
    }

    open spec fn spec_is_leaf(&self, n: &Self::Node) -> bool {
        arbitrary()
    }

    open spec fn spec_objective(&self, n: &Self::Node) -> Option<P::Obj> {
        arbitrary()
    }

    open spec fn spec_to_solution(&self, n: &Self::Node) -> Option<P::Sol> {
        arbitrary()
    }

    /// Returns the root node of the search space.
    fn root(&self) -> (n: Self::Node)
        ensures
            n == self.spec_root(),
    ;

    /// True if the node is a leaf (no children).
    fn is_leaf(&self, n: &Self::Node) -> (b: bool)
        ensures
            b == self.spec_is_leaf(n),
    ;

    /// The objective of the solution that the node stands for; a value exactly
    /// at a leaf.
    fn objective(&self, n: &Self::Node) -> (o: Option<P::Obj>)
        ensures
            o == self.spec_objective(n),
            o is Some == self.spec_is_leaf(n),
    ;

    /// The solution that the node stands for; a value exactly at a leaf, and
    /// then one whose objective in the problem is the node's objective.
    fn to_solution(&self, n: &Self::Node) -> (s: Option<P::Sol>)
        ensures
            s == self.spec_to_solution(n),
            s is Some == self.spec_is_leaf(n),
            s is Some ==> self.spec_objective(n) == Some(
                self.spec_problem().spec_obj(&s.unwrap()),
            ),
    ;

    /// Constructs a tree space from a problem instance.
    fn from(p: &P) -> (ts: Self)
        ensures
            ts == Self::spec_from(p),
            ts.spec_problem() == *p,
    ;
}

/// A tree that hands out the children of a node themselves.
///
/// The spec functions are what the contracts of the methods speak of; an
/// implementation gives them their bodies.
pub trait TreeDirect<P: Problem>: Tree<P> {
    open spec fn spec_children(&self, n: &Self::Node) -> Seq<Self::Node> {
        arbitrary()
    }

    /// The children of a node: none exactly at a leaf.
    fn children(&self, n: &Self::Node) -> (r: Vec<Self::Node>)
        ensures
            r@ == self.spec_children(n),
            (r@.len() == 0) == self.spec_is_leaf(n),
    ;
}

/// A tree with bounds on the best objective below a node.
///
/// The spec functions are what the contracts of the methods speak of; an
/// implementation gives them their bodies.
pub trait TreeBounded<P: Problem>: Tree<P> {
    open spec fn spec_primal_bound(&self, n: &Self::Node) -> P::Obj {
        arbitrary()
    }

    open spec fn spec_dual_bound(&self, n: &Self::Node) -> P::Obj {
        arbitrary()
    }

    fn primal_bound(&self, n: &Self::Node) -> (b: P::Obj)
        ensures
            b == self.spec_primal_bound(n),
    ;

    /// A lower bound on the objectives below `n`. The computation may stop
    /// short once the bound is known not to lie below `primal`: the result is
    /// the dual bound of `n`, or some value that does not lie below `primal`
    /// where the dual bound does not either.
    fn dual_bound(&self, n: &Self::Node, primal: P::Obj) -> (b: P::Obj)
        ensures
            b == self.spec_dual_bound(n) || (b.key() >= primal.key() && self.spec_dual_bound(
                n,
            ).key() >= primal.key()),
    ;
}

/// A tree with a ranking of its nodes; smaller is more promising.
///
/// The spec functions are what the contracts of the methods speak of; an
/// implementation gives them their bodies.
pub trait TreeGuided<P: Problem>: Tree<P> {
    type Guide: Objective;

    open spec fn spec_goodness(&self, n: &Self::Node) -> Self::Guide {
        arbitrary()
    }

    fn goodness(&self, n: &Self::Node) -> (g: Self::Guide)
        ensures
            g == self.spec_goodness(n),
    ;
}

/// A tree whose children are named by identifiers relative to their parent,
/// so that a child need not be built to be considered.
///
/// The spec functions are what the contracts of the methods speak of; an
/// implementation gives them their bodies.
pub trait TreeIndirect<P: Problem>: Tree<P> {
    type ChildId: Clone;

    open spec fn spec_children_id(&self, n: &Self::Node) -> Seq<Self::ChildId> {
        arbitrary()
    }

    open spec fn spec_child(&self, n: &Self::Node, cid: &Self::ChildId) -> Self::Node {
        arbitrary()
    }

    /// The identifiers of the children of a node: none exactly at a leaf.
    fn children_id(&self, n: &Self::Node) -> (r: Vec<Self::ChildId>)
        ensures
            r@ == self.spec_children_id(n),
            (r@.len() == 0) == self.spec_is_leaf(n),
    ;

    fn child(&self, n: &Self::Node, cid: &Self::ChildId) -> (c: Self::Node)
        ensures
            c == self.spec_child(n, cid),
    ;
}

/// Bounds on a child, taken without building it.
///
/// The spec functions are what the contracts of the methods speak of; an
/// implementation gives them their bodies.
pub trait TreeIndirectBounded<P: Problem>: TreeIndirect<P> {
    open spec fn spec_child_primal_bound(&self, n: &Self::Node, cid: &Self::ChildId) -> P::Obj {
        arbitrary()
    }

    open spec fn spec_child_dual_bound(&self, n: &Self::Node, cid: &Self::ChildId) -> P::Obj {
        arbitrary()
    }

    fn child_primal_bound(&self, n: &Self::Node, cid: &Self::ChildId) -> (b: P::Obj)
        ensures
            b == self.spec_child_primal_bound(n, cid),
    ;

    /// As `TreeBounded::dual_bound`, for the child `cid` of `n`.
    fn child_dual_bound(&self, n: &Self::Node, cid: &Self::ChildId, primal: P::Obj) -> (b: P::Obj)
        ensures
            b == self.spec_child_dual_bound(n, cid) || (b.key() >= primal.key()
                && self.spec_child_dual_bound(n, cid).key() >= primal.key()),
    ;
}

/// The ranking of a child, taken without building it.
pub trait TreeIndirectGuided<P: Problem>: TreeIndirect<P> + TreeGuided<P> {
    /// The goodness of the child `cid` of `n`.
    fn child_goodness(&self, n: &Self::Node, cid: &Self::ChildId) -> (g: Self::Guide)
        ensures
            g == self.spec_goodness(&self.spec_child(n, cid)),
    ;
}

/// A tree that samples a child of a node.
///
/// The spec functions are what the contracts of the methods speak of; an
/// implementation gives them their bodies.
pub trait TreeDirectRandom<P: Problem>: Tree<P> {
    /// The sampled child, if the node has one, and the generator after
    /// sampling.
    open spec fn spec_random_child<R: Rng>(&self, n: &Self::Node, rng: R) -> (
        Option<Self::Node>,
        R,
    ) {
        arbitrary()
    }

    fn random_child<R: Rng>(&self, n: &Self::Node, rng: &mut R) -> (c: Option<Self::Node>)
        ensures
            (c, *final(rng)) == self.spec_random_child(n, *old(rng)),
            c is None == self.spec_is_leaf(n),
    ;

    fn random_child_consuming<R: Rng>(&self, n: Self::Node, rng: &mut R) -> (c: Option<Self::Node>)
        ensures
            (c, *final(rng)) == self.spec_random_child(&n, *old(rng)),
            c is None == self.spec_is_leaf(&n),
    ;
}

/// A tree whose moves can be undone: a child comes with what is needed to get
/// back to its parent.
///
/// The spec functions are what the contracts of the methods speak of; an
/// implementation gives them their bodies.
pub trait TreeRollback<P: Problem>: Tree<P> {
    type RollbackInfo: Clone;

    open spec fn spec_rollback(&self, n: Self::Node, info: Self::RollbackInfo) -> Self::Node {
        arbitrary()
    }

    fn rollback(&self, n: Self::Node, info: Self::RollbackInfo) -> (r: Self::Node)
        ensures
            r == self.spec_rollback(n, info),
    ;
}

/// Sampling of a child together with the way back to the parent.
///
/// The spec functions are what the contracts of the methods speak of; an
/// implementation gives them their bodies.
pub trait TreeRollbackDirectRandom<P: Problem>: TreeRollback<P> {
    open spec fn spec_random_child_rollback<R: Rng>(&self, n: Self::Node, rng: R) -> (
        Option<(Self::Node, Self::RollbackInfo)>,
        R,
    ) {
        arbitrary()
    }

    /// The sampled child with its rollback information: rolling the child
    /// back gives `n` again.
    fn random_child_rollback<R: Rng>(&self, n: Self::Node, rng: &mut R) -> (c: Option<
        (Self::Node, Self::RollbackInfo),
    >)
        ensures
            (c, *final(rng)) == self.spec_random_child_rollback(n, *old(rng)),
            c is None == self.spec_is_leaf(&n),
            c is Some ==> self.spec_rollback(c.unwrap().0, c.unwrap().1) == n,
    ;
}

/// Children by identifier, each with the way back to the parent.
///
/// The spec functions are what the contracts of the methods speak of; an
/// implementation gives them their bodies.
pub trait TreeRollbackIndirect<P: Problem>: TreeRollback<P> {
    type ChildIdR: Clone;

    open spec fn spec_children_id_rollback(&self, n: &Self::Node) -> Seq<
        (Self::ChildIdR, Self::RollbackInfo),
    > {
        arbitrary()
    }

    open spec fn spec_child_r(&self, n: Self::Node, cid: &Self::ChildIdR) -> Self::Node {
        arbitrary()
    }

    /// The identifiers of the children of a node, each with the rollback
    /// information that leads from that child back to the node.
    fn children_id_rollback(&self, n: &Self::Node) -> (r: Vec<
        (Self::ChildIdR, Self::RollbackInfo),
    >)
        ensures
            r@ == self.spec_children_id_rollback(n),
            (r@.len() == 0) == self.spec_is_leaf(n),
            forall|i: int|
                0 <= i < r@.len() ==> self.spec_rollback(
                    self.spec_child_r(*n, &(#[trigger] r@[i]).0),
                    r@[i].1,
                ) == *n,
    ;

    /// Returns the child node given its id.
    fn child_r(&self, n: Self::Node, cid: &Self::ChildIdR) -> (c: Self::Node)
        ensures
            c == self.spec_child_r(n, cid),
    ;
}

} // verus!
