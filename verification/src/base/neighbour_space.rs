use vstd::prelude::*;
use crate::base::Problem;
use crate::base::rng::Rng;

verus! {

/// A neighbourhood that hands out the moved solutions themselves.
///
/// The spec functions are what the contracts of the methods speak of; an
/// implementation gives them their bodies.
pub trait NeighbourhoodDirect<P: Problem>: Clone {
    /// The neighbours of `node`, in the order of enumeration.
    open spec fn spec_neighbourhood(&self, p: &P, node: P::Sol) -> Seq<P::Sol> {
        arbitrary()
    }

    fn neighbourhood(&self, p: &P, node: P::Sol) -> (r: Vec<P::Sol>)
        ensures
            r@ == self.spec_neighbourhood(p, node),
    ;
}

/// A neighbourhood whose moves are named by identifiers, so that a move can be
/// priced before it is applied.
///
/// The spec functions are what the contracts of the methods speak of; an
/// implementation gives them their bodies.
pub trait NeighbourhoodIndirect<P: Problem>: Clone {
    type NeighbourId: Clone;

    /// The identifiers of the moves from `node`, in the order of enumeration.
    open spec fn spec_neighbourhood_id(&self, p: &P, node: &P::Sol) -> Seq<Self::NeighbourId> {
        arbitrary()
    }

    /// The solution that move `nid` leads to from `node`.
    open spec fn spec_neighbour(&self, p: &P, node: P::Sol, nid: Self::NeighbourId) -> P::Sol {
        arbitrary()
    }

    fn neighbourhood_id(&self, p: &P, node: &P::Sol) -> (ids: Vec<Self::NeighbourId>)
        ensures
            ids@ == self.spec_neighbourhood_id(p, node),
    ;

    /// The objective of the solution that move `nid` leads to.
    fn neighbour_obj(&self, p: &P, node: &P::Sol, nid: &Self::NeighbourId) -> (o: P::Obj)
        ensures
            o == p.spec_obj(&self.spec_neighbour(p, *node, *nid)),
    ;

    fn neighbour(&self, p: &P, node: P::Sol, nid: Self::NeighbourId) -> (s: P::Sol)
        ensures
            s == self.spec_neighbour(p, node, nid),
    ;
}

/// A neighbourhood that samples a moved solution.
///
/// The spec functions are what the contracts of the methods speak of; an
/// implementation gives them their bodies.
pub trait NeighbourhoodDirectRandom<P: Problem>: Clone {
    /// The sampled neighbour and the generator after sampling.
    open spec fn spec_random_neighbour<R: Rng>(&self, p: &P, node: &P::Sol, rng: R) -> (P::Sol, R) {
        arbitrary()
    }

    fn random_neighbour<R: Rng>(&self, p: &P, node: &P::Sol, rng: &mut R) -> (s: P::Sol)
        ensures
            (s, *final(rng)) == self.spec_random_neighbour(p, node, *old(rng)),
    ;
}

/// A neighbourhood that samples the identifier of a move, so that the move can
/// be priced before it is applied.
///
/// The spec functions are what the contracts of the methods speak of; an
/// implementation gives them their bodies.
pub trait NeighbourhoodIndirectRandom<P: Problem>: Clone {
    type NeighbourId: Clone;

    /// The sampled identifier and the generator after sampling.
    open spec fn spec_random_neighbour_id<R: Rng>(&self, p: &P, node: &P::Sol, rng: R) -> (
        Self::NeighbourId,
        R,
    ) {
        arbitrary()
    }

    /// The solution that move `nid` leads to from `node`.
    open spec fn spec_random_neighbour(&self, p: &P, node: P::Sol, nid: Self::NeighbourId)
        -> P::Sol {
        arbitrary()
    }

    fn random_neighbour_id<R: Rng>(&self, p: &P, node: &P::Sol, rng: &mut R) -> (nid:
        Self::NeighbourId)
        ensures
            (nid, *final(rng)) == self.spec_random_neighbour_id(p, node, *old(rng)),
    ;

    fn random_neighbour(&self, p: &P, node: P::Sol, nid: Self::NeighbourId) -> (s: P::Sol)
        ensures
            s == self.spec_random_neighbour(p, node, nid),
    ;

    /// The objective of the solution that move `nid` leads to.
    fn neighbour_obj(&self, p: &P, node: &P::Sol, nid: &Self::NeighbourId) -> (o: P::Obj)
        ensures
            o == p.spec_obj(&self.spec_random_neighbour(p, *node, *nid)),
    ;
}

} // verus!
