//! What a population asks of the solutions it holds and of the objective
//! that orders them.

use vstd::prelude::*;

verus! {

/// How one solution stands to another in a total order.
#[derive(Clone, Copy, Debug, PartialEq, Eq, Structural)]
pub enum Preference {
    /// The first comes before the second.
    Less,
    /// Neither comes before the other.
    Equal,
    /// The second comes before the first.
    Greater,
}

/// A solution as the population sees it: it can be copied, and it has a
/// fitness and weights, which depend on its view alone.
pub trait Solution: View + Sized {
    /// The fitness of a solution: one number per objective, the primary
    /// objective first.
    spec fn fitness_of(view: Self::V) -> Seq<i64>;

    /// The weights of a solution: where it lies in the space of features.
    spec fn weights_of(view: Self::V) -> Seq<i32>;

    /// Returns the fitness.
    fn get_fitness(&self) -> (r: Vec<i64>)
        ensures
            r@ == Self::fitness_of(self@),
    ;

    /// Returns the weights.
    fn weights(&self) -> (r: Vec<i32>)
        ensures
            r@ == Self::weights_of(self@),
    ;

    /// Returns a copy that shares nothing with the solution.
    fn deep_copy(&self) -> (r: Self)
        ensures
            r@ == self@,
    ;
}

/// An objective: a total order of solutions, and within it the pairs of which
/// one dominates the other. The order may be shuffled: a shuffled objective
/// may order solutions differently, but dominance and equivalence stay.
pub trait Objective<S: Solution>: Sized {
    /// Whether `a` comes strictly before `b` in the total order.
    spec fn precedes(&self, a: S::V, b: S::V) -> bool;

    /// Whether `a` strictly dominates `b`.
    spec fn dominates(&self, a: S::V, b: S::V) -> bool;

    /// Compares two solutions in the total order.
    fn total_order(&self, a: &S, b: &S) -> (r: Preference)
        ensures
            r == Preference::Less <==> self.precedes(a@, b@),
            r == Preference::Greater <==> self.precedes(b@, a@),
    ;

    /// Tells whether `a` strictly dominates `b`.
    fn is_dominating(&self, a: &S, b: &S) -> (r: bool)
        ensures
            r == self.dominates(a@, b@),
    ;

    /// The objective with its order shuffled by `seed`.
    spec fn reshuffled(&self, seed: i32) -> Self;

    /// Returns the objective with its order shuffled by `seed`.
    fn shuffled(&self, seed: i32) -> (r: Self)
        ensures
            r == self.reshuffled(seed),
            forall|a: S::V, b: S::V| #[trigger] r.dominates(a, b) == self.dominates(a, b),
            forall|a: S::V, b: S::V|
                #![trigger r.precedes(a, b)]
                (!r.precedes(a, b) && !r.precedes(b, a)) == (!self.precedes(a, b)
                    && !self.precedes(b, a)),
    ;

    /// Returns the same objective once more.
    fn duplicate(&self) -> (r: Self)
        ensures
            r == *self,
    ;

    /// Of two solutions at most one comes before the other.
    proof fn lemma_asymmetric(&self, a: S::V, b: S::V)
        ensures
            !(self.precedes(a, b) && self.precedes(b, a)),
    ;

    /// If `a` comes before `b` and `b` before `c`, `a` comes before `c`.
    proof fn lemma_transitive(&self, a: S::V, b: S::V, c: S::V)
        requires
            self.precedes(a, b),
            self.precedes(b, c),
        ensures
            self.precedes(a, c),
    ;

    /// If `a` does not come before `b` nor `b` before `c`, `a` does not come
    /// before `c`.
    proof fn lemma_negative_transitive(&self, a: S::V, b: S::V, c: S::V)
        requires
            !self.precedes(a, b),
            !self.precedes(b, c),
        ensures
            !self.precedes(a, c),
    ;

    /// What dominates comes before.
    proof fn lemma_dominance_precedes(&self, a: S::V, b: S::V)
        requires
            self.dominates(a, b),
        ensures
            self.precedes(a, b),
    ;
}

/// Whether neither of two solutions comes before the other.
pub open spec fn equivalent<S: Solution, O: Objective<S>>(objective: &O, a: S::V, b: S::V) -> bool {
    !objective.precedes(a, b) && !objective.precedes(b, a)
}

/// How `a` stands to `b` in the total order of an objective.
pub open spec fn preference<S: Solution, O: Objective<S>>(
    objective: &O,
    a: S::V,
    b: S::V,
) -> Preference {
    if objective.precedes(a, b) {
        Preference::Less
    } else if objective.precedes(b, a) {
        Preference::Greater
    } else {
        Preference::Equal
    }
}

} // verus!
