//! Solutions that are plain vectors of numbers, and an objective that orders
//! them by their fitness.

use vstd::prelude::*;
use crate::population::objective::{Objective, Preference, Solution};

verus! {

/// A solution that is its fitness and its weights.
#[derive(Debug, PartialEq, Eq)]
pub struct VectorSolution {
    /// The fitness, one number per objective; lower is better.
    pub fitness: Vec<i64>,
    /// The weights.
    pub weights: Vec<i32>,
}

/// The view of [`VectorSolution`].
pub struct VectorSolutionView {
    pub fitness: Seq<i64>,
    pub weights: Seq<i32>,
}

impl View for VectorSolution {
    type V = VectorSolutionView;

    open spec fn view(&self) -> VectorSolutionView {
        VectorSolutionView { fitness: self.fitness@, weights: self.weights@ }
    }
}

fn copy_fitness(values: &Vec<i64>) -> (r: Vec<i64>)
    ensures
        r@ == values@,
{
    let mut out: Vec<i64> = Vec::new();
    let mut i: usize = 0;
    while i < values.len()
        invariant
            i <= values@.len(),
            out@ == values@.subrange(0, i as int),
        decreases values@.len() - i,
    {
        out.push(values[i]);
        i = i + 1;
        assert(out@ =~= values@.subrange(0, i as int));
    }
    assert(out@ =~= values@);
    out
}

fn copy_weights(values: &Vec<i32>) -> (r: Vec<i32>)
    ensures
        r@ == values@,
{
    let mut out: Vec<i32> = Vec::new();
    let mut i: usize = 0;
    while i < values.len()
        invariant
            i <= values@.len(),
            out@ == values@.subrange(0, i as int),
        decreases values@.len() - i,
    {
        out.push(values[i]);
        i = i + 1;
        assert(out@ =~= values@.subrange(0, i as int));
    }
    assert(out@ =~= values@);
    out
}

impl VectorSolution {
    /// A solution with the given fitness and weights.
    pub fn new(fitness: Vec<i64>, weights: Vec<i32>) -> (r: Self)
        ensures
            r@ == (VectorSolutionView { fitness: fitness@, weights: weights@ }),
    {
        VectorSolution { fitness, weights }
    }
}

impl Solution for VectorSolution {
    open spec fn fitness_of(view: VectorSolutionView) -> Seq<i64> {
        view.fitness
    }

    open spec fn weights_of(view: VectorSolutionView) -> Seq<i32> {
        view.weights
    }

    fn get_fitness(&self) -> (r: Vec<i64>) {
        copy_fitness(&self.fitness)
    }

    fn weights(&self) -> (r: Vec<i32>) {
        copy_weights(&self.weights)
    }

    fn deep_copy(&self) -> (r: Self) {
        VectorSolution { fitness: copy_fitness(&self.fitness), weights: copy_weights(&self.weights) }
    }
}

/// Component `i` of a fitness, zero where the fitness has none.
pub open spec fn component(fitness: Seq<i64>, i: int) -> int {
    if 0 <= i < fitness.len() {
        fitness[i] as int
    } else {
        0
    }
}

/// Whether `a` comes before `b` by the components from `from` up to
/// `dimension`: at the first of them in which they differ, `a` is lower.
pub open spec fn lex_precedes(a: Seq<i64>, b: Seq<i64>, dimension: int, from: int) -> bool
    decreases dimension - from,
{
    if from >= dimension {
        false
    } else if component(a, from) < component(b, from) {
        true
    } else if component(a, from) > component(b, from) {
        false
    } else {
        lex_precedes(a, b, dimension, from + 1)
    }
}

/// Whether `a` is no higher than `b` in each of the first `dimension`
/// components, and lower in one.
pub open spec fn pareto_dominates(a: Seq<i64>, b: Seq<i64>, dimension: int) -> bool {
    &&& forall|i: int| 0 <= i < dimension ==> component(a, i) <= component(b, i)
    &&& exists|i: int| 0 <= i < dimension && component(a, i) < component(b, i)
}

/// An objective over fitness vectors of `dimension` components, each to be
/// made low. The component `primary` counts first; where two solutions agree
/// in it, the first component in which they differ decides. A shuffle picks
/// another primary component. With `pareto` set, a solution dominates those
/// that are no better in any component and worse in one; without it, none
/// dominates any.
#[derive(Clone, Copy, Debug, PartialEq, Eq)]
pub struct VectorObjective {
    /// The number of components that count.
    pub dimension: usize,
    /// The component that counts first.
    pub primary: usize,
    /// Whether solutions dominate one another.
    pub pareto: bool,
}

impl VectorObjective {
    /// An objective over `dimension` components with the first as primary.
    pub fn new(dimension: usize, pareto: bool) -> (r: Self)
        ensures
            r == (VectorObjective { dimension, primary: 0, pareto }),
    {
        VectorObjective { dimension, primary: 0, pareto }
    }

    /// The component that counts first: the primary one where it is among
    /// those that count, else the first.
    pub open spec fn lead(&self) -> int {
        if self.primary < self.dimension {
            self.primary as int
        } else {
            0
        }
    }

    /// Whether `a` comes before `b`.
    pub open spec fn before(&self, a: Seq<i64>, b: Seq<i64>) -> bool {
        self.dimension > 0 && (component(a, self.lead()) < component(b, self.lead()) || (component(
            a,
            self.lead(),
        ) == component(b, self.lead()) && lex_precedes(a, b, self.dimension as int, 0)))
    }
}

proof fn lemma_lex_asymmetric(a: Seq<i64>, b: Seq<i64>, dimension: int, from: int)
    ensures
        !(lex_precedes(a, b, dimension, from) && lex_precedes(b, a, dimension, from)),
    decreases dimension - from,
{
    if from < dimension {
        lemma_lex_asymmetric(a, b, dimension, from + 1);
    }
}

proof fn lemma_lex_transitive(a: Seq<i64>, b: Seq<i64>, c: Seq<i64>, dimension: int, from: int)
    requires
        lex_precedes(a, b, dimension, from),
        lex_precedes(b, c, dimension, from),
    ensures
        lex_precedes(a, c, dimension, from),
    decreases dimension - from,
{
    if from < dimension {
        if component(a, from) == component(b, from) && component(b, from) == component(c, from) {
            lemma_lex_transitive(a, b, c, dimension, from + 1);
        }
    }
}

proof fn lemma_lex_negative_transitive(
    a: Seq<i64>,
    b: Seq<i64>,
    c: Seq<i64>,
    dimension: int,
    from: int,
)
    requires
        !lex_precedes(a, b, dimension, from),
        !lex_precedes(b, c, dimension, from),
    ensures
        !lex_precedes(a, c, dimension, from),
    decreases dimension - from,
{
    if from < dimension {
        if component(a, from) == component(b, from) && component(b, from) == component(c, from) {
            lemma_lex_negative_transitive(a, b, c, dimension, from + 1);
        }
    }
}

/// Two fitness vectors of which neither comes before the other agree in
/// every component that counts, and the other way round.
proof fn lemma_lex_equivalent(a: Seq<i64>, b: Seq<i64>, dimension: int, from: int)
    requires
        0 <= from,
    ensures
        (!lex_precedes(a, b, dimension, from) && !lex_precedes(b, a, dimension, from)) <==> (
        forall|i: int| from <= i < dimension ==> component(a, i) == component(b, i)),
    decreases dimension - from,
{
    if from < dimension {
        lemma_lex_equivalent(a, b, dimension, from + 1);
        if component(a, from) == component(b, from) {
            if forall|i: int| from + 1 <= i < dimension ==> component(a, i) == component(b, i) {
                assert forall|i: int| from <= i < dimension implies component(a, i) == component(
                    b,
                    i,
                ) by {
                    if i > from {
                    }
                }
            }
        }
    }
}

proof fn lemma_lex_dominated(a: Seq<i64>, b: Seq<i64>, dimension: int, from: int, strict: int)
    requires
        0 <= from <= strict < dimension,
        forall|i: int| from <= i < dimension ==> component(a, i) <= component(b, i),
        component(a, strict) < component(b, strict),
    ensures
        lex_precedes(a, b, dimension, from),
    decreases dimension - from,
{
    if component(a, from) == component(b, from) {
        lemma_lex_dominated(a, b, dimension, from + 1, strict);
    }
}

fn get_component(fitness: &Vec<i64>, i: usize) -> (r: i64)
    ensures
        r == component(fitness@, i as int),
{
    if i < fitness.len() {
        fitness[i]
    } else {
        0
    }
}

fn lex_compare(a: &Vec<i64>, b: &Vec<i64>, dimension: usize) -> (r: Preference)
    ensures
        r == Preference::Less <==> lex_precedes(a@, b@, dimension as int, 0),
        r == Preference::Greater <==> lex_precedes(b@, a@, dimension as int, 0),
{
    let mut i: usize = 0;
    while i < dimension
        invariant
            i <= dimension,
            lex_precedes(a@, b@, dimension as int, 0) == lex_precedes(
                a@,
                b@,
                dimension as int,
                i as int,
            ),
            lex_precedes(b@, a@, dimension as int, 0) == lex_precedes(
                b@,
                a@,
                dimension as int,
                i as int,
            ),
        decreases dimension - i,
    {
        let first = get_component(a, i);
        let second = get_component(b, i);
        if first < second {
            proof {
                lemma_lex_asymmetric(a@, b@, dimension as int, i as int);
            }
            return Preference::Less;
        }
        if first > second {
            proof {
                lemma_lex_asymmetric(a@, b@, dimension as int, i as int);
            }
            return Preference::Greater;
        }
        i = i + 1;
    }
    Preference::Equal
}

impl Objective<VectorSolution> for VectorObjective {
    open spec fn precedes(&self, a: VectorSolutionView, b: VectorSolutionView) -> bool {
        self.before(a.fitness, b.fitness)
    }

    open spec fn dominates(&self, a: VectorSolutionView, b: VectorSolutionView) -> bool {
        self.pareto && pareto_dominates(a.fitness, b.fitness, self.dimension as int)
    }

    fn total_order(&self, a: &VectorSolution, b: &VectorSolution) -> (r: Preference) {
        if self.dimension == 0 {
            return Preference::Equal;
        }
        let lead: usize = if self.primary < self.dimension {
            self.primary
        } else {
            0
        };
        let first = get_component(&a.fitness, lead);
        let second = get_component(&b.fitness, lead);
        proof {
            lemma_lex_asymmetric(a@.fitness, b@.fitness, self.dimension as int, 0);
        }
        if first < second {
            Preference::Less
        } else if first > second {
            Preference::Greater
        } else {
            lex_compare(&a.fitness, &b.fitness, self.dimension)
        }
    }

    fn is_dominating(&self, a: &VectorSolution, b: &VectorSolution) -> (r: bool) {
        if !self.pareto {
            return false;
        }
        let mut strict = false;
        let ghost mut witness: int = 0;
        let mut i: usize = 0;
        while i < self.dimension
            invariant
                i <= self.dimension,
                forall|k: int| 0 <= k < i ==> component(a@.fitness, k) <= component(b@.fitness, k),
                strict ==> 0 <= witness < i && component(a@.fitness, witness) < component(
                    b@.fitness,
                    witness,
                ),
                !strict ==> forall|k: int|
                    0 <= k < i ==> component(a@.fitness, k) == component(b@.fitness, k),
            decreases self.dimension - i,
        {
            let first = get_component(&a.fitness, i);
            let second = get_component(&b.fitness, i);
            if first > second {
                return false;
            }
            if first < second {
                strict = true;
                proof {
                    witness = i as int;
                }
            }
            i = i + 1;
        }
        strict
    }

    open spec fn reshuffled(&self, seed: i32) -> Self {
        VectorObjective {
            dimension: self.dimension,
            primary: if self.dimension == 0 || seed < 0 {
                self.primary
            } else {
                (seed as int % self.dimension as int) as usize
            },
            pareto: self.pareto,
        }
    }

    fn shuffled(&self, seed: i32) -> (r: Self) {
        let primary: usize = if self.dimension == 0 || seed < 0 {
            self.primary
        } else {
            (seed as usize) % self.dimension
        };
        let result = VectorObjective { dimension: self.dimension, primary, pareto: self.pareto };
        proof {
            assert forall|a: VectorSolutionView, b: VectorSolutionView|
                #![trigger result.precedes(a, b)]
                (!result.precedes(a, b) && !result.precedes(b, a)) == (!self.precedes(a, b)
                    && !self.precedes(b, a)) by {
                lemma_equivalent_agree(*self, a.fitness, b.fitness);
                lemma_equivalent_agree(result, a.fitness, b.fitness);
            }
        }
        result
    }

    fn duplicate(&self) -> (r: Self) {
        VectorObjective { dimension: self.dimension, primary: self.primary, pareto: self.pareto }
    }

    proof fn lemma_asymmetric(&self, a: VectorSolutionView, b: VectorSolutionView) {
        lemma_lex_asymmetric(a.fitness, b.fitness, self.dimension as int, 0);
    }

    proof fn lemma_transitive(
        &self,
        a: VectorSolutionView,
        b: VectorSolutionView,
        c: VectorSolutionView,
    ) {
        let p = self.lead();
        if component(a.fitness, p) == component(b.fitness, p) && component(b.fitness, p)
            == component(c.fitness, p) {
            lemma_lex_transitive(a.fitness, b.fitness, c.fitness, self.dimension as int, 0);
        }
    }

    proof fn lemma_negative_transitive(
        &self,
        a: VectorSolutionView,
        b: VectorSolutionView,
        c: VectorSolutionView,
    ) {
        let p = self.lead();
        if component(a.fitness, p) == component(b.fitness, p) && component(b.fitness, p)
            == component(c.fitness, p) {
            lemma_lex_negative_transitive(
                a.fitness,
                b.fitness,
                c.fitness,
                self.dimension as int,
                0,
            );
        }
    }

    proof fn lemma_dominance_precedes(&self, a: VectorSolutionView, b: VectorSolutionView) {
        let strict = choose|i: int|
            0 <= i < self.dimension && component(a.fitness, i) < component(b.fitness, i);
        lemma_lex_dominated(a.fitness, b.fitness, self.dimension as int, 0, strict);
    }
}

/// Neither of two fitness vectors comes before the other exactly when they
/// agree in every component that counts.
proof fn lemma_equivalent_agree(objective: VectorObjective, a: Seq<i64>, b: Seq<i64>)
    ensures
        (!objective.before(a, b) && !objective.before(b, a)) <==> (forall|i: int|
            0 <= i < objective.dimension ==> component(a, i) == component(b, i)),
{
    lemma_lex_equivalent(a, b, objective.dimension as int, 0);
}

} // verus!
