//! A bounded archive of the best solutions found, ranked best first, in
//! which no solution dominates another.

use vstd::prelude::*;
use crate::algorithms::sorting::{lemma_moved_forward, moved_forward};
use crate::population::objective::{equivalent, preference, Objective, Preference, Solution};
use crate::utils::random::DefaultRandom;

verus! {

/// Whether the members are ranked: each comes strictly before all later
/// ones in the total order of the objective.
pub open spec fn is_ranked<S: Solution, O: Objective<S>>(objective: &O, members: Seq<S::V>) -> bool {
    forall|i: int, j: int|
        0 <= i < j < members.len() ==> objective.precedes(#[trigger] members[i], #[trigger] members[j])
}

/// Whether no member strictly dominates another.
pub open spec fn is_nondominated<S: Solution, O: Objective<S>>(
    objective: &O,
    members: Seq<S::V>,
) -> bool {
    forall|i: int, j: int|
        0 <= i < members.len() && 0 <= j < members.len() && i != j ==> !objective.dominates(
            #[trigger] members[i],
            #[trigger] members[j],
        )
}

/// Whether the members form a front of at most `capacity` solutions: ranked,
/// and none dominating another.
pub open spec fn is_front<S: Solution, O: Objective<S>>(
    objective: &O,
    members: Seq<S::V>,
    capacity: int,
) -> bool {
    &&& members.len() <= capacity
    &&& is_ranked(objective, members)
    &&& is_nondominated(objective, members)
}

/// Whether a candidate is turned away: some member dominates it, or stands
/// at its very place in the total order.
pub open spec fn is_rejected<S: Solution, O: Objective<S>>(
    objective: &O,
    members: Seq<S::V>,
    x: S::V,
) -> bool {
    exists|i: int|
        0 <= i < members.len() && (objective.dominates(#[trigger] members[i], x) || equivalent(
            objective,
            members[i],
            x,
        ))
}

/// The rank that a candidate takes among the members from `from` on: the
/// position of the first of them that does not come before it.
pub open spec fn rank_from<S: Solution, O: Objective<S>>(
    objective: &O,
    members: Seq<S::V>,
    x: S::V,
    from: int,
) -> int
    decreases members.len() - from,
{
    if from >= members.len() {
        members.len() as int
    } else if objective.precedes(members[from], x) {
        rank_from(objective, members, x, from + 1)
    } else {
        from
    }
}

/// The members at the positions from `from` up to `to` that the candidate
/// does not dominate, in their order.
pub open spec fn undominated<S: Solution, O: Objective<S>>(
    objective: &O,
    members: Seq<S::V>,
    x: S::V,
    from: int,
    to: int,
) -> Seq<S::V>
    decreases to - from,
{
    if to <= from {
        Seq::<S::V>::empty()
    } else if objective.dominates(x, members[to - 1]) {
        undominated(objective, members, x, from, to - 1)
    } else {
        undominated(objective, members, x, from, to - 1).push(members[to - 1])
    }
}

/// The members with a candidate placed at its rank, and without those that
/// it dominates.
pub open spec fn placed<S: Solution, O: Objective<S>>(
    objective: &O,
    members: Seq<S::V>,
    x: S::V,
) -> Seq<S::V> {
    let rank = rank_from(objective, members, x, 0);
    members.subrange(0, rank) + seq![x] + undominated(
        objective,
        members,
        x,
        rank,
        members.len() as int,
    )
}

/// The members after a candidate was offered: unchanged where it is turned
/// away; else the candidate is placed at its rank, the members that it
/// dominates leave, and so do the worst-ranked beyond the capacity.
pub open spec fn after_add<S: Solution, O: Objective<S>>(
    objective: &O,
    members: Seq<S::V>,
    x: S::V,
    capacity: int,
) -> Seq<S::V> {
    if is_rejected(objective, members, x) {
        members
    } else if placed(objective, members, x).len() > capacity {
        placed(objective, members, x).subrange(0, capacity)
    } else {
        placed(objective, members, x)
    }
}

/// Whether offering a candidate improves the archive: the candidate stays
/// and is the best member, or it stays and an earlier member had to leave.
pub open spec fn improves<S: Solution, O: Objective<S>>(
    objective: &O,
    members: Seq<S::V>,
    x: S::V,
    capacity: int,
) -> bool {
    let rank = rank_from(objective, members, x, 0);
    &&& !is_rejected(objective, members, x)
    &&& rank < capacity
    &&& (rank == 0 || after_add(objective, members, x, capacity).len() <= members.len())
}

/// The members after the first `count` candidates of a batch were offered
/// one after the other.
pub open spec fn after_add_all<S: Solution, O: Objective<S>>(
    objective: &O,
    members: Seq<S::V>,
    batch: Seq<S::V>,
    count: int,
    capacity: int,
) -> Seq<S::V>
    decreases count,
{
    if count <= 0 {
        members
    } else {
        after_add(
            objective,
            after_add_all(objective, members, batch, count - 1, capacity),
            batch[count - 1],
            capacity,
        )
    }
}

/// Whether one of the first `count` candidates of a batch improves the
/// archive when they are offered one after the other.
pub open spec fn improves_any<S: Solution, O: Objective<S>>(
    objective: &O,
    members: Seq<S::V>,
    batch: Seq<S::V>,
    count: int,
    capacity: int,
) -> bool
    decreases count,
{
    if count <= 0 {
        false
    } else {
        improves_any(objective, members, batch, count - 1, capacity) || improves(
            objective,
            after_add_all(objective, members, batch, count - 1, capacity),
            batch[count - 1],
            capacity,
        )
    }
}

/// The views of a sequence of solutions.
pub open spec fn views<S: Solution>(solutions: Seq<S>) -> Seq<S::V> {
    Seq::new(solutions.len(), |i: int| solutions[i]@)
}

/// The views of a sequence without one solution.
pub proof fn lemma_views_remove<S: Solution>(solutions: Seq<S>, i: int)
    requires
        0 <= i < solutions.len(),
    ensures
        views(solutions.remove(i)) == views(solutions).remove(i),
{
    assert(views(solutions.remove(i)) =~= views(solutions).remove(i));
}

/// The views of a sequence with one more solution.
pub proof fn lemma_views_insert<S: Solution>(solutions: Seq<S>, i: int, x: S)
    requires
        0 <= i <= solutions.len(),
    ensures
        views(solutions.insert(i, x)) == views(solutions).insert(i, x@),
{
    assert(views(solutions.insert(i, x)) =~= views(solutions).insert(i, x@));
}

/// The rank is a position among the members; all members before it come
/// before the candidate, and the member at it does not.
pub proof fn lemma_rank_from<S: Solution, O: Objective<S>>(
    objective: &O,
    members: Seq<S::V>,
    x: S::V,
    from: int,
)
    requires
        0 <= from <= members.len(),
    ensures
        from <= rank_from(objective, members, x, from) <= members.len(),
        forall|i: int|
            from <= i < rank_from(objective, members, x, from) ==> objective.precedes(
                #[trigger] members[i],
                x,
            ),
        rank_from(objective, members, x, from) < members.len() ==> !objective.precedes(
            members[rank_from(objective, members, x, from)],
            x,
        ),
    decreases members.len() - from,
{
    if from < members.len() && objective.precedes(members[from], x) {
        lemma_rank_from(objective, members, x, from + 1);
    }
}

/// The members that a candidate does not dominate are among the members, in
/// their order.
pub proof fn lemma_undominated<S: Solution, O: Objective<S>>(
    objective: &O,
    members: Seq<S::V>,
    x: S::V,
    from: int,
    to: int,
)
    requires
        0 <= from <= to <= members.len(),
        is_ranked(objective, members),
    ensures
        undominated(objective, members, x, from, to).len() <= to - from,
        is_ranked(objective, undominated(objective, members, x, from, to)),
        forall|k: int|
            0 <= k < undominated(objective, members, x, from, to).len() ==> exists|i: int|
                from <= i < to && members[i] == #[trigger] undominated(
                    objective,
                    members,
                    x,
                    from,
                    to,
                )[k] && !objective.dominates(x, members[i]),
    decreases to - from,
{
    if to > from {
        lemma_undominated(objective, members, x, from, to - 1);
        let before = undominated(objective, members, x, from, to - 1);
        let all = undominated(objective, members, x, from, to);
        if !objective.dominates(x, members[to - 1]) {
            assert forall|i: int, j: int| 0 <= i < j < all.len() implies objective.precedes(
                #[trigger] all[i],
                #[trigger] all[j],
            ) by {
                if j == all.len() - 1 {
                    let at = choose|at: int|
                        from <= at < to - 1 && members[at] == before[i] && !objective.dominates(
                            x,
                            members[at],
                        );
                    assert(objective.precedes(members[at], members[to - 1]));
                } else {
                    assert(objective.precedes(before[i], before[j]));
                }
            }
            assert forall|k: int| 0 <= k < all.len() implies exists|i: int|
                from <= i < to && members[i] == #[trigger] all[k] && !objective.dominates(
                    x,
                    members[i],
                ) by {
                if k == all.len() - 1 {
                    assert(members[to - 1] == all[k]);
                } else {
                    let at = choose|at: int|
                        from <= at < to - 1 && members[at] == before[k] && !objective.dominates(
                            x,
                            members[at],
                        );
                    assert(members[at] == all[k]);
                }
            }
        }
    }
}

/// Offering a candidate to a front leaves a front.
pub proof fn lemma_after_add_is_front<S: Solution, O: Objective<S>>(
    objective: &O,
    members: Seq<S::V>,
    x: S::V,
    capacity: int,
)
    requires
        is_front(objective, members, capacity),
        capacity >= 1,
    ensures
        is_front(objective, after_add(objective, members, x, capacity), capacity),
        after_add(objective, members, x, capacity).len() >= 1,
        members.len() >= 1 ==> after_add(objective, members, x, capacity).len() >= 1,
        placed(objective, members, x).len() <= members.len() + 1,
{
    let rank = rank_from(objective, members, x, 0);
    lemma_rank_from(objective, members, x, 0);
    lemma_undominated(objective, members, x, rank, members.len() as int);
    let back = undominated(objective, members, x, rank, members.len() as int);
    let all = placed(objective, members, x);
    if !is_rejected(objective, members, x) {
        // every member from the rank on comes after the candidate
        assert forall|i: int| rank <= i < members.len() implies objective.precedes(
            x,
            #[trigger] members[i],
        ) by {
            assert(!objective.precedes(members[rank], x));
            assert(!equivalent(objective, members[rank], x));
            if i > rank {
                assert(objective.precedes(members[rank], members[i]));
                objective.lemma_transitive(x, members[rank], members[i]);
            }
        }
        assert forall|i: int, j: int| 0 <= i < j < all.len() implies objective.precedes(
            #[trigger] all[i],
            #[trigger] all[j],
        ) by {
            if j < rank {
                assert(objective.precedes(members[i], members[j]));
            } else if j == rank {
                assert(objective.precedes(members[i], x));
            } else {
                let at = choose|at: int|
                    rank <= at < members.len() && members[at] == back[j - rank - 1]
                        && !objective.dominates(x, members[at]);
                if i < rank {
                    assert(objective.precedes(members[i], members[at]));
                } else if i == rank {
                    assert(objective.precedes(x, members[at]));
                } else {
                    assert(objective.precedes(back[i - rank - 1], back[j - rank - 1]));
                }
            }
        }
        assert forall|i: int, j: int|
            0 <= i < all.len() && 0 <= j < all.len() && i != j implies !objective.dominates(
            #[trigger] all[i],
            #[trigger] all[j],
        ) by {
            if objective.dominates(all[i], all[j]) {
                objective.lemma_dominance_precedes(all[i], all[j]);
                objective.lemma_asymmetric(all[i], all[j]);
                // dominance goes from a better rank to a worse one
                assert(i < j);
                if j < rank {
                    assert(members[i] == all[i] && members[j] == all[j]);
                } else if j == rank {
                    assert(objective.dominates(members[i], x));
                } else {
                    let at = choose|at: int|
                        rank <= at < members.len() && members[at] == back[j - rank - 1]
                            && !objective.dominates(x, members[at]);
                    if i < rank {
                        assert(objective.dominates(members[i], members[at]));
                    } else if i > rank {
                        let from = choose|from: int|
                            rank <= from < members.len() && members[from] == back[i - rank - 1]
                                && !objective.dominates(x, members[from]);
                        if from == at {
                            objective.lemma_asymmetric(members[from], members[at]);
                        }
                        assert(objective.dominates(members[from], members[at]));
                    }
                }
            }
        }
        assert(is_ranked(objective, all));
        assert(is_nondominated(objective, all));
        if all.len() > capacity {
            let cut = all.subrange(0, capacity);
            assert forall|i: int, j: int| 0 <= i < j < cut.len() implies objective.precedes(
                #[trigger] cut[i],
                #[trigger] cut[j],
            ) by {
                assert(objective.precedes(all[i], all[j]));
            }
            assert forall|i: int, j: int|
                0 <= i < cut.len() && 0 <= j < cut.len() && i != j implies !objective.dominates(
                #[trigger] cut[i],
                #[trigger] cut[j],
            ) by {
                assert(!objective.dominates(all[i], all[j]));
            }
        }
    }
}

/// Offering the same candidate a second time changes nothing.
pub proof fn lemma_add_is_idempotent<S: Solution, O: Objective<S>>(
    objective: &O,
    members: Seq<S::V>,
    x: S::V,
    capacity: int,
)
    requires
        is_front(objective, members, capacity),
        capacity >= 1,
    ensures
        after_add(objective, after_add(objective, members, x, capacity), x, capacity) == after_add(
            objective,
            members,
            x,
            capacity,
        ),
{
    let once = after_add(objective, members, x, capacity);
    if !is_rejected(objective, members, x) {
        let rank = rank_from(objective, members, x, 0);
        let all = placed(objective, members, x);
        lemma_rank_from(objective, members, x, 0);
        lemma_undominated(objective, members, x, rank, members.len() as int);
        objective.lemma_asymmetric(x, x);
        if rank < capacity {
            // the candidate is a member now, and stands at its own place
            assert(once[rank] == x);
            assert(equivalent(objective, once[rank], x));
            assert(is_rejected(objective, once, x));
        } else {
            // the candidate was the one beyond the capacity: nothing changed
            assert(rank == members.len());
            assert(undominated(objective, members, x, rank, members.len() as int) =~= Seq::<
                S::V,
            >::empty());
            assert(once =~= members);
        }
    }
}

/// Whether no two of the members stand at the same place in the total order.
pub open spec fn is_distinct<S: Solution, O: Objective<S>>(objective: &O, members: Seq<S::V>) -> bool {
    forall|i: int, j: int|
        0 <= i < members.len() && 0 <= j < members.len() && i != j ==> !equivalent(
            objective,
            #[trigger] members[i],
            #[trigger] members[j],
        )
}

/// Moving a member forward keeps the members what they are: no two of them
/// come to stand at the same place, and none comes to dominate another.
pub proof fn lemma_moved<S: Solution, O: Objective<S>>(
    objective: &O,
    members: Seq<S::V>,
    from: int,
    to: int,
)
    requires
        0 <= to <= from < members.len(),
    ensures
        is_distinct(objective, members) ==> is_distinct(
            objective,
            moved_forward(members, from, to),
        ),
        is_nondominated(objective, members) ==> is_nondominated(
            objective,
            moved_forward(members, from, to),
        ),
{
    lemma_moved_forward(members, from, to);
    let after = moved_forward(members, from, to);
    let source = |i: int|
        if i < to {
            i
        } else if i == to {
            from
        } else if i <= from {
            i - 1
        } else {
            i
        };
    assert forall|i: int| 0 <= i < after.len() implies after[i] == members[source(i)] by {}
    if is_distinct(objective, members) {
        assert forall|i: int, j: int|
            0 <= i < after.len() && 0 <= j < after.len() && i != j implies !equivalent(
            objective,
            #[trigger] after[i],
            #[trigger] after[j],
        ) by {
            assert(after[i] == members[source(i)] && after[j] == members[source(j)]);
            assert(!equivalent(objective, members[source(i)], members[source(j)]));
        }
    }
    if is_nondominated(objective, members) {
        assert forall|i: int, j: int|
            0 <= i < after.len() && 0 <= j < after.len() && i != j implies !objective.dominates(
            #[trigger] after[i],
            #[trigger] after[j],
        ) by {
            assert(after[i] == members[source(i)] && after[j] == members[source(j)]);
            assert(!objective.dominates(members[source(i)], members[source(j)]));
        }
    }
}

/// The best solutions found: at most a given number of them, ranked best
/// first, none of them dominating another.
pub struct Elitism<O, S> where S: Solution, O: Objective<S> {
    /// The objective that ranks the members.
    pub objective: O,
    /// How many members the archive holds at most.
    pub max_population_size: usize,
    /// How many members a selection holds at most.
    pub selection_size: usize,
    /// The members, best first.
    pub individuals: Vec<S>,
}

impl<O, S> Elitism<O, S> where S: Solution, O: Objective<S> {
    /// The members in view, best first.
    pub open spec fn members(&self) -> Seq<S::V> {
        views(self.individuals@)
    }

    /// Whether the archive is well formed: it holds at least one member at
    /// most, selects at least one, and its members form a front.
    pub open spec fn wf(&self) -> bool {
        &&& self.max_population_size >= 1
        &&& self.selection_size >= 1
        &&& is_front(&self.objective, self.members(), self.max_population_size as int)
    }

    /// Creates an empty archive for at most `max_population_size` members, of
    /// which a selection holds `selection_size` at most.
    pub fn new(objective: O, max_population_size: usize, selection_size: usize) -> (r: Self)
        requires
            max_population_size >= 1,
            selection_size >= 1,
        ensures
            r.wf(),
            r.objective == objective,
            r.max_population_size == max_population_size,
            r.selection_size == selection_size,
            r.members() == Seq::<S::V>::empty(),
    {
        let r = Elitism { objective, max_population_size, selection_size, individuals: Vec::new() };
        assert(r.members() =~= Seq::<S::V>::empty());
        r
    }

    /// The number of members.
    pub fn size(&self) -> (r: usize)
        ensures
            r == self.members().len(),
    {
        self.individuals.len()
    }

    /// Compares two solutions in the archive's current total order.
    pub fn cmp(&self, a: &S, b: &S) -> (r: Preference)
        ensures
            r == preference(&self.objective, a@, b@),
    {
        proof {
            self.objective.lemma_asymmetric(a@, b@);
        }
        self.objective.total_order(a, b)
    }

    /// Offers a candidate to the archive and tells whether that improved it.
    pub fn add(&mut self, individual: S) -> (improved: bool)
        requires
            old(self).wf(),
        ensures
            final(self).wf(),
            final(self).objective == old(self).objective,
            final(self).max_population_size == old(self).max_population_size,
            final(self).selection_size == old(self).selection_size,
            final(self).members() == after_add(
                &old(self).objective,
                old(self).members(),
                individual@,
                old(self).max_population_size as int,
            ),
            improved == improves(
                &old(self).objective,
                old(self).members(),
                individual@,
                old(self).max_population_size as int,
            ),
            final(self).members().len() >= 1,
    {
        let ghost members = self.members();
        let ghost x = individual@;
        let ghost capacity = self.max_population_size as int;
        proof {
            lemma_after_add_is_front(&self.objective, members, x, capacity);
            lemma_rank_from(&self.objective, members, x, 0);
        }
        let total: usize = self.individuals.len();
        // is the candidate turned away?
        let mut i: usize = 0;
        while i < total
            invariant
                i <= total,
                *self == *old(self),
                self.wf(),
                total == self.individuals@.len(),
                members == self.members(),
                x == individual@,
                forall|k: int|
                    0 <= k < i ==> !self.objective.dominates(#[trigger] members[k], x)
                        && !equivalent(&self.objective, members[k], x),
            decreases total - i,
        {
            let member = &self.individuals[i];
            assert(member@ == members[i as int]);
            if self.objective.is_dominating(member, &individual) {
                assert(is_rejected(&self.objective, members, x));
                assert(self.wf());
                return false;
            }
            let order = self.objective.total_order(member, &individual);
            if order == Preference::Equal {
                assert(equivalent(&self.objective, members[i as int], x));
                assert(is_rejected(&self.objective, members, x));
                assert(self.wf());
                return false;
            }
            i = i + 1;
        }
        assert(!is_rejected(&self.objective, members, x));
        // the candidate's rank
        let mut rank: usize = 0;
        while rank < total && self.objective.total_order(&self.individuals[rank], &individual)
            == Preference::Less
            invariant
                rank <= total,
                *self == *old(self),
                total == self.individuals@.len(),
                members == self.members(),
                x == individual@,
                rank_from(&self.objective, members, x, 0) == rank_from(
                    &self.objective,
                    members,
                    x,
                    rank as int,
                ),
            decreases total - rank,
        {
            assert(self.individuals@[rank as int]@ == members[rank as int]);
            rank = rank + 1;
        }
        proof {
            if rank < total {
                assert(self.individuals@[rank as int]@ == members[rank as int]);
            }
            assert(rank == rank_from(&self.objective, members, x, 0));
        }
        proof {
            lemma_views_insert(self.individuals@, rank as int, individual);
        }
        self.individuals.insert(rank, individual);
        assert(self.members() =~= members.subrange(0, rank as int) + seq![x] + members.subrange(
            rank as int,
            total as int,
        ));
        let grown: usize = self.individuals.len();
        assert(grown == total + 1);
        // the members that the candidate dominates leave
        let mut at: usize = rank + 1;
        let mut seen: usize = rank;
        while seen < total
            invariant
                rank <= seen <= total,
                total == members.len(),
                grown == total + 1,
                at == rank + 1 + undominated(
                    &self.objective,
                    members,
                    x,
                    rank as int,
                    seen as int,
                ).len(),
                undominated(&self.objective, members, x, rank as int, seen as int).len() <= seen
                    - rank,
                self.objective == old(self).objective,
                self.max_population_size == old(self).max_population_size,
                self.selection_size == old(self).selection_size,
                self.individuals@.len() == self.members().len(),
                self.members() == members.subrange(0, rank as int) + seq![x] + undominated(
                    &self.objective,
                    members,
                    x,
                    rank as int,
                    seen as int,
                ) + members.subrange(seen as int, total as int),
            decreases total - seen,
        {
            let ghost current = self.members();
            let ghost kept = undominated(&self.objective, members, x, rank as int, seen as int);
            assert(current[at as int] == members[seen as int]);
            assert(self.individuals@[at as int]@ == current[at as int]);
            assert(current[rank as int] == x);
            assert(self.individuals@[rank as int]@ == current[rank as int]);
            let dominated = self.objective.is_dominating(
                &self.individuals[rank],
                &self.individuals[at],
            );
            if dominated {
                proof {
                    lemma_views_remove(self.individuals@, at as int);
                }
                let _ = self.individuals.remove(at);
                assert(self.members() == current.remove(at as int));
                assert(self.individuals@.len() == self.members().len());
                assert(self.members() =~= members.subrange(0, rank as int) + seq![x] + kept
                    + members.subrange(seen as int + 1, total as int));
            } else {
                assert(self.members() =~= members.subrange(0, rank as int) + seq![x] + kept.push(
                    members[seen as int],
                ) + members.subrange(seen as int + 1, total as int));
                at = at + 1;
            }
            seen = seen + 1;
        }
        assert(self.members() =~= placed(&self.objective, members, x));
        // the worst-ranked beyond the capacity leave
        let length: usize = self.individuals.len();
        if length > self.max_population_size {
            self.individuals.truncate(self.max_population_size);
            assert(self.members() =~= placed(&self.objective, members, x).subrange(0, capacity));
        }
        rank < self.max_population_size && (rank == 0 || self.individuals.len() <= total)
    }

    /// Offers the candidates of a batch one after the other and tells
    /// whether any of them improved the archive.
    pub fn add_all(&mut self, individuals: Vec<S>) -> (improved: bool)
        requires
            old(self).wf(),
        ensures
            final(self).wf(),
            final(self).objective == old(self).objective,
            final(self).max_population_size == old(self).max_population_size,
            final(self).selection_size == old(self).selection_size,
            final(self).members() == after_add_all(
                &old(self).objective,
                old(self).members(),
                views(individuals@),
                individuals@.len() as int,
                old(self).max_population_size as int,
            ),
            improved == improves_any(
                &old(self).objective,
                old(self).members(),
                views(individuals@),
                individuals@.len() as int,
                old(self).max_population_size as int,
            ),
            individuals@.len() > 0 ==> final(self).members().len() >= 1,
            final(self).members().len() >= old(self).members().len() || final(self).members().len() >= 1,
    {
        let ghost members = self.members();
        let ghost batch = views(individuals@);
        let ghost capacity = self.max_population_size as int;
        let mut rest = individuals;
        let mut improved = false;
        let mut done: usize = 0;
        let total: usize = rest.len();
        while done < total
            invariant
                done <= total,
                total == batch.len(),
                rest@.len() == total - done,
                views(rest@) == batch.subrange(done as int, total as int),
                self.wf(),
                self.objective == old(self).objective,
                self.max_population_size == old(self).max_population_size,
                self.selection_size == old(self).selection_size,
                capacity == self.max_population_size,
                self.members() == after_add_all(
                    &self.objective,
                    members,
                    batch,
                    done as int,
                    capacity,
                ),
                improved == improves_any(&self.objective, members, batch, done as int, capacity),
                done > 0 ==> self.members().len() >= 1,
            decreases total - done,
        {
            let ghost before = views(rest@);
            let ghost held = rest@;
            let individual = rest.remove(0);
            assert(individual@ == before[0]);
            assert(individual@ == batch[done as int]);
            assert forall|k: int| 0 <= k < rest@.len() implies (#[trigger] views(rest@)[k])
                == batch[done + 1 + k] by {
                assert(rest@[k] == held[k + 1]);
                assert(before[k + 1] == held[k + 1]@);
            }
            assert(views(rest@) =~= batch.subrange(done as int + 1, total as int));
            let better = self.add(individual);
            improved = improved || better;
            done = done + 1;
        }
        improved
    }

    /// The members that a selection yields: the first `selection_size` of
    /// them, best first.
    pub fn select(&self) -> (r: Vec<&S>)
        requires
            self.wf(),
        ensures
            r@.len() == if self.selection_size <= self.members().len() {
                self.selection_size as int
            } else {
                self.members().len() as int
            },
            forall|i: int| 0 <= i < r@.len() ==> *(#[trigger] r@[i]) == self.individuals@[i],
    {
        self.take(self.selection_size)
    }

    /// The first `count` members, best first; all of them where there are
    /// fewer.
    pub fn take(&self, count: usize) -> (r: Vec<&S>)
        ensures
            r@.len() == if count <= self.members().len() {
                count as int
            } else {
                self.members().len() as int
            },
            forall|i: int| 0 <= i < r@.len() ==> *(#[trigger] r@[i]) == self.individuals@[i],
    {
        let mut out: Vec<&S> = Vec::new();
        let mut i: usize = 0;
        while i < count && i < self.individuals.len()
            invariant
                i <= count,
                i <= self.individuals@.len(),
                out@.len() == i,
                forall|k: int| 0 <= k < i ==> *(#[trigger] out@[k]) == self.individuals@[k],
            decreases self.individuals@.len() - i,
        {
            out.push(&self.individuals[i]);
            i = i + 1;
        }
        out
    }

    /// The best member, if there is one.
    pub fn best(&self) -> (r: Option<&S>)
        ensures
            self.members().len() == 0 ==> r.is_none(),
            self.members().len() > 0 ==> r == Some(&self.individuals@[0]),
    {
        if self.individuals.len() > 0 {
            Some(&self.individuals[0])
        } else {
            None
        }
    }

    /// All members with their ranks, best first: the ranks count up from
    /// zero.
    pub fn ranked(&self) -> (r: Vec<(&S, usize)>)
        ensures
            r@.len() == self.members().len(),
            forall|i: int|
                0 <= i < r@.len() ==> *(#[trigger] r@[i]).0 == self.individuals@[i] && r@[i].1
                    == i,
    {
        let mut out: Vec<(&S, usize)> = Vec::new();
        let mut i: usize = 0;
        while i < self.individuals.len()
            invariant
                i <= self.individuals@.len(),
                out@.len() == i,
                forall|k: int|
                    0 <= k < i ==> *(#[trigger] out@[k]).0 == self.individuals@[k] && out@[k].1
                        == k,
            decreases self.individuals@.len() - i,
        {
            out.push((&self.individuals[i], i));
            i = i + 1;
        }
        out
    }

    /// Replaces the objective by the one that it gives when shuffled by
    /// `seed`, and ranks the members anew under it. The members stay the
    /// same; so do dominance and equivalence under the objective.
    pub fn shuffle_objective_with(&mut self, seed: i32)
        requires
            old(self).wf(),
        ensures
            final(self).wf(),
            final(self).objective == old(self).objective.reshuffled(seed),
            is_ranked(&old(self).objective.reshuffled(seed), final(self).members()),
            final(self).max_population_size == old(self).max_population_size,
            final(self).selection_size == old(self).selection_size,
            final(self).members().to_multiset() == old(self).members().to_multiset(),
            final(self).members().len() == old(self).members().len(),
            forall|a: S::V, b: S::V|
                #[trigger] final(self).objective.dominates(a, b) == old(self).objective.dominates(
                    a,
                    b,
                ),
            forall|a: S::V, b: S::V|
                #![trigger final(self).objective.precedes(a, b)]
                equivalent(&final(self).objective, a, b) == equivalent(&old(self).objective, a, b),
    {
        let ghost members = self.members();
        let ghost former = self.objective;
        proof {
            assert forall|i: int, j: int|
                0 <= i < members.len() && 0 <= j < members.len() && i != j implies !equivalent(
                &former,
                #[trigger] members[i],
                #[trigger] members[j],
            ) by {
                if i < j {
                    assert(former.precedes(members[i], members[j]));
                } else {
                    assert(former.precedes(members[j], members[i]));
                }
            }
        }
        self.objective = self.objective.shuffled(seed);
        let total: usize = self.individuals.len();
        proof {
            assert forall|i: int, j: int|
                0 <= i < members.len() && 0 <= j < members.len() && i != j implies !equivalent(
                &self.objective,
                #[trigger] members[i],
                #[trigger] members[j],
            ) by {
                assert(!equivalent(&former, members[i], members[j]));
            }
            assert forall|i: int, j: int|
                0 <= i < members.len() && 0 <= j < members.len() && i != j implies !self.objective.dominates(
                #[trigger] members[i],
                #[trigger] members[j],
            ) by {
                assert(!former.dominates(members[i], members[j]));
            }
        }
        let mut sorted: usize = 0;
        while sorted < total
            invariant
                sorted <= total,
                total == self.individuals@.len(),
                total == members.len(),
                self.max_population_size == old(self).max_population_size,
                self.selection_size == old(self).selection_size,
                self.max_population_size >= 1,
                self.selection_size >= 1,
                total <= self.max_population_size,
                self.members().to_multiset() == members.to_multiset(),
                is_distinct(&self.objective, self.members()),
                is_nondominated(&self.objective, self.members()),
                is_ranked(&self.objective, self.members().subrange(0, sorted as int)),
                former == old(self).objective,
                self.objective == former.reshuffled(seed),
                forall|a: S::V, b: S::V|
                    #[trigger] self.objective.dominates(a, b) == former.dominates(a, b),
                forall|a: S::V, b: S::V|
                    #![trigger self.objective.precedes(a, b)]
                    equivalent(&self.objective, a, b) == equivalent(&former, a, b),
            decreases total - sorted,
        {
            let ghost current = self.members();
            let ghost prefix = current.subrange(0, sorted as int);
            // the place of the next member among those that are ranked
            let mut rank: usize = 0;
            while rank < sorted && self.objective.total_order(
                &self.individuals[rank],
                &self.individuals[sorted],
            ) == Preference::Less
                invariant
                    rank <= sorted < total,
                    total == self.individuals@.len(),
                    current == self.members(),
                    forall|k: int|
                        0 <= k < rank ==> self.objective.precedes(
                            #[trigger] current[k],
                            current[sorted as int],
                        ),
                decreases sorted - rank,
            {
                assert(self.individuals@[rank as int]@ == current[rank as int]);
                assert(self.individuals@[sorted as int]@ == current[sorted as int]);
                rank = rank + 1;
            }
            proof {
                assert(self.individuals@[sorted as int]@ == current[sorted as int]);
                if rank < sorted {
                    assert(self.individuals@[rank as int]@ == current[rank as int]);
                    assert(!self.objective.precedes(current[rank as int], current[sorted as int]));
                }
                lemma_views_remove(self.individuals@, sorted as int);
                lemma_views_insert(
                    self.individuals@.remove(sorted as int),
                    rank as int,
                    self.individuals@[sorted as int],
                );
                lemma_moved(&self.objective, current, sorted as int, rank as int);
                lemma_moved_forward(current, sorted as int, rank as int);
            }
            let individual = self.individuals.remove(sorted);
            self.individuals.insert(rank, individual);
            proof {
                let after = self.members();
                assert(after == moved_forward(current, sorted as int, rank as int));
                let next = after.subrange(0, sorted as int + 1);
                let x = current[sorted as int];
                assert forall|i: int, j: int| 0 <= i < j < next.len() implies self.objective.precedes(
                    #[trigger] next[i],
                    #[trigger] next[j],
                ) by {
                    if j < rank {
                        assert(prefix[i] == current[i] && prefix[j] == current[j]);
                        assert(self.objective.precedes(prefix[i], prefix[j]));
                    } else if j == rank {
                        assert(self.objective.precedes(current[i], x));
                    } else {
                        // the members from the rank on come after the one that moved
                        assert(!self.objective.precedes(current[rank as int], x));
                        assert(!equivalent(&self.objective, current[rank as int], x));
                        assert(self.objective.precedes(x, current[rank as int]));
                        if j - 1 > rank {
                            assert(prefix[rank as int] == current[rank as int] && prefix[j - 1]
                                == current[j - 1]);
                            assert(self.objective.precedes(prefix[rank as int], prefix[j - 1]));
                            self.objective.lemma_transitive(
                                x,
                                current[rank as int],
                                current[j - 1],
                            );
                        }
                        if i < rank {
                            assert(prefix[i] == current[i] && prefix[j - 1] == current[j - 1]);
                            assert(self.objective.precedes(prefix[i], prefix[j - 1]));
                        } else if i > rank {
                            assert(prefix[i - 1] == current[i - 1] && prefix[j - 1] == current[j
                                - 1]);
                            assert(self.objective.precedes(prefix[i - 1], prefix[j - 1]));
                        }
                    }
                }
            }
            sorted = sorted + 1;
        }
        assert(self.members().subrange(0, total as int) =~= self.members());
    }

    /// Shuffles the objective by a seed that is drawn at random, none below
    /// zero, and ranks the members anew under it. The members stay the same.
    pub fn shuffle_objective(&mut self, random: &mut DefaultRandom)
        requires
            old(self).wf(),
        ensures
            final(self).wf(),
            exists|seed: i32|
                0 <= seed && final(self).objective == #[trigger] old(self).objective.reshuffled(
                    seed,
                ) && is_ranked(&old(self).objective.reshuffled(seed), final(self).members()),
            final(self).max_population_size == old(self).max_population_size,
            final(self).selection_size == old(self).selection_size,
            final(self).members().to_multiset() == old(self).members().to_multiset(),
            final(self).members().len() == old(self).members().len(),
            forall|a: S::V, b: S::V|
                #[trigger] final(self).objective.dominates(a, b) == old(self).objective.dominates(
                    a,
                    b,
                ),
            forall|a: S::V, b: S::V|
                #![trigger final(self).objective.precedes(a, b)]
                equivalent(&final(self).objective, a, b) == equivalent(&old(self).objective, a, b),
    {
        let seed = random.uniform_int(0, i32::MAX);
        self.shuffle_objective_with(seed);
    }

    /// Removes the members of the ranks from `from` up to `to` and returns
    /// them, best first.
    pub fn drain(&mut self, from: usize, to: usize) -> (r: Vec<S>)
        requires
            old(self).wf(),
            from <= to <= old(self).members().len(),
        ensures
            final(self).wf(),
            final(self).objective == old(self).objective,
            final(self).max_population_size == old(self).max_population_size,
            final(self).selection_size == old(self).selection_size,
            views(r@) == old(self).members().subrange(from as int, to as int),
            final(self).members() == old(self).members().subrange(0, from as int) + old(self).members().subrange(to as int, old(self).members().len() as int),
    {
        let ghost members = self.members();
        let mut out: Vec<S> = Vec::new();
        let mut taken: usize = from;
        while taken < to
            invariant
                from <= taken <= to <= members.len(),
                self.individuals@.len() == members.len() - (taken - from),
                self.objective == old(self).objective,
                self.max_population_size == old(self).max_population_size,
                self.selection_size == old(self).selection_size,
                views(out@) == members.subrange(from as int, taken as int),
                self.members() == members.subrange(0, from as int) + members.subrange(
                    taken as int,
                    members.len() as int,
                ),
            decreases to - taken,
        {
            let ghost before = self.members();
            let ghost drained = views(out@);
            assert(before[from as int] == members[taken as int]);
            assert(before[from as int] == self.individuals@[from as int]@);
            proof {
                lemma_views_remove(self.individuals@, from as int);
            }
            let individual = self.individuals.remove(from);
            assert(self.members() == before.remove(from as int));
            assert(individual@ == members[taken as int]);
            out.push(individual);
            assert(views(out@) =~= drained.push(members[taken as int]));
            assert(views(out@) =~= members.subrange(from as int, taken as int + 1));
            assert(self.members() =~= members.subrange(0, from as int) + members.subrange(
                taken as int + 1,
                members.len() as int,
            ));
            taken = taken + 1;
        }
        proof {
            let rest = self.members();
            assert forall|i: int, j: int| 0 <= i < j < rest.len() implies self.objective.precedes(
                #[trigger] rest[i],
                #[trigger] rest[j],
            ) by {
                let a = if i < from {
                    i
                } else {
                    i + (to - from)
                };
                let b = if j < from {
                    j
                } else {
                    j + (to - from)
                };
                assert(rest[i] == members[a] && rest[j] == members[b]);
                assert(self.objective.precedes(members[a], members[b]));
            }
            assert forall|i: int, j: int|
                0 <= i < rest.len() && 0 <= j < rest.len() && i != j implies !self.objective.dominates(
                #[trigger] rest[i],
                #[trigger] rest[j],
            ) by {
                let a = if i < from {
                    i
                } else {
                    i + (to - from)
                };
                let b = if j < from {
                    j
                } else {
                    j + (to - from)
                };
                assert(rest[i] == members[a] && rest[j] == members[b]);
                assert(!self.objective.dominates(members[a], members[b]));
            }
        }
        out
    }
}

} // verus!
