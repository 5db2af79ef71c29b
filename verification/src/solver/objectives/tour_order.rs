//! The desired order of activities in a tour: how far a tour departs from it,
//! and what inserting an activity against it costs.

use vstd::prelude::*;
use crate::models::common::{clamp_i64, minus, times, Cost};
use crate::models::problem::{Job, JobView, Single, SingleView};
use crate::models::solution::route::{Activity, ActivityView, Route, RouteView};

verus! {

/// Allows to control the desired order of activities in tours.
pub struct TourOrder {}

/// A constraint that an activity would break.
#[derive(Clone, Copy, Debug, PartialEq, Eq)]
pub struct ActivityConstraintViolation {
    /// The code of the constraint.
    pub code: i32,
    /// Whether later positions in the tour need not be tried.
    pub stopped: bool,
}

/// The place of a job in the desired order; a job without one comes last.
pub open spec fn order_of(single: SingleView) -> int {
    match single.dimens.order {
        Some(order) => order as int,
        None => i64::MAX as int,
    }
}

/// The pair of orders that decides on an activity `target` between `prev` and
/// `next`, with the flag that is passed on with it: the pair before the
/// target where both have a job, else the pair after it; and the second pair
/// to try where there are two.
pub open spec fn order_pairs(
    prev: ActivityView,
    target: ActivityView,
    next: Option<ActivityView>,
) -> Seq<(int, int, bool)> {
    let after = match next {
        Some(n) => n.job,
        None => None,
    };
    match (prev.job, target.job, after) {
        (Some(p), Some(t), None) => seq![(order_of(p), order_of(t), true)],
        (None, Some(t), Some(n)) => seq![(order_of(t), order_of(n), false)],
        (Some(p), Some(t), Some(n)) => seq![
            (order_of(p), order_of(t), true),
            (order_of(t), order_of(n), false),
        ],
        _ => Seq::<(int, int, bool)>::empty(),
    }
}

/// The first of the pairs that is out of order, if any.
pub open spec fn first_disorder(pairs: Seq<(int, int, bool)>) -> Option<(int, int, bool)> {
    if pairs.len() >= 1 && pairs[0].0 > pairs[0].1 {
        Some(pairs[0])
    } else if pairs.len() >= 2 && pairs[1].0 > pairs[1].1 {
        Some(pairs[1])
    } else {
        None
    }
}

/// What two units of order cost on a route with the given cost: twice the
/// route's cost, a billion where the route costs nothing.
pub open spec fn order_penalty(route_cost: Cost) -> int {
    if route_cost == 0 {
        1_000_000_000
    } else {
        clamp_i64(route_cost * 2)
    }
}

/// The orders of the jobs of the first `count` activities of a tour, those
/// without a job left out.
pub open spec fn priorities(tour: Seq<ActivityView>, count: int) -> Seq<int>
    decreases count,
{
    if count <= 0 {
        Seq::<int>::empty()
    } else {
        match tour[count - 1].job {
            Some(single) => priorities(tour, count - 1).push(order_of(single)),
            None => priorities(tour, count - 1),
        }
    }
}

/// The number of neighbours among the first `count` values of which the
/// first is greater than the second.
pub open spec fn descents(values: Seq<int>, count: int) -> int
    decreases count,
{
    if count <= 1 {
        0
    } else {
        descents(values, count - 1) + if values[count - 2] > values[count - 1] {
            1int
        } else {
            0int
        }
    }
}

/// The number of places in a tour at which a job comes directly after one
/// that should come later.
pub open spec fn tour_violations(tour: Seq<ActivityView>) -> int {
    let orders = priorities(tour, tour.len() as int);
    descents(orders, orders.len() as int)
}

/// The violations of the first `count` routes together.
pub open spec fn routes_violations(routes: Seq<RouteView>, count: int) -> int
    decreases count,
{
    if count <= 0 {
        0
    } else {
        routes_violations(routes, count - 1) + tour_violations(routes[count - 1].tour)
    }
}

proof fn lemma_descents_bound(values: Seq<int>, count: int)
    ensures
        0 <= descents(values, count) <= (if count > 0 {
            count
        } else {
            0
        }),
    decreases count,
{
    if count > 1 {
        lemma_descents_bound(values, count - 1);
    }
}

proof fn lemma_descents_push(values: Seq<int>, count: int, value: int)
    requires
        0 <= count <= values.len(),
    ensures
        descents(values.push(value), count) == descents(values, count),
    decreases count,
{
    if count > 1 {
        lemma_descents_push(values, count - 1, value);
    }
}

proof fn lemma_priorities_len(tour: Seq<ActivityView>, count: int)
    ensures
        priorities(tour, count).len() <= (if count > 0 {
            count
        } else {
            0
        }),
    decreases count,
{
    if count > 0 {
        lemma_priorities_len(tour, count - 1);
    }
}

proof fn lemma_routes_violations_bound(routes: Seq<RouteView>, count: int)
    ensures
        0 <= routes_violations(routes, count),
    decreases count,
{
    if count > 0 {
        lemma_routes_violations_bound(routes, count - 1);
        let tour = routes[count - 1].tour;
        let orders = priorities(tour, tour.len() as int);
        lemma_descents_bound(orders, orders.len() as int);
    }
}

fn get_order(single: &Single) -> (r: i64)
    ensures
        r == order_of(single@),
{
    match single.dimens.order {
        Some(order) => order as i64,
        None => i64::MAX,
    }
}

impl TourOrder {
    /// The pair of orders that is out of order when `target` is put between
    /// `prev` and `next`, if there is one.
    pub fn find_disorder(prev: &Activity, target: &Activity, next: Option<&Activity>) -> (r:
        Option<(i64, i64, bool)>)
        ensures
            match r {
                Some(found) => first_disorder(order_pairs(prev@, target@, match next {
                    Some(n) => Some(n@),
                    None => None,
                })) == Some((found.0 as int, found.1 as int, found.2)),
                None => first_disorder(order_pairs(prev@, target@, match next {
                    Some(n) => Some(n@),
                    None => None,
                })).is_none(),
            },
    {
        let after = match next {
            Some(n) => n.job.as_ref(),
            None => None,
        };
        match (prev.job.as_ref(), target.job.as_ref(), after) {
            (Some(p), Some(t), None) => {
                let first = get_order(p);
                let second = get_order(t);
                if first > second {
                    Some((first, second, true))
                } else {
                    None
                }
            },
            (None, Some(t), Some(n)) => {
                let first = get_order(t);
                let second = get_order(n);
                if first > second {
                    Some((first, second, false))
                } else {
                    None
                }
            },
            (Some(p), Some(t), Some(n)) => {
                let first = get_order(p);
                let second = get_order(t);
                let third = get_order(n);
                if first > second {
                    Some((first, second, true))
                } else if second > third {
                    Some((second, third, false))
                } else {
                    None
                }
            },
            _ => None,
        }
    }

    /// Whether putting `target` between `prev` and `next` breaks the desired
    /// order: the violation with the given code where it does.
    pub fn evaluate_activity(
        prev: &Activity,
        target: &Activity,
        next: Option<&Activity>,
        constraint_code: i32,
    ) -> (r: Option<ActivityConstraintViolation>)
        ensures
            r == match first_disorder(order_pairs(prev@, target@, match next {
                Some(n) => Some(n@),
                None => None,
            })) {
                Some(found) => Some(
                    ActivityConstraintViolation { code: constraint_code, stopped: found.2 },
                ),
                None => None,
            },
    {
        match Self::find_disorder(prev, target, next) {
            Some(found) => Some(
                ActivityConstraintViolation { code: constraint_code, stopped: found.2 },
            ),
            None => None,
        }
    }

    /// What putting `target` between `prev` and `next` costs on a route with
    /// the given cost: the distance in order of the pair that is out of
    /// order, times the penalty; nothing where the order is kept.
    pub fn estimate_activity(
        prev: &Activity,
        target: &Activity,
        next: Option<&Activity>,
        route_cost: Cost,
    ) -> (r: Cost)
        ensures
            r == match first_disorder(order_pairs(prev@, target@, match next {
                Some(n) => Some(n@),
                None => None,
            })) {
                Some(found) => clamp_i64(
                    clamp_i64(found.0 - found.1) * order_penalty(route_cost),
                ),
                None => 0,
            },
    {
        match Self::find_disorder(prev, target, next) {
            Some(found) => {
                let penalty: i64 = if route_cost == 0 {
                    1_000_000_000
                } else {
                    times(route_cost, 2)
                };
                times(minus(found.0, found.1), penalty)
            },
            None => 0,
        }
    }

    /// Merges a candidate into a source job: the source where both are single
    /// jobs of the same order, else the given code.
    pub fn merge(source: Job, candidate: Job, code: i32) -> (r: Result<Job, i32>)
        ensures
            match r {
                Ok(job) => job == source && match (source@, candidate@) {
                    (JobView::Single(s), JobView::Single(c)) => s.dimens.order == c.dimens.order,
                    _ => false,
                },
                Err(e) => e == code && !match (source@, candidate@) {
                    (JobView::Single(s), JobView::Single(c)) => s.dimens.order == c.dimens.order,
                    _ => false,
                },
            },
    {
        let same = match (&source, &candidate) {
            (Job::Single(s), Job::Single(c)) => match (s.dimens.order, c.dimens.order) {
                (Some(a), Some(b)) => a == b,
                (None, None) => true,
                _ => false,
            },
            _ => false,
        };
        if same {
            Ok(source)
        } else {
            Err(code)
        }
    }

    /// The number of places in the tours of the routes at which a job comes
    /// directly after one that should come later.
    pub fn get_violations(routes: &Vec<Route>) -> (r: usize)
        ensures
            r == routes_violations(
                Seq::new(routes@.len(), |i: int| routes@[i]@),
                routes@.len() as int,
            ) || (r == usize::MAX && routes_violations(
                Seq::new(routes@.len(), |i: int| routes@[i]@),
                routes@.len() as int,
            ) > usize::MAX),
    {
        let ghost views = Seq::new(routes@.len(), |i: int| routes@[i]@);
        let mut total: usize = 0;
        let mut i: usize = 0;
        while i < routes.len()
            invariant
                i <= routes@.len(),
                views == Seq::new(routes@.len(), |k: int| routes@[k]@),
                total == routes_violations(views, i as int) || (total == usize::MAX
                    && routes_violations(views, i as int) > usize::MAX),
            decreases routes@.len() - i,
        {
            let route = &routes[i];
            assert(views[i as int] == route@);
            let ghost tour = route@.tour;
            let mut count: usize = 0;
            let mut last: Option<i64> = None;
            let ghost mut seen: Seq<int> = Seq::empty();
            let mut k: usize = 0;
            while k < route.tour.activities.len()
                invariant
                    k <= route.tour.activities@.len(),
                    tour == route@.tour,
                    tour.len() == route.tour.activities@.len(),
                    seen == priorities(tour, k as int),
                    seen.len() <= k,
                    count == descents(seen, seen.len() as int),
                    count <= seen.len(),
                    match last {
                        Some(value) => seen.len() > 0 && seen[seen.len() - 1] == value,
                        None => seen.len() == 0,
                    },
                decreases route.tour.activities@.len() - k,
            {
                let activity = &route.tour.activities[k];
                assert(tour[k as int] == activity@);
                match &activity.job {
                    Some(single) => {
                        let order = get_order(single);
                        proof {
                            lemma_descents_push(seen, seen.len() as int, order as int);
                            lemma_descents_bound(seen.push(order as int), seen.len() as int + 1);
                        }
                        match last {
                            Some(value) => {
                                if value > order {
                                    count = count + 1;
                                }
                            },
                            None => {},
                        }
                        last = Some(order);
                        proof {
                            seen = seen.push(order as int);
                        }
                    },
                    None => {},
                }
                k = k + 1;
            }
            proof {
                lemma_routes_violations_bound(views, i as int);
            }
            total = total.saturating_add(count);
            i = i + 1;
        }
        total
    }
}

} // verus!
