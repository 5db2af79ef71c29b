//! The settings with which a search is built: when it is to end.

use vstd::prelude::*;
use crate::algorithms::math::Ratio;

verus! {

/// A reason for a search to end.
#[derive(Clone, Copy, Debug, PartialEq, Eq)]
pub enum TerminationCriteria {
    /// The given number of generations is reached.
    MaxGeneration(usize),
    /// The given number of seconds has passed.
    MaxTime(usize),
    /// Over the given number of generations the cost varied less than the
    /// given threshold.
    CostVariation { sample: usize, threshold: Ratio },
}

/// What a search is built with: when it ends, and how long it may run.
#[derive(Debug, PartialEq, Eq)]
pub struct SolverSettings {
    /// The criteria of which any ends the search.
    pub criterias: Vec<TerminationCriteria>,
    /// The seconds that the search may take, if they are limited.
    pub quota: Option<usize>,
}

/// Provides configurable way to build the settings of a search using fluent
/// interface style.
#[derive(Clone, Copy, Debug, PartialEq, Eq)]
pub struct Builder {
    /// A max amount generations in evolution.
    pub max_generations: Option<usize>,
    /// A max seconds to run evolution.
    pub max_time: Option<usize>,
    /// A cost variation parameters for termination criteria.
    pub cost_variation: Option<(usize, Ratio)>,
}

/// The generations after which a search ends when nothing else is said.
pub const DEFAULT_MAX_GENERATIONS: usize = 3000;

/// The seconds after which a search ends when nothing else is said.
pub const DEFAULT_MAX_TIME: usize = 300;

/// The criteria that end a search built with the given settings: where none
/// is set, the default numbers of generations and of seconds; else those
/// that are set, the generations first, then the time, then the variation of
/// the cost.
pub open spec fn criterias_of(builder: Builder) -> Seq<TerminationCriteria> {
    if builder.max_generations.is_none() && builder.max_time.is_none()
        && builder.cost_variation.is_none() {
        seq![
            TerminationCriteria::MaxGeneration(DEFAULT_MAX_GENERATIONS),
            TerminationCriteria::MaxTime(DEFAULT_MAX_TIME),
        ]
    } else {
        (match builder.max_generations {
            Some(limit) => seq![TerminationCriteria::MaxGeneration(limit)],
            None => Seq::<TerminationCriteria>::empty(),
        }) + (match builder.max_time {
            Some(limit) => seq![TerminationCriteria::MaxTime(limit)],
            None => Seq::<TerminationCriteria>::empty(),
        }) + (match builder.cost_variation {
            Some(variation) => seq![
                TerminationCriteria::CostVariation { sample: variation.0, threshold: variation.1 },
            ],
            None => Seq::<TerminationCriteria>::empty(),
        })
    }
}

/// The seconds that a search may take for the given limit.
pub fn create_time_quota(limit: usize) -> (r: usize)
    ensures
        r == limit,
{
    limit
}

impl Builder {
    /// Creates a new instance of `Builder` with nothing set.
    pub fn new() -> (r: Self)
        ensures
            r == (Builder { max_generations: None, max_time: None, cost_variation: None }),
    {
        Builder { max_generations: None, max_time: None, cost_variation: None }
    }

    /// Sets max generations to be run by evolution. Default is 3000.
    pub fn with_max_generations(self, limit: Option<usize>) -> (r: Self)
        ensures
            r == (Builder { max_generations: limit, ..self }),
    {
        Builder {
            max_generations: limit,
            max_time: self.max_time,
            cost_variation: self.cost_variation,
        }
    }

    /// Sets cost variation termination criteria. Default is None.
    pub fn with_cost_variation(self, variation: Option<(usize, Ratio)>) -> (r: Self)
        ensures
            r == (Builder { cost_variation: variation, ..self }),
    {
        Builder {
            max_generations: self.max_generations,
            max_time: self.max_time,
            cost_variation: variation,
        }
    }

    /// Sets max running time limit for evolution. Default is 300 seconds.
    pub fn with_max_time(self, limit: Option<usize>) -> (r: Self)
        ensures
            r == (Builder { max_time: limit, ..self }),
    {
        Builder {
            max_generations: self.max_generations,
            max_time: limit,
            cost_variation: self.cost_variation,
        }
    }

    /// Builds the settings of the search: the criteria that end it, and the
    /// time that it may take where a time is set.
    pub fn build(self) -> (r: Result<SolverSettings, String>)
        ensures
            r.is_ok(),
            r.unwrap().criterias@ == criterias_of(self),
            r.unwrap().quota == (if self.max_generations.is_none() && self.max_time.is_none()
                && self.cost_variation.is_none() {
                None
            } else {
                self.max_time
            }),
    {
        let mut criterias: Vec<TerminationCriteria> = Vec::new();
        let mut quota: Option<usize> = None;
        if self.max_generations.is_none() && self.max_time.is_none()
            && self.cost_variation.is_none() {
            criterias.push(TerminationCriteria::MaxGeneration(DEFAULT_MAX_GENERATIONS));
            criterias.push(TerminationCriteria::MaxTime(DEFAULT_MAX_TIME));
        } else {
            match self.max_generations {
                Some(limit) => {
                    criterias.push(TerminationCriteria::MaxGeneration(limit));
                },
                None => {},
            }
            match self.max_time {
                Some(limit) => {
                    criterias.push(TerminationCriteria::MaxTime(limit));
                    quota = Some(create_time_quota(limit));
                },
                None => {},
            }
            match self.cost_variation {
                Some(variation) => {
                    criterias.push(
                        TerminationCriteria::CostVariation {
                            sample: variation.0,
                            threshold: variation.1,
                        },
                    );
                },
                None => {},
            }
        }
        assert(criterias@ =~= criterias_of(self));
        Ok(SolverSettings { criterias, quota })
    }
}

} // verus!
