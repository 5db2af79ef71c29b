use rosomaxa::solver::builder::{create_time_quota, SolverSettings, TerminationCriteria};
use rosomaxa::solver::Builder;

#[test]
fn builder_defaults_to_generations_and_time() {
    let settings = Builder::new().build();

    assert_eq!(
        settings,
        Ok(SolverSettings {
            criterias: vec![TerminationCriteria::MaxGeneration(3000), TerminationCriteria::MaxTime(300)],
            quota: None,
        })
    );
}

#[test]
fn builder_takes_what_is_set() {
    let settings = Builder::new()
        .with_max_time(Some(60))
        .with_max_generations(Some(100))
        .with_cost_variation(Some((200, 1_000)))
        .build();

    assert_eq!(
        settings,
        Ok(SolverSettings {
            criterias: vec![
                TerminationCriteria::MaxGeneration(100),
                TerminationCriteria::MaxTime(60),
                TerminationCriteria::CostVariation { sample: 200, threshold: 1_000 },
            ],
            quota: Some(60),
        })
    );
    assert_eq!(
        Builder::new().with_cost_variation(Some((5, 10))).build(),
        Ok(SolverSettings {
            criterias: vec![TerminationCriteria::CostVariation { sample: 5, threshold: 10 }],
            quota: None,
        })
    );
    assert_eq!(Builder::new().with_max_time(Some(7)).with_max_time(None).build().map(|s| s.criterias.len()), Ok(2));
    assert_eq!(create_time_quota(9), 9);
}
