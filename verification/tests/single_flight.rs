use querier::single_flight::{receive, Next, Role, SingleFlight};

#[test]
fn one_caller_leads_and_the_others_follow() {
    let mut sf = SingleFlight::new();
    let mut log = Vec::new();
    assert_eq!(sf.run("k", &mut log), Role::Leader);
    assert!(log.is_empty());
    for n in 1..=4u64 {
        assert_eq!(sf.run("k", &mut log), Role::Follower);
        assert_eq!(sf.waiters("k"), n);
    }
    assert_eq!(log.len(), 4);
    assert!(log[0].labels.iter().any(|(k, v)| *k == "result" && v == "coalesced"));
    sf.finish("k");
    assert_eq!(sf.waiters("k"), 0, "in-flight entry removed on completion");
    assert_eq!(sf.run("k", &mut log), Role::Leader, "the next call executes again");
}

#[test]
fn distinct_keys_lead_side_by_side() {
    let mut sf = SingleFlight::new();
    let mut log = Vec::new();
    assert_eq!(sf.run("a", &mut log), Role::Leader);
    assert_eq!(sf.run("b", &mut log), Role::Leader);
    sf.finish("b");
    assert_eq!(sf.run("a", &mut log), Role::Follower);
}

#[test]
fn followers_share_the_outcome_or_execute() {
    match receive::<u32>(Some(Ok(7))) {
        Next::Answer(Ok(7)) => {}
        other => panic!("{other:?}"),
    }
    match receive::<u32>(Some(Err("boom".to_string()))) {
        Next::Answer(Err(m)) => assert_eq!(m, "boom"),
        other => panic!("{other:?}"),
    }
    assert!(matches!(receive::<u32>(None), Next::Execute));
}
