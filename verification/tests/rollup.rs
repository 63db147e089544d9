use querier::classify::AggKind;
use querier::rollup::{
    is_rollup_eligible, needs_rollup, rollup_due, rollup_file, rollup_is_current, rollup_outcome,
    rollup_plan, select_tier, RollupOutcome, RollupTier, ScalarSource, D1_NS, H1_NS, M5_NS,
};

#[test]
fn test_select_tier_by_range_and_step() {
    let all = RollupTier::all();
    assert_eq!(select_tier(H1_NS, &all), RollupTier::H1);
    assert_eq!(select_tier(2 * H1_NS, &all), RollupTier::H1);
    assert_eq!(select_tier(D1_NS, &all), RollupTier::D1);
    assert_eq!(select_tier(M5_NS, &all), RollupTier::M5);
}

#[test]
fn test_missing_tier_falls_back_to_raw() {
    assert_eq!(select_tier(60_000_000_000, &RollupTier::all()), RollupTier::Raw);
    assert_eq!(select_tier(H1_NS, &[]), RollupTier::Raw);
    assert_eq!(select_tier(60_000_000_000, &[RollupTier::M5]), RollupTier::Raw);
    assert!(is_rollup_eligible("metrics") && !is_rollup_eligible("logs"));
}

#[test]
fn tiers_have_their_widths_and_labels() {
    assert_eq!(RollupTier::M5.resolution_ns(), M5_NS);
    assert_eq!(RollupTier::H1.resolution_ns(), H1_NS);
    assert_eq!(RollupTier::D1.resolution_ns(), D1_NS);
    assert_eq!(RollupTier::M5.label(), "5m");
    assert_eq!(RollupTier::H1.label(), "1h");
    assert_eq!(RollupTier::D1.label(), "1d");
    assert_eq!(rollup_file(RollupTier::M5), "rollup-5m.parquet");
}

#[test]
fn coarser_steps_select_coarser_tiers() {
    let all = RollupTier::all();
    let mut last = select_tier(0, &all).resolution_ns();
    for step in [1, M5_NS, M5_NS + 1, H1_NS, D1_NS, 10 * D1_NS] {
        let next = select_tier(step, &all).resolution_ns();
        assert!(next >= last && next <= step);
        last = next;
    }
}

#[test]
fn a_current_rollup_is_not_written_again() {
    assert!(rollup_is_current(Some(10), &vec![1, 5, 10]));
    assert!(!rollup_is_current(Some(4), &vec![1, 5]));
    assert!(!rollup_is_current(None, &vec![1]));
    assert_eq!(rollup_due(Some(4), &vec![5], RollupTier::M5), Some(M5_NS));
    assert_eq!(rollup_due(Some(9), &vec![5], RollupTier::M5), None);
    assert_eq!(rollup_due(Some(4), &vec![], RollupTier::M5), None);
}

#[test]
fn empty_rollups_are_discarded() {
    assert!(!needs_rollup(0, M5_NS));
    assert!(!needs_rollup(3, 0));
    assert!(needs_rollup(1, M5_NS));
    assert!(matches!(rollup_outcome(0), RollupOutcome::Discard));
    assert!(matches!(rollup_outcome(7), RollupOutcome::Publish { rows: 7, .. }));
}

#[test]
fn plans_take_the_scalar_from_what_is_stored() {
    let columns = |names: &[&str]| names.iter().map(|n| n.to_string()).collect::<Vec<String>>();
    let p = rollup_plan(&columns(&["name", "time_unix_nano", "double_value"]), M5_NS);
    assert_eq!(p.resolution_ns, M5_NS);
    assert_eq!(p.last_by, "time_unix_nano");
    let aggregates: Vec<(&str, AggKind)> =
        p.aggregates.iter().map(|(n, k)| (n.as_str(), *k)).collect();
    assert_eq!(
        aggregates,
        vec![
            ("value_min", AggKind::Min),
            ("value_max", AggKind::Max),
            ("value_sum", AggKind::Sum),
            ("value_count", AggKind::Count),
        ]
    );
    assert_eq!(p.scalar, ScalarSource::Double);
    let p = rollup_plan(&columns(&["name", "time_unix_nano", "double_value", "int_value"]), M5_NS);
    assert_eq!(p.scalar, ScalarSource::DoubleOrInt);
    let p = rollup_plan(&columns(&["name", "time_unix_nano"]), M5_NS);
    assert_eq!(p.scalar, ScalarSource::Null);
}
