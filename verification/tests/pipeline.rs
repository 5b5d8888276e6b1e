use divan::driver::{
    build_ignoring_line, build_list_line, build_running_line, dedup_entries, execution_plan,
    filter_entries, order_entries, overall_failed, run_pipeline, should_run_unit, unit_key_lt,
    Action, IgnoreMode,
};
use divan::entry::{BenchEntry, EntryLocation, EntryMeta, RunUnit};
use divan::registry::Registry;

fn unit(id: u64, name: &str, file: &str, line: u64, ignored: bool) -> RunUnit {
    RunUnit {
        id,
        display_name: name.as_bytes().to_vec(),
        file: file.as_bytes().to_vec(),
        line,
        ignored,
    }
}

fn names(units: &[RunUnit]) -> Vec<String> {
    units.iter().map(|u| String::from_utf8(u.display_name.clone()).unwrap()).collect()
}

#[test]
fn order_sorts_by_name_then_file_then_line() {
    let a = unit(1, "add", "f1", 5, false);
    let b = unit(2, "add", "f2", 3, false);
    let c = unit(3, "sub", "f1", 1, false);
    let sorted = order_entries(vec![c, b, a]);
    assert_eq!(names(&sorted), vec!["add", "add", "sub"]);
    assert_eq!(sorted[0].file, b"f1".to_vec());
    assert_eq!(sorted[1].file, b"f2".to_vec());
    assert_eq!(sorted[2].id, 3);
}

#[test]
fn order_breaks_file_ties_by_line() {
    let a = unit(1, "add", "f1", 9, false);
    let b = unit(2, "add", "f1", 2, false);
    let sorted = order_entries(vec![a, b]);
    assert_eq!(sorted[0].line, 2);
    assert_eq!(sorted[1].line, 9);
}

#[test]
fn key_order_is_lexicographic_on_bytes() {
    let a = unit(1, "ab", "f", 1, false);
    let b = unit(2, "abc", "f", 1, false);
    assert!(unit_key_lt(&a, &b));
    assert!(!unit_key_lt(&b, &a));
    let c = unit(3, "abc", "e", 1, false);
    assert!(unit_key_lt(&c, &b));
}

#[test]
fn dedup_collapses_adjacent_same_identity() {
    let a1 = unit(7, "add", "f1", 5, false);
    let a2 = unit(7, "add", "f1", 5, false);
    let b = unit(8, "sub", "f2", 1, false);
    let sorted = order_entries(vec![a1, b, a2]);
    let unique = dedup_entries(sorted);
    assert_eq!(unique.len(), 2);
    assert_eq!(unique[0].id, 7);
    assert_eq!(unique[1].id, 8);
}

#[test]
fn dedup_keeps_distinct_identities() {
    let a = unit(1, "add", "f1", 5, false);
    let b = unit(2, "add", "f1", 5, false);
    let unique = dedup_entries(vec![a, b]);
    assert_eq!(unique.len(), 2);
}

#[test]
fn filter_keeps_matching_names() {
    let a = unit(1, "push_front", "f", 1, false);
    let b = unit(2, "push_back", "f", 2, false);
    let c = unit(3, "pop", "f", 3, false);
    let kept = filter_entries(vec![a, b, c], &Some(b"push".to_vec()));
    assert_eq!(names(&kept), vec!["push_front", "push_back"]);
}

#[test]
fn filter_matching_nothing_is_empty_not_an_error() {
    let a = unit(1, "add", "f", 1, false);
    let kept = filter_entries(vec![a], &Some(b"zzz".to_vec()));
    assert!(kept.is_empty());
}

#[test]
fn filter_without_pattern_keeps_everything() {
    let a = unit(1, "add", "f", 1, false);
    let b = unit(2, "sub", "f", 2, false);
    let kept = filter_entries(vec![a, b], &None);
    assert_eq!(kept.len(), 2);
}

#[test]
fn ignored_entry_is_reported_not_dropped() {
    let d = unit(4, "slow_case", "f9", 12, true);
    let steps = execution_plan(&vec![d], Action::Run, IgnoreMode::SkipIgnored);
    assert_eq!(steps.len(), 1);
    assert_eq!(steps[0].output, b"Ignoring 'slow_case'".to_vec());
    assert!(steps[0].invoke.is_none());
}

#[test]
fn running_entry_is_announced_and_invoked() {
    let a = unit(5, "fast_case", "f1", 2, false);
    let steps = execution_plan(&vec![a], Action::Run, IgnoreMode::SkipIgnored);
    assert_eq!(steps[0].output, b"Running 'fast_case'".to_vec());
    assert_eq!(steps[0].invoke, Some(5));
}

#[test]
fn only_ignored_mode_flips_the_selection() {
    assert!(!should_run_unit(IgnoreMode::OnlyIgnored, false));
    assert!(should_run_unit(IgnoreMode::OnlyIgnored, true));
    assert!(should_run_unit(IgnoreMode::RunAll, true));
    assert!(should_run_unit(IgnoreMode::RunAll, false));
    assert!(should_run_unit(IgnoreMode::SkipIgnored, false));
    assert!(!should_run_unit(IgnoreMode::SkipIgnored, true));
}

#[test]
fn list_mode_prints_location_without_invoking() {
    let a = unit(6, "add", "f1", 5, false);
    let steps = execution_plan(&vec![a], Action::List, IgnoreMode::SkipIgnored);
    assert_eq!(steps[0].output, b"f1 - add (line 5): bench".to_vec());
    assert!(steps[0].invoke.is_none());
}

#[test]
fn line_builders_render_exactly() {
    assert_eq!(build_running_line(&b"x".to_vec()), b"Running 'x'".to_vec());
    assert_eq!(build_ignoring_line(&b"x".to_vec()), b"Ignoring 'x'".to_vec());
    let u = unit(1, "bench_name", "src/lib.rs", 120, false);
    assert_eq!(build_list_line(&u), b"src/lib.rs - bench_name (line 120): bench".to_vec());
}

#[test]
fn validate_mode_invokes_each_survivor_once() {
    let a = unit(1, "add", "f1", 5, false);
    let b = unit(2, "sub", "f1", 6, false);
    let steps = execution_plan(&vec![a, b], Action::Validate, IgnoreMode::SkipIgnored);
    assert_eq!(steps.len(), 2);
    assert_eq!(steps[0].invoke, Some(1));
    assert_eq!(steps[1].invoke, Some(2));
}

#[test]
fn overall_failure_aggregates_per_entry_results() {
    assert!(!overall_failed(&vec![]));
    assert!(!overall_failed(&vec![false, false]));
    assert!(overall_failed(&vec![false, true, false]));
}

#[test]
fn full_pipeline_on_a_registry() {
    let mut reg = Registry::new();
    let meta = |name: &str, file: &str, line: u64, ignored: bool| {
        EntryMeta::new(
            name.as_bytes().to_vec(),
            name.as_bytes().to_vec(),
            b"bench_mod".to_vec(),
            EntryLocation { file: file.as_bytes().to_vec(), line, col: 1 },
            ignored,
        )
    };
    reg.register_bench(BenchEntry { meta: meta("sub", "f1", 1, false), id: 3 });
    reg.register_bench(BenchEntry { meta: meta("add", "f1", 5, false), id: 1 });
    reg.register_bench(BenchEntry { meta: meta("add", "f2", 3, false), id: 2 });
    // The same entry reaches the registry twice through a second
    // discovery path.
    reg.register_bench(BenchEntry { meta: meta("add", "f1", 5, false), id: 1 });
    let p = run_pipeline(&reg, &None, Action::List, IgnoreMode::SkipIgnored);
    assert_eq!(names(&p.survivors), vec!["add", "add", "sub"]);
    assert_eq!(p.survivors.len(), 3);
    let outputs: Vec<Vec<u8>> = p.steps.iter().map(|s| s.output.clone()).collect();
    assert_eq!(outputs[0], b"f1 - add (line 5): bench".to_vec());
    assert_eq!(outputs[1], b"f2 - add (line 3): bench".to_vec());
    assert_eq!(outputs[2], b"f1 - sub (line 1): bench".to_vec());
}
