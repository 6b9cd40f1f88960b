use scanner_core::scheduling::{
    plan_stages, resolve_dependencies, same_text, schedule, ScheduleError, Scheduler,
};

fn names(v: &[&str]) -> Vec<String> {
    v.iter().map(|x| x.to_string()).collect()
}

fn deps(v: &[&[&str]]) -> Vec<Vec<String>> {
    v.iter().map(|d| names(d)).collect()
}

#[test]
fn chain_gives_one_stage_per_vt() {
    let plan = plan_stages(vec![vec![], vec![0], vec![1]]).unwrap();
    assert_eq!(plan.stages, vec![vec![0], vec![1], vec![2]]);
    assert_eq!(plan.levels, vec![0, 1, 2]);
}

#[test]
fn independent_vts_share_the_earliest_stage() {
    let plan = plan_stages(vec![vec![3], vec![], vec![1, 3], vec![], vec![2]]).unwrap();
    assert_eq!(plan.stages, vec![vec![1, 3], vec![0, 2], vec![4]]);
    assert_eq!(plan.levels, vec![1, 0, 1, 0, 2]);
}

#[test]
fn each_vt_once_and_dependencies_first() {
    let d = vec![vec![1, 2], vec![2], vec![], vec![0, 2], vec![]];
    let plan = plan_stages(d.clone()).unwrap();
    let mut seen: Vec<usize> = plan.stages.iter().flatten().copied().collect();
    seen.sort();
    assert_eq!(seen, vec![0, 1, 2, 3, 4]);
    for (s, stage) in plan.stages.iter().enumerate() {
        for &v in stage {
            for &dep in &d[v] {
                assert!(plan.levels[dep] < s);
            }
        }
    }
}

#[test]
fn scheduling_twice_gives_the_same_plan() {
    let d = vec![vec![1, 2], vec![2], vec![], vec![0, 2], vec![]];
    let a = plan_stages(d.clone()).unwrap();
    let b = plan_stages(d.clone()).unwrap();
    assert_eq!(a.stages, b.stages);
    assert_eq!(a.levels, b.levels);
}

#[test]
fn empty_scan_has_no_stages() {
    let plan = plan_stages(vec![]).unwrap();
    assert!(plan.stages.is_empty());
}

#[test]
fn cycle_is_refused() {
    assert_eq!(plan_stages(vec![vec![], vec![2], vec![1]]).err(), Some(ScheduleError::Cycle));
    assert_eq!(plan_stages(vec![vec![0]]).err(), Some(ScheduleError::Cycle));
}

#[test]
fn dependency_out_of_range_is_refused() {
    assert_eq!(
        plan_stages(vec![vec![], vec![0, 7]]).err(),
        Some(ScheduleError::UnknownDependency { vt: 1, dependency: 1 })
    );
}

#[test]
fn names_resolve_to_first_match() {
    let r = resolve_dependencies(&names(&["a.nasl", "b.nasl", "a.nasl"]), &deps(&[&[], &["a.nasl"], &["b.nasl", "a.nasl"]]))
        .unwrap();
    assert_eq!(r, vec![vec![], vec![0], vec![1, 0]]);
}

#[test]
fn unknown_name_is_refused() {
    assert_eq!(
        schedule(&names(&["a.nasl", "b.nasl"]), &deps(&[&[], &["a.nasl", "c.nasl"]])).err(),
        Some(ScheduleError::UnknownDependency { vt: 1, dependency: 1 })
    );
}

#[test]
fn schedule_by_name() {
    let plan = schedule(&names(&["2.nasl", "0.nasl", "1.nasl"]), &deps(&[&["1.nasl"], &[], &["0.nasl"]])).unwrap();
    assert_eq!(plan.stages, vec![vec![1], vec![2], vec![0]]);
}

#[test]
fn text_comparison() {
    assert!(same_text("key/exists", "key/exists"));
    assert!(!same_text("key/exists", "key/exist"));
    assert!(!same_text("abc", "abd"));
    assert!(same_text("", ""));
}

#[test]
fn scheduler_hands_out_stages_one_at_a_time() {
    let mut s = Scheduler::new(vec![vec![], vec![0], vec![]]).unwrap();
    assert_eq!(s.next_stage(), Some(Ok(vec![0, 2])));
    assert_eq!(s.next_stage(), Some(Ok(vec![1])));
    assert_eq!(s.next_stage(), None);
    assert_eq!(s.levels, vec![0, 1, 0]);
}

#[test]
fn scheduler_reports_cycle_after_free_stages() {
    let mut s = Scheduler::new(vec![vec![], vec![2], vec![1, 0]]).unwrap();
    assert_eq!(s.next_stage(), Some(Ok(vec![0])));
    assert_eq!(s.next_stage(), Some(Err(ScheduleError::Cycle)));
    assert_eq!(s.next_stage(), Some(Err(ScheduleError::Cycle)));
}

#[test]
fn scheduler_refuses_unknown_index() {
    assert_eq!(
        Scheduler::new(vec![vec![5]]).err(),
        Some(ScheduleError::UnknownDependency { vt: 0, dependency: 0 })
    );
}
